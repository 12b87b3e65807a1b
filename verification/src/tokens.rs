//! Collecting colour variables per CSS selector and printing them as SCSS and JSON.
use vstd::prelude::*;
use vstd::string::StringExecFns;
use crate::strmap::{
    insert_entry, keys_sorted, lemma_insert_keeps_others, lemma_insert_then_lookup,
    lemma_key_position_unique, lookup, str_eq_exec, str_less, StrMap,
};
use crate::text::{
    decimal, decimal_value, lemma_decimal_reads_back, lower_text, opt_text, push_decimal, texts,
    to_lowercase,
};

verus! {

/// The variables of one CSS selector block.
pub struct SelectorBlock {
    /// Prefix of this block's keys in the JSON output.
    pub json_prefix: String,
    /// Neutral-scale variables, `(name, value)`, in order.
    pub neutral_vars: Vec<(String, String)>,
    /// Accent variables, `(name, value)`, in order.
    pub accent_vars: Vec<(String, String)>,
}

/// The content of a [`SelectorBlock`].
pub struct BlockView {
    pub json_prefix: Seq<char>,
    pub neutral_vars: Seq<(Seq<char>, Seq<char>)>,
    pub accent_vars: Seq<(Seq<char>, Seq<char>)>,
}

/// The text of each name and value.
pub open spec fn vars_view(v: Seq<(String, String)>) -> Seq<(Seq<char>, Seq<char>)> {
    v.map_values(|p: (String, String)| (p.0@, p.1@))
}

impl View for SelectorBlock {
    type V = BlockView;

    open spec fn view(&self) -> BlockView {
        BlockView {
            json_prefix: self.json_prefix@,
            neutral_vars: vars_view(self.neutral_vars@),
            accent_vars: vars_view(self.accent_vars@),
        }
    }
}

/// The blocks of one run, by selector.
pub type Blocks = StrMap<SelectorBlock>;

/// An empty block with the given JSON prefix.
pub open spec fn empty_block(json_prefix: Seq<char>) -> BlockView {
    BlockView { json_prefix, neutral_vars: Seq::empty(), accent_vars: Seq::empty() }
}

/// The block under `selector`, or a new empty one with `json_prefix`.
pub open spec fn block_or_new(
    blocks: Seq<(Seq<char>, BlockView)>,
    selector: Seq<char>,
    json_prefix: Seq<char>,
) -> BlockView {
    match lookup(blocks, selector) {
        Some(b) => b,
        None => empty_block(json_prefix),
    }
}

/// `--<primitive>-<i>`.
pub open spec fn neutral_var_name(primitive: Seq<char>, i: nat) -> Seq<char> {
    "--"@ + primitive + "-"@ + decimal(i)
}

/// One variable per step of the scale: `--<primitive>-<i>` with the step in lower case.
pub open spec fn scale_vars(primitive: Seq<char>, scale: Seq<Seq<char>>) -> Seq<(Seq<char>, Seq<char>)> {
    Seq::new(scale.len(), |i: int| (neutral_var_name(primitive, i as nat), lower_text(scale[i])))
}

/// A scale gives one variable per step, in step order: step `i` is named
/// `--<primitive>-` followed by the decimal numeral of `i` (so the steps are
/// numbered from 0 up), and its value is the step's colour in lower case.
pub proof fn lemma_scale_vars_steps(primitive: Seq<char>, scale: Seq<Seq<char>>, i: int)
    requires
        0 <= i < scale.len(),
    ensures
        scale_vars(primitive, scale).len() == scale.len(),
        ({
            let v = scale_vars(primitive, scale)[i];
            let digits = v.0.skip(primitive.len() + 3int);
            &&& v.0.take(primitive.len() + 3int) == "--"@ + primitive + "-"@
            &&& decimal_value(digits) == i
            &&& forall|j: int| 0 <= j < digits.len() ==> '0' <= #[trigger] digits[j] && digits[j] <= '9'
            &&& v.1 == lower_text(scale[i])
        }),
{
    reveal_strlit("--");
    reveal_strlit("-");
    let v = scale_vars(primitive, scale)[i];
    let head = "--"@ + primitive + "-"@;
    assert(head.len() == primitive.len() + 3int);
    assert(v.0 == head + decimal(i as nat));
    assert(v.0.take(primitive.len() + 3int) =~= head);
    assert(v.0.skip(primitive.len() + 3int) =~= decimal(i as nat));
    lemma_decimal_reads_back(i as nat);
}

/// The blocks after the variables of a scale are added under `selector`.
pub open spec fn push_neutral_vars_spec(
    blocks: Seq<(Seq<char>, BlockView)>,
    selector: Seq<char>,
    json_prefix: Seq<char>,
    primitive: Seq<char>,
    scale: Seq<Seq<char>>,
) -> Seq<(Seq<char>, BlockView)> {
    let b = block_or_new(blocks, selector, json_prefix);
    insert_entry(
        blocks,
        selector,
        BlockView { neutral_vars: b.neutral_vars + scale_vars(primitive, scale), ..b },
    )
}

/// Adding a scale's variables changes only the block of its selector: that block
/// (new, with the given prefix, if it was missing) gains the scale's variables
/// after the ones it had, and every other selector reads as before.
pub proof fn lemma_push_neutral_vars_effect(
    blocks: Seq<(Seq<char>, BlockView)>,
    selector: Seq<char>,
    json_prefix: Seq<char>,
    primitive: Seq<char>,
    scale: Seq<Seq<char>>,
    other: Seq<char>,
)
    requires
        keys_sorted(blocks),
    ensures
        keys_sorted(push_neutral_vars_spec(blocks, selector, json_prefix, primitive, scale)),
        lookup(push_neutral_vars_spec(blocks, selector, json_prefix, primitive, scale), selector)
            == Some(
            BlockView {
                neutral_vars: block_or_new(blocks, selector, json_prefix).neutral_vars + scale_vars(
                    primitive,
                    scale,
                ),
                ..block_or_new(blocks, selector, json_prefix)
            },
        ),
        other != selector ==> lookup(
            push_neutral_vars_spec(blocks, selector, json_prefix, primitive, scale),
            other,
        ) == lookup(blocks, other),
        scale_vars(primitive, scale).len() == scale.len(),
{
    let b = block_or_new(blocks, selector, json_prefix);
    let nb = BlockView { neutral_vars: b.neutral_vars + scale_vars(primitive, scale), ..b };
    lemma_insert_then_lookup(blocks, selector, nb);
    if other != selector {
        lemma_insert_keeps_others(blocks, selector, nb, other);
    }
}

fn new_block(json_prefix: &str) -> (b: SelectorBlock)
    ensures
        b@ == empty_block(json_prefix@),
{
    let b = SelectorBlock {
        json_prefix: String::from_str(json_prefix),
        neutral_vars: Vec::new(),
        accent_vars: Vec::new(),
    };
    assert(b@.neutral_vars =~= Seq::<(Seq<char>, Seq<char>)>::empty());
    assert(b@.accent_vars =~= Seq::<(Seq<char>, Seq<char>)>::empty());
    b
}

/// Appends `--<primitive>-<i>: <step i in lower case>` for every step of the scale.
fn append_scale_vars(block: &mut SelectorBlock, primitive_name: &str, scale: &[String])
    ensures
        final(block)@ == (BlockView {
            neutral_vars: old(block)@.neutral_vars + scale_vars(primitive_name@, texts(scale@)),
            ..old(block)@
        }),
{
    let ghost start = block@;
    let ghost all = scale_vars(primitive_name@, texts(scale@));
    let n = scale.len();
    let mut i: usize = 0;
    while i < n
        invariant
            n == scale@.len(),
            all == scale_vars(primitive_name@, texts(scale@)),
            i <= n,
            block@.json_prefix == start.json_prefix,
            block@.accent_vars == start.accent_vars,
            block@.neutral_vars == start.neutral_vars + all.take(i as int),
        decreases n - i,
    {
        let mut name = String::from_str("--");
        name.append(primitive_name);
        name.append("-");
        push_decimal(&mut name, i);
        let value = to_lowercase(scale[i].as_str());
        proof {
            reveal_strlit("--");
            reveal_strlit("-");
            assert(name@ =~= neutral_var_name(primitive_name@, i as nat));
            assert(all[i as int] == (name@, value@));
        }
        let ghost before = block.neutral_vars@;
        let ghost pair = (name@, value@);
        block.neutral_vars.push((name, value));
        proof {
            assert(vars_view(block.neutral_vars@) =~= vars_view(before).push(pair));
            assert(all.take(i + 1) =~= all.take(i as int).push(all[i as int]));
            assert(block@.neutral_vars =~= start.neutral_vars + all.take(i + 1));
        }
        i = i + 1;
    }
    assert(all.take(n as int) =~= all);
}

/// Adds one variable per step of `scale` to the block of `selector`, creating
/// the block with `json_prefix` if there is none yet. Step `i` becomes
/// `--<primitive_name>-<i>`, its value the step in lower case.
pub fn push_neutral_vars(
    blocks: &mut Blocks,
    selector: &str,
    json_prefix: &str,
    primitive_name: &str,
    scale: &[String],
)
    requires
        old(blocks).wf(),
    ensures
        final(blocks).wf(),
        final(blocks)@ == push_neutral_vars_spec(
            old(blocks)@,
            selector@,
            json_prefix@,
            primitive_name@,
            texts(scale@),
        ),
{
    let ghost old_view = blocks@;
    match blocks.find(selector) {
        Ok(i) => {
            proof {
                lemma_key_position_unique(old_view, selector@, i as int);
            }
            let mut block = blocks.replace_value_at(i, new_block(json_prefix));
            append_scale_vars(&mut block, primitive_name, scale);
            blocks.replace_value_at(i, block);
            assert(blocks@ =~= push_neutral_vars_spec(
                old_view,
                selector@,
                json_prefix@,
                primitive_name@,
                texts(scale@),
            ));
        },
        Err(_) => {
            let mut block = new_block(json_prefix);
            append_scale_vars(&mut block, primitive_name, scale);
            blocks.insert(String::from_str(selector), block);
        },
    }
}

/// `serde_json::Error`, carried through as the cause of a failed JSON print.
#[verifier::external_type_specification]
#[verifier::external_body]
pub struct ExJsonError(serde_json::Error);

/// Why generating the tokens failed.
#[derive(Debug)]
pub enum GenerateError {
    /// A neutral scale could not be built; `name` names the scale.
    NeutralScale { name: String, source: String },
    /// An accent colour could not be resolved for a theme.
    AccentResolve { name: String, source: String },
    /// The JSON token map could not be printed.
    JsonSerialize(serde_json::Error),
}

/// `Display` of `serde_json::Error`: the error's own description. Nothing is
/// stated of the text.
#[verifier::external_body]
fn json_error_text(e: &serde_json::Error) -> (s: String) {
    e.to_string()
}

impl GenerateError {
    /// The message printed for this error: `error generating scale '<name>': <why>`,
    /// `error resolving accent '<name>': <why>`, or `JSON serialization error: `
    /// followed by the printer's description.
    pub fn message(&self) -> (m: String)
        ensures
            match self {
                GenerateError::NeutralScale { name, source } => m@ == "error generating scale '"@
                    + name@ + "': "@ + source@,
                GenerateError::AccentResolve { name, source } => m@ == "error resolving accent '"@
                    + name@ + "': "@ + source@,
                GenerateError::JsonSerialize(_) => exists|t: Seq<char>|
                    m@ == "JSON serialization error: "@ + t,
            },
    {
        match self {
            GenerateError::NeutralScale { name, source } => {
                let mut m = String::from_str("error generating scale '");
                m.append(name.as_str());
                m.append("': ");
                m.append(source.as_str());
                m
            },
            GenerateError::AccentResolve { name, source } => {
                let mut m = String::from_str("error resolving accent '");
                m.append(name.as_str());
                m.append("': ");
                m.append(source.as_str());
                m
            },
            GenerateError::JsonSerialize(e) => {
                let mut m = String::from_str("JSON serialization error: ");
                let t = json_error_text(e);
                m.append(t.as_str());
                assert(m@ == "JSON serialization error: "@ + t@);
                m
            },
        }
    }
}

/// Lower-case hexadecimal digit for a value below 16.
pub open spec fn lower_hex_char(d: nat) -> char {
    if d < 10 {
        (48 + d) as char
    } else {
        (87 + d) as char
    }
}

/// How one character is written inside a JSON string: `"` and `\` behind a
/// backslash, the control characters below U+0020 as `\b`, `\t`, `\n`, `\f`,
/// `\r` or `\u00xx`, every other character as itself.
pub open spec fn json_escape_char(c: char) -> Seq<char> {
    if c == '"' {
        seq!['\\', '"']
    } else if c == '\\' {
        seq!['\\', '\\']
    } else if c == '\u{8}' {
        seq!['\\', 'b']
    } else if c == '\t' {
        seq!['\\', 't']
    } else if c == '\n' {
        seq!['\\', 'n']
    } else if c == '\u{c}' {
        seq!['\\', 'f']
    } else if c == '\r' {
        seq!['\\', 'r']
    } else if (c as u32) < 32 {
        seq![
            '\\',
            'u',
            '0',
            '0',
            lower_hex_char(((c as u32) / 16) as nat),
            lower_hex_char(((c as u32) % 16) as nat),
        ]
    } else {
        seq![c]
    }
}

/// The escaped contents of a JSON string.
pub open spec fn json_escape(s: Seq<char>) -> Seq<char>
    decreases s.len(),
{
    if s.len() == 0 {
        Seq::empty()
    } else {
        json_escape(s.drop_last()) + json_escape_char(s.last())
    }
}

/// A JSON string literal.
pub open spec fn json_string(s: Seq<char>) -> Seq<char> {
    seq!['"'] + json_escape(s) + seq!['"']
}

/// The members of a pretty-printed JSON object, each on its own line, indented
/// by two spaces, separated by commas.
pub open spec fn json_members(e: Seq<(Seq<char>, Seq<char>)>) -> Seq<char>
    decreases e.len(),
{
    if e.len() == 0 {
        Seq::empty()
    } else {
        json_members(e.drop_last()) + (if e.len() == 1 {
            seq!['\n']
        } else {
            seq![',', '\n']
        }) + "  "@ + json_string(e.last().0) + ": "@ + json_string(e.last().1)
    }
}

/// The pretty-printed JSON object holding these string entries, in this order:
/// `{}` when there are none.
pub open spec fn pretty_json_text(e: Seq<(Seq<char>, Seq<char>)>) -> Seq<char> {
    if e.len() == 0 {
        "{}"@
    } else {
        seq!['{'] + json_members(e) + seq!['\n', '}']
    }
}

/// `serde_json::to_string_pretty` on the map holding `entries`. The entries come
/// in strictly increasing key order, the order in which the map keeps and
/// prints them, so the map holds them one for one, in this order. The output is
/// the pretty printer's: `{}` for no entries, otherwise `{`, one line per entry
/// (`,` between them) indented by two spaces, and a closing `}` on its own line;
/// strings are escaped by serde_json's table. The call succeeds: serde_json
/// fails only where a `Serialize` impl decides to or a map key is not a string,
/// and a map from `&str` to `&str` written into a `Vec` does neither.
#[verifier::external_body]
fn json_pretty(entries: &Vec<(String, String)>) -> (res: Result<String, serde_json::Error>)
    requires
        keys_sorted(vars_view(entries@)),
    ensures
        res is Ok,
        res matches Ok(text) ==> text@ == pretty_json_text(vars_view(entries@)),
{
    let map: std::collections::BTreeMap<&str, &str> = entries.iter().map(
        |e| (e.0.as_str(), e.1.as_str()),
    ).collect();
    serde_json::to_string_pretty(&map)
}

/// The selectors that are printed, in printing order.
pub open spec fn printed_selectors() -> Seq<Seq<char>> {
    seq![":root"@, ".dark"@, ".ic"@, ".dark.ic"@]
}

/// `  <name>: <value>;` lines, one per variable.
pub open spec fn var_lines(vars: Seq<(Seq<char>, Seq<char>)>) -> Seq<char>
    decreases vars.len(),
{
    if vars.len() == 0 {
        Seq::empty()
    } else {
        var_lines(vars.drop_last()) + "  "@ + vars.last().0 + ": "@ + vars.last().1 + ";\n"@
    }
}

/// The SCSS of one block: selector, neutral variables, accent variables.
pub open spec fn block_text(selector: Seq<char>, b: BlockView) -> Seq<char> {
    selector + " {\n"@ + var_lines(b.neutral_vars) + var_lines(b.accent_vars) + "}\n"@
}

/// The SCSS of the block under `selector`, if there is one.
pub open spec fn section_text(blocks: Seq<(Seq<char>, BlockView)>, selector: Seq<char>) -> Seq<char> {
    match lookup(blocks, selector) {
        Some(b) => block_text(selector, b),
        None => Seq::empty(),
    }
}

/// The whole SCSS output: the printed selectors in order, those without a block skipped.
pub open spec fn scss_text(blocks: Seq<(Seq<char>, BlockView)>) -> Seq<char> {
    section_text(blocks, ":root"@) + section_text(blocks, ".dark"@) + section_text(blocks, ".ic"@)
        + section_text(blocks, ".dark.ic"@)
}

/// Stores each variable under `<prefix><name>`, in order, later ones replacing earlier ones.
pub open spec fn insert_vars(
    m: Seq<(Seq<char>, Seq<char>)>,
    prefix: Seq<char>,
    vars: Seq<(Seq<char>, Seq<char>)>,
) -> Seq<(Seq<char>, Seq<char>)>
    decreases vars.len(),
{
    if vars.len() == 0 {
        m
    } else {
        insert_entry(insert_vars(m, prefix, vars.drop_last()), prefix + vars.last().0, vars.last().1)
    }
}

/// The JSON entries of the block under `selector`, added to `m`.
pub open spec fn add_block_entries(
    m: Seq<(Seq<char>, Seq<char>)>,
    blocks: Seq<(Seq<char>, BlockView)>,
    selector: Seq<char>,
) -> Seq<(Seq<char>, Seq<char>)> {
    match lookup(blocks, selector) {
        Some(b) => insert_vars(insert_vars(m, b.json_prefix, b.neutral_vars), b.json_prefix, b.accent_vars),
        None => m,
    }
}

/// The JSON token map: every variable of the printed blocks under its prefixed name.
pub open spec fn json_entries(blocks: Seq<(Seq<char>, BlockView)>) -> Seq<(Seq<char>, Seq<char>)> {
    add_block_entries(
        add_block_entries(
            add_block_entries(add_block_entries(Seq::empty(), blocks, ":root"@), blocks, ".dark"@),
            blocks,
            ".ic"@,
        ),
        blocks,
        ".dark.ic"@,
    )
}

/// Storing variables keeps the entries sorted and every key already stored.
proof fn lemma_insert_vars_keeps(
    m: Seq<(Seq<char>, Seq<char>)>,
    prefix: Seq<char>,
    vars: Seq<(Seq<char>, Seq<char>)>,
    k: Seq<char>,
)
    requires
        keys_sorted(m),
    ensures
        keys_sorted(insert_vars(m, prefix, vars)),
        lookup(m, k) is Some ==> lookup(insert_vars(m, prefix, vars), k) is Some,
    decreases vars.len(),
{
    if vars.len() > 0 {
        lemma_insert_vars_keeps(m, prefix, vars.drop_last(), k);
        let m1 = insert_vars(m, prefix, vars.drop_last());
        let key = prefix + vars.last().0;
        lemma_insert_then_lookup(m1, key, vars.last().1);
        if k != key {
            lemma_insert_keeps_others(m1, key, vars.last().1, k);
        }
    }
}

/// After storing variables, each of them has an entry under the prefix and its name.
proof fn lemma_insert_vars_holds(
    m: Seq<(Seq<char>, Seq<char>)>,
    prefix: Seq<char>,
    vars: Seq<(Seq<char>, Seq<char>)>,
    i: int,
)
    requires
        keys_sorted(m),
        0 <= i < vars.len(),
    ensures
        lookup(insert_vars(m, prefix, vars), prefix + vars[i].0) is Some,
    decreases vars.len(),
{
    let d = vars.drop_last();
    let m1 = insert_vars(m, prefix, d);
    let key = prefix + vars.last().0;
    lemma_insert_vars_keeps(m, prefix, d, key);
    lemma_insert_then_lookup(m1, key, vars.last().1);
    if i < vars.len() - 1 {
        lemma_insert_vars_holds(m, prefix, d, i);
        assert(d[i] == vars[i]);
        if prefix + vars[i].0 != key {
            lemma_insert_keeps_others(m1, key, vars.last().1, prefix + vars[i].0);
        }
    }
}

/// Adding a block's entries keeps the entries sorted and every key already stored.
proof fn lemma_add_block_entries_keeps(
    m: Seq<(Seq<char>, Seq<char>)>,
    blocks: Seq<(Seq<char>, BlockView)>,
    selector: Seq<char>,
    k: Seq<char>,
)
    requires
        keys_sorted(m),
    ensures
        keys_sorted(add_block_entries(m, blocks, selector)),
        lookup(m, k) is Some ==> lookup(add_block_entries(m, blocks, selector), k) is Some,
{
    if let Some(b) = lookup(blocks, selector) {
        lemma_insert_vars_keeps(m, b.json_prefix, b.neutral_vars, k);
        lemma_insert_vars_keeps(insert_vars(m, b.json_prefix, b.neutral_vars), b.json_prefix, b.accent_vars, k);
    }
}

/// Adding a block's entries stores each of its variables.
proof fn lemma_add_block_entries_holds(
    m: Seq<(Seq<char>, Seq<char>)>,
    blocks: Seq<(Seq<char>, BlockView)>,
    selector: Seq<char>,
    var: (Seq<char>, Seq<char>),
)
    requires
        keys_sorted(m),
        lookup(blocks, selector) matches Some(b) && (b.neutral_vars.contains(var) || b.accent_vars.contains(var)),
    ensures
        lookup(add_block_entries(m, blocks, selector), lookup(blocks, selector)->0.json_prefix + var.0) is Some,
{
    let b = lookup(blocks, selector)->0;
    let key = b.json_prefix + var.0;
    let m1 = insert_vars(m, b.json_prefix, b.neutral_vars);
    lemma_insert_vars_keeps(m, b.json_prefix, b.neutral_vars, key);
    if b.neutral_vars.contains(var) {
        let i = choose|i: int| 0 <= i < b.neutral_vars.len() && b.neutral_vars[i] == var;
        lemma_insert_vars_holds(m, b.json_prefix, b.neutral_vars, i);
        lemma_insert_vars_keeps(m1, b.json_prefix, b.accent_vars, key);
    } else {
        let i = choose|i: int| 0 <= i < b.accent_vars.len() && b.accent_vars[i] == var;
        lemma_insert_vars_holds(m1, b.json_prefix, b.accent_vars, i);
    }
}

/// Every variable that the SCSS prints has an entry in the JSON token map, under
/// its block's JSON prefix followed by its name.
pub proof fn lemma_printed_vars_in_json(
    blocks: Seq<(Seq<char>, BlockView)>,
    selector: Seq<char>,
    var: (Seq<char>, Seq<char>),
)
    requires
        printed_selectors().contains(selector),
        lookup(blocks, selector) matches Some(b) && (b.neutral_vars.contains(var) || b.accent_vars.contains(var)),
    ensures
        lookup(json_entries(blocks), lookup(blocks, selector)->0.json_prefix + var.0) is Some,
{
    let key = lookup(blocks, selector)->0.json_prefix + var.0;
    let m0 = Seq::<(Seq<char>, Seq<char>)>::empty();
    let m1 = add_block_entries(m0, blocks, ":root"@);
    let m2 = add_block_entries(m1, blocks, ".dark"@);
    let m3 = add_block_entries(m2, blocks, ".ic"@);
    let i = choose|i: int| 0 <= i < printed_selectors().len() && printed_selectors()[i] == selector;
    lemma_add_block_entries_keeps(m0, blocks, ":root"@, key);
    lemma_add_block_entries_keeps(m1, blocks, ".dark"@, key);
    lemma_add_block_entries_keeps(m2, blocks, ".ic"@, key);
    lemma_add_block_entries_keeps(m3, blocks, ".dark.ic"@, key);
    if i == 0 {
        lemma_add_block_entries_holds(m0, blocks, selector, var);
    } else if i == 1 {
        lemma_add_block_entries_holds(m1, blocks, selector, var);
    } else if i == 2 {
        lemma_add_block_entries_holds(m2, blocks, selector, var);
    } else {
        lemma_add_block_entries_holds(m3, blocks, selector, var);
    }
}

fn append_var_lines(scss: &mut String, vars: &Vec<(String, String)>)
    ensures
        final(scss)@ == old(scss)@ + var_lines(vars_view(vars@)),
{
    let ghost all = vars_view(vars@);
    let n = vars.len();
    let mut i: usize = 0;
    while i < n
        invariant
            n == vars@.len(),
            all == vars_view(vars@),
            i <= n,
            scss@ == old(scss)@ + var_lines(all.take(i as int)),
        decreases n - i,
    {
        let ghost before = scss@;
        scss.append("  ");
        scss.append(vars[i].0.as_str());
        scss.append(": ");
        scss.append(vars[i].1.as_str());
        scss.append(";\n");
        proof {
            assert(all.take(i + 1).drop_last() =~= all.take(i as int));
            assert(all.take(i + 1).last() == all[i as int]);
            assert(scss@ =~= old(scss)@ + var_lines(all.take(i + 1)));
        }
        i = i + 1;
    }
    assert(all.take(n as int) =~= all);
}

fn insert_var_entries(json: &mut StrMap<String>, prefix: &String, vars: &Vec<(String, String)>)
    requires
        old(json).wf(),
    ensures
        final(json).wf(),
        final(json)@ == insert_vars(old(json)@, prefix@, vars_view(vars@)),
{
    let ghost all = vars_view(vars@);
    let n = vars.len();
    let mut i: usize = 0;
    while i < n
        invariant
            n == vars@.len(),
            all == vars_view(vars@),
            i <= n,
            json.wf(),
            json@ == insert_vars(old(json)@, prefix@, all.take(i as int)),
        decreases n - i,
    {
        let mut key = prefix.clone();
        key.append(vars[i].0.as_str());
        let value = vars[i].1.clone();
        proof {
            assert(all.take(i + 1).drop_last() =~= all.take(i as int));
            assert(all.take(i + 1).last() == all[i as int]);
        }
        json.insert(key, value);
        i = i + 1;
    }
    assert(all.take(n as int) =~= all);
}

fn emit_block(blocks: &Blocks, selector: &str, scss: &mut String, json: &mut StrMap<String>)
    requires
        blocks.wf(),
        old(json).wf(),
    ensures
        final(scss)@ == old(scss)@ + section_text(blocks@, selector@),
        final(json).wf(),
        final(json)@ == add_block_entries(old(json)@, blocks@, selector@),
{
    match blocks.get(selector) {
        None => {
            assert(old(scss)@ + Seq::<char>::empty() =~= old(scss)@);
        },
        Some(block) => {
            scss.append(selector);
            scss.append(" {\n");
            append_var_lines(scss, &block.neutral_vars);
            append_var_lines(scss, &block.accent_vars);
            scss.append("}\n");
            assert(scss@ =~= old(scss)@ + section_text(blocks@, selector@));
            insert_var_entries(json, &block.json_prefix, &block.neutral_vars);
            insert_var_entries(json, &block.json_prefix, &block.accent_vars);
        },
    }
}

/// Prints the blocks as SCSS and as a JSON token map.
///
/// The SCSS holds the blocks of `:root`, `.dark`, `.ic` and `.dark.ic`, in this
/// order, each as `<selector> {` followed by one `  <name>: <value>;` line per
/// neutral and then per accent variable and a closing `}`; other selectors are
/// left out. The JSON maps `<json_prefix><name>` to the value for the same
/// variables, printed by `serde_json`, which does not fail on such a map.
pub fn emit_css_and_json(blocks: Blocks) -> (res: Result<(String, String), GenerateError>)
    requires
        blocks.wf(),
    ensures
        res matches Ok((scss, json)) && scss@ == scss_text(blocks@) && json@ == pretty_json_text(
            json_entries(blocks@),
        ),
{
    let mut scss = String::new();
    let mut json: StrMap<String> = StrMap::new();
    emit_block(&blocks, ":root", &mut scss, &mut json);
    emit_block(&blocks, ".dark", &mut scss, &mut json);
    emit_block(&blocks, ".ic", &mut scss, &mut json);
    emit_block(&blocks, ".dark.ic", &mut scss, &mut json);
    assert(scss@ =~= scss_text(blocks@));
    let text = match json_pretty(json.as_vec()) {
        Ok(t) => t,
        Err(e) => return Err(GenerateError::JsonSerialize(e)),
    };
    Ok((scss, text))
}

/// The four themes a selector block can stand for.
#[derive(PartialEq, Eq, Structural, Clone, Copy, Debug)]
pub enum Theme {
    Light,
    Dark,
    LightIc,
    DarkIc,
}

/// The theme of a selector: `:root`, `.dark`, `.ic`, `.dark.ic`; other selectors have none.
pub open spec fn selector_theme_spec(selector: Seq<char>) -> Option<Theme> {
    if selector == ":root"@ {
        Some(Theme::Light)
    } else if selector == ".dark"@ {
        Some(Theme::Dark)
    } else if selector == ".ic"@ {
        Some(Theme::LightIc)
    } else if selector == ".dark.ic"@ {
        Some(Theme::DarkIc)
    } else {
        None
    }
}

/// The theme that a selector block stands for.
pub fn selector_theme(selector: &str) -> (t: Option<Theme>)
    ensures
        t == selector_theme_spec(selector@),
{
    if str_eq_exec(selector, ":root") {
        Some(Theme::Light)
    } else if str_eq_exec(selector, ".dark") {
        Some(Theme::Dark)
    } else if str_eq_exec(selector, ".ic") {
        Some(Theme::LightIc)
    } else if str_eq_exec(selector, ".dark.ic") {
        Some(Theme::DarkIc)
    } else {
        None
    }
}

impl Theme {
    /// Dark mode: light colours on a dark background.
    pub fn is_dark(self) -> (b: bool)
        ensures
            b == (self == Theme::Dark || self == Theme::DarkIc),
    {
        match self {
            Theme::Dark | Theme::DarkIc => true,
            _ => false,
        }
    }

    /// Increased contrast.
    pub fn is_ic(self) -> (b: bool)
        ensures
            b == (self == Theme::LightIc || self == Theme::DarkIc),
    {
        match self {
            Theme::LightIc | Theme::DarkIc => true,
            _ => false,
        }
    }
}

/// The background of a theme: the light or dark anchor, or the increased-contrast
/// one where there is one.
pub open spec fn theme_background_spec(
    t: Theme,
    anchors: (Seq<char>, Seq<char>, Option<Seq<char>>, Option<Seq<char>>),
) -> Seq<char> {
    match t {
        Theme::Light => anchors.0,
        Theme::Dark => anchors.1,
        Theme::LightIc => match anchors.2 {
            Some(b) => b,
            None => anchors.0,
        },
        Theme::DarkIc => match anchors.3 {
            Some(b) => b,
            None => anchors.1,
        },
    }
}

/// The background a theme's accent is measured against, from the anchors of
/// `resolve_bg_anchors`.
pub fn theme_background(
    t: Theme,
    anchors: &(String, String, Option<String>, Option<String>),
) -> (bg: String)
    ensures
        bg@ == theme_background_spec(
            t,
            (anchors.0@, anchors.1@, opt_text(anchors.2), opt_text(anchors.3)),
        ),
{
    match t {
        Theme::Light => anchors.0.clone(),
        Theme::Dark => anchors.1.clone(),
        Theme::LightIc => match &anchors.2 {
            Some(b) => b.clone(),
            None => anchors.0.clone(),
        },
        Theme::DarkIc => match &anchors.3 {
            Some(b) => b.clone(),
            None => anchors.1.clone(),
        },
    }
}

/// The text of a result of strings.
pub open spec fn result_view(r: Result<String, String>) -> Result<Seq<char>, Seq<char>> {
    match r {
        Ok(s) => Ok(s@),
        Err(e) => Err(e@),
    }
}

/// An accent and the colour it resolves to in each theme (or why it does not).
pub struct ResolvedAccent {
    pub name: String,
    pub light: Result<String, String>,
    pub dark: Result<String, String>,
    pub light_ic: Result<String, String>,
    pub dark_ic: Result<String, String>,
}

/// The text of a resolved accent.
pub struct ResolvedAccentView {
    pub name: Seq<char>,
    pub light: Result<Seq<char>, Seq<char>>,
    pub dark: Result<Seq<char>, Seq<char>>,
    pub light_ic: Result<Seq<char>, Seq<char>>,
    pub dark_ic: Result<Seq<char>, Seq<char>>,
}

impl View for ResolvedAccent {
    type V = ResolvedAccentView;

    open spec fn view(&self) -> ResolvedAccentView {
        ResolvedAccentView {
            name: self.name@,
            light: result_view(self.light),
            dark: result_view(self.dark),
            light_ic: result_view(self.light_ic),
            dark_ic: result_view(self.dark_ic),
        }
    }
}

/// The resolution of an accent for a theme.
pub open spec fn variant_spec(a: ResolvedAccentView, t: Theme) -> Result<Seq<char>, Seq<char>> {
    match t {
        Theme::Light => a.light,
        Theme::Dark => a.dark,
        Theme::LightIc => a.light_ic,
        Theme::DarkIc => a.dark_ic,
    }
}

impl ResolvedAccent {
    /// The resolution for a theme.
    pub fn variant(&self, t: Theme) -> (r: &Result<String, String>)
        ensures
            result_view(*r) == variant_spec(self@, t),
    {
        match t {
            Theme::Light => &self.light,
            Theme::Dark => &self.dark,
            Theme::LightIc => &self.light_ic,
            Theme::DarkIc => &self.dark_ic,
        }
    }
}

/// `--accent-<name>`.
pub open spec fn accent_var_name(name: Seq<char>) -> Seq<char> {
    "--accent-"@ + name
}

/// The blocks after one accent was added to the first `k` of them: each block
/// whose selector has a theme gets `--accent-<name>` with the accent's colour for
/// that theme in lower case; the first theme without a colour stops it with
/// `(name, reason)`.
pub open spec fn add_accent_upto(
    blocks: Seq<(Seq<char>, BlockView)>,
    a: ResolvedAccentView,
    k: nat,
) -> Result<Seq<(Seq<char>, BlockView)>, (Seq<char>, Seq<char>)>
    decreases k,
{
    if k == 0 {
        Ok(blocks)
    } else {
        match add_accent_upto(blocks, a, (k - 1) as nat) {
            Err(e) => Err(e),
            Ok(b) => match selector_theme_spec(blocks[k - 1].0) {
                None => Ok(b),
                Some(t) => match variant_spec(a, t) {
                    Err(reason) => Err((a.name, reason)),
                    Ok(hex) => Ok(
                        b.update(
                            k - 1,
                            (
                                b[k - 1].0,
                                BlockView {
                                    accent_vars: b[k - 1].1.accent_vars.push(
                                        (accent_var_name(a.name), lower_text(hex)),
                                    ),
                                    ..b[k - 1].1
                                },
                            ),
                        ),
                    ),
                },
            },
        }
    }
}

/// The blocks after all accents were added, accent by accent, each to every block in key order.
pub open spec fn add_accents(
    blocks: Seq<(Seq<char>, BlockView)>,
    accents: Seq<ResolvedAccentView>,
) -> Result<Seq<(Seq<char>, BlockView)>, (Seq<char>, Seq<char>)>
    decreases accents.len(),
{
    if accents.len() == 0 {
        Ok(blocks)
    } else {
        match add_accents(blocks, accents.drop_last()) {
            Err(e) => Err(e),
            Ok(b) => add_accent_upto(b, accents.last(), b.len()),
        }
    }
}

/// Adding an accent keeps the selectors.
pub proof fn lemma_add_accent_keys(blocks: Seq<(Seq<char>, BlockView)>, a: ResolvedAccentView, k: nat)
    requires
        k <= blocks.len(),
    ensures
        add_accent_upto(blocks, a, k) matches Ok(b) ==> b.len() == blocks.len() && forall|i: int|
            0 <= i < blocks.len() ==> #[trigger] b[i].0 == blocks[i].0,
    decreases k,
{
    if k > 0 {
        lemma_add_accent_keys(blocks, a, (k - 1) as nat);
    }
}

/// Adding one accent to the first `k` blocks touches only their accent
/// variables: each of those blocks whose selector has a theme keeps every accent
/// variable it had and gains exactly one more at the end, `--accent-<name>` with
/// the accent's colour for that theme in lower case (which the accent then has);
/// every other block, and everything else, stays as it was.
pub proof fn lemma_add_accent_appends(blocks: Seq<(Seq<char>, BlockView)>, a: ResolvedAccentView, k: nat, i: int)
    requires
        k <= blocks.len(),
        0 <= i < blocks.len(),
        add_accent_upto(blocks, a, k) is Ok,
    ensures
        ({
            let b = add_accent_upto(blocks, a, k)->Ok_0;
            &&& b.len() == blocks.len()
            &&& b[i].0 == blocks[i].0
            &&& b[i].1.json_prefix == blocks[i].1.json_prefix
            &&& b[i].1.neutral_vars == blocks[i].1.neutral_vars
            &&& (i < k && selector_theme_spec(blocks[i].0) is Some) ==> ({
                let t = selector_theme_spec(blocks[i].0)->0;
                &&& variant_spec(a, t) is Ok
                &&& b[i].1.accent_vars == blocks[i].1.accent_vars.push(
                    ("--accent-"@ + a.name, lower_text(variant_spec(a, t)->Ok_0)),
                )
            })
            &&& !(i < k && selector_theme_spec(blocks[i].0) is Some) ==> b[i].1.accent_vars
                == blocks[i].1.accent_vars
        }),
    decreases k,
{
    if k > 0 {
        let prev = add_accent_upto(blocks, a, (k - 1) as nat);
        assert(prev is Ok);
        lemma_add_accent_appends(blocks, a, (k - 1) as nat, i);
        lemma_add_accent_keys(blocks, a, (k - 1) as nat);
    }
}

/// Once an accent fails on a block, it fails on every longer run of blocks.
proof fn lemma_add_accent_err_stays(
    blocks: Seq<(Seq<char>, BlockView)>,
    a: ResolvedAccentView,
    k: nat,
    m: nat,
)
    requires
        k <= m,
        add_accent_upto(blocks, a, k) is Err,
    ensures
        add_accent_upto(blocks, a, m) == add_accent_upto(blocks, a, k),
    decreases m,
{
    if m > k {
        lemma_add_accent_err_stays(blocks, a, k, (m - 1) as nat);
    }
}

/// Once an accent fails, the run over all accents fails the same way.
proof fn lemma_add_accents_err_stays(
    blocks: Seq<(Seq<char>, BlockView)>,
    accents: Seq<ResolvedAccentView>,
    k: int,
)
    requires
        0 <= k <= accents.len(),
        add_accents(blocks, accents.take(k)) is Err,
    ensures
        add_accents(blocks, accents) == add_accents(blocks, accents.take(k)),
    decreases accents.len() - k,
{
    if k < accents.len() {
        assert(accents.take(k + 1).drop_last() =~= accents.take(k));
        lemma_add_accents_err_stays(blocks, accents, k + 1);
    } else {
        assert(accents.take(k) =~= accents);
    }
}

/// The accent variables that a block of theme `t` gains from these accents, one
/// per accent, in order: `--accent-<name>` with the accent's colour for `t` in lower case.
pub open spec fn accent_entries(accents: Seq<ResolvedAccentView>, t: Theme) -> Seq<(Seq<char>, Seq<char>)> {
    Seq::new(
        accents.len(),
        |j: int| ("--accent-"@ + accents[j].name, lower_text(variant_spec(accents[j], t)->Ok_0)),
    )
}

/// After all accents are added, each block whose selector has a theme holds its
/// earlier accent variables followed by one variable per accent, in the order
/// of the accents; every other block, and all selectors, prefixes and neutral
/// variables, are as they were.
pub proof fn lemma_add_accents_contents(
    blocks: Seq<(Seq<char>, BlockView)>,
    accents: Seq<ResolvedAccentView>,
    i: int,
)
    requires
        0 <= i < blocks.len(),
        add_accents(blocks, accents) is Ok,
    ensures
        ({
            let b = add_accents(blocks, accents)->Ok_0;
            &&& b.len() == blocks.len()
            &&& b[i].0 == blocks[i].0
            &&& b[i].1.json_prefix == blocks[i].1.json_prefix
            &&& b[i].1.neutral_vars == blocks[i].1.neutral_vars
            &&& b[i].1.accent_vars == match selector_theme_spec(blocks[i].0) {
                Some(t) => blocks[i].1.accent_vars + accent_entries(accents, t),
                None => blocks[i].1.accent_vars,
            }
        }),
    decreases accents.len(),
{
    if accents.len() == 0 {
        match selector_theme_spec(blocks[i].0) {
            Some(t) => {
                assert(accent_entries(accents, t) =~= Seq::<(Seq<char>, Seq<char>)>::empty());
                assert(blocks[i].1.accent_vars + accent_entries(accents, t) =~= blocks[i].1.accent_vars);
            },
            None => {},
        }
    } else {
        let d = accents.drop_last();
        lemma_add_accents_contents(blocks, d, i);
        let b1 = add_accents(blocks, d)->Ok_0;
        lemma_add_accent_appends(b1, accents.last(), b1.len(), i);
        match selector_theme_spec(blocks[i].0) {
            Some(t) => {
                assert(accent_entries(accents, t) =~= accent_entries(d, t).push(
                    ("--accent-"@ + accents.last().name, lower_text(variant_spec(accents.last(), t)->Ok_0)),
                ));
            },
            None => {},
        }
    }
}

/// The blocks as they stand when adding one accent to the first `k` of them
/// ends: all `k` done, or those before the first theme without a colour.
pub open spec fn accent_progress(blocks: Seq<(Seq<char>, BlockView)>, a: ResolvedAccentView, k: nat) -> Seq<
    (Seq<char>, BlockView),
>
    decreases k,
{
    match add_accent_upto(blocks, a, k) {
        Ok(b) => b,
        Err(_) => if k == 0 {
            blocks
        } else {
            accent_progress(blocks, a, (k - 1) as nat)
        },
    }
}

/// The blocks as they stand when adding the accents ends: all added, or up to
/// the first theme for which an accent has no colour.
pub open spec fn accents_progress(
    blocks: Seq<(Seq<char>, BlockView)>,
    accents: Seq<ResolvedAccentView>,
) -> Seq<(Seq<char>, BlockView)>
    decreases accents.len(),
{
    if accents.len() == 0 {
        blocks
    } else {
        match add_accents(blocks, accents.drop_last()) {
            Ok(b) => accent_progress(b, accents.last(), b.len()),
            Err(_) => accents_progress(blocks, accents.drop_last()),
        }
    }
}

proof fn lemma_accent_progress_stops(
    blocks: Seq<(Seq<char>, BlockView)>,
    a: ResolvedAccentView,
    k: nat,
    m: nat,
)
    requires
        k < m,
        add_accent_upto(blocks, a, k) is Ok,
        add_accent_upto(blocks, a, (k + 1) as nat) is Err,
    ensures
        accent_progress(blocks, a, m) == add_accent_upto(blocks, a, k)->Ok_0,
    decreases m,
{
    lemma_add_accent_err_stays(blocks, a, (k + 1) as nat, m);
    assert(accent_progress(blocks, a, m) == accent_progress(blocks, a, (m - 1) as nat));
    if m > k + 1 {
        lemma_accent_progress_stops(blocks, a, k, (m - 1) as nat);
    } else {
        assert(accent_progress(blocks, a, k) == add_accent_upto(blocks, a, k)->Ok_0);
    }
}

proof fn lemma_accents_progress_stops(
    blocks: Seq<(Seq<char>, BlockView)>,
    accents: Seq<ResolvedAccentView>,
    k: int,
)
    requires
        0 < k <= accents.len(),
        add_accents(blocks, accents.take(k)) is Err,
    ensures
        accents_progress(blocks, accents) == accents_progress(blocks, accents.take(k)),
    decreases accents.len() - k,
{
    if k < accents.len() {
        assert(accents.take(k + 1).drop_last() =~= accents.take(k));
        lemma_accents_progress_stops(blocks, accents, k + 1);
    } else {
        assert(accents.take(k) =~= accents);
    }
}

/// The views of a vector of accents.
pub open spec fn accents_view(v: Seq<ResolvedAccent>) -> Seq<ResolvedAccentView> {
    v.map_values(|a: ResolvedAccent| a@)
}

proof fn lemma_same_keys_sorted(a: Seq<(Seq<char>, BlockView)>, b: Seq<(Seq<char>, BlockView)>)
    requires
        keys_sorted(a),
        a.len() == b.len(),
        forall|i: int| 0 <= i < a.len() ==> #[trigger] b[i].0 == a[i].0,
    ensures
        keys_sorted(b),
{
    assert forall|i: int, j: int| 0 <= i < j < b.len() implies str_less(
        #[trigger] b[i].0,
        #[trigger] b[j].0,
    ) by {
        assert(a[i].0 == b[i].0);
        assert(a[j].0 == b[j].0);
    }
}

/// Adds `--accent-<name>` for one accent to every block whose selector has a theme.
fn add_accent(a: &ResolvedAccent, blocks: &mut Blocks) -> (res: Result<(), GenerateError>)
    requires
        old(blocks).wf(),
    ensures
        final(blocks).wf(),
        final(blocks)@ == accent_progress(old(blocks)@, a@, old(blocks)@.len()),
        match add_accent_upto(old(blocks)@, a@, old(blocks)@.len()) {
            Ok(b) => res is Ok && final(blocks)@ == b,
            Err((bad_accent, why)) => res matches Err(GenerateError::AccentResolve { name, source })
                && name@ == bad_accent && source@ == why,
        },
{
    let ghost start = blocks@;
    let n = blocks.len();
    let mut k: usize = 0;
    while k < n
        invariant
            n == start.len(),
            start == old(blocks)@,
            k <= n,
            blocks.wf(),
            keys_sorted(start),
            add_accent_upto(start, a@, k as nat) == Ok::<_, (Seq<char>, Seq<char>)>(blocks@),
        decreases n - k,
    {
        proof {
            lemma_add_accent_keys(start, a@, k as nat);
        }
        let theme = selector_theme(blocks.key_at(k));
        assert(blocks@[k as int].0 == start[k as int].0);
        match theme {
            None => {},
            Some(t) => {
                match a.variant(t) {
                    Err(reason) => {
                        proof {
                            assert(Some(t) == selector_theme_spec(start[k as int].0));
                            assert(variant_spec(a@, t) == Err::<Seq<char>, _>(reason@));
                            assert(add_accent_upto(start, a@, (k + 1) as nat) == Err::<
                                Seq<(Seq<char>, BlockView)>,
                                _,
                            >((a@.name, reason@)));
                            lemma_add_accent_err_stays(start, a@, (k + 1) as nat, n as nat);
                            lemma_accent_progress_stops(start, a@, k as nat, n as nat);
                        }
                        let e = GenerateError::AccentResolve {
                            name: a.name.clone(),
                            source: reason.clone(),
                        };
                        assert(add_accent_upto(start, a@, start.len()) == Err::<
                            Seq<(Seq<char>, BlockView)>,
                            _,
                        >((a@.name, reason@)));
                        assert(e matches GenerateError::AccentResolve { name, source } && name@
                            == a@.name && source@ == reason@);
                        return Err(e);
                    },
                    Ok(hex) => {
                        let ghost before = blocks@;
                        let mut block = blocks.replace_value_at(k, new_block(""));
                        let mut var = String::from_str("--accent-");
                        var.append(a.name.as_str());
                        let value = to_lowercase(hex.as_str());
                        let ghost pair = (var@, value@);
                        let ghost vars_before = block.accent_vars@;
                        block.accent_vars.push((var, value));
                        proof {
                            assert(vars_view(block.accent_vars@) =~= vars_view(vars_before).push(pair));
                        }
                        let ghost nb = block@;
                        blocks.replace_value_at(k, block);
                        proof {
                            lemma_same_keys_sorted(before, blocks@);
                            assert(Some(t) == selector_theme_spec(start[k as int].0));
                            assert(variant_spec(a@, t) == Ok::<_, Seq<char>>(hex@));
                            assert(pair == (accent_var_name(a@.name), lower_text(hex@)));
                            assert(nb == BlockView {
                                accent_vars: before[k as int].1.accent_vars.push(pair),
                                ..before[k as int].1
                            });
                            assert(blocks@ == before.update(k as int, (before[k as int].0, nb)));
                        }
                    },
                }
            },
        }
        proof {
            let prev = add_accent_upto(start, a@, k as nat);
            assert(add_accent_upto(start, a@, (k + 1) as nat) == match prev {
                Err(e) => Err(e),
                Ok(b) => match selector_theme_spec(start[k as int].0) {
                    None => Ok(b),
                    Some(t) => match variant_spec(a@, t) {
                        Err(reason) => Err((a@.name, reason)),
                        Ok(hex) => Ok(
                            b.update(
                                k as int,
                                (
                                    b[k as int].0,
                                    BlockView {
                                        accent_vars: b[k as int].1.accent_vars.push(
                                            (accent_var_name(a@.name), lower_text(hex)),
                                        ),
                                        ..b[k as int].1
                                    },
                                ),
                            ),
                        ),
                    },
                },
            });
        }
        k = k + 1;
    }
    assert(accent_progress(start, a@, n as nat) == blocks@);
    Ok(())
}

/// Adds, accent by accent, `--accent-<name>` to each block whose selector stands
/// for a theme (`:root`, `.dark`, `.ic`, `.dark.ic`), the blocks taken in key
/// order; the value is the accent's colour for that theme in lower case. The
/// first theme for which an accent has no colour ends the run with
/// `AccentResolve`, the blocks left as they stand at that point.
pub fn collect_accent_vars(accents: &Vec<ResolvedAccent>, blocks: &mut Blocks) -> (res: Result<
    (),
    GenerateError,
>)
    requires
        old(blocks).wf(),
    ensures
        final(blocks).wf(),
        final(blocks)@ == accents_progress(old(blocks)@, accents_view(accents@)),
        match add_accents(old(blocks)@, accents_view(accents@)) {
            Ok(b) => res is Ok && final(blocks)@ == b,
            Err((bad_accent, why)) => res matches Err(GenerateError::AccentResolve { name, source })
                && name@ == bad_accent && source@ == why,
        },
{
    let ghost start = blocks@;
    let ghost all = accents_view(accents@);
    let n = accents.len();
    let mut i: usize = 0;
    while i < n
        invariant
            n == accents@.len(),
            all == accents_view(accents@),
            start == old(blocks)@,
            i <= n,
            blocks.wf(),
            add_accents(start, all.take(i as int)) == Ok::<_, (Seq<char>, Seq<char>)>(blocks@),
        decreases n - i,
    {
        proof {
            assert(all.take(i + 1).drop_last() =~= all.take(i as int));
            assert(all.take(i + 1).last() == accents@[i as int]@);
        }
        let ghost before = blocks@;
        let r = add_accent(&accents[i], blocks);
        if r.is_err() {
            proof {
                assert(add_accent_upto(before, all[i as int], before.len()) is Err);
                assert(add_accents(start, all.take(i + 1)) == add_accent_upto(
                    before,
                    all[i as int],
                    before.len(),
                ));
                lemma_add_accents_err_stays(start, all, i + 1);
                assert(accents_progress(start, all.take(i + 1)) == blocks@);
                lemma_accents_progress_stops(start, all, i + 1);
            }
            return r;
        }
        i = i + 1;
    }
    assert(all.take(n as int) =~= all);
    proof {
        if n > 0 {
            assert(all.drop_last() =~= all.take(n - 1));
        }
    }
    Ok(())
}

/// The text of a built scale, or of why it could not be built.
pub open spec fn scale_result_view(r: Result<Vec<String>, String>) -> Result<Seq<Seq<char>>, Seq<char>> {
    match r {
        Ok(v) => Ok(texts(v@)),
        Err(e) => Err(e@),
    }
}

/// The scales built for one primitive: light, dark, and, where increased-contrast
/// anchors are configured, increased-contrast light and dark.
pub struct NeutralScales {
    pub name: String,
    pub light: Result<Vec<String>, String>,
    pub dark: Result<Vec<String>, String>,
    pub ic: Option<(Result<Vec<String>, String>, Result<Vec<String>, String>)>,
}

/// The text of the scales of a primitive.
pub struct NeutralScalesView {
    pub name: Seq<char>,
    pub light: Result<Seq<Seq<char>>, Seq<char>>,
    pub dark: Result<Seq<Seq<char>>, Seq<char>>,
    pub ic: Option<(Result<Seq<Seq<char>>, Seq<char>>, Result<Seq<Seq<char>>, Seq<char>>)>,
}

impl View for NeutralScales {
    type V = NeutralScalesView;

    open spec fn view(&self) -> NeutralScalesView {
        NeutralScalesView {
            name: self.name@,
            light: scale_result_view(self.light),
            dark: scale_result_view(self.dark),
            ic: match self.ic {
                Some((l, d)) => Some((scale_result_view(l), scale_result_view(d))),
                None => None,
            },
        }
    }
}

/// The views of a vector of scales.
pub open spec fn scales_view(v: Seq<NeutralScales>) -> Seq<NeutralScalesView> {
    v.map_values(|p: NeutralScales| p@)
}

/// The blocks after one primitive's scales are added: light to `:root` (prefix
/// `root-`), dark to `.dark` (`dark-`), and the increased-contrast ones to `.ic`
/// (`ic-`) and `.dark.ic` (`dark-ic-`). A scale that could not be built stops it,
/// checked in the order light, dark, increased-contrast light, increased-contrast
/// dark, and named `<name>`, `<name>`, `<name> IC light`, `<name> IC dark`.
pub open spec fn add_primitive(
    blocks: Seq<(Seq<char>, BlockView)>,
    p: NeutralScalesView,
) -> Result<Seq<(Seq<char>, BlockView)>, (Seq<char>, Seq<char>)> {
    match p.light {
        Err(e) => Err((p.name, e)),
        Ok(light) => match p.dark {
            Err(e) => Err((p.name, e)),
            Ok(dark) => match p.ic {
                None => Ok(
                    push_neutral_vars_spec(
                        push_neutral_vars_spec(blocks, ":root"@, "root-"@, p.name, light),
                        ".dark"@,
                        "dark-"@,
                        p.name,
                        dark,
                    ),
                ),
                Some((ic_light, ic_dark)) => match ic_light {
                    Err(e) => Err((p.name + " IC light"@, e)),
                    Ok(il) => match ic_dark {
                        Err(e) => Err((p.name + " IC dark"@, e)),
                        Ok(id) => Ok(
                            push_neutral_vars_spec(
                                push_neutral_vars_spec(
                                    push_neutral_vars_spec(
                                        push_neutral_vars_spec(blocks, ":root"@, "root-"@, p.name, light),
                                        ".dark"@,
                                        "dark-"@,
                                        p.name,
                                        dark,
                                    ),
                                    ".ic"@,
                                    "ic-"@,
                                    p.name,
                                    il,
                                ),
                                ".dark.ic"@,
                                "dark-ic-"@,
                                p.name,
                                id,
                            ),
                        ),
                    },
                },
            },
        },
    }
}

/// The blocks built from all primitives, in order, starting from none.
pub open spec fn collect_neutral_spec(scales: Seq<NeutralScalesView>) -> Result<
    Seq<(Seq<char>, BlockView)>,
    (Seq<char>, Seq<char>),
>
    decreases scales.len(),
{
    if scales.len() == 0 {
        Ok(Seq::empty())
    } else {
        match collect_neutral_spec(scales.drop_last()) {
            Err(e) => Err(e),
            Ok(b) => add_primitive(b, scales.last()),
        }
    }
}

/// The variables that the light scales of these primitives give, primitive by
/// primitive, in order (a scale that could not be built gives none).
pub open spec fn light_vars(scales: Seq<NeutralScalesView>) -> Seq<(Seq<char>, Seq<char>)>
    decreases scales.len(),
{
    if scales.len() == 0 {
        Seq::empty()
    } else {
        light_vars(scales.drop_last()) + match scales.last().light {
            Ok(l) => scale_vars(scales.last().name, l),
            Err(_) => Seq::empty(),
        }
    }
}

/// The variables that the dark scales of these primitives give, in order.
pub open spec fn dark_vars(scales: Seq<NeutralScalesView>) -> Seq<(Seq<char>, Seq<char>)>
    decreases scales.len(),
{
    if scales.len() == 0 {
        Seq::empty()
    } else {
        dark_vars(scales.drop_last()) + match scales.last().dark {
            Ok(d) => scale_vars(scales.last().name, d),
            Err(_) => Seq::empty(),
        }
    }
}

proof fn lemma_selectors_distinct()
    ensures
        ":root"@ != ".dark"@,
        ":root"@ != ".ic"@,
        ":root"@ != ".dark.ic"@,
        ".dark"@ != ".ic"@,
        ".dark"@ != ".dark.ic"@,
{
    reveal_strlit(":root");
    reveal_strlit(".dark");
    reveal_strlit(".ic");
    reveal_strlit(".dark.ic");
    assert(":root"@[0] != ".dark"@[0]);
    assert(":root"@[0] != ".ic"@[0]);
    assert(":root"@[0] != ".dark.ic"@[0]);
    assert(".dark"@.len() != ".ic"@.len());
    assert(".dark"@.len() != ".dark.ic"@.len());
}

/// Adding a primitive appends its light scale to the `:root` block and its dark
/// scale to the `.dark` block, each made with its prefix if missing.
proof fn lemma_add_primitive_light_dark(blocks: Seq<(Seq<char>, BlockView)>, p: NeutralScalesView)
    requires
        keys_sorted(blocks),
        add_primitive(blocks, p) is Ok,
    ensures
        keys_sorted(add_primitive(blocks, p)->Ok_0),
        p.light is Ok && p.dark is Ok,
        lookup(add_primitive(blocks, p)->Ok_0, ":root"@) == Some(
            BlockView {
                neutral_vars: block_or_new(blocks, ":root"@, "root-"@).neutral_vars + scale_vars(
                    p.name,
                    p.light->Ok_0,
                ),
                ..block_or_new(blocks, ":root"@, "root-"@)
            },
        ),
        lookup(add_primitive(blocks, p)->Ok_0, ".dark"@) == Some(
            BlockView {
                neutral_vars: block_or_new(blocks, ".dark"@, "dark-"@).neutral_vars + scale_vars(
                    p.name,
                    p.dark->Ok_0,
                ),
                ..block_or_new(blocks, ".dark"@, "dark-"@)
            },
        ),
{
    lemma_selectors_distinct();
    let light = p.light->Ok_0;
    let dark = p.dark->Ok_0;
    let b1 = push_neutral_vars_spec(blocks, ":root"@, "root-"@, p.name, light);
    lemma_push_neutral_vars_effect(blocks, ":root"@, "root-"@, p.name, light, ".dark"@);
    let b2 = push_neutral_vars_spec(b1, ".dark"@, "dark-"@, p.name, dark);
    lemma_push_neutral_vars_effect(b1, ".dark"@, "dark-"@, p.name, dark, ":root"@);
    match p.ic {
        None => {},
        Some((il, id)) => {
            let l = il->Ok_0;
            let d = id->Ok_0;
            let b3 = push_neutral_vars_spec(b2, ".ic"@, "ic-"@, p.name, l);
            lemma_push_neutral_vars_effect(b2, ".ic"@, "ic-"@, p.name, l, ":root"@);
            lemma_push_neutral_vars_effect(b2, ".ic"@, "ic-"@, p.name, l, ".dark"@);
            lemma_push_neutral_vars_effect(b3, ".dark.ic"@, "dark-ic-"@, p.name, d, ":root"@);
            lemma_push_neutral_vars_effect(b3, ".dark.ic"@, "dark-ic-"@, p.name, d, ".dark"@);
        },
    }
}

/// The blocks built from several primitives hold the variables of all of them:
/// `:root` holds, in order, the variables of every primitive's light scale and
/// `.dark` those of every dark scale, each primitive after the ones before it,
/// and neither holds accent variables yet. No primitives give no blocks.
pub proof fn lemma_collect_neutral_contents(scales: Seq<NeutralScalesView>)
    requires
        collect_neutral_spec(scales) is Ok,
    ensures
        keys_sorted(collect_neutral_spec(scales)->Ok_0),
        scales.len() == 0 ==> collect_neutral_spec(scales)->Ok_0.len() == 0,
        scales.len() > 0 ==> lookup(collect_neutral_spec(scales)->Ok_0, ":root"@) == Some(
            BlockView { json_prefix: "root-"@, neutral_vars: light_vars(scales), accent_vars: Seq::empty() },
        ),
        scales.len() > 0 ==> lookup(collect_neutral_spec(scales)->Ok_0, ".dark"@) == Some(
            BlockView { json_prefix: "dark-"@, neutral_vars: dark_vars(scales), accent_vars: Seq::empty() },
        ),
    decreases scales.len(),
{
    if scales.len() > 0 {
        let d = scales.drop_last();
        lemma_collect_neutral_contents(d);
        let b = collect_neutral_spec(d)->Ok_0;
        lemma_add_primitive_light_dark(b, scales.last());
        if d.len() == 0 {
            assert(lookup(b, ":root"@) is None);
            assert(lookup(b, ".dark"@) is None);
            assert(light_vars(d) =~= Seq::<(Seq<char>, Seq<char>)>::empty());
            assert(dark_vars(d) =~= Seq::<(Seq<char>, Seq<char>)>::empty());
        }
    }
}

proof fn lemma_collect_neutral_err_stays(scales: Seq<NeutralScalesView>, k: int)
    requires
        0 <= k <= scales.len(),
        collect_neutral_spec(scales.take(k)) is Err,
    ensures
        collect_neutral_spec(scales) == collect_neutral_spec(scales.take(k)),
    decreases scales.len() - k,
{
    if k < scales.len() {
        assert(scales.take(k + 1).drop_last() =~= scales.take(k));
        lemma_collect_neutral_err_stays(scales, k + 1);
    } else {
        assert(scales.take(k) =~= scales);
    }
}

fn scale_error(name: &String, suffix: &str, reason: &String) -> (e: GenerateError)
    ensures
        e matches GenerateError::NeutralScale { name: n, source } && n@ == name@ + suffix@ && source@
            == reason@,
{
    let mut n = name.clone();
    n.append(suffix);
    GenerateError::NeutralScale { name: n, source: reason.clone() }
}

fn add_primitive_exec(p: &NeutralScales, blocks: &mut Blocks) -> (res: Result<(), GenerateError>)
    requires
        old(blocks).wf(),
    ensures
        final(blocks).wf(),
        match add_primitive(old(blocks)@, p@) {
            Ok(b) => res is Ok && final(blocks)@ == b,
            Err((bad, why)) => res matches Err(GenerateError::NeutralScale { name, source })
                && name@ == bad && source@ == why,
        },
{
    proof {
        reveal_strlit("");
    }
    let light = match &p.light {
        Ok(v) => v,
        Err(e) => {
            let err = scale_error(&p.name, "", e);
            assert(p.name@ + ""@ =~= p.name@);
            return Err(err);
        },
    };
    let dark = match &p.dark {
        Ok(v) => v,
        Err(e) => {
            let err = scale_error(&p.name, "", e);
            assert(p.name@ + ""@ =~= p.name@);
            return Err(err);
        },
    };
    match &p.ic {
        None => {
            push_neutral_vars(blocks, ":root", "root-", p.name.as_str(), light.as_slice());
            push_neutral_vars(blocks, ".dark", "dark-", p.name.as_str(), dark.as_slice());
            Ok(())
        },
        Some((ic_light, ic_dark)) => {
            let il = match ic_light {
                Ok(v) => v,
                Err(e) => return Err(scale_error(&p.name, " IC light", e)),
            };
            let id = match ic_dark {
                Ok(v) => v,
                Err(e) => return Err(scale_error(&p.name, " IC dark", e)),
            };
            push_neutral_vars(blocks, ":root", "root-", p.name.as_str(), light.as_slice());
            push_neutral_vars(blocks, ".dark", "dark-", p.name.as_str(), dark.as_slice());
            push_neutral_vars(blocks, ".ic", "ic-", p.name.as_str(), il.as_slice());
            push_neutral_vars(blocks, ".dark.ic", "dark-ic-", p.name.as_str(), id.as_slice());
            Ok(())
        },
    }
}

/// Builds the selector blocks from the scales of each primitive, in order.
///
/// Each primitive's light scale goes to `:root`, its dark scale to `.dark`, and
/// its increased-contrast scales, where configured, to `.ic` and `.dark.ic`, as
/// `push_neutral_vars` adds them. A scale that could not be built ends the run
/// with `NeutralScale`, naming the primitive (with ` IC light` or ` IC dark`
/// for the increased-contrast ones).
pub fn collect_neutral_blocks(scales: &Vec<NeutralScales>) -> (res: Result<Blocks, GenerateError>)
    ensures
        match collect_neutral_spec(scales_view(scales@)) {
            Ok(b) => res matches Ok(blocks) && blocks.wf() && blocks@ == b,
            Err((bad, why)) => res matches Err(GenerateError::NeutralScale { name, source })
                && name@ == bad && source@ == why,
        },
{
    let ghost all = scales_view(scales@);
    let mut blocks: Blocks = StrMap::new();
    let n = scales.len();
    let mut i: usize = 0;
    assert(all.take(0) =~= Seq::<NeutralScalesView>::empty());
    while i < n
        invariant
            n == scales@.len(),
            all == scales_view(scales@),
            i <= n,
            blocks.wf(),
            collect_neutral_spec(all.take(i as int)) == Ok::<_, (Seq<char>, Seq<char>)>(blocks@),
        decreases n - i,
    {
        proof {
            assert(all.take(i + 1).drop_last() =~= all.take(i as int));
            assert(all.take(i + 1).last() == scales@[i as int]@);
        }
        let r = add_primitive_exec(&scales[i], &mut blocks);
        if let Err(e) = r {
            proof {
                lemma_collect_neutral_err_stays(all, i + 1);
            }
            return Err(e);
        }
        i = i + 1;
    }
    assert(all.take(n as int) =~= all);
    Ok(blocks)
}

/// Generates the SCSS and JSON tokens: neutral blocks from the built scales,
/// then the accents, then both outputs.
///
/// A scale that could not be built gives `NeutralScale`, an accent without a
/// colour for a present theme gives `AccentResolve` (scales are checked first);
/// otherwise the outputs are those of `emit_css_and_json` on the blocks.
pub fn generate(scales: &Vec<NeutralScales>, accents: &Vec<ResolvedAccent>) -> (res: Result<
    (String, String),
    GenerateError,
>)
    ensures
        match collect_neutral_spec(scales_view(scales@)) {
            Err((bad, why)) => res matches Err(GenerateError::NeutralScale { name, source })
                && name@ == bad && source@ == why,
            Ok(b) => match add_accents(b, accents_view(accents@)) {
                Err((bad, why)) => res matches Err(GenerateError::AccentResolve { name, source })
                    && name@ == bad && source@ == why,
                Ok(b2) => res matches Ok((scss, json)) && scss@ == scss_text(b2) && json@
                    == pretty_json_text(json_entries(b2)),
            },
        },
{
    let mut blocks = match collect_neutral_blocks(scales) {
        Ok(b) => b,
        Err(e) => return Err(e),
    };
    match collect_accent_vars(accents, &mut blocks) {
        Ok(()) => {},
        Err(e) => return Err(e),
    }
    emit_css_and_json(blocks)
}

} // verus!
