//! The parts of the token configuration that the generation logic reads.
use vstd::prelude::*;
use vstd::string::StringExecFns;
use crate::strmap::{lookup, str_eq_exec, StrMap};
use crate::text::{opt_text, texts};
use crate::tokens::vars_view;

verus! {

/// Increased-contrast anchors of a scale.
pub struct IcAnchors {
    pub light: String,
    pub base: String,
    pub dark: String,
}

/// The text of increased-contrast anchors.
pub struct IcAnchorsView {
    pub light: Seq<char>,
    pub base: Seq<char>,
    pub dark: Seq<char>,
}

impl View for IcAnchors {
    type V = IcAnchorsView;

    open spec fn view(&self) -> IcAnchorsView {
        IcAnchorsView { light: self.light@, base: self.base@, dark: self.dark@ }
    }
}

/// The anchor colours of one primitive scale (its curve parameters aside).
pub struct ScaleAnchors {
    pub light: String,
    pub base: String,
    pub dark: String,
    pub ic: Option<IcAnchors>,
}

/// The text of a scale's anchors.
pub struct ScaleAnchorsView {
    pub light: Seq<char>,
    pub base: Seq<char>,
    pub dark: Seq<char>,
    pub ic: Option<IcAnchorsView>,
}

impl View for ScaleAnchors {
    type V = ScaleAnchorsView;

    open spec fn view(&self) -> ScaleAnchorsView {
        ScaleAnchorsView {
            light: self.light@,
            base: self.base@,
            dark: self.dark@,
            ic: match self.ic {
                Some(ic) => Some(ic@),
                None => None,
            },
        }
    }
}

/// Where the generated files go; `-` means standard output.
pub struct OutputConfig {
    pub scss: String,
    pub json: String,
}

/// `dist/tokens.scss`, the SCSS path when the `output` section names none.
pub fn default_scss() -> (s: String)
    ensures
        s@ == "dist/tokens.scss"@,
{
    String::from_str("dist/tokens.scss")
}

/// `dist/tokens.json`, the JSON path when the `output` section names none.
pub fn default_json() -> (s: String)
    ensures
        s@ == "dist/tokens.json"@,
{
    String::from_str("dist/tokens.json")
}

impl Default for OutputConfig {
    /// `dist/tokens.scss` and `dist/tokens.json`: where the outputs of a
    /// configuration without an `output` section go.
    fn default() -> (c: Self)
        ensures
            c.scss@ == "dist/tokens.scss"@,
            c.json@ == "dist/tokens.json"@,
    {
        OutputConfig { scss: default_scss(), json: default_json() }
    }
}

/// An accent colour as configured: one canonical hex code.
pub struct AccentConfig {
    pub canonical: String,
}

impl AccentConfig {
    /// Keeps the hex code as the canonical colour.
    pub fn from_hex(hex: &str) -> (cfg: Self)
        ensures
            cfg.canonical@ == hex@,
    {
        AccentConfig { canonical: String::from_str(hex) }
    }
}

/// Background anchors for the four themes: light, dark, and the
/// increased-contrast light and dark ones where configured.
pub open spec fn bg_anchors_spec(primitives: Seq<(Seq<char>, ScaleAnchorsView)>) -> (
    Seq<char>,
    Seq<char>,
    Option<Seq<char>>,
    Option<Seq<char>>,
) {
    match lookup(primitives, "neutral"@) {
        Some(n) => (
            n.light,
            n.dark,
            match n.ic {
                Some(ic) => Some(ic.light),
                None => None,
            },
            match n.ic {
                Some(ic) => Some(ic.dark),
                None => None,
            },
        ),
        None => ("#FFFFFF"@, "#101012"@, None, None),
    }
}

/// Background anchors of the themes, from the `neutral` scale: its light and
/// dark anchors and those of its increased-contrast variant; without a
/// `neutral` scale, `#FFFFFF` and `#101012` and no increased-contrast ones.
pub fn resolve_bg_anchors(primitives: &StrMap<ScaleAnchors>) -> (res: (
    String,
    String,
    Option<String>,
    Option<String>,
))
    requires
        primitives.wf(),
    ensures
        (res.0@, res.1@, opt_text(res.2), opt_text(res.3)) == bg_anchors_spec(primitives@),
{
    match primitives.get("neutral") {
        Some(n) => {
            let (icl, icd) = match &n.ic {
                Some(ic) => (Some(ic.light.clone()), Some(ic.dark.clone())),
                None => (None, None),
            };
            (n.light.clone(), n.dark.clone(), icl, icd)
        },
        None => (String::from_str("#FFFFFF"), String::from_str("#101012"), None, None),
    }
}

impl IcAnchors {
    /// Some anchor is empty (worth a warning).
    pub fn is_incomplete(&self) -> (b: bool)
        ensures
            b == (self.light@.len() == 0 || self.base@.len() == 0 || self.dark@.len() == 0),
    {
        self.light.as_str().is_empty() || self.base.as_str().is_empty() || self.dark.as_str().is_empty()
    }
}

/// What the command line asks for.
pub enum Command {
    /// Run the preview server.
    Preview,
    /// Generate the tokens, printing only the named format (`css`, `json`) if one is given.
    Generate { format: Option<String> },
}

/// The text of a command.
pub enum CommandView {
    Preview,
    Generate { format: Option<Seq<char>> },
}

impl View for Command {
    type V = CommandView;

    open spec fn view(&self) -> CommandView {
        match self {
            Command::Preview => CommandView::Preview,
            Command::Generate { format } => CommandView::Generate { format: opt_text(*format) },
        }
    }
}

/// The value of the last `--format <value>` from argument `i` on: `--format`
/// takes the next argument as its value, `--output` skips the next argument, and
/// a trailing `--format` without a value changes nothing.
pub open spec fn format_from(args: Seq<Seq<char>>, i: int, cur: Option<Seq<char>>) -> Option<Seq<char>>
    decreases args.len() - i,
{
    if i >= args.len() || i < 0 {
        cur
    } else if args[i] == "--format"@ {
        if i + 1 < args.len() {
            format_from(args, i + 2, Some(args[i + 1]))
        } else {
            cur
        }
    } else if args[i] == "--output"@ {
        if i + 1 < args.len() {
            format_from(args, i + 2, cur)
        } else {
            cur
        }
    } else {
        format_from(args, i + 1, cur)
    }
}

/// The command given by the arguments (the first being the program):
/// `preview` as the first argument runs the server, anything else generates.
pub open spec fn command_spec(args: Seq<Seq<char>>) -> CommandView {
    if args.len() > 1 && args[1] == "preview"@ {
        CommandView::Preview
    } else {
        CommandView::Generate { format: format_from(args, 1, None) }
    }
}

/// Reads the command-line arguments (the first being the program).
pub fn parse_args(args: &Vec<String>) -> (c: Command)
    ensures
        c@ == command_spec(texts(args@)),
{
    let ghost a = texts(args@);
    let n = args.len();
    if n > 1 && str_eq_exec(args[1].as_str(), "preview") {
        return Command::Preview;
    }
    let mut format: Option<String> = None;
    let mut i: usize = 1;
    while i < n
        invariant
            n == args@.len(),
            a == texts(args@),
            1 <= i,
            i <= n || n == 0,
            format_from(a, 1, None) == format_from(a, i as int, opt_text(format)),
        decreases n - i,
    {
        if str_eq_exec(args[i].as_str(), "--format") {
            if i + 1 < n {
                format = Some(args[i + 1].clone());
                i = i + 2;
            } else {
                i = n;
            }
        } else if str_eq_exec(args[i].as_str(), "--output") {
            if i + 1 < n {
                i = i + 2;
            } else {
                i = n;
            }
        } else {
            i = i + 1;
        }
    }
    Command::Generate { format }
}

/// Where each output goes.
#[derive(PartialEq, Eq, Structural, Clone, Copy, Debug)]
pub enum OutputPlan {
    /// Print the SCSS only.
    PrintScss,
    /// Print the JSON only.
    PrintJson,
    /// Print both, SCSS first.
    PrintBoth,
    /// Print the SCSS, write the JSON file.
    PrintScssWriteJson,
    /// Print the JSON, write the SCSS file.
    PrintJsonWriteScss,
    /// Write both files.
    WriteBoth,
}

/// `--format css` or `--format json` prints that output alone; otherwise an
/// output path of `-` means standard output and any other path a file.
pub open spec fn output_plan_spec(format: Option<Seq<char>>, scss: Seq<char>, json: Seq<char>) -> OutputPlan {
    if format == Some("css"@) {
        OutputPlan::PrintScss
    } else if format == Some("json"@) {
        OutputPlan::PrintJson
    } else if scss == "-"@ && json == "-"@ {
        OutputPlan::PrintBoth
    } else if scss == "-"@ {
        OutputPlan::PrintScssWriteJson
    } else if json == "-"@ {
        OutputPlan::PrintJsonWriteScss
    } else {
        OutputPlan::WriteBoth
    }
}

/// The plan prints the SCSS on standard output.
pub open spec fn prints_scss(p: OutputPlan) -> bool {
    p == OutputPlan::PrintScss || p == OutputPlan::PrintBoth || p == OutputPlan::PrintScssWriteJson
}

/// The plan prints the JSON on standard output.
pub open spec fn prints_json(p: OutputPlan) -> bool {
    p == OutputPlan::PrintJson || p == OutputPlan::PrintBoth || p == OutputPlan::PrintJsonWriteScss
}

/// The plan writes the SCSS to its file.
pub open spec fn writes_scss(p: OutputPlan) -> bool {
    p == OutputPlan::PrintJsonWriteScss || p == OutputPlan::WriteBoth
}

/// The plan writes the JSON to its file.
pub open spec fn writes_json(p: OutputPlan) -> bool {
    p == OutputPlan::PrintScssWriteJson || p == OutputPlan::WriteBoth
}

/// An explicit `--format` wins over the output paths, whatever they are:
/// `css` prints the SCSS alone and `json` the JSON alone, writing nothing.
/// Without such a format each output goes to standard output when its path is
/// `-` and is written to its file otherwise.
pub proof fn lemma_output_plan_rules(format: Option<Seq<char>>, scss: Seq<char>, json: Seq<char>)
    ensures
        format == Some("css"@) ==> ({
            let p = output_plan_spec(format, scss, json);
            prints_scss(p) && !prints_json(p) && !writes_scss(p) && !writes_json(p)
        }),
        format == Some("json"@) ==> ({
            let p = output_plan_spec(format, scss, json);
            prints_json(p) && !prints_scss(p) && !writes_scss(p) && !writes_json(p)
        }),
        format != Some("css"@) && format != Some("json"@) ==> ({
            let p = output_plan_spec(format, scss, json);
            &&& prints_scss(p) <==> scss == "-"@
            &&& writes_scss(p) <==> scss != "-"@
            &&& prints_json(p) <==> json == "-"@
            &&& writes_json(p) <==> json != "-"@
        }),
{
    reveal_strlit("css");
    reveal_strlit("json");
    assert("json"@.len() != "css"@.len());
}

/// Decides where the outputs go.
pub fn output_plan(format: &Option<String>, output: &OutputConfig) -> (p: OutputPlan)
    ensures
        p == output_plan_spec(opt_text(*format), output.scss@, output.json@),
{
    match format {
        Some(f) => {
            if str_eq_exec(f.as_str(), "css") {
                return OutputPlan::PrintScss;
            }
            if str_eq_exec(f.as_str(), "json") {
                return OutputPlan::PrintJson;
            }
        },
        None => {},
    }
    let scss_out = str_eq_exec(output.scss.as_str(), "-");
    let json_out = str_eq_exec(output.json.as_str(), "-");
    if scss_out && json_out {
        OutputPlan::PrintBoth
    } else if scss_out {
        OutputPlan::PrintScssWriteJson
    } else if json_out {
        OutputPlan::PrintJsonWriteScss
    } else {
        OutputPlan::WriteBoth
    }
}


/// The built-in accents of the preview's accent matrix, by name and canonical code.
pub open spec fn builtin_accents() -> Seq<(Seq<char>, Seq<char>)> {
    seq![
        ("Brand"@, "#007AFF"@),
        ("Red"@, "#FF3B30"@),
        ("Orange"@, "#FF9500"@),
        ("Yellow"@, "#FFCC00"@),
        ("Green"@, "#34C759"@),
        ("Teal"@, "#30B0C7"@),
        ("Mint"@, "#00C7BE"@),
        ("Blue"@, "#007AFF"@),
        ("Indigo"@, "#5856D6"@),
        ("Purple"@, "#AF52DE"@),
        ("Pink"@, "#FF2D55"@),
    ]
}

fn push_accent(v: &mut Vec<(String, String)>, name: &str, hex: &str)
    ensures
        vars_view(final(v)@) == vars_view(old(v)@).push((name@, hex@)),
{
    v.push((String::from_str(name), String::from_str(hex)));
    assert(vars_view(v@) =~= vars_view(old(v)@).push((name@, hex@)));
}

/// The accents of the accent matrix, in order: the built-in ones, then the
/// configured ones as given.
pub fn matrix_accents(configured: &Vec<(String, String)>) -> (v: Vec<(String, String)>)
    ensures
        vars_view(v@) == builtin_accents() + vars_view(configured@),
{
    let mut v: Vec<(String, String)> = Vec::new();
    push_accent(&mut v, "Brand", "#007AFF");
    push_accent(&mut v, "Red", "#FF3B30");
    push_accent(&mut v, "Orange", "#FF9500");
    push_accent(&mut v, "Yellow", "#FFCC00");
    push_accent(&mut v, "Green", "#34C759");
    push_accent(&mut v, "Teal", "#30B0C7");
    push_accent(&mut v, "Mint", "#00C7BE");
    push_accent(&mut v, "Blue", "#007AFF");
    push_accent(&mut v, "Indigo", "#5856D6");
    push_accent(&mut v, "Purple", "#AF52DE");
    push_accent(&mut v, "Pink", "#FF2D55");
    assert(vars_view(v@) =~= builtin_accents());
    let n = configured.len();
    let mut i: usize = 0;
    while i < n
        invariant
            n == configured@.len(),
            i <= n,
            vars_view(v@) == builtin_accents() + vars_view(configured@).take(i as int),
        decreases n - i,
    {
        let ghost before = v@;
        v.push((configured[i].0.clone(), configured[i].1.clone()));
        assert(vars_view(v@) =~= vars_view(before).push(vars_view(configured@)[i as int]));
        assert(vars_view(configured@).take(i + 1) =~= vars_view(configured@).take(i as int).push(
            vars_view(configured@)[i as int],
        ));
        i = i + 1;
    }
    assert(vars_view(configured@).take(n as int) =~= vars_view(configured@));
    v
}

/// The colour an accent shows in a theme of the matrix: the resolved colour, or
/// the canonical code where it could not be resolved.
pub fn variant_or_canonical(variant: Result<String, String>, canonical: &str) -> (c: String)
    ensures
        c@ == match variant {
            Ok(v) => v@,
            Err(_) => canonical@,
        },
{
    match variant {
        Ok(v) => v,
        Err(_) => String::from_str(canonical),
    }
}

} // verus!
