//! Parsing and printing of `#RRGGBB` colour codes.
//!
//! A code may carry any number of leading `#` characters, which are dropped.
//! What remains must be six hexadecimal digits, either case: two per channel.
use vstd::prelude::*;
use vstd::utf8::*;
use vstd::string::{StringSliceAdditionalSpecFns, StrSliceExecFns, StringExecFns};
use crate::text::{lemma_encode_utf8_len, lemma_ascii_encoding, lemma_ascii_slice_decode, push_char};

verus! {

broadcast use vstd::utf8::encode_utf8_valid_utf8, vstd::utf8::encode_utf8_decode_utf8;

/// Value of one hexadecimal digit, either case.
pub open spec fn hex_digit_value(c: char) -> Option<u8> {
    if '0' <= c && c <= '9' {
        Some((c as u32 - '0' as u32) as u8)
    } else if 'a' <= c && c <= 'f' {
        Some((c as u32 - 'a' as u32 + 10) as u8)
    } else if 'A' <= c && c <= 'F' {
        Some((c as u32 - 'A' as u32 + 10) as u8)
    } else {
        None
    }
}

/// Every character is a hexadecimal digit.
pub open spec fn all_hex_digits(s: Seq<char>) -> bool {
    forall|i: int| 0 <= i < s.len() ==> (#[trigger] hex_digit_value(s[i])) is Some
}

/// The number written by a string of hexadecimal digits, most significant first.
pub open spec fn hex_number(digits: Seq<char>) -> nat
    decreases digits.len(),
{
    if digits.len() == 0 {
        0
    } else {
        hex_number(digits.drop_last()) * 16 + match hex_digit_value(digits.last()) {
            Some(d) => d as nat,
            None => 0,
        }
    }
}

/// The value of a channel pair: exactly two hexadecimal digits.
pub open spec fn hex_pair_value(p: Seq<char>) -> Option<u8> {
    if p.len() == 2 && all_hex_digits(p) {
        Some(hex_number(p) as u8)
    } else {
        None
    }
}

/// The code with its leading `#` characters removed.
pub open spec fn strip_hashes(s: Seq<char>) -> Seq<char>
    decreases s.len(),
{
    if s.len() > 0 && s[0] == '#' {
        strip_hashes(s.drop_first())
    } else {
        s
    }
}

/// The UTF-8 bytes of the code after its leading `#` characters.
pub open spec fn code_bytes(hex: Seq<char>) -> Seq<u8> {
    encode_utf8(strip_hashes(hex))
}

/// The characters of byte pair `k` (0, 1 or 2) of the code.
pub open spec fn code_pair(hex: Seq<char>, k: int) -> Seq<char> {
    decode_utf8(code_bytes(hex).subrange(2 * k, 2 * k + 2))
}

/// Message for a code that is not six bytes long.
pub open spec fn length_error_text(code: Seq<char>) -> Seq<char> {
    "expected #RRGGBB, got #"@ + code
}

/// Message for a pair that is not a hexadecimal number.
pub open spec fn digit_error_text(pair: Seq<char>) -> Seq<char> {
    "invalid hex '"@ + pair + "': invalid digit found in string"@
}

/// Taking the three byte pairs of a six-byte code, in order, cuts no character in
/// two: the second cut is only made once the first pair has been read.
pub open spec fn pairs_split_cleanly(hex: Seq<char>) -> bool {
    let b = code_bytes(hex);
    b.len() == 6 ==> {
        &&& is_char_boundary(b, 2)
        &&& hex_pair_value(code_pair(hex, 0)) is Some ==> is_char_boundary(b, 4)
    }
}

/// The outcome of reading `hex` as `#RRGGBB`: the three channels, or the message
/// for the first fault found.
pub open spec fn parse_hex_rgb_spec(hex: Seq<char>) -> Result<(u8, u8, u8), Seq<char>> {
    let code = strip_hashes(hex);
    if encode_utf8(code).len() != 6 {
        Err(length_error_text(code))
    } else {
        match hex_pair_value(code_pair(hex, 0)) {
            None => Err(digit_error_text(code_pair(hex, 0))),
            Some(r) => match hex_pair_value(code_pair(hex, 1)) {
                None => Err(digit_error_text(code_pair(hex, 1))),
                Some(g) => match hex_pair_value(code_pair(hex, 2)) {
                    None => Err(digit_error_text(code_pair(hex, 2))),
                    Some(b) => Ok((r, g, b)),
                },
            },
        }
    }
}

/// Decides and evaluates one hexadecimal digit.
pub fn hex_digit(c: char) -> (res: Option<u8>)
    ensures
        res == hex_digit_value(c),
{
    if '0' <= c && c <= '9' {
        Some((c as u32 - '0' as u32) as u8)
    } else if 'a' <= c && c <= 'f' {
        Some((c as u32 - 'a' as u32 + 10) as u8)
    } else if 'A' <= c && c <= 'F' {
        Some((c as u32 - 'A' as u32 + 10) as u8)
    } else {
        None
    }
}

/// Drops the leading `#` characters.
fn trim_hashes(s: &str) -> (t: &str)
    ensures
        t@ == strip_hashes(s@),
{
    let mut t = s;
    while t.unicode_len() > 0 && t.get_char(0) == '#'
        invariant
            strip_hashes(t@) == strip_hashes(s@),
        decreases t@.len(),
    {
        let n = t.unicode_len();
        let rest = t.substring_char(1, n);
        assert(rest@ =~= t@.drop_first());
        t = rest;
    }
    t
}

/// Reads a channel pair: exactly two hexadecimal digits, either case.
pub fn parse_hex_pair(s: &str) -> (res: Option<u8>)
    ensures
        res == hex_pair_value(s@),
{
    if s.unicode_len() != 2 {
        return None;
    }
    let c0 = s.get_char(0);
    let c1 = s.get_char(1);
    proof {
        reveal_with_fuel(hex_number, 3);
        assert(s@.drop_last() =~= seq![c0]);
        assert(s@.drop_last().drop_last() =~= Seq::<char>::empty());
        assert(all_hex_digits(s@) <==> (hex_digit_value(s@[0]) is Some && hex_digit_value(s@[1]) is Some));
    }
    match (hex_digit(c0), hex_digit(c1)) {
        (Some(h), Some(l)) => Some(h * 16 + l),
        _ => None,
    }
}

/// The message `invalid hex '<pair>': invalid digit found in string`.
fn digit_error(pair: &str) -> (msg: String)
    ensures
        msg@ == digit_error_text(pair@),
{
    let mut msg = String::from_str("invalid hex '");
    msg.append(pair);
    msg.append("': invalid digit found in string");
    msg
}

/// The byte pair of `hex` that a slice covers: its characters are those of pair `k`.
proof fn lemma_pair_view(hex: Seq<char>, k: int, pair: &str)
    requires
        0 <= k < 3,
        code_bytes(hex).len() == 6,
        pair.spec_bytes() == code_bytes(hex).subrange(2 * k, 2 * k + 2),
    ensures
        pair@ == code_pair(hex, k),
        pair@.len() <= 2,
{
    lemma_encode_utf8_len(pair@);
}

/// Whether `parse_hex_rgb` may be called on `hex`: taking its byte pairs
/// splits no character.
pub fn hex_pairs_split_cleanly(hex: &str) -> (ok: bool)
    ensures
        ok == pairs_split_cleanly(hex@),
{
    let code = trim_hashes(hex);
    assert(code.spec_bytes() == code_bytes(hex@));
    if code.as_bytes().len() != 6 {
        return true;
    }
    if !code.is_char_boundary(2) {
        return false;
    }
    let (first, _) = code.split_at(2);
    proof {
        lemma_pair_view(hex@, 0, first);
    }
    if parse_hex_pair(first).is_none() {
        return true;
    }
    code.is_char_boundary(4)
}

/// Reads `#RRGGBB` (leading `#` characters optional) into its three channels.
///
/// Fails with `expected #RRGGBB, got #<code>` when the code after the `#`
/// characters is not six bytes long, and with
/// `invalid hex '<pair>': invalid digit found in string` for the first pair that is
/// not a hexadecimal number.
pub fn parse_hex_rgb(hex: &str) -> (res: Result<(u8, u8, u8), String>)
    requires
        pairs_split_cleanly(hex@),
    ensures
        match res {
            Ok(rgb) => parse_hex_rgb_spec(hex@) == Ok::<(u8, u8, u8), Seq<char>>(rgb),
            Err(msg) => parse_hex_rgb_spec(hex@) == Err::<(u8, u8, u8), Seq<char>>(msg@),
        },
{
    let code = trim_hashes(hex);
    assert(code.spec_bytes() == code_bytes(hex@));
    if code.as_bytes().len() != 6 {
        let mut msg = String::from_str("expected #RRGGBB, got #");
        msg.append(code);
        return Err(msg);
    }
    let ghost b = code.spec_bytes();
    let (first, rest) = code.split_at(2);
    proof {
        lemma_pair_view(hex@, 0, first);
    }
    let r = match parse_hex_pair(first) {
        Some(v) => v,
        None => return Err(digit_error(first)),
    };
    proof {
        let rb = rest.spec_bytes();
        assert(rb =~= b.subrange(2, 6));
        is_char_boundary_iff_not_is_continuation_byte(b, 4);
        is_char_boundary_iff_not_is_continuation_byte(rb, 2);
    }
    let (second, third) = rest.split_at(2);
    proof {
        assert(second.spec_bytes() =~= b.subrange(2, 4));
        assert(third.spec_bytes() =~= b.subrange(4, 6));
        lemma_pair_view(hex@, 1, second);
        lemma_pair_view(hex@, 2, third);
    }
    let g = match parse_hex_pair(second) {
        Some(v) => v,
        None => return Err(digit_error(second)),
    };
    let bl = match parse_hex_pair(third) {
        Some(v) => v,
        None => return Err(digit_error(third)),
    };
    Ok((r, g, bl))
}

/// Upper-case hexadecimal digit for a value below 16.
pub open spec fn upper_hex_char(d: nat) -> char {
    if d < 10 {
        (48 + d) as char
    } else {
        (55 + d) as char
    }
}

/// The two upper-case hexadecimal digits of a byte (`{:02X}`).
pub open spec fn upper_hex_pair(v: u8) -> Seq<char> {
    seq![upper_hex_char((v / 16) as nat), upper_hex_char((v % 16) as nat)]
}

/// `#RRGGBB` with upper-case digits.
pub open spec fn format_hex_rgb_spec(r: u8, g: u8, b: u8) -> Seq<char> {
    seq!['#'] + upper_hex_pair(r) + upper_hex_pair(g) + upper_hex_pair(b)
}

/// ASCII upper case of one character; other characters are kept.
pub open spec fn ascii_upper_char(c: char) -> char {
    if 'a' <= c && c <= 'z' {
        ((c as u32) - 32) as char
    } else {
        c
    }
}

/// ASCII upper case of a character sequence.
pub open spec fn ascii_upper(s: Seq<char>) -> Seq<char> {
    s.map_values(|c: char| ascii_upper_char(c))
}

fn upper_hex_digit(d: u8) -> (c: char)
    requires
        d < 16,
    ensures
        c == upper_hex_char(d as nat),
{
    if d < 10 {
        (d + 48) as char
    } else {
        (d + 55) as char
    }
}

/// Prints a colour as `#RRGGBB` with upper-case digits.
pub fn format_hex_rgb(r: u8, g: u8, b: u8) -> (s: String)
    ensures
        s@ == format_hex_rgb_spec(r, g, b),
{
    let mut s = String::from_str("#");
    push_char(&mut s, upper_hex_digit(r / 16));
    push_char(&mut s, upper_hex_digit(r % 16));
    push_char(&mut s, upper_hex_digit(g / 16));
    push_char(&mut s, upper_hex_digit(g % 16));
    push_char(&mut s, upper_hex_digit(b / 16));
    push_char(&mut s, upper_hex_digit(b % 16));
    proof {
        reveal_strlit("#");
        assert(s@ =~= format_hex_rgb_spec(r, g, b));
    }
    s
}

proof fn lemma_upper_hex_char_digit(d: nat)
    requires
        d < 16,
    ensures
        hex_digit_value(upper_hex_char(d)) == Some(d as u8),
        upper_hex_char(d) != '#',
        '\0' <= upper_hex_char(d) <= '\u{7f}',
{
    let c = upper_hex_char(d);
    if d < 10 {
        assert((48 + d) as char as u32 == 48 + d);
    } else {
        assert((55 + d) as char as u32 == 55 + d);
    }
}

proof fn lemma_read_upper_pair(v: u8)
    ensures
        hex_pair_value(upper_hex_pair(v)) == Some(v),
{
    let p = upper_hex_pair(v);
    lemma_upper_hex_char_digit((v / 16) as nat);
    lemma_upper_hex_char_digit((v % 16) as nat);
    reveal_with_fuel(hex_number, 3);
    assert(p.drop_last() =~= seq![p[0]]);
    assert(p.drop_last().drop_last() =~= Seq::<char>::empty());
    assert(all_hex_digits(p)) by {
        assert forall|i: int| 0 <= i < p.len() implies (#[trigger] hex_digit_value(p[i])) is Some by {}
    }
    assert(hex_number(p) == (v / 16) * 16 + v % 16);
}

/// The pairs of an ASCII code are its character pairs, and taking them splits nothing.
proof fn lemma_ascii_code(hex: Seq<char>)
    requires
        is_ascii_chars(strip_hashes(hex)),
        strip_hashes(hex).len() == 6,
    ensures
        code_bytes(hex).len() == 6,
        pairs_split_cleanly(hex),
        forall|k: int| 0 <= k < 3 ==> #[trigger] code_pair(hex, k) == strip_hashes(hex).subrange(
            2 * k,
            2 * k + 2,
        ),
{
    let code = strip_hashes(hex);
    lemma_ascii_encoding(code);
    let b = code_bytes(hex);
    assert forall|k: int| 0 <= k < 3 implies #[trigger] code_pair(hex, k) == code.subrange(
        2 * k,
        2 * k + 2,
    ) by {
        lemma_ascii_slice_decode(code, 2 * k, 2 * k + 2);
    }
    assert(b[2] == code[2] as u8);
    assert(b[4] == code[4] as u8);
    is_char_boundary_iff_not_is_continuation_byte(b, 2);
    is_char_boundary_iff_not_is_continuation_byte(b, 4);
}

/// Printing a colour and reading it back gives the same three channels.
pub proof fn lemma_format_then_parse(r: u8, g: u8, b: u8)
    ensures
        pairs_split_cleanly(format_hex_rgb_spec(r, g, b)),
        parse_hex_rgb_spec(format_hex_rgb_spec(r, g, b)) == Ok::<(u8, u8, u8), Seq<char>>((r, g, b)),
{
    let s = format_hex_rgb_spec(r, g, b);
    let code = upper_hex_pair(r) + upper_hex_pair(g) + upper_hex_pair(b);
    lemma_upper_hex_char_digit((r / 16) as nat);
    lemma_upper_hex_char_digit((r % 16) as nat);
    lemma_upper_hex_char_digit((g / 16) as nat);
    lemma_upper_hex_char_digit((g % 16) as nat);
    lemma_upper_hex_char_digit((b / 16) as nat);
    lemma_upper_hex_char_digit((b % 16) as nat);
    assert(s.drop_first() =~= code);
    assert(code[0] != '#');
    reveal_with_fuel(strip_hashes, 3);
    assert(strip_hashes(s) == code);
    assert(is_ascii_chars(code));
    lemma_ascii_code(s);
    assert(code_pair(s, 0) == code.subrange(0, 2));
    assert(code_pair(s, 1) == code.subrange(2, 4));
    assert(code_pair(s, 2) == code.subrange(4, 6));
    assert(code.subrange(0, 2) =~= upper_hex_pair(r));
    assert(code.subrange(2, 4) =~= upper_hex_pair(g));
    assert(code.subrange(4, 6) =~= upper_hex_pair(b));
    lemma_read_upper_pair(r);
    lemma_read_upper_pair(g);
    lemma_read_upper_pair(b);
}

proof fn lemma_read_digit_pair(p: Seq<char>) -> (v: u8)
    requires
        p.len() == 2,
        all_hex_digits(p),
    ensures
        hex_pair_value(p) == Some(v),
        v == hex_digit_value(p[0])->0 * 16 + hex_digit_value(p[1])->0,
        upper_hex_pair(v) == ascii_upper(p),
{
    assert(hex_digit_value(p[0]) is Some);
    assert(hex_digit_value(p[1]) is Some);
    let h = hex_digit_value(p[0])->0;
    let l = hex_digit_value(p[1])->0;
    reveal_with_fuel(hex_number, 3);
    assert(p.drop_last() =~= seq![p[0]]);
    assert(p.drop_last().drop_last() =~= Seq::<char>::empty());
    let v = (h * 16 + l) as u8;
    assert(hex_number(p) == h * 16 + l);
    assert(v / 16 == h && v % 16 == l) by (nonlinear_arith)
        requires
            h < 16,
            l < 16,
            v == h * 16 + l,
    ;
    assert forall|c: char| #[trigger] hex_digit_value(c) is Some implies upper_hex_char(
        hex_digit_value(c)->0 as nat,
    ) == ascii_upper_char(c) by {
        let d = hex_digit_value(c)->0 as nat;
        if '0' <= c && c <= '9' {
            assert((48 + d) as char as u32 == c as u32);
        } else if 'a' <= c && c <= 'f' {
            assert((55 + d) as char as u32 == (c as u32) - 32);
        } else {
            assert((55 + d) as char as u32 == c as u32);
        }
    }
    assert(upper_hex_pair(v) =~= ascii_upper(p));
    v
}

/// A code whose six characters are hexadecimal digits reads without fault, and
/// printing what was read gives `#` and the code in upper case.
pub proof fn lemma_parse_then_format(hex: Seq<char>)
    requires
        strip_hashes(hex).len() == 6,
        all_hex_digits(strip_hashes(hex)),
    ensures
        pairs_split_cleanly(hex),
        parse_hex_rgb_spec(hex) is Ok,
        format_hex_rgb_spec(
            parse_hex_rgb_spec(hex)->Ok_0.0,
            parse_hex_rgb_spec(hex)->Ok_0.1,
            parse_hex_rgb_spec(hex)->Ok_0.2,
        ) == seq!['#'] + ascii_upper(strip_hashes(hex)),
{
    let code = strip_hashes(hex);
    assert(is_ascii_chars(code)) by {
        assert forall|i: int| 0 <= i < code.len() implies '\0' <= #[trigger] code[i] <= '\u{7f}' by {
            assert(hex_digit_value(code[i]) is Some);
        }
    }
    lemma_ascii_code(hex);
    let p0 = code.subrange(0, 2);
    let p1 = code.subrange(2, 4);
    let p2 = code.subrange(4, 6);
    assert(all_hex_digits(p0));
    assert(all_hex_digits(p1));
    assert(all_hex_digits(p2));
    assert(code_pair(hex, 0) == p0);
    assert(code_pair(hex, 1) == p1);
    assert(code_pair(hex, 2) == p2);
    let r = lemma_read_digit_pair(p0);
    let g = lemma_read_digit_pair(p1);
    let b = lemma_read_digit_pair(p2);
    assert(ascii_upper(code) =~= ascii_upper(p0) + ascii_upper(p1) + ascii_upper(p2));
    assert(format_hex_rgb_spec(r, g, b) =~= seq!['#'] + ascii_upper(code));
}


/// A code is read without fault exactly when, after its leading `#` characters,
/// it is six hexadecimal digits (for every code that `parse_hex_rgb` accepts as
/// input).
pub proof fn lemma_parse_ok_iff_six_hex_digits(hex: Seq<char>)
    requires
        pairs_split_cleanly(hex),
    ensures
        parse_hex_rgb_spec(hex) is Ok <==> (strip_hashes(hex).len() == 6 && all_hex_digits(
            strip_hashes(hex),
        )),
{
    let code = strip_hashes(hex);
    if code.len() == 6 && all_hex_digits(code) {
        lemma_parse_then_format(hex);
    }
    if parse_hex_rgb_spec(hex) is Ok {
        let b = code_bytes(hex);
        assert(b.len() == 6);
        assert(hex_pair_value(code_pair(hex, 0)) is Some);
        assert(is_char_boundary(b, 2));
        assert(is_char_boundary(b, 4));
        assert(decode_utf8(b) == code);
        decode_utf8_split(b, 2);
        let b2 = b.subrange(2, 6);
        valid_utf8_split(b, 2);
        is_char_boundary_iff_not_is_continuation_byte(b, 4);
        is_char_boundary_iff_not_is_continuation_byte(b2, 2);
        assert(b2[2] == b[4]);
        decode_utf8_split(b2, 2);
        assert(b2.subrange(0, 2) =~= b.subrange(2, 4));
        assert(b2.subrange(2, 4) =~= b.subrange(4, 6));
        let p0 = code_pair(hex, 0);
        let p1 = code_pair(hex, 1);
        let p2 = code_pair(hex, 2);
        assert(code =~= p0 + p1 + p2);
        assert(all_hex_digits(code)) by {
            assert forall|i: int| 0 <= i < code.len() implies (#[trigger] hex_digit_value(code[i])) is Some by {
                if i < 2 {
                    assert(code[i] == p0[i]);
                } else if i < 4 {
                    assert(code[i] == p1[i - 2]);
                } else {
                    assert(code[i] == p2[i - 4]);
                }
            }
        }
    }
}

/// Each hexadecimal digit has its standard value: the character with code
/// `48 + d` reads as `d` for `d` below 10, and the characters with codes `55 + d`
/// (upper case) and `87 + d` (lower case) read as `d` for `d` from 10 to 15.
/// Every other character is no digit.
pub proof fn lemma_hex_digit_values(d: nat, c: char)
    requires
        d < 16,
    ensures
        d < 10 ==> hex_digit_value((48 + d) as char) == Some(d as u8),
        d >= 10 ==> hex_digit_value((55 + d) as char) == Some(d as u8),
        d >= 10 ==> hex_digit_value((87 + d) as char) == Some(d as u8),
        hex_digit_value(c) is Some <==> (48 <= (c as u32) < 58 || 65 <= (c as u32) < 71 || 97 <= (c
            as u32) < 103),
{
    if d < 10 {
        assert((48 + d) as char as u32 == 48 + d);
    } else {
        assert((55 + d) as char as u32 == 55 + d);
        assert((87 + d) as char as u32 == 87 + d);
    }
}

/// The digit value of character `i` of a code.
pub open spec fn digit_at(code: Seq<char>, i: int) -> int {
    hex_digit_value(code[i])->0 as int
}

/// A code of six hexadecimal digits reads as three channels, each the first
/// digit of its pair times 16 plus the second, most significant digit first.
pub proof fn lemma_parse_channel_values(hex: Seq<char>)
    requires
        strip_hashes(hex).len() == 6,
        all_hex_digits(strip_hashes(hex)),
    ensures
        parse_hex_rgb_spec(hex) == Ok::<(u8, u8, u8), Seq<char>>(
            (
                (16 * digit_at(strip_hashes(hex), 0) + digit_at(strip_hashes(hex), 1)) as u8,
                (16 * digit_at(strip_hashes(hex), 2) + digit_at(strip_hashes(hex), 3)) as u8,
                (16 * digit_at(strip_hashes(hex), 4) + digit_at(strip_hashes(hex), 5)) as u8,
            ),
        ),
{
    let code = strip_hashes(hex);
    assert(is_ascii_chars(code)) by {
        assert forall|i: int| 0 <= i < code.len() implies '\0' <= #[trigger] code[i] <= '\u{7f}' by {
            assert(hex_digit_value(code[i]) is Some);
        }
    }
    lemma_ascii_code(hex);
    let p0 = code.subrange(0, 2);
    let p1 = code.subrange(2, 4);
    let p2 = code.subrange(4, 6);
    assert(all_hex_digits(p0));
    assert(all_hex_digits(p1));
    assert(all_hex_digits(p2));
    assert(code_pair(hex, 0) == p0);
    assert(code_pair(hex, 1) == p1);
    assert(code_pair(hex, 2) == p2);
    let r = lemma_read_digit_pair(p0);
    let g = lemma_read_digit_pair(p1);
    let b = lemma_read_digit_pair(p2);
    assert(p0[0] == code[0] && p0[1] == code[1]);
    assert(p1[0] == code[2] && p1[1] == code[3]);
    assert(p2[0] == code[4] && p2[1] == code[5]);
}

/// Printing writes `#` and then, for each channel in turn, two upper-case
/// digits: the first worth the channel divided by 16, the second the remainder.
pub proof fn lemma_format_digits(r: u8, g: u8, b: u8)
    ensures
        ({
            let s = format_hex_rgb_spec(r, g, b);
            &&& s.len() == 7
            &&& s[0] == '#'
            &&& hex_digit_value(s[1]) == Some(r / 16) && hex_digit_value(s[2]) == Some(r % 16)
            &&& hex_digit_value(s[3]) == Some(g / 16) && hex_digit_value(s[4]) == Some(g % 16)
            &&& hex_digit_value(s[5]) == Some(b / 16) && hex_digit_value(s[6]) == Some(b % 16)
            &&& forall|i: int| 1 <= i < 7 ==> !('a' <= #[trigger] s[i] && s[i] <= 'z')
        }),
{
    let s = format_hex_rgb_spec(r, g, b);
    lemma_upper_hex_char_digit((r / 16) as nat);
    lemma_upper_hex_char_digit((r % 16) as nat);
    lemma_upper_hex_char_digit((g / 16) as nat);
    lemma_upper_hex_char_digit((g % 16) as nat);
    lemma_upper_hex_char_digit((b / 16) as nat);
    lemma_upper_hex_char_digit((b % 16) as nat);
    assert forall|i: int| 1 <= i < 7 implies !('a' <= #[trigger] s[i] && s[i] <= 'z') by {
        let c = s[i];
        let k = if i < 3 { r } else if i < 5 { g } else { b };
        let d = if i % 2 == 1 { (k / 16) as nat } else { (k % 16) as nat };
        assert(c == upper_hex_char(d));
        if d < 10 {
            assert(upper_hex_char(d) as u32 == 48 + d);
        } else {
            assert(upper_hex_char(d) as u32 == 55 + d);
        }
    }
}

} // verus!
