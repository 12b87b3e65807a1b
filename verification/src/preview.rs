//! Request handling decisions of the preview server: routes, query parameters,
//! percent-decoding, static file names and content types.
use vstd::prelude::*;
use vstd::string::{StringSliceAdditionalSpecFns, StrSliceExecFns, StringExecFns};
use vstd::utf8::{encode_utf8, is_ascii_chars};
use crate::hexcolor::{hex_digit, hex_digit_value, hex_number, all_hex_digits};
use crate::strmap::str_eq_exec;
use crate::text::{lemma_ascii_encoding, opt_text, push_char, texts};

verus! {

/// What `u8::from_str_radix(s, 16)` accepts, and the value it gives: an optional
/// leading `+` (not on its own), then at least one hexadecimal digit, worth less than 256.
pub open spec fn radix16_u8(s: Seq<char>) -> Option<u8> {
    let digits = if s.len() > 1 && s[0] == '+' {
        s.drop_first()
    } else {
        s
    };
    if digits.len() > 0 && all_hex_digits(digits) && hex_number(digits) < 256 {
        Some(hex_number(digits) as u8)
    } else {
        None
    }
}

/// What `u8::from_str_radix(from_utf8(&[b1, b2]).unwrap_or(""), 16)` gives:
/// only two ASCII bytes can form a hexadecimal number.
pub open spec fn byte_pair_value(b1: u8, b2: u8) -> Option<u8> {
    if b1 < 128 && b2 < 128 {
        radix16_u8(seq![b1 as char, b2 as char])
    } else {
        None
    }
}

/// Percent-decoding of a byte string: `%` followed by two bytes that read as a
/// hexadecimal number becomes the character with that code; every other byte
/// becomes the character with the byte's code.
pub open spec fn percent_decode_bytes(b: Seq<u8>) -> Seq<char>
    decreases b.len(),
{
    if b.len() == 0 {
        Seq::empty()
    } else if b[0] == 37 && 2 < b.len() && byte_pair_value(b[1], b[2]) is Some {
        seq![(byte_pair_value(b[1], b[2])->0) as char] + percent_decode_bytes(b.skip(3))
    } else {
        seq![b[0] as char] + percent_decode_bytes(b.skip(1))
    }
}

proof fn lemma_percent_decode_plain_bytes(b: Seq<u8>)
    requires
        forall|i: int| 0 <= i < b.len() ==> #[trigger] b[i] < 128 && b[i] != 37,
    ensures
        percent_decode_bytes(b) == b.map_values(|x: u8| x as char),
    decreases b.len(),
{
    if b.len() > 0 {
        let rest = b.skip(1);
        assert forall|i: int| 0 <= i < rest.len() implies #[trigger] rest[i] < 128 && rest[i] != 37 by {
            assert(rest[i] == b[i + 1]);
        }
        lemma_percent_decode_plain_bytes(rest);
        assert(b.map_values(|x: u8| x as char) =~= seq![b[0] as char] + rest.map_values(
            |x: u8| x as char,
        ));
    }
}

/// Text with no `%` and only ASCII characters decodes to itself.
pub proof fn lemma_percent_decode_plain(s: Seq<char>)
    requires
        is_ascii_chars(s),
        !s.contains('%'),
    ensures
        percent_decode_bytes(encode_utf8(s)) == s,
{
    let b = encode_utf8(s);
    lemma_ascii_encoding(s);
    assert forall|i: int| 0 <= i < b.len() implies #[trigger] b[i] < 128 && b[i] != 37 by {
        let c = s[i];
        assert(b[i] == c as u8);
        assert(c != '%') by {
            if c == '%' {
                assert(s.contains('%'));
            }
        }
        let u = c as u32;
        assert(u < 128);
        assert(u != 37) by {
            vstd::utf8::char_u32_cast(c, u);
        }
        assert((u as u8) == b[i]);
    }
    lemma_percent_decode_plain_bytes(b);
    assert forall|i: int| 0 <= i < s.len() implies #[trigger] ((b[i]) as char) == s[i] by {
        let c = s[i];
        let u = c as u32;
        assert(u < 128);
        assert(b[i] as u32 == u);
        vstd::utf8::char_u32_cast(c, u);
    }
    assert(b.map_values(|x: u8| x as char) =~= s);
}

/// An escape, `%` and two hexadecimal digits, decodes to the one character whose
/// code is the first digit's value times 16 plus the second's; what follows
/// decodes on its own.
pub proof fn lemma_percent_escape(h: char, l: char, rest: Seq<u8>)
    requires
        hex_digit_value(h) is Some,
        hex_digit_value(l) is Some,
    ensures
        percent_decode_bytes(seq![37u8, h as u8, l as u8] + rest) == seq![
            ((16 * hex_digit_value(h)->0 + hex_digit_value(l)->0) as u8) as char,
        ] + percent_decode_bytes(rest),
{
    let b = seq![37u8, h as u8, l as u8] + rest;
    let hu = h as u32;
    let lu = l as u32;
    vstd::utf8::char_u32_cast(h, hu);
    vstd::utf8::char_u32_cast(l, lu);
    assert(hu < 128 && lu < 128);
    assert((h as u8) as char == h) by {
        assert((h as u8) as u32 == hu);
    }
    assert((l as u8) as char == l) by {
        assert((l as u8) as u32 == lu);
    }
    let p = seq![h, l];
    assert(seq![(h as u8) as char, (l as u8) as char] =~= p);
    reveal_with_fuel(hex_number, 3);
    assert(p.drop_last() =~= seq![h]);
    assert(p.drop_last().drop_last() =~= Seq::<char>::empty());
    assert(all_hex_digits(p));
    assert(h != '+');
    assert(b[0] == 37u8 && b[1] == h as u8 && b[2] == l as u8);
    assert(b.skip(3) =~= rest);
}

fn byte_pair(b1: u8, b2: u8) -> (res: Option<u8>)
    ensures
        res == byte_pair_value(b1, b2),
{
    if b1 >= 128 || b2 >= 128 {
        return None;
    }
    let c0 = b1 as char;
    let c1 = b2 as char;
    let ghost s = seq![c0, c1];
    reveal_with_fuel(hex_number, 3);
    let d1 = hex_digit(c1);
    if c0 == '+' {
        proof {
            let t = s.drop_first();
            assert(t =~= seq![c1]);
            assert(t.drop_last() =~= Seq::<char>::empty());
            assert(all_hex_digits(t) <==> hex_digit_value(t[0]) is Some);
        }
        return d1;
    }
    let d0 = hex_digit(c0);
    proof {
        assert(s.drop_last() =~= seq![c0]);
        assert(s.drop_last().drop_last() =~= Seq::<char>::empty());
        assert(all_hex_digits(s) <==> (hex_digit_value(s[0]) is Some && hex_digit_value(s[1]) is Some));
    }
    match (d0, d1) {
        (Some(h), Some(l)) => Some(h * 16 + l),
        _ => None,
    }
}

/// Decodes `%XX` escapes in `s`, working on its UTF-8 bytes: every byte that is
/// not part of an escape, including each byte of a multi-byte character, becomes
/// the character with that code.
pub fn percent_decode(s: &str) -> (res: String)
    ensures
        res@ == percent_decode_bytes(encode_utf8(s@)),
{
    let bytes = s.as_bytes();
    let ghost b = bytes@;
    let n = bytes.len();
    let mut res = String::new();
    let mut i: usize = 0;
    assert(b.skip(0) =~= b);
    while i < n
        invariant
            n == b.len(),
            b == bytes@,
            b == encode_utf8(s@),
            i <= n,
            res@ + percent_decode_bytes(b.skip(i as int)) == percent_decode_bytes(b),
        decreases n - i,
    {
        let ghost rest = b.skip(i as int);
        if bytes[i] == 37 && n - i > 2 {
            if let Some(v) = byte_pair(bytes[i + 1], bytes[i + 2]) {
                push_char(&mut res, v as char);
                proof {
                    assert(rest.skip(3) =~= b.skip(i + 3));
                    assert(rest[1] == b[i + 1] && rest[2] == b[i + 2]);
                    assert(res@ + percent_decode_bytes(b.skip(i + 3)) =~= percent_decode_bytes(b));
                }
                i = i + 3;
                continue;
            }
        }
        push_char(&mut res, bytes[i] as char);
        proof {
            assert(rest.skip(1) =~= b.skip(i + 1));
            assert(res@ + percent_decode_bytes(b.skip(i + 1)) =~= percent_decode_bytes(b));
        }
        i = i + 1;
    }
    assert(percent_decode_bytes(b.skip(n as int)) =~= Seq::<char>::empty());
    assert(res@ =~= percent_decode_bytes(b));
    res
}

/// The pieces of a string between separators, as `str::split` gives them,
/// scanning from the left: pieces finished so far, and the piece in progress.
pub open spec fn split_state(s: Seq<char>, sep: char) -> (Seq<Seq<char>>, Seq<char>)
    decreases s.len(),
{
    if s.len() == 0 {
        (Seq::empty(), Seq::empty())
    } else {
        let (done, cur) = split_state(s.drop_last(), sep);
        if s.last() == sep {
            (done.push(cur), Seq::empty())
        } else {
            (done, cur.push(s.last()))
        }
    }
}

/// `s.split(sep)`: always at least one piece.
pub open spec fn split_on(s: Seq<char>, sep: char) -> Seq<Seq<char>> {
    split_state(s, sep).0.push(split_state(s, sep).1)
}

/// Splits `s` at every `sep`, as `str::split` does.
pub fn split_chars(s: &str, sep: char) -> (parts: Vec<String>)
    ensures
        texts(parts@) == split_on(s@, sep),
{
    let n = s.unicode_len();
    let mut done: Vec<String> = Vec::new();
    let mut cur = String::new();
    let mut i: usize = 0;
    assert(s@.take(0) =~= Seq::<char>::empty());
    assert(texts(done@) =~= Seq::<Seq<char>>::empty());
    while i < n
        invariant
            n == s@.len(),
            i <= n,
            (texts(done@), cur@) == split_state(s@.take(i as int), sep),
        decreases n - i,
    {
        let c = s.get_char(i);
        proof {
            assert(s@.take(i + 1).drop_last() =~= s@.take(i as int));
            assert(s@.take(i + 1).last() == c);
        }
        if c == sep {
            let ghost before = done@;
            done.push(cur);
            cur = String::new();
            assert(texts(done@) =~= texts(before).push(texts(done@).last()));
        } else {
            push_char(&mut cur, c);
        }
        i = i + 1;
    }
    assert(s@.take(n as int) =~= s@);
    let ghost before = done@;
    done.push(cur);
    assert(texts(done@) =~= texts(before).push(texts(done@).last()));
    done
}

/// Position of the first `c` in `s`.
pub open spec fn first_index(s: Seq<char>, c: char) -> Option<int>
    decreases s.len(),
{
    if s.len() == 0 {
        None
    } else {
        match first_index(s.drop_last(), c) {
            Some(j) => Some(j),
            None => if s.last() == c {
                Some(s.len() - 1)
            } else {
                None
            },
        }
    }
}

proof fn lemma_first_index_bounds(s: Seq<char>, c: char)
    ensures
        first_index(s, c) matches Some(j) ==> 0 <= j < s.len() && s[j] == c,
    decreases s.len(),
{
    if s.len() > 0 {
        lemma_first_index_bounds(s.drop_last(), c);
    }
}

/// Finds the first `c` in `s`.
pub fn find_char(s: &str, c: char) -> (res: Option<usize>)
    ensures
        match first_index(s@, c) {
            Some(j) => res == Some(j as usize),
            None => res is None,
        },
{
    let n = s.unicode_len();
    let mut i: usize = 0;
    assert(s@.take(0) =~= Seq::<char>::empty());
    while i < n
        invariant
            n == s@.len(),
            i <= n,
            first_index(s@.take(i as int), c) is None,
        decreases n - i,
    {
        proof {
            assert(s@.take(i + 1).drop_last() =~= s@.take(i as int));
        }
        if s.get_char(i) == c {
            proof {
                lemma_first_index_bounds(s@.take(i + 1), c);
                lemma_first_index_prefix(s@, c, i + 1);
            }
            return Some(i);
        }
        i = i + 1;
    }
    assert(s@.take(n as int) =~= s@);
    None
}

proof fn lemma_first_index_prefix(s: Seq<char>, c: char, k: int)
    requires
        0 <= k <= s.len(),
        first_index(s.take(k), c) is Some,
    ensures
        first_index(s, c) == first_index(s.take(k), c),
    decreases s.len() - k,
{
    if k < s.len() {
        assert(s.take(k + 1).drop_last() =~= s.take(k));
        lemma_first_index_prefix(s, c, k + 1);
    } else {
        assert(s.take(k) =~= s);
    }
}

/// The value of the last `key=value` piece for `key`, pieces without `=` skipped;
/// the value is all after the first `=`.
pub open spec fn param_value(pieces: Seq<Seq<char>>, key: Seq<char>) -> Option<Seq<char>>
    decreases pieces.len(),
{
    if pieces.len() == 0 {
        None
    } else {
        let p = pieces.last();
        match first_index(p, '=') {
            Some(j) => if p.take(j) == key {
                Some(p.skip(j + 1))
            } else {
                param_value(pieces.drop_last(), key)
            },
            None => param_value(pieces.drop_last(), key),
        }
    }
}

/// Looks up `key` among `key=value` pieces; the last match counts.
pub fn find_param(pieces: &Vec<String>, key: &str) -> (res: Option<String>)
    ensures
        opt_text(res) == param_value(texts(pieces@), key@),
{
    let ghost all = texts(pieces@);
    let mut k = pieces.len();
    assert(all.take(k as int) =~= all);
    while k > 0
        invariant
            k <= pieces@.len(),
            all == texts(pieces@),
            param_value(all.take(k as int), key@) == param_value(all, key@),
        decreases k,
    {
        let piece = pieces[k - 1].as_str();
        proof {
            assert(all.take(k as int).last() == piece@);
            assert(all.take(k as int).drop_last() =~= all.take(k - 1));
        }
        match find_char(piece, '=') {
            Some(j) => {
                proof {
                    lemma_first_index_bounds(piece@, '=');
                }
                let n = piece.unicode_len();
                let name = piece.substring_char(0, j);
                if str_eq_exec(name, key) {
                    let value = piece.substring_char(j + 1, n);
                    return Some(String::from_str(value));
                }
            },
            None => {},
        }
        k = k - 1;
    }
    assert(all.take(0) =~= Seq::<Seq<char>>::empty());
    None
}

/// `s` begins with `prefix`.
pub open spec fn starts_with(s: Seq<char>, prefix: Seq<char>) -> bool {
    prefix.len() <= s.len() && s.take(prefix.len() as int) == prefix
}

/// Whether `s` begins with `prefix`.
pub fn starts_with_exec(s: &str, prefix: &str) -> (b: bool)
    ensures
        b == starts_with(s@, prefix@),
{
    let n = s.unicode_len();
    let m = prefix.unicode_len();
    if m > n {
        return false;
    }
    let head = s.substring_char(0, m);
    assert(head@ =~= s@.take(m as int));
    str_eq_exec(head, prefix)
}

/// The path of a request URL: what comes before the first `?`.
pub open spec fn url_path(url: Seq<char>) -> Seq<char> {
    split_on(url, '?')[0]
}

/// The query of a request URL: what lies between the first and second `?`, or nothing.
pub open spec fn url_query(url: Seq<char>) -> Seq<char> {
    if split_on(url, '?').len() > 1 {
        split_on(url, '?')[1]
    } else {
        Seq::empty()
    }
}

proof fn lemma_split_state_first(s: Seq<char>, sep: char)
    ensures
        split_state(s, sep).0.len() == 0 ==> split_state(s, sep).1 == s && !s.contains(sep),
        split_state(s, sep).0.len() > 0 ==> ({
            let p = split_state(s, sep).0[0];
            &&& p.len() < s.len()
            &&& p == s.take(p.len() as int)
            &&& !p.contains(sep)
            &&& s[p.len() as int] == sep
        }),
    decreases s.len(),
{
    if s.len() > 0 {
        let t = s.drop_last();
        lemma_split_state_first(t, sep);
        let (d2, c2) = split_state(t, sep);
        let (done, cur) = split_state(s, sep);
        if d2.len() == 0 {
            if s.last() == sep {
                assert(done[0] == c2);
                assert(t =~= s.take(t.len() as int));
            } else {
                assert(cur =~= s);
                assert(!s.contains(sep)) by {
                    if s.contains(sep) {
                        let i = choose|i: int| 0 <= i < s.len() && s[i] == sep;
                        assert(i < t.len());
                        assert(t[i] == sep);
                        assert(t.contains(sep));
                    }
                }
            }
        } else {
            assert(done[0] == d2[0]);
            let p = d2[0];
            assert(p =~= s.take(p.len() as int));
            assert(s[p.len() as int] == t[p.len() as int]);
        }
    }
}

/// The first piece of `s.split(sep)` is the text before the first `sep`, or all
/// of `s` when there is none.
proof fn lemma_split_first_piece(s: Seq<char>, sep: char)
    ensures
        ({
            let p = split_on(s, sep)[0];
            &&& p == s.take(p.len() as int)
            &&& !p.contains(sep)
            &&& p.len() <= s.len()
            &&& (p.len() == s.len() || s[p.len() as int] == sep)
        }),
{
    lemma_split_state_first(s, sep);
    let (done, cur) = split_state(s, sep);
    if done.len() == 0 {
        assert(split_on(s, sep)[0] == cur);
        assert(s =~= s.take(s.len() as int));
    } else {
        assert(split_on(s, sep)[0] == done[0]);
    }
}

/// What the preview server does with a request.
pub enum Route {
    /// Serve a file of the preview directory; the path as requested (`/` for the index page).
    Static(String),
    /// The JSON tokens.
    Tokens,
    /// The SCSS tokens.
    Css,
    /// The configuration as JSON.
    GetConfig,
    /// Apply a configuration update.
    PostConfig,
    /// Mix two colours; `strength` is the raw parameter, if given.
    PerceptualMix { fg: String, bg: String, strength: Option<String> },
    /// The accent matrix.
    AccentMatrix,
    /// Nothing here.
    NotFound,
}

/// The text of a route.
pub enum RouteView {
    Static(Seq<char>),
    Tokens,
    Css,
    GetConfig,
    PostConfig,
    PerceptualMix { fg: Seq<char>, bg: Seq<char>, strength: Option<Seq<char>> },
    AccentMatrix,
    NotFound,
}

impl View for Route {
    type V = RouteView;

    open spec fn view(&self) -> RouteView {
        match self {
            Route::Static(p) => RouteView::Static(p@),
            Route::Tokens => RouteView::Tokens,
            Route::Css => RouteView::Css,
            Route::GetConfig => RouteView::GetConfig,
            Route::PostConfig => RouteView::PostConfig,
            Route::PerceptualMix { fg, bg, strength } => RouteView::PerceptualMix {
                fg: fg@,
                bg: bg@,
                strength: opt_text(*strength),
            },
            Route::AccentMatrix => RouteView::AccentMatrix,
            Route::NotFound => RouteView::NotFound,
        }
    }
}

/// The value of a query parameter, or `default`, percent-decoded.
pub open spec fn decoded_param(query: Seq<char>, key: Seq<char>, default: Seq<char>) -> Seq<char> {
    let raw = match param_value(split_on(query, '&'), key) {
        Some(v) => v,
        None => default,
    };
    percent_decode_bytes(encode_utf8(raw))
}

/// The route of a request. `GET /` and `GET /index.html` serve the index page and
/// any other `GET` outside `/api/` serves that file; then the API:
/// `GET /api/tokens`, `GET /api/css`, `GET` and `POST /api/config`,
/// `GET /api/perceptual-mix` with `fg` (default `#FFFFFF`) and `bg` (default
/// `#000000`) percent-decoded and the raw `strength`, and `GET /api/accent-matrix`.
/// Everything else is not found.
pub open spec fn route_spec(method: Seq<char>, url: Seq<char>) -> RouteView {
    let path = url_path(url);
    let get = method == "GET"@;
    if get && (path == "/"@ || path == "/index.html"@) {
        RouteView::Static("/"@)
    } else if get && !starts_with(path, "/api/"@) {
        RouteView::Static(path)
    } else if get && path == "/api/tokens"@ {
        RouteView::Tokens
    } else if get && path == "/api/css"@ {
        RouteView::Css
    } else if get && path == "/api/config"@ {
        RouteView::GetConfig
    } else if method == "POST"@ && path == "/api/config"@ {
        RouteView::PostConfig
    } else if get && path == "/api/perceptual-mix"@ {
        RouteView::PerceptualMix {
            fg: decoded_param(url_query(url), "fg"@, "#FFFFFF"@),
            bg: decoded_param(url_query(url), "bg"@, "#000000"@),
            strength: param_value(split_on(url_query(url), '&'), "strength"@),
        }
    } else if get && path == "/api/accent-matrix"@ {
        RouteView::AccentMatrix
    } else {
        RouteView::NotFound
    }
}

/// A static request names the path of its URL: for a `GET`, the route is
/// `Static(p)` exactly when the path (the URL's text before its first `?`) is not
/// under `/api/`, and then `p` is `/` for `/` and `/index.html` and otherwise that
/// path: a prefix of the URL that holds no `?` and ends where the URL ends or at
/// its first `?`. Nothing but a `GET` is served statically.
pub proof fn lemma_static_route(method: Seq<char>, url: Seq<char>)
    ensures
        route_spec(method, url) is Static ==> method == "GET"@,
        route_spec(method, url) matches RouteView::Static(p) ==> p == "/"@ || ({
            &&& p == url.take(p.len() as int)
            &&& !p.contains('?')
            &&& (p.len() == url.len() || url[p.len() as int] == '?')
            &&& !starts_with(p, "/api/"@)
        }),
        method == "GET"@ && !starts_with(url_path(url), "/api/"@) ==> route_spec(method, url) is Static,
{
    lemma_split_first_piece(url, '?');
}

fn decode_param(pieces: &Vec<String>, key: &str, default: &str) -> (v: String)
    ensures
        v@ == percent_decode_bytes(
            encode_utf8(
                match param_value(texts(pieces@), key@) {
                    Some(x) => x,
                    None => default@,
                },
            ),
        ),
{
    match find_param(pieces, key) {
        Some(raw) => percent_decode(raw.as_str()),
        None => percent_decode(default),
    }
}

/// Decides what to do with a request from its method and URL.
pub fn route_request(method: &str, url: &str) -> (r: Route)
    ensures
        r@ == route_spec(method@, url@),
{
    let parts = split_chars(url, '?');
    let path = parts[0].as_str();
    let get = str_eq_exec(method, "GET");
    if get && (str_eq_exec(path, "/") || str_eq_exec(path, "/index.html")) {
        Route::Static(String::from_str("/"))
    } else if get && !starts_with_exec(path, "/api/") {
        Route::Static(String::from_str(path))
    } else if get && str_eq_exec(path, "/api/tokens") {
        Route::Tokens
    } else if get && str_eq_exec(path, "/api/css") {
        Route::Css
    } else if get && str_eq_exec(path, "/api/config") {
        Route::GetConfig
    } else if str_eq_exec(method, "POST") && str_eq_exec(path, "/api/config") {
        Route::PostConfig
    } else if get && str_eq_exec(path, "/api/perceptual-mix") {
        let query = if parts.len() > 1 {
            parts[1].as_str()
        } else {
            ""
        };
        proof {
            reveal_strlit("");
            assert(query@ == url_query(url@));
        }
        let pieces = split_chars(query, '&');
        let fg = decode_param(&pieces, "fg", "#FFFFFF");
        let bg = decode_param(&pieces, "bg", "#000000");
        let strength = find_param(&pieces, "strength");
        Route::PerceptualMix { fg, bg, strength }
    } else if get && str_eq_exec(path, "/api/accent-matrix") {
        Route::AccentMatrix
    } else {
        Route::NotFound
    }
}

/// Strips every leading `c`.
pub open spec fn strip_leading(s: Seq<char>, c: char) -> Seq<char>
    decreases s.len(),
{
    if s.len() > 0 && s[0] == c {
        strip_leading(s.drop_first(), c)
    } else {
        s
    }
}

/// The file a static request names, relative to the preview directory:
/// `index.html` for `/` and `/index.html`, else the path without its leading `/`s.
pub open spec fn static_file_spec(path: Seq<char>) -> Seq<char> {
    if path == "/"@ || path == "/index.html"@ {
        "index.html"@
    } else {
        strip_leading(path, '/')
    }
}

/// The file a static request names, relative to the preview directory.
pub fn static_file(path: &str) -> (f: String)
    ensures
        f@ == static_file_spec(path@),
{
    if str_eq_exec(path, "/") || str_eq_exec(path, "/index.html") {
        return String::from_str("index.html");
    }
    let mut t = path;
    while t.unicode_len() > 0 && t.get_char(0) == '/'
        invariant
            strip_leading(t@, '/') == strip_leading(path@, '/'),
        decreases t@.len(),
    {
        let n = t.unicode_len();
        let rest = t.substring_char(1, n);
        assert(rest@ =~= t@.drop_first());
        t = rest;
    }
    String::from_str(t)
}

/// The content type served for a file extension.
pub open spec fn content_type_spec(ext: Seq<char>) -> Seq<char> {
    if ext == "html"@ {
        "text/html"@
    } else if ext == "css"@ {
        "text/css"@
    } else if ext == "js"@ {
        "application/javascript"@
    } else if ext == "json"@ {
        "application/json"@
    } else {
        "application/octet-stream"@
    }
}

/// The content type served for a file extension.
pub fn content_type(ext: &str) -> (ct: String)
    ensures
        ct@ == content_type_spec(ext@),
{
    if str_eq_exec(ext, "html") {
        String::from_str("text/html")
    } else if str_eq_exec(ext, "css") {
        String::from_str("text/css")
    } else if str_eq_exec(ext, "js") {
        String::from_str("application/javascript")
    } else if str_eq_exec(ext, "json") {
        String::from_str("application/json")
    } else {
        String::from_str("application/octet-stream")
    }
}

} // verus!
