use labui::preview::{
    content_type, find_param, percent_decode, route_request, split_chars, starts_with_exec,
    static_file, Route,
};

#[test]
fn percent_decode_plain_text_is_unchanged() {
    assert_eq!(percent_decode("#FFFFFF"), "#FFFFFF");
    assert_eq!(percent_decode(""), "");
}

#[test]
fn percent_decode_escapes() {
    assert_eq!(percent_decode("%23FF0000"), "#FF0000");
    assert_eq!(percent_decode("a%20b"), "a b");
    assert_eq!(percent_decode("%2b%2B"), "++");
}

#[test]
fn percent_decode_needs_two_bytes_after_the_sign() {
    assert_eq!(percent_decode("%41"), "A");
    assert_eq!(percent_decode("%4"), "%4");
    assert_eq!(percent_decode("x%4"), "x%4");
}

#[test]
fn percent_decode_keeps_bad_escapes() {
    assert_eq!(percent_decode("%zz1"), "%zz1");
    assert_eq!(percent_decode("100%"), "100%");
    // A plus sign and one digit is a number to `from_str_radix`.
    assert_eq!(percent_decode("%+Ax"), "\nx");
}

#[test]
fn percent_decode_works_bytewise() {
    // "é" is the bytes C3 A9; each becomes the character with that code.
    assert_eq!(percent_decode("é"), "\u{c3}\u{a9}");
    assert_eq!(percent_decode("%C3%A9x"), "\u{c3}\u{a9}x");
}

#[test]
fn split_like_str_split() {
    assert_eq!(split_chars("a&b&&c", '&'), vec!["a", "b", "", "c"]);
    assert_eq!(split_chars("", '&'), vec![""]);
    assert_eq!(split_chars("x?", '?'), vec!["x", ""]);
}

#[test]
fn last_parameter_wins_and_value_keeps_equals() {
    let pieces = split_chars("fg=1&bg=2&fg=3&flag&eq=a=b", '&');
    assert_eq!(find_param(&pieces, "fg"), Some("3".to_string()));
    assert_eq!(find_param(&pieces, "bg"), Some("2".to_string()));
    assert_eq!(find_param(&pieces, "flag"), None);
    assert_eq!(find_param(&pieces, "eq"), Some("a=b".to_string()));
    assert_eq!(find_param(&pieces, "none"), None);
}

#[test]
fn static_routes() {
    match route_request("GET", "/") {
        Route::Static(p) => assert_eq!(p, "/"),
        _ => panic!("expected static"),
    }
    match route_request("GET", "/index.html?x=1") {
        Route::Static(p) => assert_eq!(p, "/"),
        _ => panic!("expected static"),
    }
    match route_request("GET", "/app.js") {
        Route::Static(p) => assert_eq!(p, "/app.js"),
        _ => panic!("expected static"),
    }
}

#[test]
fn api_routes() {
    assert!(matches!(route_request("GET", "/api/tokens"), Route::Tokens));
    assert!(matches!(route_request("GET", "/api/css"), Route::Css));
    assert!(matches!(route_request("GET", "/api/config"), Route::GetConfig));
    assert!(matches!(route_request("POST", "/api/config"), Route::PostConfig));
    assert!(matches!(route_request("GET", "/api/accent-matrix"), Route::AccentMatrix));
    assert!(matches!(route_request("GET", "/api/unknown"), Route::NotFound));
    assert!(matches!(route_request("POST", "/"), Route::NotFound));
    assert!(matches!(route_request("DELETE", "/api/config"), Route::NotFound));
}

#[test]
fn perceptual_mix_parameters() {
    match route_request("GET", "/api/perceptual-mix?fg=%23FF0000&strength=0.25") {
        Route::PerceptualMix { fg, bg, strength } => {
            assert_eq!(fg, "#FF0000");
            assert_eq!(bg, "#000000");
            assert_eq!(strength, Some("0.25".to_string()));
        }
        _ => panic!("expected perceptual mix"),
    }
    match route_request("GET", "/api/perceptual-mix") {
        Route::PerceptualMix { fg, bg, strength } => {
            assert_eq!(fg, "#FFFFFF");
            assert_eq!(bg, "#000000");
            assert_eq!(strength, None);
        }
        _ => panic!("expected perceptual mix"),
    }
    // Only the text between the first and the second `?` is the query.
    match route_request("GET", "/api/perceptual-mix?bg=%23111111?fg=%23222222") {
        Route::PerceptualMix { fg, bg, .. } => {
            assert_eq!(fg, "#FFFFFF");
            assert_eq!(bg, "#111111");
        }
        _ => panic!("expected perceptual mix"),
    }
}

#[test]
fn static_file_names() {
    assert_eq!(static_file("/"), "index.html");
    assert_eq!(static_file("/index.html"), "index.html");
    assert_eq!(static_file("//css/app.css"), "css/app.css");
}

#[test]
fn content_types() {
    assert_eq!(content_type("html"), "text/html");
    assert_eq!(content_type("css"), "text/css");
    assert_eq!(content_type("js"), "application/javascript");
    assert_eq!(content_type("json"), "application/json");
    assert_eq!(content_type("png"), "application/octet-stream");
}

#[test]
fn prefix_test() {
    assert!(starts_with_exec("/api/x", "/api/"));
    assert!(!starts_with_exec("/ap", "/api/"));
}
