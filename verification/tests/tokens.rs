use labui::config::{resolve_bg_anchors, IcAnchors, ScaleAnchors};
use labui::strmap::StrMap;
use labui::tokens::{
    collect_accent_vars, collect_neutral_blocks, emit_css_and_json, generate, push_neutral_vars,
    selector_theme, theme_background, Blocks, GenerateError, NeutralScales, ResolvedAccent, Theme,
};

fn strings(v: &[&str]) -> Vec<String> {
    v.iter().map(|s| s.to_string()).collect()
}

fn vars(v: &[(String, String)]) -> Vec<(&str, &str)> {
    v.iter().map(|(a, b)| (a.as_str(), b.as_str())).collect()
}

#[test]
fn push_creates_block_numbers_and_lowercases() {
    let mut blocks: Blocks = StrMap::new();
    push_neutral_vars(&mut blocks, ":root", "root-", "neutral", &strings(&["#FFFFFF", "#AbCdEf"]));
    assert_eq!(blocks.len(), 1);
    let block = blocks.get(":root").unwrap();
    assert_eq!(block.json_prefix, "root-");
    assert_eq!(
        vars(&block.neutral_vars),
        vec![("--neutral-0", "#ffffff"), ("--neutral-1", "#abcdef")]
    );
    assert!(block.accent_vars.is_empty());
}

#[test]
fn push_into_existing_block_keeps_its_prefix_and_appends() {
    let mut blocks: Blocks = StrMap::new();
    push_neutral_vars(&mut blocks, ".dark", "dark-", "neutral", &strings(&["#000000"]));
    push_neutral_vars(&mut blocks, ".dark", "other-", "gray", &strings(&["#111111", "#222222"]));
    assert_eq!(blocks.len(), 1);
    let block = blocks.get(".dark").unwrap();
    assert_eq!(block.json_prefix, "dark-");
    assert_eq!(
        vars(&block.neutral_vars),
        vec![("--neutral-0", "#000000"), ("--gray-0", "#111111"), ("--gray-1", "#222222")]
    );
}

#[test]
fn push_leaves_other_blocks_alone() {
    let mut blocks: Blocks = StrMap::new();
    push_neutral_vars(&mut blocks, ":root", "root-", "neutral", &strings(&["#FFFFFF"]));
    push_neutral_vars(&mut blocks, ".ic", "ic-", "neutral", &strings(&["#EEEEEE"]));
    let root = blocks.get(":root").unwrap();
    assert_eq!(vars(&root.neutral_vars), vec![("--neutral-0", "#ffffff")]);
    // Blocks are kept in key order: '.' sorts before ':'.
    assert_eq!(blocks.key_at(0), ".ic");
    assert_eq!(blocks.key_at(1), ":root");
}

#[test]
fn step_numbers_go_past_nine() {
    let mut blocks: Blocks = StrMap::new();
    let scale: Vec<String> = (0..13).map(|i| format!("#0000{:02X}", i)).collect();
    push_neutral_vars(&mut blocks, ":root", "root-", "n", &scale);
    let block = blocks.get(":root").unwrap();
    assert_eq!(block.neutral_vars.len(), 13);
    assert_eq!(block.neutral_vars[10].0, "--n-10");
    assert_eq!(block.neutral_vars[12], ("--n-12".to_string(), "#00000c".to_string()));
}

#[test]
fn selectors_map_to_themes() {
    assert_eq!(selector_theme(":root"), Some(Theme::Light));
    assert_eq!(selector_theme(".dark"), Some(Theme::Dark));
    assert_eq!(selector_theme(".ic"), Some(Theme::LightIc));
    assert_eq!(selector_theme(".dark.ic"), Some(Theme::DarkIc));
    assert_eq!(selector_theme(".other"), None);
    assert!(Theme::DarkIc.is_dark() && Theme::DarkIc.is_ic());
    assert!(!Theme::Light.is_dark() && !Theme::Light.is_ic());
}

fn neutral_anchors(ic: bool) -> StrMap<ScaleAnchors> {
    let mut m = StrMap::new();
    m.insert(
        "neutral".to_string(),
        ScaleAnchors {
            light: "#FFFFFF".to_string(),
            base: "#787880".to_string(),
            dark: "#101012".to_string(),
            ic: if ic {
                Some(IcAnchors {
                    light: "#FAFAFA".to_string(),
                    base: "#72727A".to_string(),
                    dark: "#000000".to_string(),
                })
            } else {
                None
            },
        },
    );
    m
}

#[test]
fn background_anchors_come_from_the_neutral_scale() {
    let a = resolve_bg_anchors(&neutral_anchors(true));
    assert_eq!(
        a,
        (
            "#FFFFFF".to_string(),
            "#101012".to_string(),
            Some("#FAFAFA".to_string()),
            Some("#000000".to_string())
        )
    );
    assert_eq!(theme_background(Theme::LightIc, &a), "#FAFAFA");
    assert_eq!(theme_background(Theme::DarkIc, &a), "#000000");
    let b = resolve_bg_anchors(&neutral_anchors(false));
    assert_eq!(theme_background(Theme::LightIc, &b), "#FFFFFF");
    assert_eq!(theme_background(Theme::DarkIc, &b), "#101012");
}

#[test]
fn background_anchors_default_without_neutral() {
    let a = resolve_bg_anchors(&StrMap::new());
    assert_eq!(a, ("#FFFFFF".to_string(), "#101012".to_string(), None, None));
    assert_eq!(theme_background(Theme::Light, &a), "#FFFFFF");
    assert_eq!(theme_background(Theme::Dark, &a), "#101012");
}

fn scales(name: &str, ic: Option<(Result<Vec<String>, String>, Result<Vec<String>, String>)>) -> NeutralScales {
    NeutralScales {
        name: name.to_string(),
        light: Ok(strings(&["#FFFFFF", "#787880"])),
        dark: Ok(strings(&["#101012", "#888890"])),
        ic,
    }
}

#[test]
fn neutral_blocks_per_theme() {
    let blocks = collect_neutral_blocks(&vec![scales(
        "neutral",
        Some((Ok(strings(&["#FAFAFA"])), Ok(strings(&["#000000"])))),
    )])
    .unwrap();
    assert_eq!(blocks.len(), 4);
    assert_eq!(blocks.get(":root").unwrap().json_prefix, "root-");
    assert_eq!(blocks.get(".dark").unwrap().json_prefix, "dark-");
    assert_eq!(blocks.get(".ic").unwrap().json_prefix, "ic-");
    assert_eq!(blocks.get(".dark.ic").unwrap().json_prefix, "dark-ic-");
    assert_eq!(
        vars(&blocks.get(".dark").unwrap().neutral_vars),
        vec![("--neutral-0", "#101012"), ("--neutral-1", "#888890")]
    );
    let without_ic = collect_neutral_blocks(&vec![scales("neutral", None)]).unwrap();
    assert_eq!(without_ic.len(), 2);
}

#[test]
fn neutral_scale_errors_name_the_scale() {
    let mut bad = scales("gray", None);
    bad.dark = Err("expected #RRGGBB, got #12".to_string());
    match collect_neutral_blocks(&vec![scales("neutral", None), bad]) {
        Err(GenerateError::NeutralScale { name, source }) => {
            assert_eq!(name, "gray");
            assert_eq!(source, "expected #RRGGBB, got #12");
        }
        _ => panic!("expected a scale error"),
    }
    let ic_bad = scales("neutral", Some((Ok(strings(&["#FFFFFF"])), Err("bad".to_string()))));
    match collect_neutral_blocks(&vec![ic_bad]) {
        Err(GenerateError::NeutralScale { name, .. }) => assert_eq!(name, "neutral IC dark"),
        _ => panic!("expected a scale error"),
    }
    let ic_bad = scales("neutral", Some((Err("bad".to_string()), Err("worse".to_string()))));
    match collect_neutral_blocks(&vec![ic_bad]) {
        Err(GenerateError::NeutralScale { name, source }) => {
            assert_eq!(name, "neutral IC light");
            assert_eq!(source, "bad");
        }
        _ => panic!("expected a scale error"),
    }
}

fn accent(name: &str, light: &str, dark: Result<&str, &str>) -> ResolvedAccent {
    ResolvedAccent {
        name: name.to_string(),
        light: Ok(light.to_string()),
        dark: dark.map(|s| s.to_string()).map_err(|s| s.to_string()),
        light_ic: Ok("#0040DD".to_string()),
        dark_ic: Ok("#409CFF".to_string()),
    }
}

#[test]
fn accents_go_to_each_theme_block() {
    let mut blocks = collect_neutral_blocks(&vec![scales("neutral", None)]).unwrap();
    collect_accent_vars(&vec![accent("brand", "#007AFF", Ok("#4A8FFF"))], &mut blocks).unwrap();
    assert_eq!(
        vars(&blocks.get(":root").unwrap().accent_vars),
        vec![("--accent-brand", "#007aff")]
    );
    assert_eq!(
        vars(&blocks.get(".dark").unwrap().accent_vars),
        vec![("--accent-brand", "#4a8fff")]
    );
}

#[test]
fn an_unresolvable_accent_stops_the_run() {
    let mut blocks = collect_neutral_blocks(&vec![scales("neutral", None)]).unwrap();
    let r = collect_accent_vars(
        &vec![accent("brand", "#007AFF", Err("apca_inverse failed"))],
        &mut blocks,
    );
    match r {
        Err(GenerateError::AccentResolve { name, source }) => {
            assert_eq!(name, "brand");
            assert_eq!(source, "apca_inverse failed");
        }
        _ => panic!("expected an accent error"),
    }
}

#[test]
fn themes_without_a_block_are_not_consulted() {
    // No increased-contrast blocks, so the failing increased-contrast colour is never read.
    let mut blocks = collect_neutral_blocks(&vec![scales("neutral", None)]).unwrap();
    let mut a = accent("brand", "#007AFF", Ok("#4A8FFF"));
    a.light_ic = Err("unused".to_string());
    assert!(collect_accent_vars(&vec![a], &mut blocks).is_ok());
}

#[test]
fn scss_lists_blocks_in_theme_order() {
    let mut blocks = collect_neutral_blocks(&vec![scales(
        "neutral",
        Some((Ok(strings(&["#FAFAFA"])), Ok(strings(&["#000000"])))),
    )])
    .unwrap();
    collect_accent_vars(&vec![accent("brand", "#007AFF", Ok("#4A8FFF"))], &mut blocks).unwrap();
    let (scss, json) = emit_css_and_json(blocks).unwrap();
    assert_eq!(
        scss,
        ":root {\n  --neutral-0: #ffffff;\n  --neutral-1: #787880;\n  --accent-brand: #007aff;\n}\n\
         .dark {\n  --neutral-0: #101012;\n  --neutral-1: #888890;\n  --accent-brand: #4a8fff;\n}\n\
         .ic {\n  --neutral-0: #fafafa;\n  --accent-brand: #0040dd;\n}\n\
         .dark.ic {\n  --neutral-0: #000000;\n  --accent-brand: #409cff;\n}\n"
    );
    let parsed: serde_json::Value = serde_json::from_str(&json).unwrap();
    assert_eq!(parsed["root---neutral-1"], "#787880");
    assert_eq!(parsed["dark-ic---accent-brand"], "#409cff");
    assert_eq!(parsed.as_object().unwrap().len(), 10);
}

#[test]
fn json_is_pretty_printed_in_key_order() {
    let mut blocks: Blocks = StrMap::new();
    push_neutral_vars(&mut blocks, ":root", "root-", "b", &strings(&["#FFFFFF"]));
    push_neutral_vars(&mut blocks, ":root", "root-", "a", &strings(&["#000000"]));
    let (_, json) = emit_css_and_json(blocks).unwrap();
    assert_eq!(
        json,
        "{\n  \"root---a-0\": \"#000000\",\n  \"root---b-0\": \"#ffffff\"\n}"
    );
}

#[test]
fn unknown_selectors_are_not_printed() {
    let mut blocks: Blocks = StrMap::new();
    push_neutral_vars(&mut blocks, ".print", "print-", "n", &strings(&["#FFFFFF"]));
    let (scss, json) = emit_css_and_json(blocks).unwrap();
    assert_eq!(scss, "");
    assert_eq!(json, "{}");
}

#[test]
fn generate_runs_the_whole_pipeline() {
    let (scss, _) = generate(
        &vec![scales("neutral", None)],
        &vec![accent("brand", "#007AFF", Ok("#4A8FFF"))],
    )
    .unwrap();
    assert!(scss.starts_with(":root {\n  --neutral-0: #ffffff;\n"));
    assert!(scss.contains(".dark {\n"));
    assert!(!scss.contains(".ic"));
    // A scale error wins over an accent error.
    let mut bad = scales("neutral", None);
    bad.light = Err("bad light".to_string());
    match generate(&vec![bad], &vec![accent("brand", "#007AFF", Err("no"))]) {
        Err(GenerateError::NeutralScale { name, .. }) => assert_eq!(name, "neutral"),
        _ => panic!("expected a scale error"),
    }
}

#[test]
fn every_printed_variable_has_a_json_entry() {
    let mut blocks: Blocks = StrMap::new();
    push_neutral_vars(&mut blocks, ":root", "x-", "n", &strings(&["#FFFFFF", "#EEEEEE"]));
    push_neutral_vars(&mut blocks, ".dark", "x-", "n", &strings(&["#000000"]));
    let (scss, json) = emit_css_and_json(blocks).unwrap();
    let parsed: serde_json::Value = serde_json::from_str(&json).unwrap();
    let map = parsed.as_object().unwrap();
    for line in scss.lines().filter(|l| l.starts_with("  ")) {
        let name = line.trim_start().split(':').next().unwrap();
        assert!(map.contains_key(&format!("x-{}", name)));
    }
    // The two blocks share a prefix, so the later block's value is the one kept.
    assert_eq!(map.len(), 2);
    assert_eq!(parsed["x---n-0"], "#000000");
    assert_eq!(parsed["x---n-1"], "#eeeeee");
}

#[test]
fn json_strings_are_escaped() {
    let mut blocks: Blocks = StrMap::new();
    push_neutral_vars(&mut blocks, ":root", "r\"", "a\\b\t\u{1}é", &strings(&["#FFFFFF"]));
    let (_, json) = emit_css_and_json(blocks).unwrap();
    assert_eq!(
        json,
        "{\n  \"r\\\"--a\\\\b\\t\\u0001é-0\": \"#ffffff\"\n}"
    );
}

#[test]
fn error_messages_name_the_failing_item() {
    let e = GenerateError::NeutralScale { name: "neutral IC light".into(), source: "bad hex".into() };
    assert_eq!(e.message(), "error generating scale 'neutral IC light': bad hex");
    let e = GenerateError::AccentResolve { name: "brand".into(), source: "no colour".into() };
    assert_eq!(e.message(), "error resolving accent 'brand': no colour");
    let json_err = serde_json::from_str::<serde_json::Value>("{").unwrap_err();
    let e = GenerateError::JsonSerialize(json_err);
    assert!(e.message().starts_with("JSON serialization error: "));
}
