use labui::config::{
    default_json, default_scss, matrix_accents, output_plan, parse_args, variant_or_canonical,
    AccentConfig, Command, IcAnchors, OutputConfig, OutputPlan,
};
use labui::neutral::pin_scale_anchors;

fn args(v: &[&str]) -> Vec<String> {
    v.iter().map(|s| s.to_string()).collect()
}

fn format_of(v: &[&str]) -> Option<String> {
    match parse_args(&args(v)) {
        Command::Generate { format } => format,
        Command::Preview => panic!("unexpected preview"),
    }
}

#[test]
fn preview_command() {
    assert!(matches!(parse_args(&args(&["labui", "preview"])), Command::Preview));
    assert!(matches!(parse_args(&args(&["labui", "--format", "preview"])), Command::Generate { .. }));
}

#[test]
fn format_argument() {
    assert_eq!(format_of(&["labui"]), None);
    assert_eq!(format_of(&["labui", "--format", "css"]), Some("css".to_string()));
    assert_eq!(format_of(&["labui", "--format", "css", "--format", "json"]), Some("json".to_string()));
    assert_eq!(format_of(&["labui", "--format"]), None);
    assert_eq!(format_of(&["labui", "--output", "--format", "--format", "json"]), Some("json".to_string()));
    assert_eq!(format_of(&["labui", "--output", "-", "--format", "css"]), Some("css".to_string()));
}

#[test]
fn output_plans() {
    let files = OutputConfig { scss: default_scss(), json: default_json() };
    assert_eq!(output_plan(&Some("css".to_string()), &files), OutputPlan::PrintScss);
    assert_eq!(output_plan(&Some("json".to_string()), &files), OutputPlan::PrintJson);
    assert_eq!(output_plan(&None, &files), OutputPlan::WriteBoth);
    assert_eq!(output_plan(&Some("yaml".to_string()), &files), OutputPlan::WriteBoth);
    let both = OutputConfig { scss: "-".to_string(), json: "-".to_string() };
    assert_eq!(output_plan(&None, &both), OutputPlan::PrintBoth);
    let scss_out = OutputConfig { scss: "-".to_string(), json: "out.json".to_string() };
    assert_eq!(output_plan(&None, &scss_out), OutputPlan::PrintScssWriteJson);
    let json_out = OutputConfig { scss: "out.scss".to_string(), json: "-".to_string() };
    assert_eq!(output_plan(&None, &json_out), OutputPlan::PrintJsonWriteScss);
}

#[test]
fn default_paths() {
    assert_eq!(default_scss(), "dist/tokens.scss");
    assert_eq!(default_json(), "dist/tokens.json");
    let d = OutputConfig::default();
    assert_eq!(d.scss, "dist/tokens.scss");
    assert_eq!(d.json, "dist/tokens.json");
}

#[test]
fn incomplete_ic_anchors() {
    let full = IcAnchors { light: "#FFFFFF".into(), base: "#72727A".into(), dark: "#000000".into() };
    assert!(!full.is_incomplete());
    let partial = IcAnchors { light: "#FFFFFF".into(), base: "".into(), dark: "#000000".into() };
    assert!(partial.is_incomplete());
}

#[test]
fn accent_config_keeps_any_text() {
    assert_eq!(AccentConfig::from_hex("").canonical, "");
    assert_eq!(AccentConfig::from_hex("#4a8fff").canonical, "#4a8fff");
}

#[test]
fn neutral_scale_has_13_steps_with_exact_anchors() {
    let between: Vec<String> = (1..=10).map(|i| format!("#{:02X}{:02X}{:02X}", i, i, i)).collect();
    let scale = pin_scale_anchors("#FFFFFF", "#787880", "#101012", &between);
    assert_eq!(scale.len(), 13);
    assert_eq!(scale[0], "#FFFFFF");
    assert_eq!(scale[6], "#787880");
    assert_eq!(scale[12], "#101012");
    assert_eq!(scale[1], "#010101");
    assert_eq!(scale[5], "#050505");
    assert_eq!(scale[7], "#060606");
    assert_eq!(scale[11], "#0A0A0A");
}

#[test]
fn anchors_are_kept_as_written() {
    let between: Vec<String> = (0..10).map(|_| "#808080".to_string()).collect();
    let scale = pin_scale_anchors("#ffffff", "##787880", "#101012", &between);
    assert_eq!(scale[0], "#ffffff");
    assert_eq!(scale[6], "##787880");
}

#[test]
fn matrix_lists_builtin_accents_then_configured_ones() {
    let configured = vec![("brand".to_string(), "#123456".to_string())];
    let all = matrix_accents(&configured);
    assert_eq!(all.len(), 12);
    assert_eq!(all[0], ("Brand".to_string(), "#007AFF".to_string()));
    assert_eq!(all[7], ("Blue".to_string(), "#007AFF".to_string()));
    assert_eq!(all[10], ("Pink".to_string(), "#FF2D55".to_string()));
    assert_eq!(all[11], ("brand".to_string(), "#123456".to_string()));
}

#[test]
fn unresolved_variant_falls_back_to_canonical() {
    assert_eq!(variant_or_canonical(Ok("#4a8fff".to_string()), "#007AFF"), "#4a8fff");
    assert_eq!(variant_or_canonical(Err("no".to_string()), "#007AFF"), "#007AFF");
}
