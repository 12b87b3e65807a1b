use labui::config::AccentConfig;

#[test]
fn from_hex_stores_canonical() {
    let cfg = AccentConfig::from_hex("#007AFF");
    assert_eq!(cfg.canonical, "#007AFF");
}
