use ciri::config_gen::{escape_toml_string, generate_config};

#[test]
fn escapes_toml_specials() {
    assert_eq!(escape_toml_string(r#"a"b\c"#), r#"a\"b\\c"#);
    assert_eq!(escape_toml_string("l1\nl2\r\tx"), "l1\\nl2\\r\\tx");
    assert_eq!(escape_toml_string("plain"), "plain");
}

#[test]
fn generated_config_embeds_answers() {
    let text = generate_config("sticky", "ctrl+a", "nord", "bottom", "/bin/zsh", "JetBrains \"Mono\"");
    assert!(text.starts_with("# Ciritty configuration — generated by `ciritty init`\n\n[font]\nfamily = \"JetBrains \\\"Mono\\\"\"\n"));
    assert!(text.contains("shell = \"/bin/zsh\"\n"));
    assert!(text.contains("[statusbar]\nposition = \"bottom\"\n"));
    assert!(text.contains("[input]\nmode = \"sticky\"\n"));
    assert!(text.contains("[theme]\npreset = \"nord\"\n"));
    assert!(text.contains("[keys]\nleader = \"ctrl+a\"\n"));
    assert!(text.ends_with("tab = \"exit_overview\"\n"));
}
