use kartel::config::config;

#[test]
fn config_keeps_the_token() {
    let cfg = config(Some("123:abc".to_string()));
    assert_eq!(cfg.bot_token, "123:abc");
}

#[test]
fn config_defaults_to_an_empty_token() {
    let cfg = config(None);
    assert_eq!(cfg.bot_token, "");
}
