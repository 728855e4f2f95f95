use cxlib_app::config::{cookies_key, CommonDataTable, ConfigCmdApp, ConfigKey, ConfigParser, KeyType};

#[test]
fn parse_key_with_identifier() {
    let (identifier, key) = ConfigParser::parse_key("net.proxy".to_string()).into_identifier_key();
    assert_eq!(identifier, "net");
    assert_eq!(key, "proxy");
}

#[test]
fn parse_key_without_identifier_is_default() {
    let (identifier, key) = ConfigParser::parse_key("proxy".to_string()).into_identifier_key();
    assert_eq!(identifier, "default");
    assert_eq!(key, "proxy");
}

#[test]
fn config_key_row() {
    let k = ConfigKey::from_identifier_key(("a".to_string(), "b".to_string())).to_key_type();
    assert_eq!(k.block, "config");
    assert_eq!(k.identifier, "a");
    assert_eq!(k.key, "b");
}

#[test]
fn set_then_get_gives_the_value() {
    let mut t = CommonDataTable::new();
    let r = ConfigCmdApp::run(
        &mut t,
        ConfigParser::SetValue { key: "ui.lang".to_string(), value: "zh".to_string() },
    );
    assert_eq!(r, None);
    let got = ConfigCmdApp::run(&mut t, ConfigParser::Get { key: "ui.lang".to_string() });
    assert_eq!(got, Some("zh".to_string()));
    let other = ConfigCmdApp::run(&mut t, ConfigParser::Get { key: "ui.theme".to_string() });
    assert_eq!(other, None);
    let replaced = ConfigCmdApp::run(
        &mut t,
        ConfigParser::SetValue { key: "ui.lang".to_string(), value: "en".to_string() },
    );
    assert_eq!(replaced, Some("zh".to_string()));
}

#[test]
fn bare_key_is_the_default_identifier() {
    let mut t = CommonDataTable::new();
    ConfigCmdApp::run(
        &mut t,
        ConfigParser::SetValue { key: "lang".to_string(), value: "zh".to_string() },
    );
    let got = ConfigCmdApp::run(&mut t, ConfigParser::Get { key: "default.lang".to_string() });
    assert_eq!(got, Some("zh".to_string()));
}

#[test]
fn unset_then_get_gives_nothing() {
    let mut t = CommonDataTable::new();
    ConfigCmdApp::run(&mut t, ConfigParser::SetValue { key: "a.b".to_string(), value: "1".to_string() });
    let old = ConfigCmdApp::run(&mut t, ConfigParser::Unset { key: "a.b".to_string() });
    assert_eq!(old, Some("1".to_string()));
    assert_eq!(ConfigCmdApp::run(&mut t, ConfigParser::Get { key: "a.b".to_string() }), None);
}

#[test]
fn cookies_are_kept_by_account_and_login_type() {
    let mut t = CommonDataTable::new();
    t.store_cookies("c1".to_string(), "1001", "pwd");
    assert_eq!(t.cookies_of("1001", "pwd"), Some("c1".to_string()));
    assert_eq!(t.cookies_of("1001", "qr"), None);
    let k: KeyType = cookies_key("1001", "pwd");
    assert_eq!(k.block, "cookies");
    assert_eq!(t.get(&k), Some("c1".to_string()));
    assert_eq!(t.remove(&k), Some("c1".to_string()));
    assert_eq!(t.iter().len(), 0);
}
