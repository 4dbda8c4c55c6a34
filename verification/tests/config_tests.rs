use as2expert_desktop::config::{config_dir, config_file, AppPath, Config, Platform};
use as2expert_desktop::json::{JsonValue, Record};

fn cfg(env: &str, base: &str, token: &str, remember: bool) -> Config {
    Config {
        environment: env.to_string(),
        base_url: base.to_string(),
        token: token.to_string(),
        remember_token: remember,
    }
}

#[test]
fn custom_base_url_is_trimmed_without_trailing_slashes() {
    let c = cfg("custom", "  https://host/api/v1//  ", "", false);
    assert_eq!(c.resolved_base_url(None), "https://host/api/v1");
    assert_eq!(c.resolved_base_url(Some("https://ignored".to_string())), "https://host/api/v1");
    assert_eq!(cfg("custom", " / ", "", false).resolved_base_url(None), "");
}

#[test]
fn named_environment_uses_the_known_url() {
    let c = cfg("free", "https://x/", "", false);
    assert_eq!(c.resolved_base_url(Some("https://free.as2expert.com/api/v1".to_string())), "https://free.as2expert.com/api/v1");
    assert_eq!(c.resolved_base_url(None), "");
}

#[test]
fn load_defaults_and_fields() {
    let d = Config::load_from(None);
    assert_eq!(d.environment, "free");
    assert_eq!(d.base_url, "");
    assert_eq!(d.token, "");
    assert!(!d.remember_token);

    let doc = Record {
        entries: vec![
            ("environment".to_string(), JsonValue::Str("custom".to_string())),
            ("base_url".to_string(), JsonValue::Str("https://h".to_string())),
            ("token".to_string(), JsonValue::Str("abc".to_string())),
        ],
    };
    let c = Config::load_from(Some(&doc));
    assert_eq!(c.environment, "custom");
    assert_eq!(c.base_url, "https://h");
    assert_eq!(c.token, "abc");
    assert!(c.remember_token);

    let partial = Record { entries: vec![("token".to_string(), JsonValue::Str(String::new())), ("environment".to_string(), JsonValue::Bool(true))] };
    let p = Config::load_from(Some(&partial));
    assert_eq!(p.environment, "free");
    assert!(!p.remember_token);
}

#[test]
fn token_is_saved_only_when_remembered() {
    for (remember, expect) in [(true, "secret"), (false, "")] {
        let c = cfg("b2b", "u", "secret", remember);
        let doc = c.saved_document();
        let back = Config::load_from(Some(&doc));
        assert_eq!(back.environment, "b2b");
        assert_eq!(back.base_url, "u");
        assert_eq!(back.token, expect);
        assert_eq!(back.remember_token, remember);
    }
}

fn parts(p: &AppPath) -> Vec<&str> {
    p.parts.iter().map(|s| s.as_str()).collect()
}

#[test]
fn config_dir_per_platform() {
    let w = config_dir(Platform::Windows, Some("C:\\Users\\a\\AppData".to_string()), Some("h".to_string()), None).unwrap();
    assert_eq!(w.root, "C:\\Users\\a\\AppData");
    assert_eq!(parts(&w), vec!["as2expert"]);
    assert!(config_dir(Platform::Windows, None, Some("h".to_string()), None).is_none());

    let m = config_dir(Platform::MacOs, None, Some("/Users/a".to_string()), None).unwrap();
    assert_eq!(parts(&m), vec!["Library/Application Support/as2expert"]);

    let x = config_dir(Platform::Other, None, Some("/home/a".to_string()), Some("/xdg".to_string())).unwrap();
    assert_eq!(x.root, "/xdg");
    assert_eq!(parts(&x), vec!["as2expert"]);
    let h = config_dir(Platform::Other, None, Some("/home/a".to_string()), None).unwrap();
    assert_eq!(h.root, "/home/a");
    assert_eq!(parts(&h), vec![".config", "as2expert"]);
    assert!(config_dir(Platform::Other, None, None, None).is_none());
}

#[test]
fn config_file_is_inside_the_dir() {
    let d = config_dir(Platform::Other, None, Some("/home/a".to_string()), None);
    let f = config_file(d).unwrap();
    assert_eq!(parts(&f), vec![".config", "as2expert", "config.json"]);
    assert!(config_file(None).is_none());
}

#[test]
fn settings_text_is_parsed_as_json() {
    let c = Config::load_text(Some("{\"environment\":\"b2b\",\"base_url\":\"https://x\",\"token\":\"abc\"}"));
    assert_eq!(c.environment, "b2b");
    assert_eq!(c.base_url, "https://x");
    assert_eq!(c.token, "abc");
    assert!(c.remember_token);

    let d = Config::load_text(Some("{\"environment\": 5, \"token\": \"\"}"));
    assert_eq!(d.environment, "free");
    assert!(!d.remember_token);

    for text in [Some("not json"), Some("[1, 2]"), Some(""), None] {
        let e = Config::load_text(text);
        assert_eq!(e.environment, "free");
        assert_eq!(e.base_url, "");
        assert_eq!(e.token, "");
        assert!(!e.remember_token);
    }
}

#[test]
fn white_space_is_trimmed_as_std_trims_it() {
    for u in 0u32..0x3100 {
        if let Some(c) = char::from_u32(u) {
            let base = format!("{c}a/{c}");
            let expect = base.trim().trim_end_matches('/').to_string();
            assert_eq!(cfg("custom", &base, "", false).resolved_base_url(None), expect, "U+{u:04X}");
        }
    }
    assert_eq!(cfg("custom", "\u{3000}https://h/\u{2003}", "", false).resolved_base_url(None), "https://h");
}
