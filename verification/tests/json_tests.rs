use as2expert_desktop::json::{bool_dir, sfield, value_str, JsonNumber, JsonValue, Record};

fn s(x: &str) -> JsonValue {
    JsonValue::Str(x.to_string())
}

fn rec(entries: Vec<(&str, JsonValue)>) -> Record {
    Record { entries: entries.into_iter().map(|(k, v)| (k.to_string(), v)).collect() }
}

#[test]
fn sfield_takes_first_present_non_empty_value() {
    let r = rec(vec![
        ("subject", s("")),
        ("asunto", s("Pedido 12")),
        ("n", JsonValue::Number(JsonNumber::PosInt(42))),
        ("neg", JsonValue::Number(JsonNumber::NegInt(-3))),
        ("f", JsonValue::Number(JsonNumber::Float("1.5".to_string()))),
        ("b", JsonValue::Bool(true)),
        ("null", JsonValue::Null),
        ("arr", JsonValue::Composite("[1,2]".to_string())),
    ]);
    assert_eq!(sfield(&r, &["subject", "asunto"]), "Pedido 12");
    assert_eq!(sfield(&r, &["n"]), "42");
    assert_eq!(sfield(&r, &["neg"]), "-3");
    assert_eq!(sfield(&r, &["f"]), "1.5");
    assert_eq!(sfield(&r, &["b"]), "true");
    assert_eq!(sfield(&r, &["null", "arr", "missing"]), "");
    assert_eq!(sfield(&r, &["missing", "n"]), "42");
    assert_eq!(sfield(&r, &[]), "");
}

#[test]
fn sfield_uses_the_first_entry_of_a_key() {
    let r = rec(vec![("k", s("one")), ("k", s("two"))]);
    assert_eq!(sfield(&r, &["k"]), "one");
}

#[test]
fn value_str_renders_scalars() {
    assert_eq!(value_str(&s("x")), "x");
    assert_eq!(value_str(&JsonValue::Bool(true)), "yes");
    assert_eq!(value_str(&JsonValue::Bool(false)), "no");
    assert_eq!(value_str(&JsonValue::Null), "");
    assert_eq!(value_str(&JsonValue::Number(JsonNumber::PosInt(18446744073709551615))), "18446744073709551615");
    assert_eq!(value_str(&JsonValue::Number(JsonNumber::NegInt(i64::MIN))), "-9223372036854775808");
    assert_eq!(value_str(&JsonValue::Composite("{\"a\":1}".to_string())), "{\"a\":1}");
}

#[test]
fn bool_dir_prefers_incoming() {
    assert!(bool_dir(&rec(vec![("incoming", JsonValue::Bool(true))])));
    assert!(bool_dir(&rec(vec![("entrante", JsonValue::Bool(true))])));
    assert!(!bool_dir(&rec(vec![("incoming", JsonValue::Null), ("entrante", JsonValue::Bool(true))])));
    assert!(!bool_dir(&rec(vec![])));
    assert!(!bool_dir(&rec(vec![("incoming", s("true"))])));
}

#[test]
fn record_numbers_read_like_serde_json() {
    let big = JsonValue::Number(JsonNumber::PosInt(u64::MAX));
    assert_eq!(big.as_i64(), None);
    assert_eq!(big.as_u64(), Some(u64::MAX));
    let neg = JsonValue::Number(JsonNumber::NegInt(-1));
    assert_eq!(neg.as_i64(), Some(-1));
    assert_eq!(neg.as_u64(), None);
    let f = JsonValue::Number(JsonNumber::Float("2.0".to_string()));
    assert_eq!(f.as_i64(), None);
    assert_eq!(f.as_u64(), None);
}
