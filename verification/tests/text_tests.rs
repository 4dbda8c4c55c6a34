use as2expert_desktop::forms::parse_i64;
use as2expert_desktop::text::{contains, date_fits, pretty_env, pretty_key, sanitize_file_stem, short_date, trunc};

#[test]
fn pretty_key_title_cases_snake_case() {
    assert_eq!(pretty_key("partner_as2_id"), "Partner As2 Id");
    assert_eq!(pretty_key("name"), "Name");
    assert_eq!(pretty_key("_x__y"), " X  Y");
    assert_eq!(pretty_key(""), "");
    assert_eq!(pretty_key("straße"), "Straße");
    assert_eq!(pretty_key("ßx"), "SSx");
}

#[test]
fn pretty_env_labels() {
    assert_eq!(pretty_env("b2b"), "B2B — b2b.as2expert.com");
    assert_eq!(pretty_env("custom"), "Custom base URL");
    assert_eq!(pretty_env("free"), "Free — free.as2expert.com");
    assert_eq!(pretty_env("anything"), "Free — free.as2expert.com");
}

#[test]
fn short_date_cuts_fraction_and_seconds() {
    assert_eq!(short_date("2024-05-01T10:20:30.123Z"), "2024-05-01T10:20");
    assert_eq!(short_date("2024-05-01 10:20:30"), "2024-05-01 10:20");
    assert_eq!(short_date("2024-05-01"), "2024-05-01");
    assert_eq!(short_date("12.5"), "12");
    assert_eq!(short_date(""), "");
}

#[test]
fn date_fits_checks_the_cut() {
    assert!(date_fits("2024-05-01T10:20:30"));
    assert!(date_fits("short"));
    // 15 ASCII bytes then a two-byte character straddling byte 16.
    assert!(!date_fits("aaaaaaaaaaaaaaaé"));
    assert!(date_fits("aaaaaaaaaaaaaaaa.é"));
}

#[test]
fn trunc_keeps_short_names_and_ellipsizes_long_ones() {
    assert_eq!(trunc("Inbox", 22), "Inbox");
    assert_eq!(trunc("abcdef", 4), "abc…");
    assert_eq!(trunc("abcd", 4), "abcd");
    assert_eq!(trunc("abc", 0), "…");
    assert_eq!(trunc("ééééé", 3), "éé…");
}

#[test]
fn contains_finds_substrings() {
    assert!(contains("hello world", "lo w"));
    assert!(contains("hello", ""));
    assert!(!contains("hello", "world"));
    assert!(!contains("ab", "abc"));
    assert!(contains("abc", "abc"));
}

#[test]
fn sanitize_replaces_unsafe_characters() {
    let s: String = sanitize_file_stem("<msg id=42>/a-b_c").into_iter().collect();
    assert_eq!(s, "_msg_id_42__a-b_c");
    let t: String = sanitize_file_stem("héllo").into_iter().collect();
    assert_eq!(t, "héllo");
}

#[test]
fn parse_i64_follows_str_parse() {
    let p = |s: &str| parse_i64(&s.chars().collect::<Vec<char>>());
    assert_eq!(p("365"), Some(365));
    assert_eq!(p("+7"), Some(7));
    assert_eq!(p("-12"), Some(-12));
    assert_eq!(p(""), None);
    assert_eq!(p("-"), None);
    assert_eq!(p("+"), None);
    assert_eq!(p("1a"), None);
    assert_eq!(p("9223372036854775807"), Some(i64::MAX));
    assert_eq!(p("9223372036854775808"), None);
    assert_eq!(p("-9223372036854775808"), Some(i64::MIN));
    assert_eq!(p("-9223372036854775809"), None);
    for s in ["0", "+0", "-0", "00042", "x", " 1", "99999999999999999999"] {
        assert_eq!(p(s), s.parse::<i64>().ok(), "{s}");
    }
}
