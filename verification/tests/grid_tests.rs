use as2expert_desktop::json::{JsonNumber, JsonValue, Record};
use as2expert_desktop::messages::{mdn_ok, visible_indices, SortKey};

fn s(x: &str) -> JsonValue {
    JsonValue::Str(x.to_string())
}

fn msg(subject: &str, partner: &str, date: &str, mdn: &str) -> Record {
    Record {
        entries: vec![
            ("subject".to_string(), s(subject)),
            ("partner_name".to_string(), s(partner)),
            ("date".to_string(), s(date)),
            ("mdn".to_string(), s(mdn)),
        ],
    }
}

fn sample() -> Vec<Record> {
    vec![
        msg("Invoice 7", "ACME", "2024-01-02", "ok"),
        msg("order 3", "Beta Corp", "2024-01-03", ""),
        msg("ORDER 1", "acme", "2024-01-01", "failed"),
        msg("Invoice 7", "Gamma", "2024-01-02", "ok"),
    ]
}

#[test]
fn empty_search_shows_every_message_newest_first() {
    let m = sample();
    assert_eq!(visible_indices(&m, "", None, SortKey::Date, false), vec![1, 0, 3, 2]);
    assert_eq!(visible_indices(&m, "", None, SortKey::Date, true), vec![2, 0, 3, 1]);
}

#[test]
fn search_ignores_case_in_subject_and_partner() {
    let m = sample();
    assert_eq!(visible_indices(&m, "ACME", None, SortKey::Date, true), vec![2, 0]);
    assert_eq!(visible_indices(&m, "order", None, SortKey::Date, true), vec![2, 1]);
    assert_eq!(visible_indices(&m, "corp", None, SortKey::Date, true), vec![1]);
    assert!(visible_indices(&m, "ok", None, SortKey::Date, true).is_empty());
}

#[test]
fn text_columns_sort_without_case() {
    let m = sample();
    assert_eq!(visible_indices(&m, "", None, SortKey::Subject, true), vec![0, 3, 2, 1]);
    assert_eq!(visible_indices(&m, "", None, SortKey::Subject, false), vec![1, 2, 0, 3]);
    assert_eq!(visible_indices(&m, "", None, SortKey::Partner, true), vec![0, 2, 1, 3]);
}

#[test]
fn mdn_sorts_by_raw_text() {
    let m = sample();
    assert_eq!(visible_indices(&m, "", None, SortKey::Mdn, true), vec![1, 2, 0, 3]);
}

#[test]
fn missing_fields_use_the_spanish_names_or_sort_first() {
    let m = vec![
        Record { entries: vec![("fecha".to_string(), s("2023-12-31")), ("asunto".to_string(), s("pedido"))] },
        Record { entries: vec![] },
        Record { entries: vec![("date".to_string(), s("2024-02-01"))] },
    ];
    assert_eq!(visible_indices(&m, "", None, SortKey::Date, true), vec![1, 0, 2]);
    assert_eq!(visible_indices(&m, "PEDIDO", None, SortKey::Date, true), vec![0]);
    assert!(visible_indices(&vec![], "x", None, SortKey::Subject, true).is_empty());
}

#[test]
fn mdn_ok_ignores_ascii_case() {
    assert!(mdn_ok("ok"));
    assert!(mdn_ok("OK"));
    assert!(mdn_ok("oK"));
    assert!(!mdn_ok("okay"));
    assert!(!mdn_ok("failed"));
    assert!(!mdn_ok(""));
}

#[test]
fn a_selected_folder_filters_the_grid() {
    let with_folder = |subject: &str, folder: Option<i64>| {
        let mut r = msg(subject, "P", "2024-01-01", "");
        if let Some(f) = folder {
            r.entries.push(("folder_id".to_string(), JsonValue::Number(JsonNumber::PosInt(f as u64))));
        }
        r
    };
    let m = vec![with_folder("a", Some(1)), with_folder("b", Some(2)), with_folder("c", None), with_folder("d", Some(1))];
    assert_eq!(visible_indices(&m, "", Some(1), SortKey::Subject, true), vec![0, 3]);
    assert_eq!(visible_indices(&m, "D", Some(1), SortKey::Subject, true), vec![3]);
    assert_eq!(visible_indices(&m, "", Some(9), SortKey::Subject, true), Vec::<usize>::new());
    assert_eq!(visible_indices(&m, "", None, SortKey::Subject, true), vec![0, 1, 2, 3]);
}
