use as2expert_desktop::folders::{derive_folders, folder_depths_fit, folder_from, folder_order, folder_total, folder_total_fits, Folder};
use as2expert_desktop::json::{JsonNumber, JsonValue, Record};

fn num(i: i64) -> JsonValue {
    if i >= 0 {
        JsonValue::Number(JsonNumber::PosInt(i as u64))
    } else {
        JsonValue::Number(JsonNumber::NegInt(i))
    }
}

fn s(x: &str) -> JsonValue {
    JsonValue::Str(x.to_string())
}

fn rec(entries: Vec<(&str, JsonValue)>) -> Record {
    Record { entries: entries.into_iter().map(|(k, v)| (k.to_string(), v)).collect() }
}

fn folder(id: i64, name: &str, parent: Option<i64>) -> Folder {
    Folder { id, name: name.to_string(), parent, count: 0 }
}

#[test]
fn folder_from_reads_the_folders_endpoint() {
    let f = folder_from(&rec(vec![
        ("id", num(7)),
        ("nombre", s("Entrada")),
        ("parent_id", num(2)),
        ("count", num(12)),
    ]));
    assert_eq!(f.id, 7);
    assert_eq!(f.name, "Entrada");
    assert_eq!(f.parent, Some(2));
    assert_eq!(f.count, 12);

    let g = folder_from(&rec(vec![("id", s("x")), ("parent_id", JsonValue::Null), ("count", num(-1))]));
    assert_eq!(g.id, 0);
    assert_eq!(g.name, "");
    assert_eq!(g.parent, None);
    assert_eq!(g.count, 0);
}

#[test]
fn derived_folders_count_messages_and_sort_by_name() {
    let msgs = vec![
        rec(vec![("folder_id", num(3)), ("folder_name", s("zeta"))]),
        rec(vec![("folder_id", num(1)), ("folder_name", s("Alpha"))]),
        rec(vec![("subject", s("no folder"))]),
        rec(vec![("folder_id", num(3)), ("folder_name", s("ignored later name"))]),
        rec(vec![("folder_id", num(7))]),
        rec(vec![("folder_id", s("9"))]),
    ];
    let fs = derive_folders(&msgs);
    let names: Vec<&str> = fs.iter().map(|f| f.name.as_str()).collect();
    assert_eq!(names, vec!["Alpha", "Folder 7", "zeta"]);
    let counts: Vec<usize> = fs.iter().map(|f| f.count).collect();
    assert_eq!(counts, vec![1, 1, 2]);
    assert!(fs.iter().all(|f| f.parent.is_none()));
    assert_eq!(fs.iter().map(|f| f.count).sum::<usize>(), 4);
}

#[test]
fn derived_folders_keep_first_order_on_equal_names() {
    let msgs = vec![
        rec(vec![("folder_id", num(5)), ("folder_name", s("inbox"))]),
        rec(vec![("folder_id", num(4)), ("folder_name", s("INBOX"))]),
    ];
    let fs = derive_folders(&msgs);
    let ids: Vec<i64> = fs.iter().map(|f| f.id).collect();
    assert_eq!(ids, vec![5, 4]);
    assert!(derive_folders(&vec![]).is_empty());
}

#[test]
fn folder_order_is_depth_first_with_orphans_at_the_root() {
    let fs = vec![
        folder(1, "root", None),
        folder(2, "child", Some(1)),
        folder(3, "orphan", Some(99)),
        folder(4, "grandchild", Some(2)),
        folder(5, "second root", None),
        folder(6, "second child", Some(1)),
    ];
    assert!(folder_depths_fit(&fs));
    let order = folder_order(&fs);
    assert_eq!(order, vec![(0, 0), (1, 1), (3, 2), (5, 1), (4, 0), (2, 0)]);
    let mut seen: Vec<usize> = order.iter().map(|e| e.0).collect();
    seen.sort();
    seen.dedup();
    assert_eq!(seen.len(), order.len());
}

#[test]
fn folder_order_leaves_out_cycles() {
    let fs = vec![folder(1, "a", Some(2)), folder(2, "b", Some(1)), folder(3, "c", None)];
    assert!(folder_depths_fit(&fs));
    assert_eq!(folder_order(&fs), vec![(2, 0)]);
}

#[test]
fn folder_depths_fit_refuses_too_deep_chains() {
    let mut deep: Vec<Folder> = vec![folder(0, "f0", None)];
    for i in 1..255 {
        deep.push(folder(i, "f", Some(i - 1)));
    }
    assert!(folder_depths_fit(&deep));
    assert_eq!(folder_order(&deep).last(), Some(&(254usize, 254u8)));
    deep.push(folder(255, "f", Some(254)));
    assert!(!folder_depths_fit(&deep));
}

#[test]
fn folder_total_sums_counts() {
    let mut fs = vec![folder(1, "a", None), folder(2, "b", None)];
    fs[0].count = 3;
    fs[1].count = 4;
    assert_eq!(folder_total(&fs), 7);
    assert_eq!(folder_total(&vec![]), 0);
}

#[test]
fn folder_total_fits_detects_overflow() {
    let mut fs = vec![folder(1, "a", None), folder(2, "b", None)];
    fs[0].count = usize::MAX;
    assert!(folder_total_fits(&fs));
    fs[1].count = 1;
    assert!(!folder_total_fits(&fs));
    assert!(folder_total_fits(&vec![]));
}

#[test]
fn derived_folders_are_each_shown_once() {
    let msgs = vec![
        rec(vec![("folder_id", num(2))]),
        rec(vec![("folder_id", num(1))]),
        rec(vec![("folder_id", num(2))]),
        rec(vec![("folder_id", num(3))]),
    ];
    let fs = derive_folders(&msgs);
    let order = folder_order(&fs);
    assert_eq!(order, vec![(0, 0), (1, 0), (2, 0)]);
}

#[test]
fn an_orphan_is_shown_at_the_root_with_its_subtree() {
    let fs = vec![folder(1, "orphan", Some(99)), folder(2, "child", Some(1)), folder(3, "grandchild", Some(2))];
    assert!(folder_depths_fit(&fs));
    assert_eq!(folder_order(&fs), vec![(0, 0), (1, 1), (2, 2)]);
    let two = vec![folder(1, "orphan", Some(99)), folder(2, "child", Some(1))];
    assert_eq!(folder_order(&two), vec![(0, 0), (1, 1)]);
}
