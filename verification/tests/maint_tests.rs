use as2expert_desktop::config::Config;
use as2expert_desktop::json::{JsonNumber, JsonValue, Record};
use as2expert_desktop::maint::{detail_rows, maint_cells, maint_headers, partner_label, station_choice_label, station_name};
use as2expert_desktop::model::{DeleteTarget, MessageOp, Module, NewKind, Request, SaveOp};
use as2expert_desktop::state::AppState;

fn num(i: i64) -> JsonValue {
    JsonValue::Number(JsonNumber::PosInt(i as u64))
}

fn s(x: &str) -> JsonValue {
    JsonValue::Str(x.to_string())
}

fn rec(entries: Vec<(&str, JsonValue)>) -> Record {
    Record { entries: entries.into_iter().map(|(k, v)| (k.to_string(), v)).collect() }
}

fn entry<'a>(r: &'a Record, key: &str) -> Option<&'a JsonValue> {
    r.entries.iter().find(|(k, _)| k == key).map(|(_, v)| v)
}

fn text_of(v: Option<&JsonValue>) -> Option<&str> {
    match v {
        Some(JsonValue::Str(x)) => Some(x.as_str()),
        _ => None,
    }
}

fn connected() -> AppState {
    let mut st = AppState::new(Config {
        environment: "free".to_string(),
        base_url: String::new(),
        token: "t".to_string(),
        remember_token: false,
    });
    st.client_built(Ok(()));
    st.inflight = 0;
    st
}

#[test]
fn maint_headers_per_module() {
    assert_eq!(maint_headers(Module::Stations), vec!["Name", "AS2 ID"]);
    assert_eq!(maint_headers(Module::Mail), vec!["Name", "AS2 ID"]);
    assert_eq!(maint_headers(Module::Partners), vec!["Name", "AS2 ID", "Email", "Station"]);
    assert_eq!(maint_headers(Module::Certificates), vec!["Common name", "Email", "Station", "Valid until"]);
}

#[test]
fn maint_cells_read_english_or_spanish_fields() {
    let p = rec(vec![("nombre", s("Socio")), ("as2id", s("SOC1")), ("email", s("a@b")), ("estacion", s("Main"))]);
    assert_eq!(maint_cells(Module::Partners, &p), vec!["Socio", "SOC1", "a@b", "Main"]);
    let st = rec(vec![("name", s("Station A")), ("as2_id", s("STA"))]);
    assert_eq!(maint_cells(Module::Stations, &st), vec!["Station A", "STA"]);
    let c = rec(vec![("commonname", s("cn")), ("validityEnd", s("2030-01-01T00:00:00.000Z"))]);
    assert_eq!(maint_cells(Module::Certificates, &c), vec!["cn", "", "", "2030-01-01T00:00"]);
}

#[test]
fn detail_rows_skip_raw_and_null() {
    let v = rec(vec![
        ("id", num(4)),
        ("raw", s("...")),
        ("as2_id", s("X")),
        ("deleted_at", JsonValue::Null),
        ("active", JsonValue::Bool(true)),
    ]);
    let rows = detail_rows(&v);
    let pairs: Vec<(&str, &str)> = rows.iter().map(|(k, v)| (k.as_str(), v.as_str())).collect();
    assert_eq!(pairs, vec![("Id", "4"), ("As2 Id", "X"), ("Active", "yes")]);
}

#[test]
fn partner_and_station_labels() {
    assert_eq!(partner_label(&rec(vec![("name", s("Acme")), ("as2_id", s("ACME01"))])), "Acme (ACME01)");
    assert_eq!(partner_label(&rec(vec![("nombre", s("Acme"))])), "Acme");
    assert_eq!(station_name(&rec(vec![("nombre", s("Central"))])), "Central");
}

#[test]
fn station_label_names_the_selected_station() {
    let mut st = connected();
    assert_eq!(st.station_label(), "All stations");
    st.stations = vec![rec(vec![("id", num(1)), ("name", s("One"))]), rec(vec![("id", num(2)), ("name", s("Two"))])];
    st.selected_station = Some(2);
    assert_eq!(st.station_label(), "Two");
    st.selected_station = Some(9);
    assert_eq!(st.station_label(), "All stations");
}

#[test]
fn maint_rows_filter_by_search() {
    let mut st = connected();
    st.module = Module::Partners;
    st.partners = vec![
        rec(vec![("id", num(1)), ("name", s("Acme")), ("email", s("x@acme.com"))]),
        rec(vec![("name", s("Beta")), ("station_name", s("ACME hub"))]),
        rec(vec![("id", num(3)), ("name", s("Gamma"))]),
    ];
    st.maint_search = "ACME".to_string();
    assert!(st.maint_rows_showable());
    let rows = st.maint_rows();
    let idx: Vec<usize> = rows.iter().map(|r| r.0).collect();
    assert_eq!(idx, vec![0, 1]);
    assert!(matches!(rows[1].1, JsonValue::Null));
    st.maint_search.clear();
    assert_eq!(st.maint_rows().len(), 3);
}

#[test]
fn certificate_rows_need_cuttable_dates() {
    let mut st = connected();
    st.module = Module::Certificates;
    st.certificates = vec![rec(vec![("validityEnd", s("aaaaaaaaaaaaaaaé"))])];
    assert!(!st.maint_rows_showable());
}

#[test]
fn delete_flow_targets_the_module() {
    let mut st = connected();
    st.module = Module::Partners;
    st.ask_delete();
    assert!(st.confirm_delete.is_none());
    st.maint_detail = Some(rec(vec![("id", num(12))]));
    st.maint_sel = Some(0);
    st.ask_delete();
    assert!(matches!(st.confirm_delete, Some(JsonValue::Number(JsonNumber::PosInt(12)))));
    st.cancel_delete();
    assert!(st.confirm_delete.is_none());
    st.ask_delete();
    match st.confirm_delete() {
        Some(Request::Delete { target, id, label }) => {
            assert_eq!(target, DeleteTarget::Partner);
            assert_eq!(label, "Deleted");
            assert!(matches!(id, JsonValue::Number(JsonNumber::PosInt(12))));
        }
        _ => panic!("expected a delete"),
    }
    assert!(st.maint_detail.is_none() && st.maint_sel.is_none());
    assert_eq!(st.inflight, 1);

    st.module = Module::Stations;
    st.maint_detail = Some(rec(vec![("id", s("s-1"))]));
    st.ask_delete();
    assert!(matches!(st.confirm_delete(), Some(Request::Delete { target: DeleteTarget::Station, .. })));
}

#[test]
fn opening_a_maintenance_record_loads_it_by_id() {
    let mut st = connected();
    st.module = Module::Stations;
    assert!(st.open_maint_by_id(2, JsonValue::Null).is_none());
    assert_eq!(st.maint_sel, Some(2));
    assert!(matches!(st.open_maint_by_id(1, num(5)), Some(Request::GetMaintItem { module: Module::Stations, .. })));
    assert_eq!(st.maint_sel, Some(1));
}

#[test]
fn edit_prefills_and_submit_updates() {
    let mut st = connected();
    st.stations = vec![rec(vec![("id", num(10))])];
    let item = rec(vec![("id", num(5)), ("nombre", s("Socio")), ("as2id", s("S1")), ("url", s("http://p"))]);
    st.begin_edit(NewKind::Partner, &item);
    assert_eq!(st.forms.pt_name, "Socio");
    assert_eq!(st.forms.pt_as2, "S1");
    assert_eq!(st.forms.pt_url, "http://p");
    assert_eq!(st.form_title(), Some("Edit partner"));
    st.forms.pt_email = "  e@x  ".to_string();
    match st.submit_create() {
        Some(Request::Save { op, body, label }) => {
            assert_eq!(op, SaveOp::UpdatePartner);
            assert_eq!(label, "Partner updated");
            let ks: Vec<&str> = body.entries.iter().map(|(k, _)| k.as_str()).collect();
            assert_eq!(ks, vec!["station", "name", "as2_id", "email", "url", "id"]);
            assert!(matches!(entry(&body, "station"), Some(JsonValue::Number(JsonNumber::PosInt(10)))));
            assert_eq!(text_of(entry(&body, "email")), Some("e@x"));
            assert!(matches!(entry(&body, "id"), Some(JsonValue::Number(JsonNumber::PosInt(5)))));
        }
        _ => panic!("expected a save"),
    }
    assert!(st.forms.busy);
}

#[test]
fn certificate_form_parses_numbers_with_defaults() {
    let mut st = connected();
    st.begin_edit(NewKind::Certificate, &rec(vec![]));
    assert_eq!(st.form_title(), Some("New certificate (self-signed)"));
    st.forms.ct_days = " 730 ".to_string();
    st.forms.ct_keybits = "lots".to_string();
    st.forms.ct_cn = " edi.example ".to_string();
    match st.submit_create() {
        Some(Request::Save { op, body, label }) => {
            assert_eq!(op, SaveOp::CreateCertificate);
            assert_eq!(label, "Certificate created");
            assert!(matches!(entry(&body, "self_signed"), Some(JsonValue::Bool(true))));
            assert!(matches!(entry(&body, "station"), Some(JsonValue::Null)));
            assert!(matches!(entry(&body, "dias"), Some(JsonValue::Number(JsonNumber::PosInt(730)))));
            assert!(matches!(entry(&body, "keybits"), Some(JsonValue::Number(JsonNumber::PosInt(2048)))));
            assert_eq!(text_of(entry(&body, "commonName")), Some("edi.example"));
            assert_eq!(text_of(entry(&body, "countryName")), Some("ES"));
            assert_eq!(text_of(entry(&body, "hash")), Some("sha256"));
            assert!(entry(&body, "id").is_none());
        }
        _ => panic!("expected a save"),
    }
}

#[test]
fn station_form_creates() {
    let mut st = connected();
    assert!(st.submit_create().is_none());
    st.forms.open = Some(NewKind::Station);
    st.forms.st_name = " Main ".to_string();
    match st.submit_create() {
        Some(Request::Save { op, body, label }) => {
            assert_eq!(op, SaveOp::CreateStation);
            assert_eq!(label, "Station created");
            assert_eq!(text_of(entry(&body, "name")), Some("Main"));
            assert_eq!(body.entries.len(), 3);
        }
        _ => panic!("expected a save"),
    }
    st.close_form();
    assert_eq!(st.forms.open, Some(NewKind::Station));
    st.forms.busy = false;
    st.close_form();
    assert_eq!(st.forms.open, None);
}

#[test]
fn picker_labels_prompt_when_nothing_is_chosen() {
    let stations = vec![rec(vec![("nombre", s("Central"))])];
    assert_eq!(station_choice_label(&stations, 0), "Central");
    assert_eq!(station_choice_label(&stations, 1), "— pick a station —");

    let mut st = connected();
    assert_eq!(st.compose_partner_label(), "— pick a partner —");
    st.partners = vec![rec(vec![("name", s("Acme")), ("as2id", s("A1"))])];
    assert_eq!(st.compose_partner_label(), "Acme (A1)");
}

#[test]
fn edit_button_fills_the_form_from_the_record() {
    let mut st = connected();
    st.module = Module::Partners;
    st.stations = vec![rec(vec![("id", num(1))])];
    st.forms.pt_station = 3;
    st.forms.pt_email = "stale@x".to_string();
    st.maint_detail = Some(rec(vec![("id", num(8)), ("name", s("Acme")), ("as2_id", s("AC")), ("url", s("http://a"))]));
    assert!(st.edit_detail().is_none());
    assert_eq!(st.forms.open, Some(NewKind::Partner));
    assert_eq!(st.forms.pt_station, 0);
    assert_eq!(st.forms.pt_name, "Acme");
    assert_eq!(st.forms.pt_as2, "AC");
    assert_eq!(st.forms.pt_email, "");
    assert_eq!(st.forms.pt_url, "http://a");
    assert!(matches!(st.forms.edit_id, Some(JsonValue::Number(JsonNumber::PosInt(8)))));
}

#[test]
fn paths_that_count_nothing_work_at_a_full_counter() {
    let mut st = connected();
    st.inflight = u32::MAX;
    assert!(st.submit_create().is_none());
    assert!(st.message_action(MessageOp::MarkRead, "Mark read").is_none());
    assert!(st.send_with_file("/x", None, Err("gone".to_string())).is_none());
    assert_eq!(st.inflight, u32::MAX);
}
