use as2expert_desktop::config::Config;
use as2expert_desktop::json::{JsonNumber, JsonValue, Record};
use as2expert_desktop::icons::Icon;
use as2expert_desktop::messages::{message_meta, SortKey};
use as2expert_desktop::model::{Event, MessageOp, Module, Request, Screen};
use as2expert_desktop::state::AppState;

fn num(i: i64) -> JsonValue {
    if i >= 0 {
        JsonValue::Number(JsonNumber::PosInt(i as u64))
    } else {
        JsonValue::Number(JsonNumber::NegInt(i))
    }
}

fn s(x: &str) -> JsonValue {
    JsonValue::Str(x.to_string())
}

fn rec(entries: Vec<(&str, JsonValue)>) -> Record {
    Record { entries: entries.into_iter().map(|(k, v)| (k.to_string(), v)).collect() }
}

fn keys(r: &Record) -> Vec<&str> {
    r.entries.iter().map(|(k, _)| k.as_str()).collect()
}

fn config(env: &str, token: &str) -> Config {
    Config { environment: env.to_string(), base_url: String::new(), token: token.to_string(), remember_token: true }
}

fn connected_state() -> AppState {
    let mut st = AppState::new(config("free", " tok "));
    let reqs = st.client_built(Ok(()));
    assert_eq!(reqs.len(), 2);
    st
}

#[test]
fn a_new_state_shows_the_login_form() {
    let st = AppState::new(config("free", ""));
    assert_eq!(st.screen, Screen::Login);
    assert_eq!(st.module, Module::Mail);
    assert_eq!(st.sort_key, SortKey::Date);
    assert!(!st.sort_asc);
    assert_eq!(st.inflight, 0);
    assert_eq!(st.forms.ct_days, "365");
    assert_eq!(st.forms.ct_country, "ES");
}

#[test]
fn connect_checks_url_and_token() {
    let mut st = AppState::new(config("free", "tok"));
    assert!(st.connect(None).is_none());
    assert_eq!(st.error.as_deref(), Some("Choose an environment or set a base URL."));

    let mut st = AppState::new(config("free", "   "));
    assert!(st.connect(Some("https://free.as2expert.com/api/v1".to_string())).is_none());
    assert_eq!(st.error.as_deref(), Some("An API token is required."));

    let mut st = AppState::new(config("free", "  tok  "));
    match st.connect(Some("https://free.as2expert.com/api/v1".to_string())) {
        Some(Request::BuildClient { token, base_url }) => {
            assert_eq!(token, "tok");
            assert_eq!(base_url, "https://free.as2expert.com/api/v1");
        }
        _ => panic!("expected a client request"),
    }
    assert!(st.error.is_none());
}

#[test]
fn a_built_client_loads_stations_and_partners() {
    let mut st = AppState::new(config("free", "tok"));
    st.error = Some("old".to_string());
    let reqs = st.client_built(Ok(()));
    assert!(matches!(reqs.as_slice(), [Request::ListStations, Request::ListPartners]));
    assert!(st.connected);
    assert!(st.error.is_none());
    assert_eq!(st.status, "Connecting…");
    assert_eq!(st.inflight, 1);

    let mut st = AppState::new(config("free", "tok"));
    let reqs = st.client_built(Err("bad url".to_string()));
    assert!(reqs.is_empty());
    assert_eq!(st.error.as_deref(), Some("bad url"));
    assert!(!st.connected);
}

#[test]
fn first_station_listing_opens_the_main_window() {
    let mut st = connected_state();
    st.selected_station = Some(4);
    let reqs = st.apply_event(Event::Stations(Ok(vec![rec(vec![("id", num(4))])])));
    assert_eq!(st.screen, Screen::Main);
    assert_eq!(st.stations.len(), 1);
    assert_eq!(reqs.len(), 3);
    assert!(matches!(reqs[0], Request::PersistConfig));
    match &reqs[1] {
        Request::ListFolders { body } => assert_eq!(keys(body), vec!["station"]),
        _ => panic!("expected folders"),
    }
    match &reqs[2] {
        Request::ListMessages { body } => {
            assert_eq!(keys(body), vec!["limit", "station"]);
            assert!(matches!(body.entries[0].1, JsonValue::Number(JsonNumber::PosInt(500))));
        }
        _ => panic!("expected messages"),
    }
    assert_eq!(st.status, "Loading messages…");
    // Two requests were counted: stations (settled now) and messages.
    assert_eq!(st.inflight, 1);

    // A later listing only replaces the stations.
    let again = st.apply_event(Event::Stations(Ok(vec![])));
    assert!(again.is_empty());
    assert!(st.stations.is_empty());
    assert_eq!(st.screen, Screen::Main);
}

#[test]
fn a_failed_station_listing_on_login_drops_the_client() {
    let mut st = connected_state();
    let reqs = st.apply_event(Event::Stations(Err("401".to_string())));
    assert!(reqs.is_empty());
    assert_eq!(st.error.as_deref(), Some("401"));
    assert!(!st.connected);
    assert_eq!(st.screen, Screen::Login);
    assert_eq!(st.inflight, 0);
}

#[test]
fn messages_event_sets_status_and_derives_folders() {
    let mut st = connected_state();
    st.selected = Some(0);
    let msgs = vec![
        rec(vec![("id", num(1)), ("folder_id", num(2)), ("folder_name", s("Inbox"))]),
        rec(vec![("id", num(2)), ("folder_id", num(2))]),
    ];
    let reqs = st.apply_event(Event::Messages(Ok(msgs)));
    assert!(reqs.is_empty());
    assert_eq!(st.status, "2 messages");
    assert_eq!(st.folders.len(), 1);
    assert_eq!(st.folders[0].name, "Inbox");
    assert_eq!(st.folders[0].count, 2);
    assert!(st.selected.is_none());
    assert_eq!(st.inflight, 0);
}

#[test]
fn folders_event_falls_back_to_messages() {
    let mut st = connected_state();
    st.messages = vec![rec(vec![("folder_id", num(9))])];
    st.selected_folder = Some(3);
    st.apply_event(Event::Folders(Err("404".to_string())));
    assert_eq!(st.folders.len(), 1);
    assert_eq!(st.folders[0].name, "Folder 9");
    assert_eq!(st.selected_folder, None);

    st.selected_folder = Some(5);
    st.apply_event(Event::Folders(Ok(vec![rec(vec![("id", num(5)), ("name", s("Sent"))])])));
    assert_eq!(st.folders.len(), 1);
    assert_eq!(st.folders[0].name, "Sent");
    assert_eq!(st.selected_folder, Some(5));
}

#[test]
fn body_event_tells_text_from_binary() {
    let mut st = connected_state();
    st.apply_event(Event::Body(Ok("UNA:+.? '".as_bytes().to_vec())));
    assert_eq!(st.body_text.as_deref(), Some("UNA:+.? '"));
    assert_eq!(st.body_note.as_deref(), Some("9 bytes"));
    assert_eq!(st.body_bytes.as_ref().map(|b| b.len()), Some(9));

    st.apply_event(Event::Body(Ok(vec![0xff, 0xfe, 0x00])));
    assert!(st.body_text.is_none());
    assert_eq!(st.body_note.as_deref(), Some("binary payload, 3 bytes"));
    assert_eq!(st.body_bytes, Some(vec![0xff, 0xfe, 0x00]));

    st.apply_event(Event::Body(Err("timeout".to_string())));
    assert_eq!(st.body_note.as_deref(), Some("download failed: timeout"));
}

#[test]
fn inflight_never_goes_below_zero() {
    let mut st = AppState::new(config("free", "tok"));
    st.apply_event(Event::Opened(Ok(rec(vec![]))));
    assert_eq!(st.inflight, 0);
    assert!(st.opened.is_some());
}

#[test]
fn created_and_acted_events_report_and_reload() {
    let mut st = connected_state();
    st.inflight = 3;
    st.forms.busy = true;
    st.forms.st_name = "x".to_string();
    let reqs = st.apply_event(Event::Created { label: "Station created".to_string(), res: Ok(()) });
    assert_eq!(st.status, "Loading messages…");
    assert!(matches!(reqs.as_slice(), [Request::ListMessages { .. }]));
    assert!(!st.forms.busy);
    assert_eq!(st.forms.st_name, "");

    st.module = Module::Stations;
    let reqs = st.apply_event(Event::Created { label: "Deleted".to_string(), res: Ok(()) });
    assert_eq!(st.status, "Deleted ✓");
    assert!(matches!(reqs.as_slice(), [Request::ListStations]));

    let reqs = st.apply_event(Event::Created { label: "Partner created".to_string(), res: Err("409".to_string()) });
    assert!(reqs.is_empty());
    assert_eq!(st.error.as_deref(), Some("Partner created failed: 409"));

    let reqs = st.apply_event(Event::Acted { label: "Mark read".to_string(), res: Err("x".to_string()) });
    assert!(reqs.is_empty());
    assert_eq!(st.error.as_deref(), Some("Mark read failed: x"));
}

#[test]
fn sent_event_clears_the_compose_window() {
    let mut st = connected_state();
    st.compose_open = true;
    st.compose_sending = true;
    st.compose_subject = "s".to_string();
    st.compose_file = "/tmp/f.edi".to_string();
    let reqs = st.apply_event(Event::Sent(Ok(())));
    assert!(!st.compose_open);
    assert!(!st.compose_sending);
    assert_eq!(st.compose_subject, "");
    assert_eq!(st.compose_file, "");
    assert_eq!(reqs.len(), 1);

    st.apply_event(Event::Sent(Err("refused".to_string())));
    assert_eq!(st.error.as_deref(), Some("Send failed: refused"));
}

#[test]
fn certificates_event_counts() {
    let mut st = connected_state();
    st.apply_event(Event::Certificates(Ok(vec![rec(vec![]), rec(vec![]), rec(vec![])])));
    assert_eq!(st.status, "3 certificates");
    assert_eq!(st.certificates.len(), 3);
}

#[test]
fn sort_clicks_toggle_and_switch() {
    let mut st = AppState::new(config("free", ""));
    st.set_sort(SortKey::Date);
    assert_eq!((st.sort_key, st.sort_asc), (SortKey::Date, true));
    st.set_sort(SortKey::Subject);
    assert_eq!((st.sort_key, st.sort_asc), (SortKey::Subject, true));
    st.set_sort(SortKey::Subject);
    assert_eq!((st.sort_key, st.sort_asc), (SortKey::Subject, false));
    st.set_sort(SortKey::Date);
    assert_eq!((st.sort_key, st.sort_asc), (SortKey::Date, false));
}

#[test]
fn opening_a_message_loads_details_and_payload() {
    let mut st = connected_state();
    st.messages = vec![rec(vec![("id", num(77))]), rec(vec![("subject", s("no id"))])];
    let reqs = st.open_message(0);
    assert_eq!(reqs.len(), 2);
    assert!(matches!(reqs[0], Request::GetMessage { id: JsonValue::Number(JsonNumber::PosInt(77)) }));
    assert!(matches!(reqs[1], Request::DownloadMessage { id: JsonValue::Number(JsonNumber::PosInt(77)) }));
    assert_eq!(st.selected, Some(0));
    assert_eq!(st.inflight, 3);

    assert!(st.open_message(1).is_empty());
    assert_eq!(st.selected, Some(1));
    assert!(st.open_message(5).is_empty());
}

#[test]
fn message_actions_use_the_selected_message() {
    let mut st = connected_state();
    st.messages = vec![rec(vec![("id", s("m-1"))])];
    assert!(st.message_action(MessageOp::MarkRead, "Mark read").is_none());
    st.selected = Some(0);
    match st.message_action(MessageOp::MarkUnread, "Mark unread") {
        Some(Request::MessageAction { action, id, label }) => {
            assert_eq!(action, MessageOp::MarkUnread);
            assert!(matches!(id, JsonValue::Str(ref x) if x == "m-1"));
            assert_eq!(label, "Mark unread");
        }
        _ => panic!("expected an action"),
    }
    assert_eq!(st.status, "Mark unread…");
    let r = st.delete_message();
    assert!(matches!(r, Some(Request::MessageAction { action: MessageOp::Delete, .. })));
    assert!(st.selected.is_none());
    assert_eq!(st.status, "Delete…");
}

#[test]
fn sending_reads_the_chosen_file() {
    let mut st = connected_state();
    assert!(st.send_begin().is_none());
    assert_eq!(st.error.as_deref(), Some("Pick a file to send."));
    st.file_dropped("  /data/order.edi ".to_string());
    assert!(st.compose_open);
    assert_eq!(st.send_begin().as_deref(), Some("/data/order.edi"));

    let r = st.send_with_file("/data/order.edi", Some("order.edi".to_string()), Err("denied".to_string()));
    assert!(r.is_none());
    assert_eq!(st.error.as_deref(), Some("Cannot read /data/order.edi: denied"));

    let r = st.send_with_file("/data/order.edi", Some("order.edi".to_string()), Ok(vec![1, 2]));
    assert!(r.is_none());
    assert_eq!(st.error.as_deref(), Some("Pick a partner."));

    st.partners = vec![rec(vec![("as2_id", s("PARTNER1"))])];
    assert!(st.can_send());
    match st.send_with_file("/data/order.edi", Some("order.edi".to_string()), Ok(vec![1, 2])) {
        Some(Request::Send { partner, subject, file_name, bytes }) => {
            assert!(matches!(partner, JsonValue::Str(ref x) if x == "PARTNER1"));
            assert_eq!(subject, "order.edi");
            assert_eq!(file_name, "order.edi");
            assert_eq!(bytes, vec![1, 2]);
        }
        _ => panic!("expected a send"),
    }
    assert!(st.compose_sending);

    st.partners = vec![rec(vec![("id", num(3)), ("as2_id", s("P"))])];
    st.compose_subject = "  Invoice 9 ".to_string();
    match st.send_with_file("/x", None, Ok(vec![])) {
        Some(Request::Send { partner, subject, file_name, .. }) => {
            assert!(matches!(partner, JsonValue::Number(JsonNumber::PosInt(3))));
            assert_eq!(subject, "Invoice 9");
            assert_eq!(file_name, "message.edi");
        }
        _ => panic!("expected a send"),
    }
}

#[test]
fn payload_names_are_safe() {
    let mut st = AppState::new(config("free", ""));
    assert!(st.payload_file_name().is_none());
    st.body_bytes = Some(vec![1]);
    assert_eq!(st.payload_file_name().as_deref(), Some("payload.edi"));
    st.opened = Some(rec(vec![("message_id", s("<abc@host>")), ("id", num(5))]));
    assert_eq!(st.payload_file_name().as_deref(), Some("_abc_host_.edi"));
    st.opened = Some(rec(vec![("id", num(5))]));
    assert_eq!(st.payload_file_name().as_deref(), Some("5.edi"));

    st.payload_saved(Ok("/home/a/Downloads/5.edi".to_string()));
    assert_eq!(st.status, "Saved → /home/a/Downloads/5.edi");
    st.payload_saved(Err("disk full".to_string()));
    assert_eq!(st.error.as_deref(), Some("Save failed: disk full"));
}

#[test]
fn switching_modules_loads_on_demand() {
    let mut st = connected_state();
    assert!(matches!(st.set_view(Module::Stations), Some(Request::ListStations)));
    st.stations = vec![rec(vec![])];
    assert!(st.set_view(Module::Stations).is_none());
    assert!(st.set_view(Module::Mail).is_none());
    assert!(st.set_view(Module::Stations).is_none());
    assert!(matches!(st.set_view(Module::Certificates), Some(Request::ListCertificates)));
    assert!(matches!(st.refresh_view(), Some(Request::ListCertificates)));
}

#[test]
fn selecting_a_station_reloads_folders_and_messages() {
    let mut st = connected_state();
    st.selected_folder = Some(3);
    let reqs = st.select_station(Some(8));
    assert_eq!(reqs.len(), 2);
    assert_eq!(st.selected_folder, None);
    match &reqs[1] {
        Request::ListMessages { body } => assert_eq!(keys(body), vec!["limit", "station"]),
        _ => panic!("expected messages"),
    }
    let r = st.select_folder(Some(2));
    match r {
        Some(Request::ListMessages { body }) => assert_eq!(keys(&body), vec!["limit", "station", "folder"]),
        _ => panic!("expected messages"),
    }
}

#[test]
fn logout_forgets_everything_loaded() {
    let mut st = connected_state();
    st.screen = Screen::Main;
    st.messages = vec![rec(vec![])];
    st.status = "x".to_string();
    st.logout();
    assert!(!st.connected);
    assert_eq!(st.screen, Screen::Login);
    assert!(st.messages.is_empty());
    assert_eq!(st.status, "");
    assert!(st.refresh_messages().is_none());
}

#[test]
fn sort_marker_points_the_direction() {
    let mut st = AppState::new(config("free", ""));
    assert_eq!(st.sort_marker(SortKey::Date), " ▼");
    assert_eq!(st.sort_marker(SortKey::Subject), "");
    st.set_sort(SortKey::Date);
    assert_eq!(st.sort_marker(SortKey::Date), " ▲");
}

#[test]
fn events_apply_at_a_full_request_counter() {
    let mut st = connected_state();
    st.inflight = u32::MAX;
    let reqs = st.apply_event(Event::Acted { label: "Mark read".to_string(), res: Ok(()) });
    assert_eq!(reqs.len(), 1);
    assert_eq!(st.inflight, u32::MAX);
}

#[test]
fn detail_pane_offers_edit_for_stations_and_partners() {
    let mut st = connected_state();
    st.module = Module::Stations;
    assert!(!st.detail_editable());
    st.maint_detail = Some(rec(vec![("id", num(1))]));
    assert!(st.detail_editable());
    st.module = Module::Certificates;
    assert!(!st.detail_editable());
    st.module = Module::Partners;
    assert!(st.detail_editable());
}

#[test]
fn reading_pane_shows_the_set_metadata() {
    let m = rec(vec![("socio_nombre", s("Acme")), ("mdn", s("ok")), ("firma", s("")), ("encriptacion", s("aes"))]);
    let rows = message_meta(&m);
    let labels: Vec<(&str, &str)> = rows.iter().map(|r| (r.1, r.2.as_str())).collect();
    assert_eq!(labels, vec![("Partner", "Acme"), ("MDN", "ok"), ("Encryption", "aes")]);
    assert_eq!(rows[1].0, Icon::OkMark);
}
