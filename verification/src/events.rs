//! What the client does with the results that the background requests
//! deliver.

use vstd::prelude::*;
use vstd::utf8::{decode_utf8, encode_utf8, valid_utf8};
use crate::chars::{decimal, from_chars, push_str, to_chars, usize_text};
use crate::folders::{folder_from, folder_of, folders_model, grouped, records_model, sorted_by_name, Folder};
use crate::model::{forms_are_default, owned, Event, Forms, Request, Screen};
use crate::state::{folders_requested, kept_selection, messages_reloaded, AppState};

verus! {

/// std's `String::from_utf8`: the text when the bytes are valid UTF-8.
#[verifier::external_body]
fn utf8_text(bytes: Vec<u8>) -> (r: Option<String>)
    ensures
        match r {
            Some(s) => valid_utf8(bytes@) && s@ == decode_utf8(bytes@),
            None => !valid_utf8(bytes@),
        },
{
    String::from_utf8(bytes).ok()
}

fn copy_bytes(v: &Vec<u8>) -> (r: Vec<u8>)
    ensures
        r@ == v@,
{
    let mut r: Vec<u8> = Vec::new();
    let mut i: usize = 0;
    while i < v.len()
        invariant
            i <= v@.len(),
            r@ == v@.take(i as int),
        decreases v@.len() - i,
    {
        r.push(v[i]);
        assert(r@ =~= v@.take(i + 1));
        i = i + 1;
    }
    assert(v@.take(v@.len() as int) =~= v@);
    r
}

/// One less request in flight, never below zero.
pub open spec fn settled(n: u32) -> u32 {
    if n > 0 { (n - 1) as u32 } else { 0 }
}

/// `n` counts `text` followed by `suffix`.
pub open spec fn counted_text(n: nat, suffix: Seq<char>) -> Seq<char> {
    decimal(n) + suffix
}

fn count_text(n: usize, suffix: &str) -> (s: String)
    ensures
        s@ == counted_text(n as nat, suffix@),
{
    let mut v = to_chars(usize_text(n).as_str());
    push_str(&mut v, suffix);
    from_chars(v.as_slice())
}

fn labelled(label: &str, tail: &str) -> (s: String)
    ensures
        s@ == label@ + tail@,
{
    let mut v = to_chars(label);
    push_str(&mut v, tail);
    from_chars(v.as_slice())
}

fn failed(label: &str, err: &str) -> (s: String)
    ensures
        s@ == label@ + " failed: "@ + err@,
{
    let mut v = to_chars(label);
    push_str(&mut v, " failed: ");
    push_str(&mut v, err);
    from_chars(v.as_slice())
}

/// The folder list a `/messages/folders` response gives.
pub open spec fn listed_folders(items: Seq<crate::json::Record>) -> Seq<crate::folders::FolderModel> {
    items.map_values(|r: crate::json::Record| folder_of(r@))
}

/// `n` and `reqs` are what applying the station listing `r` to `o` gives:
/// on the first listing after login the main window opens, the settings are
/// saved and the folders and messages load.
pub open spec fn stations_applied(o: AppState, n: AppState, r: Result<Vec<crate::json::Record>, String>, reqs: Seq<Request>) -> bool {
    let s1 = AppState { inflight: settled(o.inflight), ..o };
    match r {
        Ok(v) => if o.screen == Screen::Login {
            let s2 = AppState { stations: v, screen: Screen::Main, status: n.status, ..s1 };
            &&& reqs.len() >= 1
            &&& reqs[0] == Request::PersistConfig
            &&& if o.connected {
                &&& reqs.len() == 3
                &&& folders_requested(s2, Some(reqs[1]))
                &&& messages_reloaded(s2, n, Some(reqs[2]))
            } else {
                &&& reqs.len() == 1
                &&& n == s2
                &&& n.status@ == "Connected."@
            }
        } else {
            n == (AppState { stations: v, ..s1 }) && reqs.len() == 0
        },
        Err(e) => {
            &&& n == (AppState {
                error: Some(e),
                connected: if o.screen == Screen::Login { false } else { o.connected },
                ..s1
            })
            &&& reqs.len() == 0
        },
    }
}

/// `n` and `reqs` are what applying the event `ev` to `o` gives.
pub open spec fn event_applied(o: AppState, n: AppState, ev: Event, reqs: Seq<Request>) -> bool {
    match ev {
        Event::Stations(listing) => stations_applied(o, n, listing, reqs),
        Event::Folders(r) => {
            &&& reqs.len() == 0
            &&& match r {
                Ok(v) if v@.len() > 0 => {
                    &&& folders_model(n.folders@) == listed_folders(v@)
                    &&& n == (AppState {
                        folders: n.folders,
                        selected_folder: kept_selection(o.selected_folder, n.folders@),
                        ..o
                    })
                },
                _ => {
                    &&& sorted_by_name(folders_model(n.folders@), grouped(records_model(o.messages@)))
                    &&& n == (AppState {
                        folders: n.folders,
                        selected_folder: kept_selection(o.selected_folder, n.folders@),
                        ..o
                    })
                },
            }
        },
        Event::Messages(r) => {
            &&& reqs.len() == 0
            &&& match r {
                Ok(v) => {
                    let s1 = AppState {
                        inflight: settled(o.inflight),
                        status: n.status,
                        messages: v,
                        selected: None,
                        opened: None,
                        body_text: None,
                        ..o
                    };
                    &&& n.status@ == counted_text(v@.len(), " messages"@)
                    &&& if o.folders@.len() == 0 {
                        &&& sorted_by_name(folders_model(n.folders@), grouped(records_model(v@)))
                        &&& n == (AppState {
                            folders: n.folders,
                            selected_folder: kept_selection(o.selected_folder, n.folders@),
                            ..s1
                        })
                    } else {
                        n == s1
                    }
                },
                Err(e) => n == (AppState { inflight: settled(o.inflight), error: Some(e), ..o }),
            }
        },
        Event::Opened(r) => {
            &&& reqs.len() == 0
            &&& match r {
                Ok(v) => n == (AppState { inflight: settled(o.inflight), opened: Some(v), ..o }),
                Err(e) => n == (AppState { inflight: settled(o.inflight), error: Some(e), ..o }),
            }
        },
        Event::Body(r) => {
            &&& reqs.len() == 0
            &&& match r {
                Ok(b) => {
                    &&& n == (AppState {
                        inflight: settled(o.inflight),
                        body_note: n.body_note,
                        body_text: n.body_text,
                        body_bytes: n.body_bytes,
                        ..o
                    })
                    &&& n.body_bytes matches Some(k) && k@ == b@
                    &&& if valid_utf8(b@) {
                        &&& n.body_text matches Some(t) && t@ == decode_utf8(b@)
                        &&& n.body_note matches Some(n) && n@ == counted_text(b@.len(), " bytes"@)
                    } else {
                        &&& n.body_text is None
                        &&& n.body_note matches Some(n) && n@ == "binary payload, "@ + counted_text(b@.len(), " bytes"@)
                    }
                },
                Err(e) => {
                    &&& n == (AppState {
                        inflight: settled(o.inflight),
                        body_note: n.body_note,
                        ..o
                    })
                    &&& n.body_note matches Some(n) && n@ == "download failed: "@ + e@
                },
            }
        },
        Event::Partners(r) => {
            &&& reqs.len() == 0
            &&& match r {
                Ok(v) => n == (AppState { partners: v, ..o }),
                Err(_) => n == o,
            }
        },
        Event::Certificates(r) => {
            &&& reqs.len() == 0
            &&& match r {
                Ok(v) => {
                    &&& n == (AppState {
                        inflight: settled(o.inflight),
                        status: n.status,
                        certificates: v,
                        ..o
                    })
                    &&& n.status@ == counted_text(v@.len(), " certificates"@)
                },
                Err(e) => n == (AppState { inflight: settled(o.inflight), error: Some(e), ..o }),
            }
        },
        Event::MaintDetail(r) => {
            &&& reqs.len() == 0
            &&& match r {
                Ok(v) => n == (AppState { inflight: settled(o.inflight), maint_detail: Some(v), ..o }),
                Err(e) => n == (AppState { inflight: settled(o.inflight), error: Some(e), ..o }),
            }
        },
        Event::Created { label, res } => {
            let s1 = AppState {
                inflight: settled(o.inflight),
                forms: Forms { busy: false, ..o.forms },
                ..o
            };
            match res {
                Ok(_) => {
                    &&& forms_are_default(n.forms)
                    &&& n.maint_sel is None
                    &&& n.maint_detail is None
                    &&& reqs.len() <= 1
                    &&& ({
                        let s2 = AppState {
                            forms: n.forms,
                            maint_sel: None,
                            maint_detail: None,
                            status: n.status,
                            ..s1
                        };
                        crate::state::view_refreshed(s2, n, crate::state::only(reqs), label@ + " ✓"@)
                    })
                },
                Err(e) => {
                    &&& n == (AppState { error: n.error, ..s1 })
                    &&& n.error matches Some(m) && m@ == label@ + " failed: "@ + e@
                    &&& reqs.len() == 0
                },
            }
        },
        Event::Sent(r) => {
            let s1 = AppState { inflight: settled(o.inflight), compose_sending: false, ..o };
            match r {
                Ok(_) => {
                    let s2 = AppState {
                        compose_open: false,
                        compose_subject: n.compose_subject,
                        compose_file: n.compose_file,
                        ..s1
                    };
                    &&& n.compose_subject@.len() == 0
                    &&& n.compose_file@.len() == 0
                    &&& reqs.len() <= 1
                    &&& crate::state::messages_reloaded_after(s2, "Message sent."@, n, crate::state::only(reqs))
                },
                Err(e) => {
                    &&& n == (AppState { error: n.error, ..s1 })
                    &&& n.error matches Some(m) && m@ == "Send failed: "@ + e@
                    &&& reqs.len() == 0
                },
            }
        },
        Event::Acted { label, res } => {
            let s1 = AppState { inflight: settled(o.inflight), ..o };
            match res {
                Ok(_) => {
                    &&& reqs.len() <= 1
                    &&& crate::state::messages_reloaded_after(s1, label@ + " ✓"@, n, crate::state::only(reqs))
                },
                Err(e) => {
                    &&& n == (AppState { error: n.error, ..s1 })
                    &&& n.error matches Some(m) && m@ == label@ + " failed: "@ + e@
                    &&& reqs.len() == 0
                },
            }
        },
    }
}

impl AppState {
    /// Apply a station listing.
    pub fn apply_stations(&mut self, r: Result<Vec<crate::json::Record>, String>) -> (reqs: Vec<Request>)
        ensures
            stations_applied(*old(self), *final(self), r, reqs@),
    {
        let mut reqs: Vec<Request> = Vec::new();
        self.inflight = if self.inflight > 0 { self.inflight - 1 } else { 0 };
        match r {
            Ok(v) => {
                self.stations = v;
                if self.screen == Screen::Login {
                    self.screen = Screen::Main;
                    reqs.push(Request::PersistConfig);
                    self.status = owned("Connected.");
                    if let Some(q) = self.load_folders() {
                        reqs.push(q);
                    }
                    if let Some(q) = self.refresh_messages() {
                        reqs.push(q);
                    }
                }
            },
            Err(e) => {
                self.error = Some(e);
                if self.screen == Screen::Login {
                    self.connected = false;
                }
            },
        }
        reqs
    }

    fn apply_folders(&mut self, r: Result<Vec<crate::json::Record>, String>) -> (reqs: Vec<Request>)
        ensures
            event_applied(*old(self), *final(self), Event::Folders(r), reqs@),
    {
        let mut reqs: Vec<Request> = Vec::new();
            match r {
                Ok(v) => {
                    if v.len() > 0 {
                        let mut fs: Vec<Folder> = Vec::new();
                        let mut i: usize = 0;
                        while i < v.len()
                            invariant
                                i <= v@.len(),
                                folders_model(fs@) == listed_folders(v@).take(i as int),
                            decreases v@.len() - i,
                        {
                            let f = folder_from(&v[i]);
                            assert(listed_folders(v@)[i as int] == folder_of(v@[i as int]@));
                            assert(f@ == folder_of(v@[i as int]@));
                            let ghost before = fs@;
                            fs.push(f);
                            assert(folders_model(fs@) =~= folders_model(before).push(f@));
                            assert(folders_model(fs@) =~= listed_folders(v@).take(i + 1));
                            i = i + 1;
                        }
                        assert(listed_folders(v@).take(v@.len() as int) =~= listed_folders(v@));
                        self.set_folders(fs);
                    } else {
                        self.derive_folders();
                    }
                },
                Err(_) => self.derive_folders(),
            }
        reqs
    }

    fn apply_messages(&mut self, r: Result<Vec<crate::json::Record>, String>) -> (reqs: Vec<Request>)
        ensures
            event_applied(*old(self), *final(self), Event::Messages(r), reqs@),
    {
        let mut reqs: Vec<Request> = Vec::new();
            self.inflight = if self.inflight > 0 { self.inflight - 1 } else { 0 };
            match r {
                Ok(v) => {
                    self.status = count_text(v.len(), " messages");
                    self.messages = v;
                    if self.folders.len() == 0 {
                        self.derive_folders();
                    }
                    self.selected = None;
                    self.opened = None;
                    self.body_text = None;
                },
                Err(e) => self.error = Some(e),
            }
        reqs
    }

    fn apply_opened(&mut self, r: Result<crate::json::Record, String>) -> (reqs: Vec<Request>)
        ensures
            event_applied(*old(self), *final(self), Event::Opened(r), reqs@),
    {
        let mut reqs: Vec<Request> = Vec::new();
            self.inflight = if self.inflight > 0 { self.inflight - 1 } else { 0 };
            match r {
                Ok(v) => self.opened = Some(v),
                Err(e) => self.error = Some(e),
            }
        reqs
    }

    fn apply_body(&mut self, r: Result<Vec<u8>, String>) -> (reqs: Vec<Request>)
        ensures
            event_applied(*old(self), *final(self), Event::Body(r), reqs@),
    {
        let mut reqs: Vec<Request> = Vec::new();
            self.inflight = if self.inflight > 0 { self.inflight - 1 } else { 0 };
            match r {
                Ok(bytes) => {
                    let n = bytes.len();
                    match utf8_text(copy_bytes(&bytes)) {
                        Some(t) => {
                            self.body_note = Some(count_text(n, " bytes"));
                            self.body_text = Some(t);
                        },
                        None => {
                            self.body_text = None;
                            let mut note = to_chars("binary payload, ");
                            push_str(&mut note, count_text(n, " bytes").as_str());
                            self.body_note = Some(from_chars(note.as_slice()));
                        },
                    }
                    self.body_bytes = Some(bytes);
                },
                Err(e) => {
                    let mut note = to_chars("download failed: ");
                    push_str(&mut note, e.as_str());
                    self.body_note = Some(from_chars(note.as_slice()));
                },
            }
        reqs
    }

    fn apply_partners(&mut self, r: Result<Vec<crate::json::Record>, String>) -> (reqs: Vec<Request>)
        ensures
            event_applied(*old(self), *final(self), Event::Partners(r), reqs@),
    {
        let mut reqs: Vec<Request> = Vec::new();
            if let Ok(v) = r {
                self.partners = v;
            }
        reqs
    }

    fn apply_certificates(&mut self, r: Result<Vec<crate::json::Record>, String>) -> (reqs: Vec<Request>)
        ensures
            event_applied(*old(self), *final(self), Event::Certificates(r), reqs@),
    {
        let mut reqs: Vec<Request> = Vec::new();
            self.inflight = if self.inflight > 0 { self.inflight - 1 } else { 0 };
            match r {
                Ok(v) => {
                    self.status = count_text(v.len(), " certificates");
                    self.certificates = v;
                },
                Err(e) => self.error = Some(e),
            }
        reqs
    }

    fn apply_maint_detail(&mut self, r: Result<crate::json::Record, String>) -> (reqs: Vec<Request>)
        ensures
            event_applied(*old(self), *final(self), Event::MaintDetail(r), reqs@),
    {
        let mut reqs: Vec<Request> = Vec::new();
            self.inflight = if self.inflight > 0 { self.inflight - 1 } else { 0 };
            match r {
                Ok(v) => self.maint_detail = Some(v),
                Err(e) => self.error = Some(e),
            }
        reqs
    }

    fn apply_created(&mut self, label: String, res: Result<(), String>) -> (reqs: Vec<Request>)
        ensures
            event_applied(*old(self), *final(self), Event::Created { label: label, res: res }, reqs@),
    {
        let mut reqs: Vec<Request> = Vec::new();
            self.inflight = if self.inflight > 0 { self.inflight - 1 } else { 0 };
            self.forms.busy = false;
            match res {
                Ok(_) => {
                    self.forms = Forms::default();
                    self.maint_sel = None;
                    self.maint_detail = None;
                    self.status = labelled(label.as_str(), " ✓");
                    if let Some(q) = self.refresh_view() {
                        reqs.push(q);
                    }
                },
                Err(e) => self.error = Some(failed(label.as_str(), e.as_str())),
            }
        reqs
    }

    fn apply_sent(&mut self, r: Result<(), String>) -> (reqs: Vec<Request>)
        ensures
            event_applied(*old(self), *final(self), Event::Sent(r), reqs@),
    {
        let mut reqs: Vec<Request> = Vec::new();
            self.inflight = if self.inflight > 0 { self.inflight - 1 } else { 0 };
            self.compose_sending = false;
            match r {
                Ok(_) => {
                    self.compose_open = false;
                    self.compose_subject = String::new();
                    self.compose_file = String::new();
                    self.status = owned("Message sent.");
                    let ghost mid = *self;
                    if let Some(q) = self.refresh_messages() {
                        reqs.push(q);
                    }
                    assert(mid.status@ == "Message sent."@);
                },
                Err(e) => {
                    let mut m = to_chars("Send failed: ");
                    push_str(&mut m, e.as_str());
                    self.error = Some(from_chars(m.as_slice()));
                },
            }
        reqs
    }

    fn apply_acted(&mut self, label: String, res: Result<(), String>) -> (reqs: Vec<Request>)
        ensures
            event_applied(*old(self), *final(self), Event::Acted { label: label, res: res }, reqs@),
    {
        let mut reqs: Vec<Request> = Vec::new();
            self.inflight = if self.inflight > 0 { self.inflight - 1 } else { 0 };
            match res {
                Ok(_) => {
                    self.status = labelled(label.as_str(), " ✓");
                    let ghost mid = *self;
                    if let Some(q) = self.refresh_messages() {
                        reqs.push(q);
                    }
                    assert(mid.status@ == label@ + " ✓"@);
                },
                Err(e) => self.error = Some(failed(label.as_str(), e.as_str())),
            }
        reqs
    }

    /// Apply the result of a background request; return the follow-up
    /// requests.
    pub fn apply_event(&mut self, ev: Event) -> (reqs: Vec<Request>)
        ensures
            event_applied(*old(self), *final(self), ev, reqs@),
    {
        match ev {
            Event::Stations(r) => self.apply_stations(r),
            Event::Folders(r) => self.apply_folders(r),
            Event::Messages(r) => self.apply_messages(r),
            Event::Opened(r) => self.apply_opened(r),
            Event::Body(r) => self.apply_body(r),
            Event::Partners(r) => self.apply_partners(r),
            Event::Certificates(r) => self.apply_certificates(r),
            Event::MaintDetail(r) => self.apply_maint_detail(r),
            Event::Created { label, res } => self.apply_created(label, res),
            Event::Sent(r) => self.apply_sent(r),
            Event::Acted { label, res } => self.apply_acted(label, res),
        }
    }
}

} // verus!
