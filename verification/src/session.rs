//! What the mail module does on the user's actions: connecting, choosing a
//! station or folder, opening, acting on and sending messages.

use vstd::prelude::*;
use crate::chars::{from_chars, push_str, to_chars};
use crate::config::{opt_model, resolved_url, trim_chars, trimmed};
use crate::json::{first_field, keys_model, lookup, sfield, JsonValue, Record, ValueModel};
use crate::model::{owned, MessageOp, Module, Request, Screen};
use crate::state::{counted, folders_requested, id_at, if_connected, messages_reloaded, only, AppState};
use crate::text::{safe_name, sanitize_file_stem};

verus! {

/// A message for the error bar: `a` then `b`.
pub open spec fn joined(a: Seq<char>, b: Seq<char>) -> Seq<char> {
    a + b
}

/// The name a saved payload is offered under: the opened message's
/// `message_id` (else `idmensaje`, else `id`), or `payload` when it has
/// none, made safe for a file name, with `.edi` appended.
pub open spec fn payload_name(opened: Option<Seq<(Seq<char>, ValueModel)>>) -> Seq<char> {
    let name = match opened {
        Some(m) => first_field(m, seq!["message_id"@, "idmensaje"@, "id"@]),
        None => Seq::empty(),
    };
    let stem = if name.len() == 0 { "payload"@ } else { name };
    safe_name(stem) + ".edi"@
}

/// The partner id a message is sent to: the partner's `id`, or else a
/// string holding its AS2 id.
pub open spec fn send_target(p: Seq<(Seq<char>, ValueModel)>) -> ValueModel {
    match lookup(p, "id"@) {
        Some(v) => v,
        None => ValueModel::Str(first_field(p, seq!["as2_id"@, "as2id"@])),
    }
}

impl AppState {
    /// Check the login form and ask for a client for the resolved base URL
    /// and the trimmed token; `known_url` is the URL the SDK knows for the
    /// chosen environment.
    pub fn connect(&mut self, known_url: Option<String>) -> (r: Option<Request>)
        ensures
            ({
                let base = resolved_url(old(self).config@, opt_model(known_url));
                if base.len() == 0 {
                    &&& *final(self) == (AppState { error: final(self).error, ..*old(self) })
                    &&& final(self).error matches Some(e) && e@ == "Choose an environment or set a base URL."@
                    &&& r is None
                } else if trimmed(old(self).config.token@).len() == 0 {
                    &&& *final(self) == (AppState { error: final(self).error, ..*old(self) })
                    &&& final(self).error matches Some(e) && e@ == "An API token is required."@
                    &&& r is None
                } else {
                    &&& *final(self) == *old(self)
                    &&& r matches Some(Request::BuildClient { token, base_url })
                    &&& token@ == trimmed(old(self).config.token@)
                    &&& base_url@ == base
                }
            }),
    {
        let base = self.config.resolved_base_url(known_url);
        if base.as_str().unicode_len() == 0 {
            self.error = Some(owned("Choose an environment or set a base URL."));
            return None;
        }
        let token = trim_chars(self.config.token.as_str());
        if token.len() == 0 {
            self.error = Some(owned("An API token is required."));
            return None;
        }
        Some(Request::BuildClient { token: from_chars(token.as_slice()), base_url: base })
    }

    /// The client was built (or not): when it was, connect and load the
    /// stations and partners.
    pub fn client_built(&mut self, res: Result<(), String>) -> (reqs: Vec<Request>)
        requires
            res is Ok ==> old(self).inflight < u32::MAX,
        ensures
            match res {
                Ok(_) => {
                    &&& *final(self) == (AppState {
                        connected: true,
                        error: None,
                        status: final(self).status,
                        inflight: (old(self).inflight + 1) as u32,
                        ..*old(self)
                    })
                    &&& final(self).status@ == "Connecting…"@
                    &&& reqs@ == seq![Request::ListStations, Request::ListPartners]
                },
                Err(e) => {
                    &&& *final(self) == (AppState { error: Some(e), ..*old(self) })
                    &&& reqs@.len() == 0
                },
            },
    {
        let mut reqs: Vec<Request> = Vec::new();
        match res {
            Ok(_) => {
                self.connected = true;
                self.error = None;
                self.status = owned("Connecting…");
                if let Some(r) = self.load_stations() {
                    reqs.push(r);
                }
                if let Some(r) = self.load_partners() {
                    reqs.push(r);
                }
                assert(reqs@ =~= seq![Request::ListStations, Request::ListPartners]);
            },
            Err(e) => {
                self.error = Some(e);
            },
        }
        reqs
    }

    /// Switch the active module, loading its data on demand.
    pub fn set_view(&mut self, module: Module) -> (r: Option<Request>)
        requires
            old(self).module != module && old(self).connected
                && ((module == Module::Stations && old(self).stations@.len() == 0) || module == Module::Certificates)
                ==> old(self).inflight < u32::MAX,
        ensures
            if old(self).module == module {
                *final(self) == *old(self) && r is None
            } else {
                let mid = AppState { module: module, maint_sel: None, maint_detail: None, ..*old(self) };
                match module {
                    Module::Stations if old(self).stations@.len() == 0 =>
                        *final(self) == counted(mid) && r == if_connected(mid, Request::ListStations),
                    Module::Partners if old(self).partners@.len() == 0 =>
                        *final(self) == mid && r == if_connected(mid, Request::ListPartners),
                    Module::Certificates =>
                        *final(self) == counted(mid) && r == if_connected(mid, Request::ListCertificates),
                    _ => *final(self) == mid && r is None,
                }
            },
    {
        if self.module == module {
            return None;
        }
        self.module = module;
        self.maint_sel = None;
        self.maint_detail = None;
        match module {
            Module::Stations => {
                if self.stations.len() == 0 { self.load_stations() } else { None }
            },
            Module::Partners => {
                if self.partners.len() == 0 { self.load_partners() } else { None }
            },
            Module::Certificates => self.load_certificates(),
            Module::Mail => None,
        }
    }

    /// Reload what the active module shows.
    pub fn refresh_view(&mut self) -> (r: Option<Request>)
        requires
            old(self).module != Module::Partners && old(self).connected ==> old(self).inflight < u32::MAX,
        ensures
            match old(self).module {
                Module::Mail => messages_reloaded(*old(self), *final(self), r),
                Module::Stations => *final(self) == counted(*old(self)) && r == if_connected(*old(self), Request::ListStations),
                Module::Partners => *final(self) == *old(self) && r == if_connected(*old(self), Request::ListPartners),
                Module::Certificates => *final(self) == counted(*old(self)) && r == if_connected(*old(self), Request::ListCertificates),
            },
    {
        match self.module {
            Module::Mail => self.refresh_messages(),
            Module::Stations => self.load_stations(),
            Module::Partners => self.load_partners(),
            Module::Certificates => self.load_certificates(),
        }
    }

    /// Pick a station in the toolbar (`None`: all stations): its folders and
    /// messages are loaded, and no folder is selected.
    pub fn select_station(&mut self, station: Option<i64>) -> (reqs: Vec<Request>)
        requires
            old(self).connected ==> old(self).inflight < u32::MAX,
        ensures
            ({
                let mid = AppState { selected_station: station, selected_folder: None, ..*old(self) };
                &&& reqs@.len() == if mid.connected { 2int } else { 0int }
                &&& folders_requested(mid, only(reqs@))
                &&& messages_reloaded(mid, *final(self), if mid.connected { Some(reqs@[1]) } else { None })
            }),
    {
        self.selected_station = station;
        self.selected_folder = None;
        let mut reqs: Vec<Request> = Vec::new();
        if let Some(r) = self.load_folders() {
            reqs.push(r);
        }
        if let Some(r) = self.refresh_messages() {
            reqs.push(r);
        }
        reqs
    }

    /// Pick a folder in the tree (`None`: all messages): its messages are
    /// loaded and no message is open.
    pub fn select_folder(&mut self, folder: Option<i64>) -> (r: Option<Request>)
        requires
            old(self).connected ==> old(self).inflight < u32::MAX,
        ensures
            messages_reloaded(
                AppState { selected_folder: folder, selected: None, opened: None, ..*old(self) },
                *final(self),
                r,
            ),
    {
        self.selected_folder = folder;
        self.selected = None;
        self.opened = None;
        self.refresh_messages()
    }

    /// Open the message at `index` in the list: load its details and its
    /// payload.
    pub fn open_message(&mut self, index: usize) -> (reqs: Vec<Request>)
        requires
            id_at(old(self).messages@, index as int) is Some && old(self).connected ==> old(self).inflight < u32::MAX - 1,
        ensures
            ({
                let mid = AppState {
                    selected: Some(index),
                    opened: None,
                    body_text: None,
                    body_bytes: None,
                    body_note: None,
                    ..*old(self)
                };
                match id_at(old(self).messages@, index as int) {
                    Some(id) if old(self).connected => {
                        &&& *final(self) == (AppState { inflight: (old(self).inflight + 2) as u32, ..mid })
                        &&& reqs@.len() == 2
                        &&& reqs@[0] matches Request::GetMessage { id: a } && a@ == id
                        &&& reqs@[1] matches Request::DownloadMessage { id: b } && b@ == id
                    },
                    _ => *final(self) == mid && reqs@.len() == 0,
                }
            }),
    {
        self.selected = Some(index);
        self.opened = None;
        self.body_text = None;
        self.body_bytes = None;
        self.body_note = None;
        let mut reqs: Vec<Request> = Vec::new();
        if index >= self.messages.len() {
            return reqs;
        }
        let id = match self.messages[index].get_value("id") {
            Some(v) => v,
            None => { return reqs; },
        };
        if !self.connected {
            return reqs;
        }
        let id2 = id.duplicate();
        self.inflight = self.inflight + 2;
        reqs.push(Request::GetMessage { id });
        reqs.push(Request::DownloadMessage { id: id2 });
        reqs
    }

    /// Act on the open message (mark read or unread, delete, or reload).
    pub fn message_action(&mut self, op: MessageOp, label: &str) -> (r: Option<Request>)
        requires
            (old(self).selected matches Some(i) && id_at(old(self).messages@, i as int) is Some) && old(self).connected
                ==> old(self).inflight < u32::MAX,
        ensures
            match old(self).selected {
                Some(i) => match id_at(old(self).messages@, i as int) {
                    Some(id) if old(self).connected => {
                        &&& *final(self) == (AppState {
                            inflight: (old(self).inflight + 1) as u32,
                            status: final(self).status,
                            ..*old(self)
                        })
                        &&& final(self).status@ == label@ + "…"@
                        &&& r matches Some(Request::MessageAction { action: o, id: x, label: l })
                        &&& o == op && x@ == id && l@ == label@
                    },
                    _ => *final(self) == *old(self) && r is None,
                },
                None => *final(self) == *old(self) && r is None,
            },
    {
        let i = match self.selected {
            Some(i) => i,
            None => { return None; },
        };
        if i >= self.messages.len() {
            return None;
        }
        let id = match self.messages[i].get_value("id") {
            Some(v) => v,
            None => { return None; },
        };
        if !self.connected {
            return None;
        }
        self.inflight = self.inflight + 1;
        let mut st = to_chars(label);
        push_str(&mut st, "…");
        self.status = from_chars(st.as_slice());
        Some(Request::MessageAction { action: op, id, label: owned(label) })
    }

    /// Delete the open message from the reading pane and close the pane.
    pub fn delete_message(&mut self) -> (r: Option<Request>)
        requires
            (old(self).selected matches Some(i) && id_at(old(self).messages@, i as int) is Some) && old(self).connected
                ==> old(self).inflight < u32::MAX,
        ensures
            match old(self).selected {
                Some(i) => match id_at(old(self).messages@, i as int) {
                    Some(id) if old(self).connected => {
                        &&& *final(self) == (AppState {
                            inflight: (old(self).inflight + 1) as u32,
                            status: final(self).status,
                            selected: None,
                            opened: None,
                            ..*old(self)
                        })
                        &&& final(self).status@ == "Delete"@ + "…"@
                        &&& r matches Some(Request::MessageAction { action: o, id: x, label: l })
                        &&& o == MessageOp::Delete && x@ == id && l@ == "Delete"@
                    },
                    _ => *final(self) == (AppState { selected: None, opened: None, ..*old(self) }) && r is None,
                },
                None => *final(self) == (AppState { selected: None, opened: None, ..*old(self) }) && r is None,
            },
    {
        let r = self.message_action(MessageOp::Delete, "Delete");
        self.selected = None;
        self.opened = None;
        r
    }

    /// Close the reading pane.
    pub fn close_message(&mut self)
        ensures
            *final(self) == (AppState { selected: None, opened: None, ..*old(self) }),
    {
        self.selected = None;
        self.opened = None;
    }

    /// Dismiss the error bar.
    pub fn dismiss_error(&mut self)
        ensures
            *final(self) == (AppState { error: None, ..*old(self) }),
    {
        self.error = None;
    }

    /// Open the compose window, loading the partners if none are known.
    pub fn open_compose(&mut self) -> (r: Option<Request>)
        ensures
            *final(self) == (AppState { compose_open: true, ..*old(self) }),
            r == if old(self).partners@.len() == 0 { if_connected(*old(self), Request::ListPartners) } else { None },
    {
        let r = if self.partners.len() == 0 { self.load_partners() } else { None };
        self.compose_open = true;
        r
    }

    /// A file was dropped on the window: compose a message with it.
    pub fn file_dropped(&mut self, path: String)
        ensures
            *final(self) == (AppState { compose_file: path, compose_open: true, ..*old(self) }),
    {
        self.compose_file = path;
        self.compose_open = true;
    }

    /// Whether the compose window can send: partners are known and a file
    /// is chosen.
    pub fn can_send(&self) -> (r: bool)
        ensures
            r == (self.partners@.len() > 0 && trimmed(self.compose_file@).len() > 0),
    {
        self.partners.len() > 0 && trim_chars(self.compose_file.as_str()).len() > 0
    }

    /// Start sending: the trimmed path of the file to read, or an error
    /// when no file is chosen.
    pub fn send_begin(&mut self) -> (path: Option<String>)
        ensures
            if trimmed(old(self).compose_file@).len() == 0 {
                &&& *final(self) == (AppState { error: final(self).error, ..*old(self) })
                &&& final(self).error matches Some(e) && e@ == "Pick a file to send."@
                &&& path is None
            } else {
                &&& *final(self) == *old(self)
                &&& path matches Some(p) && p@ == trimmed(old(self).compose_file@)
            },
    {
        let p = trim_chars(self.compose_file.as_str());
        if p.len() == 0 {
            self.error = Some(owned("Pick a file to send."));
            return None;
        }
        Some(from_chars(p.as_slice()))
    }

    /// Finish sending once the file at `path` was read (`bytes`) and its
    /// name taken (`file_name`): send it to the chosen partner with the
    /// subject, or the file name when the subject is blank.
    pub fn send_with_file(&mut self, path: &str, file_name: Option<String>, bytes: Result<Vec<u8>, String>) -> (r: Option<Request>)
        requires
            bytes is Ok && old(self).compose_partner < old(self).partners@.len() && old(self).connected
                ==> old(self).inflight < u32::MAX,
        ensures
            match bytes {
                Err(e) => {
                    &&& *final(self) == (AppState { error: final(self).error, ..*old(self) })
                    &&& final(self).error matches Some(m) && m@ == "Cannot read "@ + path@ + ": "@ + e@
                    &&& r is None
                },
                Ok(b) => if old(self).compose_partner >= old(self).partners@.len() {
                    &&& *final(self) == (AppState { error: final(self).error, ..*old(self) })
                    &&& final(self).error matches Some(m) && m@ == "Pick a partner."@
                    &&& r is None
                } else if !old(self).connected {
                    *final(self) == *old(self) && r is None
                } else {
                    let fname = match file_name { Some(f) => f@, None => "message.edi"@ };
                    let subj = trimmed(old(self).compose_subject@);
                    &&& *final(self) == (AppState {
                        compose_sending: true,
                        inflight: (old(self).inflight + 1) as u32,
                        ..*old(self)
                    })
                    &&& r matches Some(Request::Send { partner, subject, file_name: n, bytes: data })
                    &&& partner@ == send_target(old(self).partners@[old(self).compose_partner as int]@)
                    &&& subject@ == (if subj.len() == 0 { fname } else { subj })
                    &&& n@ == fname
                    &&& data == b
                },
            },
    {
        let data = match bytes {
            Ok(b) => b,
            Err(e) => {
                let mut m = to_chars("Cannot read ");
                push_str(&mut m, path);
                push_str(&mut m, ": ");
                push_str(&mut m, e.as_str());
                self.error = Some(from_chars(m.as_slice()));
                return None;
            },
        };
        if self.compose_partner >= self.partners.len() {
            self.error = Some(owned("Pick a partner."));
            return None;
        }
        let partner = &self.partners[self.compose_partner];
        let partner_id = match partner.get_value("id") {
            Some(v) => v,
            None => {
                let keys: [&str; 2] = ["as2_id", "as2id"];
                assert(keys_model(keys@) =~= seq!["as2_id"@, "as2id"@]);
                JsonValue::Str(sfield(partner, keys.as_slice()))
            },
        };
        let fname = match file_name {
            Some(f) => f,
            None => owned("message.edi"),
        };
        let subj = trim_chars(self.compose_subject.as_str());
        let subject = if subj.len() == 0 { fname.clone() } else { from_chars(subj.as_slice()) };
        if !self.connected {
            return None;
        }
        self.compose_sending = true;
        self.inflight = self.inflight + 1;
        Some(Request::Send { partner: partner_id, subject, file_name: fname, bytes: data })
    }

    /// The file name to offer when saving the payload, if a payload is loaded.
    pub fn payload_file_name(&self) -> (r: Option<String>)
        ensures
            match r {
                Some(n) => self.body_bytes is Some && (n@ == payload_name(match self.opened { Some(m) => Some(m@), None => None })),
                None => self.body_bytes is None,
            },
    {
        if self.body_bytes.is_none() {
            return None;
        }
        let name = match &self.opened {
            Some(m) => {
                let keys: [&str; 3] = ["message_id", "idmensaje", "id"];
                assert(keys_model(keys@) =~= seq!["message_id"@, "idmensaje"@, "id"@]);
                sfield(m, keys.as_slice())
            },
            None => String::new(),
        };
        let stem = if name.as_str().unicode_len() == 0 { owned("payload") } else { name };
        let mut safe = sanitize_file_stem(stem.as_str());
        push_str(&mut safe, ".edi");
        Some(from_chars(safe.as_slice()))
    }

    /// The payload was written to `Ok(destination)`, or failed with `Err`.
    pub fn payload_saved(&mut self, res: Result<String, String>)
        ensures
            match res {
                Ok(d) => {
                    &&& *final(self) == (AppState { status: final(self).status, ..*old(self) })
                    &&& final(self).status@ == "Saved → "@ + d@
                },
                Err(e) => {
                    &&& *final(self) == (AppState { error: final(self).error, ..*old(self) })
                    &&& final(self).error matches Some(m) && m@ == "Save failed: "@ + e@
                },
            },
    {
        match res {
            Ok(d) => {
                let mut m = to_chars("Saved → ");
                push_str(&mut m, d.as_str());
                self.status = from_chars(m.as_slice());
            },
            Err(e) => {
                let mut m = to_chars("Save failed: ");
                push_str(&mut m, e.as_str());
                self.error = Some(from_chars(m.as_slice()));
            },
        }
    }
}

} // verus!
