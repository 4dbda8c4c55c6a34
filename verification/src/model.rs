//! The client's vocabulary: modules, screens, forms, the requests the shell
//! sends to the API on the client's behalf, and the events it hands back.

use vstd::prelude::*;
use crate::json::{JsonValue, Record, ValueModel};

verus! {

/// Whether the login form or the main window is shown.
#[derive(Clone, Copy, PartialEq, Eq, Structural, Debug)]
pub enum Screen {
    Login,
    Main,
}

/// Top-level modules, switched from the left nav rail.
#[derive(Clone, Copy, PartialEq, Eq, Structural, Debug)]
pub enum Module {
    Mail,
    Stations,
    Partners,
    Certificates,
}

/// Which "New …" form is open.
#[derive(Clone, Copy, PartialEq, Eq, Structural, Debug)]
pub enum NewKind {
    Station,
    Partner,
    Certificate,
}

/// An action on one message.
#[derive(Clone, Copy, PartialEq, Eq, Structural, Debug)]
pub enum MessageOp {
    MarkRead,
    MarkUnread,
    Delete,
    Get,
}

/// Which endpoint a submitted form goes to.
#[derive(Clone, Copy, PartialEq, Eq, Structural, Debug)]
pub enum SaveOp {
    CreateStation,
    UpdateStation,
    CreatePartner,
    UpdatePartner,
    CreateCertificate,
}

/// What a confirmed delete in a maintenance module removes.
#[derive(Clone, Copy, PartialEq, Eq, Structural, Debug)]
pub enum DeleteTarget {
    Station,
    Partner,
}

/// Backing state for the create forms.
pub struct Forms {
    pub open: Option<NewKind>,
    /// Set when the form is editing an existing record (its id); None = create.
    pub edit_id: Option<JsonValue>,
    pub busy: bool,
    // Station
    pub st_name: String,
    pub st_as2: String,
    pub st_email: String,
    // Partner
    pub pt_station: usize,
    pub pt_name: String,
    pub pt_as2: String,
    pub pt_email: String,
    pub pt_url: String,
    // Certificate (self-signed)
    pub ct_station: usize,
    pub ct_cn: String,
    pub ct_email: String,
    pub ct_country: String,
    pub ct_locality: String,
    pub ct_province: String,
    pub ct_org: String,
    pub ct_orgunit: String,
    pub ct_days: String,
    pub ct_keybits: String,
    pub ct_hash: String,
}

/// The station form's fields are empty.
pub open spec fn station_fields_empty(f: Forms) -> bool {
    &&& f.st_name@.len() == 0
    &&& f.st_as2@.len() == 0
    &&& f.st_email@.len() == 0
}

/// The partner form's fields are empty and the first station is chosen.
pub open spec fn partner_fields_empty(f: Forms) -> bool {
    &&& f.pt_station == 0
    &&& f.pt_name@.len() == 0
    &&& f.pt_as2@.len() == 0
    &&& f.pt_email@.len() == 0
    &&& f.pt_url@.len() == 0
}

/// The certificate form holds its defaults: first station, empty names,
/// ES / Madrid / Madrid, unit IT, 365 days, 2048 bits, sha256.
pub open spec fn certificate_defaults(f: Forms) -> bool {
    &&& f.ct_station == 0
    &&& f.ct_cn@.len() == 0
    &&& f.ct_email@.len() == 0
    &&& f.ct_country@ == "ES"@
    &&& f.ct_locality@ == "Madrid"@
    &&& f.ct_province@ == "Madrid"@
    &&& f.ct_org@.len() == 0
    &&& f.ct_orgunit@ == "IT"@
    &&& f.ct_days@ == "365"@
    &&& f.ct_keybits@ == "2048"@
    &&& f.ct_hash@ == "sha256"@
}

/// The forms as they are when nothing has been typed.
pub open spec fn forms_are_default(f: Forms) -> bool {
    &&& f.open is None
    &&& f.edit_id is None
    &&& !f.busy
    &&& station_fields_empty(f)
    &&& partner_fields_empty(f)
    &&& certificate_defaults(f)
}

/// The characters of a literal, as a `String`.
pub fn owned(s: &str) -> (r: String)
    ensures
        r@ == s@,
{
    crate::chars::from_chars(crate::chars::to_chars(s).as_slice())
}

impl Default for Forms {
    fn default() -> (f: Forms)
        ensures
            forms_are_default(f),
    {
        Forms {
            open: None,
            edit_id: None,
            busy: false,
            st_name: String::new(),
            st_as2: String::new(),
            st_email: String::new(),
            pt_station: 0,
            pt_name: String::new(),
            pt_as2: String::new(),
            pt_email: String::new(),
            pt_url: String::new(),
            ct_station: 0,
            ct_cn: String::new(),
            ct_email: String::new(),
            ct_country: owned("ES"),
            ct_locality: owned("Madrid"),
            ct_province: owned("Madrid"),
            ct_org: String::new(),
            ct_orgunit: owned("IT"),
            ct_days: owned("365"),
            ct_keybits: owned("2048"),
            ct_hash: owned("sha256"),
        }
    }
}

/// Work the client asks the shell to do against the API (or the disk).
pub enum Request {
    /// Build an API client for this token and base URL.
    BuildClient { token: String, base_url: String },
    ListStations,
    ListPartners,
    ListCertificates,
    ListMessages { body: Record },
    ListFolders { body: Record },
    GetMessage { id: JsonValue },
    DownloadMessage { id: JsonValue },
    MessageAction { action: MessageOp, id: JsonValue, label: String },
    /// Delete a record; `label` names the outcome in the status bar.
    Delete { target: DeleteTarget, id: JsonValue, label: String },
    Save { op: SaveOp, body: Record, label: String },
    Send { partner: JsonValue, subject: String, file_name: String, bytes: Vec<u8> },
    GetMaintItem { module: Module, id: JsonValue },
    /// Write the settings to the settings file.
    PersistConfig,
}

/// Results delivered from background API tasks, errors as their text.
pub enum Event {
    Stations(Result<Vec<Record>, String>),
    Folders(Result<Vec<Record>, String>),
    Messages(Result<Vec<Record>, String>),
    Opened(Result<Record, String>),
    Body(Result<Vec<u8>, String>),
    Partners(Result<Vec<Record>, String>),
    Certificates(Result<Vec<Record>, String>),
    MaintDetail(Result<Record, String>),
    Created { label: String, res: Result<(), String> },
    Sent(Result<(), String>),
    Acted { label: String, res: Result<(), String> },
}

} // verus!
