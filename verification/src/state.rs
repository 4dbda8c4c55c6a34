//! The client's state and the decisions it takes on what the user does;
//! the shell performs the requests it returns and hands back their results.

use vstd::prelude::*;
use crate::config::Config;
use crate::folders::{derive_folders, folder_order, folders_model, grouped, records_model, sorted_by_name, depths_fit, tree_order, Folder};
use crate::json::{lookup, JsonNumber, JsonValue, NumberModel, Record, ValueModel};
use crate::messages::{shown, visible_indices, SortKey};
use crate::model::{owned, Forms, Module, Request, Screen};

verus! {

/// Everything the client knows and shows.
pub struct AppState {
    pub config: Config,
    /// Whether an API client has been built (the user is connected).
    pub connected: bool,
    pub screen: Screen,

    // Data
    pub stations: Vec<Record>,
    pub selected_station: Option<i64>,
    pub messages: Vec<Record>,
    pub folders: Vec<Folder>,
    pub selected_folder: Option<i64>,
    pub selected: Option<usize>,
    pub opened: Option<Record>,
    pub body_text: Option<String>,
    pub body_bytes: Option<Vec<u8>>,
    pub body_note: Option<String>,
    pub partners: Vec<Record>,

    // Maintenance modules
    pub module: Module,
    pub certificates: Vec<Record>,
    pub maint_sel: Option<usize>,
    pub maint_detail: Option<Record>,
    pub maint_search: String,
    pub forms: Forms,
    pub confirm_delete: Option<JsonValue>,

    // UI
    pub search: String,
    pub sort_key: SortKey,
    pub sort_asc: bool,
    pub inflight: u32,
    pub error: Option<String>,
    pub status: String,

    // Compose
    pub compose_open: bool,
    pub compose_partner: usize,
    pub compose_subject: String,
    pub compose_file: String,
    pub compose_sending: bool,
}

/// The sort column and direction after a click on column `clicked`: the
/// same column flips the direction; a new column sorts descending for the
/// date and ascending otherwise.
pub open spec fn sort_after(key: SortKey, asc: bool, clicked: SortKey) -> (SortKey, bool) {
    if key == clicked { (key, !asc) } else { (clicked, clicked != SortKey::Date) }
}

/// The number `json!` makes of a signed integer.
pub open spec fn int_number(i: i64) -> NumberModel {
    if i < 0 { NumberModel::NegInt(i) } else { NumberModel::PosInt(i as u64) }
}

/// The JSON value of a signed integer.
pub fn int_value(i: i64) -> (v: JsonValue)
    ensures
        v@ == ValueModel::Number(int_number(i)),
{
    if i < 0 {
        JsonValue::Number(JsonNumber::NegInt(i))
    } else {
        JsonValue::Number(JsonNumber::PosInt(i as u64))
    }
}

/// The body of a message listing: at most 500 messages, of the selected
/// station and folder when one is selected.
pub open spec fn messages_query(station: Option<i64>, folder: Option<i64>) -> Seq<(Seq<char>, ValueModel)> {
    seq![("limit"@, ValueModel::Number(NumberModel::PosInt(500)))]
        + match station {
            Some(s) => seq![("station"@, ValueModel::Number(int_number(s)))],
            None => Seq::empty(),
        }
        + match folder {
            Some(f) => seq![("folder"@, ValueModel::Number(int_number(f)))],
            None => Seq::empty(),
        }
}

/// The body of a folder listing: the selected station's folders, or all.
pub open spec fn folders_query(station: Option<i64>) -> Seq<(Seq<char>, ValueModel)> {
    match station {
        Some(s) => seq![("station"@, ValueModel::Number(int_number(s)))],
        None => Seq::empty(),
    }
}

/// The id of the record at `index`, if there is such a record with an id.
pub open spec fn id_at(rs: Seq<Record>, index: int) -> Option<ValueModel> {
    if 0 <= index < rs.len() {
        lookup(rs[index]@, "id"@)
    } else {
        None
    }
}

/// A record's `id` as a signed integer, where it is one.
pub open spec fn id_as_i64(r: Seq<(Seq<char>, ValueModel)>) -> Option<i64> {
    match lookup(r, "id"@) {
        Some(v) => crate::json::value_as_i64(v),
        None => None,
    }
}

/// The selected folder after the folder list is replaced: kept only if a
/// folder with that id is still listed.
pub open spec fn kept_selection(sel: Option<i64>, fs: Seq<Folder>) -> Option<i64> {
    match sel {
        Some(s) => if exists|i: int| 0 <= i < fs.len() && #[trigger] fs[i].id == s { Some(s) } else { None },
        None => None,
    }
}

/// `n` is `o` after starting a counted request that needs the client:
/// one more request in flight when connected, nothing otherwise.
pub open spec fn counted(o: AppState) -> AppState {
    if o.connected { AppState { inflight: (o.inflight + 1) as u32, ..o } } else { o }
}

/// The request, when connected.
pub open spec fn if_connected(o: AppState, r: Request) -> Option<Request> {
    if o.connected { Some(r) } else { None }
}

/// `n` and `r` are what reloading the messages gives from `o`.
pub open spec fn messages_reloaded(o: AppState, n: AppState, r: Option<Request>) -> bool {
    if o.connected {
        &&& n == (AppState { inflight: (o.inflight + 1) as u32, status: n.status, ..o })
        &&& n.status@ == "Loading messages…"@
        &&& r matches Some(Request::ListMessages { body })
        &&& body@ == messages_query(o.selected_station, o.selected_folder)
    } else {
        n == o && r is None
    }
}

/// `n` and `r` are what setting the status to `status` and then reloading
/// the messages gives from `o`.
pub open spec fn messages_reloaded_after(o: AppState, status: Seq<char>, n: AppState, r: Option<Request>) -> bool {
    exists|mid: AppState| {
        &&& #[trigger] mid.status@ == status
        &&& mid == (AppState { status: mid.status, ..o })
        &&& messages_reloaded(mid, n, r)
    }
}

/// `r` is the folder listing request for the state `o`.
pub open spec fn folders_requested(o: AppState, r: Option<Request>) -> bool {
    if o.connected {
        &&& r matches Some(Request::ListFolders { body })
        &&& body@ == folders_query(o.selected_station)
    } else {
        r is None
    }
}

/// `n` and `r` are what refreshing the active module gives from `o`, the
/// status first set to `status`.
pub open spec fn view_refreshed(o: AppState, n: AppState, r: Option<Request>, status: Seq<char>) -> bool {
    exists|mid: AppState| {
        &&& #[trigger] mid.status@ == status
        &&& mid == (AppState { status: mid.status, ..o })
        &&& match o.module {
            Module::Mail => messages_reloaded(mid, n, r),
            Module::Stations => n == counted(mid) && r == if_connected(mid, Request::ListStations),
            Module::Partners => n == mid && r == if_connected(mid, Request::ListPartners),
            Module::Certificates => n == counted(mid) && r == if_connected(mid, Request::ListCertificates),
        }
    }
}

/// The requests of a list that holds at most one.
pub open spec fn only(reqs: Seq<Request>) -> Option<Request> {
    if reqs.len() == 0 { None } else { Some(reqs[0]) }
}

impl AppState {
    /// The state at start-up, with the loaded settings.
    pub fn new(config: Config) -> (s: AppState)
        ensures
            s.config == config,
            !s.connected,
            s.screen == Screen::Login,
            s.stations@.len() == 0 && s.messages@.len() == 0 && s.folders@.len() == 0,
            s.partners@.len() == 0 && s.certificates@.len() == 0,
            s.selected_station is None && s.selected_folder is None && s.selected is None,
            s.opened is None && s.body_text is None && s.body_bytes is None && s.body_note is None,
            s.module == Module::Mail,
            s.maint_sel is None && s.maint_detail is None && s.maint_search@.len() == 0,
            crate::model::forms_are_default(s.forms),
            s.confirm_delete is None,
            s.search@.len() == 0,
            s.sort_key == SortKey::Date && !s.sort_asc,
            s.inflight == 0,
            s.error is None && s.status@.len() == 0,
            !s.compose_open && s.compose_partner == 0 && !s.compose_sending,
            s.compose_subject@.len() == 0 && s.compose_file@.len() == 0,
    {
        AppState {
            config,
            connected: false,
            screen: Screen::Login,
            stations: Vec::new(),
            selected_station: None,
            messages: Vec::new(),
            folders: Vec::new(),
            selected_folder: None,
            selected: None,
            opened: None,
            body_text: None,
            body_bytes: None,
            body_note: None,
            partners: Vec::new(),
            module: Module::Mail,
            certificates: Vec::new(),
            maint_sel: None,
            maint_detail: None,
            maint_search: String::new(),
            forms: Forms::default(),
            confirm_delete: None,
            search: String::new(),
            sort_key: SortKey::Date,
            sort_asc: false,
            inflight: 0,
            error: None,
            status: String::new(),
            compose_open: false,
            compose_partner: 0,
            compose_subject: String::new(),
            compose_file: String::new(),
            compose_sending: false,
        }
    }

    /// Load the stations (counted as in flight).
    pub fn load_stations(&mut self) -> (r: Option<Request>)
        requires
            old(self).connected ==> old(self).inflight < u32::MAX,
        ensures
            *final(self) == counted(*old(self)),
            r == if_connected(*old(self), Request::ListStations),
    {
        if !self.connected {
            return None;
        }
        self.inflight = self.inflight + 1;
        Some(Request::ListStations)
    }

    /// Load the partners (in the background, not counted).
    pub fn load_partners(&self) -> (r: Option<Request>)
        ensures
            r == if_connected(*self, Request::ListPartners),
    {
        if !self.connected {
            return None;
        }
        Some(Request::ListPartners)
    }

    /// Load the certificates (counted as in flight).
    pub fn load_certificates(&mut self) -> (r: Option<Request>)
        requires
            old(self).connected ==> old(self).inflight < u32::MAX,
        ensures
            *final(self) == counted(*old(self)),
            r == if_connected(*old(self), Request::ListCertificates),
    {
        if !self.connected {
            return None;
        }
        self.inflight = self.inflight + 1;
        Some(Request::ListCertificates)
    }

    /// Reload the messages of the selected station and folder.
    pub fn refresh_messages(&mut self) -> (r: Option<Request>)
        requires
            old(self).connected ==> old(self).inflight < u32::MAX,
        ensures
            messages_reloaded(*old(self), *final(self), r),
    {
        if !self.connected {
            return None;
        }
        let mut entries: Vec<(String, JsonValue)> = Vec::new();
        entries.push((owned("limit"), JsonValue::Number(JsonNumber::PosInt(500))));
        let ghost e1 = entries@;
        if let Some(sid) = self.selected_station {
            entries.push((owned("station"), int_value(sid)));
        }
        let ghost e2 = entries@;
        if let Some(fid) = self.selected_folder {
            entries.push((owned("folder"), int_value(fid)));
        }
        let body = Record { entries };
        assert(body@ =~= messages_query(self.selected_station, self.selected_folder));
        self.inflight = self.inflight + 1;
        self.status = owned("Loading messages…");
        Some(Request::ListMessages { body })
    }

    /// Load the folder tree for the selected station (or the whole site).
    pub fn load_folders(&self) -> (r: Option<Request>)
        ensures
            folders_requested(*self, r),
    {
        if !self.connected {
            return None;
        }
        let mut entries: Vec<(String, JsonValue)> = Vec::new();
        if let Some(sid) = self.selected_station {
            entries.push((owned("station"), int_value(sid)));
        }
        let body = Record { entries };
        assert(body@ =~= folders_query(self.selected_station));
        Some(Request::ListFolders { body })
    }

    /// Switch the sort column: the same column flips the direction; a new
    /// column sorts descending for the date and ascending otherwise.
    pub fn set_sort(&mut self, key: SortKey)
        ensures
            *final(self) == (AppState {
                sort_key: sort_after(old(self).sort_key, old(self).sort_asc, key).0,
                sort_asc: sort_after(old(self).sort_key, old(self).sort_asc, key).1,
                ..*old(self)
            }),
    {
        if self.sort_key == key {
            self.sort_asc = !self.sort_asc;
        } else {
            self.sort_key = key;
            self.sort_asc = !(key == SortKey::Date);
        }
    }

    /// The marker after a grid column's title: an arrow pointing the sort
    /// direction on the sorted column, nothing on the others.
    pub fn sort_marker(&self, key: SortKey) -> (r: &'static str)
        ensures
            r@ == (if self.sort_key == key {
                if self.sort_asc { " ▲"@ } else { " ▼"@ }
            } else {
                ""@
            }),
    {
        if self.sort_key == key {
            if self.sort_asc { " ▲" } else { " ▼" }
        } else {
            ""
        }
    }

    /// Replace the folder list, dropping the folder selection if that folder
    /// is gone.
    pub fn set_folders(&mut self, folders: Vec<Folder>)
        ensures
            *final(self) == (AppState {
                folders: folders,
                selected_folder: kept_selection(old(self).selected_folder, folders@),
                ..*old(self)
            }),
    {
        if let Some(sel) = self.selected_folder {
            let mut found = false;
            let mut i: usize = 0;
            while i < folders.len()
                invariant
                    i <= folders@.len(),
                    found == exists|j: int| 0 <= j < i && #[trigger] folders@[j].id == sel,
                decreases folders@.len() - i,
            {
                if folders[i].id == sel {
                    found = true;
                }
                i = i + 1;
            }
            if !found {
                self.selected_folder = None;
            }
        }
        self.folders = folders;
    }

    /// Fallback when the folders endpoint is unavailable: rebuild the folder
    /// list from the loaded messages.
    pub fn derive_folders(&mut self)
        ensures
            sorted_by_name(folders_model(final(self).folders@), grouped(records_model(old(self).messages@))),
            *final(self) == (AppState {
                folders: final(self).folders,
                selected_folder: kept_selection(old(self).selected_folder, final(self).folders@),
                ..*old(self)
            }),
    {
        let folders = derive_folders(&self.messages);
        self.set_folders(folders);
    }

    /// Depth-first display order of the folder tree: (folder index, depth).
    pub fn folder_order(&self) -> (out: Vec<(usize, u8)>)
        requires
            depths_fit(folders_model(self.folders@)),
        ensures
            out@ == tree_order(folders_model(self.folders@)),
    {
        folder_order(&self.folders)
    }

    /// Indices of the messages to show, filtered by the selected folder and
    /// the search text, and sorted by the chosen column.
    pub fn visible_indices(&self) -> (out: Vec<usize>)
        ensures
            shown(records_model(self.messages@), self.search@, self.selected_folder, self.sort_key, self.sort_asc, out@),
    {
        visible_indices(&self.messages, self.search.as_str(), self.selected_folder, self.sort_key, self.sort_asc)
    }

    /// Forget the connection and everything loaded through it.
    pub fn logout(&mut self)
        ensures
            *final(self) == (AppState {
                connected: false,
                screen: Screen::Login,
                messages: final(self).messages,
                stations: final(self).stations,
                partners: final(self).partners,
                folders: final(self).folders,
                selected_folder: None,
                selected: None,
                opened: None,
                body_text: None,
                body_bytes: None,
                status: final(self).status,
                ..*old(self)
            }),
            final(self).messages@.len() == 0,
            final(self).stations@.len() == 0,
            final(self).partners@.len() == 0,
            final(self).folders@.len() == 0,
            final(self).status@.len() == 0,
    {
        self.connected = false;
        self.screen = Screen::Login;
        self.messages.clear();
        self.stations.clear();
        self.partners.clear();
        self.folders.clear();
        self.selected_folder = None;
        self.selected = None;
        self.opened = None;
        self.body_text = None;
        self.body_bytes = None;
        self.status = String::new();
    }
}

} // verus!
