//! The maintenance modules (stations, partners, certificates): their grid
//! columns, the search over them, the detail pane and the delete flow.

use vstd::prelude::*;
use crate::chars::{from_chars, push_str, to_chars};
use crate::json::{
    display_text, first_field, keys_model, lookup, sfield, value_str, JsonValue, Record,
    ValueModel,
};
use crate::model::{owned, DeleteTarget, Module, Request};
use crate::state::{if_connected, AppState};
use crate::text::{
    contains, date_cuttable, date_fits, humanized, lowercase, lowercase_of, occurs_in, pretty_key,
    short_date, short_date_text,
};

verus! {

/// The column headers of a module's grid.
pub open spec fn headers_of(module: Module) -> Seq<Seq<char>> {
    match module {
        Module::Partners => seq!["Name"@, "AS2 ID"@, "Email"@, "Station"@],
        Module::Certificates => seq!["Common name"@, "Email"@, "Station"@, "Valid until"@],
        _ => seq!["Name"@, "AS2 ID"@],
    }
}

/// Column headers for a maintenance module.
pub fn maint_headers(module: Module) -> (h: Vec<&'static str>)
    ensures
        h@.map_values(|s: &str| s@) == headers_of(module),
{
    let h: Vec<&'static str> = match module {
        Module::Partners => vec!["Name", "AS2 ID", "Email", "Station"],
        Module::Certificates => vec!["Common name", "Email", "Station", "Valid until"],
        _ => vec!["Name", "AS2 ID"],
    };
    assert(h@.map_values(|s: &str| s@) =~= headers_of(module));
    h
}

/// A certificate's validity end (`validityEnd`, else `validityend`).
pub open spec fn validity_end(v: Seq<(Seq<char>, ValueModel)>) -> Seq<char> {
    first_field(v, seq!["validityEnd"@, "validityend"@])
}

/// The grid can show the record in the module: a certificate's validity
/// end can be cut to a short date.
pub open spec fn cells_showable(module: Module, v: Seq<(Seq<char>, ValueModel)>) -> bool {
    module == Module::Certificates ==> date_cuttable(validity_end(v))
}

/// The cells of one row of a module's grid.
pub open spec fn cells_of(module: Module, v: Seq<(Seq<char>, ValueModel)>) -> Seq<Seq<char>> {
    match module {
        Module::Partners => seq![
            first_field(v, seq!["name"@, "nombre"@]),
            first_field(v, seq!["as2_id"@, "as2id"@]),
            first_field(v, seq!["email"@]),
            first_field(v, seq!["station_name"@, "estacion"@]),
        ],
        Module::Certificates => seq![
            first_field(v, seq!["commonName"@, "commonname"@]),
            first_field(v, seq!["email"@]),
            first_field(v, seq!["station_name"@, "estacion"@]),
            short_date_text(validity_end(v)),
        ],
        _ => seq![
            first_field(v, seq!["name"@, "nombre"@]),
            first_field(v, seq!["as2_id"@, "as2id"@]),
        ],
    }
}

/// The models of a list of strings.
pub open spec fn strings_model(v: Seq<String>) -> Seq<Seq<char>> {
    v.map_values(|s: String| s@)
}

fn field2(v: &Record, a: &str, b: &str) -> (s: String)
    ensures
        s@ == first_field(v@, seq![a@, b@]),
{
    let keys: [&str; 2] = [a, b];
    assert(keys_model(keys@) =~= seq![a@, b@]);
    sfield(v, keys.as_slice())
}

fn field1(v: &Record, a: &str) -> (s: String)
    ensures
        s@ == first_field(v@, seq![a@]),
{
    let keys: [&str; 1] = [a];
    assert(keys_model(keys@) =~= seq![a@]);
    sfield(v, keys.as_slice())
}

/// Cell values for one row of a maintenance module.
pub fn maint_cells(module: Module, v: &Record) -> (cells: Vec<String>)
    requires
        cells_showable(module, v@),
    ensures
        strings_model(cells@) == cells_of(module, v@),
{
    let mut cells: Vec<String> = Vec::new();
    match module {
        Module::Partners => {
            cells.push(field2(v, "name", "nombre"));
            cells.push(field2(v, "as2_id", "as2id"));
            cells.push(field1(v, "email"));
            cells.push(field2(v, "station_name", "estacion"));
        },
        Module::Certificates => {
            cells.push(field2(v, "commonName", "commonname"));
            cells.push(field1(v, "email"));
            cells.push(field2(v, "station_name", "estacion"));
            let end = field2(v, "validityEnd", "validityend");
            cells.push(short_date(end.as_str()));
        },
        _ => {
            cells.push(field2(v, "name", "nombre"));
            cells.push(field2(v, "as2_id", "as2id"));
        },
    }
    assert(strings_model(cells@) =~= cells_of(module, v@));
    cells
}

/// A row shows under a lowercase search text when the text is empty or
/// occurs in one of its lowercased cells.
pub open spec fn row_matches(cells: Seq<Seq<char>>, needle: Seq<char>) -> bool {
    needle.len() == 0 || exists|c: int| 0 <= c < cells.len() && occurs_in(lowercase_of(#[trigger] cells[c]), needle)
}

/// The model of a grid row: the position in the module's list, the id, the
/// cells.
pub open spec fn row_model(row: (usize, JsonValue, Vec<String>)) -> (usize, ValueModel, Seq<Seq<char>>) {
    (row.0, row.1@, strings_model(row.2@))
}

/// The rows of the first `n` records that the search shows, in order.
pub open spec fn rows_of(module: Module, list: Seq<Record>, needle: Seq<char>, n: int) -> Seq<(usize, ValueModel, Seq<Seq<char>>)>
    decreases n,
{
    if n <= 0 {
        Seq::empty()
    } else {
        let prev = rows_of(module, list, needle, n - 1);
        let cells = cells_of(module, list[n - 1]@);
        if row_matches(cells, needle) {
            prev.push(((n - 1) as usize, match lookup(list[n - 1]@, "id"@) { Some(v) => v, None => ValueModel::Null }, cells))
        } else {
            prev
        }
    }
}

/// The list a module's grid shows.
pub open spec fn module_list(s: AppState) -> Seq<Record> {
    match s.module {
        Module::Partners => s.partners@,
        Module::Certificates => s.certificates@,
        _ => s.stations@,
    }
}

/// The key/value rows of the detail pane, from entry `i` on: entries named
/// `raw` and null values are skipped, keys are humanized.
pub open spec fn detail_of(v: Seq<(Seq<char>, ValueModel)>, n: int) -> Seq<(Seq<char>, Seq<char>)>
    decreases n,
{
    if n <= 0 {
        Seq::empty()
    } else {
        let prev = detail_of(v, n - 1);
        let e = v[n - 1];
        if e.0 == "raw"@ || e.1 == ValueModel::Null {
            prev
        } else {
            prev.push((humanized(e.0, e.0.len() as int), display_text(e.1)))
        }
    }
}

/// The key/value rows of the detail pane for a record.
pub fn detail_rows(v: &Record) -> (rows: Vec<(String, String)>)
    ensures
        rows@.map_values(|r: (String, String)| (r.0@, r.1@)) == detail_of(v@, v@.len() as int),
{
    let mut rows: Vec<(String, String)> = Vec::new();
    let mut i: usize = 0;
    while i < v.entries.len()
        invariant
            i <= v.entries@.len(),
            rows@.map_values(|r: (String, String)| (r.0@, r.1@)) == detail_of(v@, i as int),
        decreases v.entries@.len() - i,
    {
        let key = &v.entries[i].0;
        let val = &v.entries[i].1;
        assert(v@[i as int] == (key@, val@));
        let ghost before = rows@;
        if !(crate::chars::str_eq(key.as_str(), "raw") || val.is_null()) {
            rows.push((pretty_key(key.as_str()), value_str(val)));
        }
        assert(rows@.map_values(|r: (String, String)| (r.0@, r.1@)) =~= detail_of(v@, i + 1));
        i = i + 1;
    }
    rows
}

impl AppState {
    /// The list the active module's grid shows.
    pub fn current_maint_list(&self) -> (l: &Vec<Record>)
        ensures
            l@ == module_list(*self),
    {
        match self.module {
            Module::Partners => &self.partners,
            Module::Certificates => &self.certificates,
            _ => &self.stations,
        }
    }

    /// The rows of the active module's grid that the search shows: the
    /// position of each record, its id (null when it has none) and its cells.
    pub fn maint_rows(&self) -> (rows: Vec<(usize, JsonValue, Vec<String>)>)
        requires
            forall|i: int| 0 <= i < module_list(*self).len() ==> cells_showable(self.module, (#[trigger] module_list(*self)[i])@),
        ensures
            rows@.map_values(|r: (usize, JsonValue, Vec<String>)| row_model(r))
                == rows_of(self.module, module_list(*self), lowercase_of(self.maint_search@), module_list(*self).len() as int),
    {
        let needle = lowercase(self.maint_search.as_str());
        let list = self.current_maint_list();
        let mut rows: Vec<(usize, JsonValue, Vec<String>)> = Vec::new();
        let mut i: usize = 0;
        while i < list.len()
            invariant
                list@ == module_list(*self),
                needle@ == lowercase_of(self.maint_search@),
                forall|k: int| 0 <= k < module_list(*self).len() ==> cells_showable(self.module, (#[trigger] module_list(*self)[k])@),
                i <= list@.len(),
                rows@.map_values(|r: (usize, JsonValue, Vec<String>)| row_model(r))
                    == rows_of(self.module, list@, needle@, i as int),
            decreases list@.len() - i,
        {
            let v = &list[i];
            assert(cells_showable(self.module, list@[i as int]@));
            let cells = maint_cells(self.module, v);
            let mut hit = needle.as_str().unicode_len() == 0;
            let mut c: usize = 0;
            while c < cells.len()
                invariant
                    needle@ == lowercase_of(self.maint_search@),
                    c <= cells@.len(),
                    hit == (needle@.len() == 0 || exists|q: int| 0 <= q < c && occurs_in(lowercase_of(#[trigger] cells@[q]@), needle@)),
                decreases cells@.len() - c,
            {
                if contains(lowercase(cells[c].as_str()).as_str(), needle.as_str()) {
                    hit = true;
                }
                c = c + 1;
            }
            assert(hit == row_matches(strings_model(cells@), needle@)) by {
                if hit && needle@.len() != 0 {
                    let q = choose|q: int| 0 <= q < cells@.len() && occurs_in(lowercase_of(#[trigger] cells@[q]@), needle@);
                    assert(strings_model(cells@)[q] == cells@[q]@);
                }
                if row_matches(strings_model(cells@), needle@) && needle@.len() != 0 {
                    let q = choose|q: int| 0 <= q < strings_model(cells@).len() && occurs_in(lowercase_of(#[trigger] strings_model(cells@)[q]), needle@);
                    assert(strings_model(cells@)[q] == cells@[q]@);
                }
            }
            let ghost before = rows@;
            if hit {
                let id = match v.get_value("id") {
                    Some(x) => x,
                    None => JsonValue::Null,
                };
                rows.push((i, id, cells));
            }
            assert(rows@.map_values(|r: (usize, JsonValue, Vec<String>)| row_model(r))
                =~= rows_of(self.module, list@, needle@, i + 1));
            i = i + 1;
        }
        rows
    }

    /// Open the record at `index` of the active module in the detail pane,
    /// loading it by its id (nothing to load for a null id).
    pub fn open_maint_by_id(&mut self, index: usize, id: JsonValue) -> (r: Option<Request>)
        requires
            id@ != ValueModel::Null && old(self).connected ==> old(self).inflight < u32::MAX,
        ensures
            if id@ != ValueModel::Null && old(self).connected {
                &&& *final(self) == (AppState {
                    maint_sel: Some(index),
                    maint_detail: None,
                    inflight: (old(self).inflight + 1) as u32,
                    ..*old(self)
                })
                &&& r matches Some(Request::GetMaintItem { module: m, id: x })
                &&& m == old(self).module && x@ == id@
            } else {
                *final(self) == (AppState { maint_sel: Some(index), maint_detail: None, ..*old(self) }) && r is None
            },
    {
        self.maint_sel = Some(index);
        self.maint_detail = None;
        if id.is_null() {
            return None;
        }
        if !self.connected {
            return None;
        }
        self.inflight = self.inflight + 1;
        Some(Request::GetMaintItem { module: self.module, id })
    }

    /// Close the detail pane of a maintenance module.
    pub fn close_maint_detail(&mut self)
        ensures
            *final(self) == (AppState { maint_sel: None, maint_detail: None, ..*old(self) }),
    {
        self.maint_sel = None;
        self.maint_detail = None;
    }

    /// Whether the detail pane offers Edit and Delete: for a loaded station
    /// or partner.
    pub fn detail_editable(&self) -> (r: bool)
        ensures
            r == ((self.module == Module::Stations || self.module == Module::Partners)
                && self.maint_detail is Some),
    {
        (self.module == Module::Stations || self.module == Module::Partners) && self.maint_detail.is_some()
    }

    /// Ask to delete the record in the detail pane (its id, if it has one).
    pub fn ask_delete(&mut self)
        ensures
            match old(self).maint_detail {
                Some(d) => {
                    &&& *final(self) == (AppState { confirm_delete: final(self).confirm_delete, ..*old(self) })
                    &&& match final(self).confirm_delete {
                        Some(id) => lookup(d@, "id"@) == Some(id@),
                        None => lookup(d@, "id"@) is None,
                    }
                },
                None => *final(self) == *old(self),
            },
    {
        let id = match &self.maint_detail {
            Some(d) => d.get_value("id"),
            None => { return; },
        };
        self.confirm_delete = id;
    }

    /// The delete was confirmed: delete the partner (in the partners module)
    /// or the station, and close the detail pane.
    pub fn confirm_delete(&mut self) -> (r: Option<Request>)
        requires
            old(self).confirm_delete is Some && old(self).connected ==> old(self).inflight < u32::MAX,
        ensures
            match old(self).confirm_delete {
                Some(id) => {
                    let target = if old(self).module == Module::Partners { DeleteTarget::Partner } else { DeleteTarget::Station };
                    &&& if old(self).connected {
                        &&& *final(self) == (AppState {
                            confirm_delete: None,
                            maint_sel: None,
                            maint_detail: None,
                            inflight: (old(self).inflight + 1) as u32,
                            ..*old(self)
                        })
                        &&& r matches Some(Request::Delete { target: t, id: x, label: l })
                        &&& t == target && x@ == id@ && l@ == "Deleted"@
                    } else {
                        *final(self) == (AppState { confirm_delete: None, maint_sel: None, maint_detail: None, ..*old(self) }) && r is None
                    }
                },
                None => *final(self) == *old(self) && r is None,
            },
    {
        let id = match self.confirm_delete.take() {
            Some(id) => id,
            None => { return None; },
        };
        let r = if self.connected {
            self.inflight = self.inflight + 1;
            let target = if self.module == Module::Partners { DeleteTarget::Partner } else { DeleteTarget::Station };
            Some(Request::Delete { target, id, label: owned("Deleted") })
        } else {
            None
        };
        self.maint_sel = None;
        self.maint_detail = None;
        r
    }

    /// The delete was cancelled.
    pub fn cancel_delete(&mut self)
        ensures
            *final(self) == (AppState { confirm_delete: None, ..*old(self) }),
    {
        self.confirm_delete = None;
    }
}

/// A partner's label in the compose window: its name, followed by its AS2
/// id in parentheses when it has one.
pub open spec fn partner_label_of(p: Seq<(Seq<char>, ValueModel)>) -> Seq<char> {
    let name = first_field(p, seq!["name"@, "nombre"@]);
    let as2 = first_field(p, seq!["as2_id"@, "as2id"@]);
    if as2.len() == 0 { name } else { name + " ("@ + as2 + ")"@ }
}

/// A partner's label in the compose window.
pub fn partner_label(p: &Record) -> (s: String)
    ensures
        s@ == partner_label_of(p@),
{
    let name = field2(p, "name", "nombre");
    let as2 = field2(p, "as2_id", "as2id");
    if as2.as_str().unicode_len() == 0 {
        name
    } else {
        let mut out = to_chars(name.as_str());
        push_str(&mut out, " (");
        push_str(&mut out, as2.as_str());
        push_str(&mut out, ")");
        from_chars(out.as_slice())
    }
}

/// A station's name (`name`, else `nombre`).
pub fn station_name(s: &Record) -> (r: String)
    ensures
        r@ == first_field(s@, seq!["name"@, "nombre"@]),
{
    field2(s, "name", "nombre")
}

/// The label of a form's station picker: the chosen station's name, or a
/// prompt when the choice is out of range.
pub fn station_choice_label(stations: &Vec<Record>, selected: usize) -> (r: String)
    ensures
        r@ == (if selected < stations@.len() {
            first_field(stations@[selected as int]@, seq!["name"@, "nombre"@])
        } else {
            "— pick a station —"@
        }),
{
    if selected < stations.len() {
        station_name(&stations[selected])
    } else {
        owned("— pick a station —")
    }
}

/// The position of the first station from position `i` on whose id is `sid`.
pub open spec fn station_with_id(stations: Seq<Record>, sid: i64, i: int) -> Option<int>
    decreases stations.len() - i,
{
    if i < 0 || i >= stations.len() {
        None
    } else if crate::state::id_as_i64(stations[i]@) == Some(sid) {
        Some(i)
    } else {
        station_with_id(stations, sid, i + 1)
    }
}

/// The toolbar's station picker label: the selected station's name, or
/// `All stations`.
pub open spec fn station_label_of(stations: Seq<Record>, sel: Option<i64>) -> Seq<char> {
    match sel {
        Some(sid) => match station_with_id(stations, sid, 0) {
            Some(i) => first_field(stations[i]@, seq!["name"@, "nombre"@]),
            None => "All stations"@,
        },
        None => "All stations"@,
    }
}

impl AppState {
    /// The label of the toolbar's station picker.
    pub fn station_label(&self) -> (r: String)
        ensures
            r@ == station_label_of(self.stations@, self.selected_station),
    {
        let sid = match self.selected_station {
            Some(s) => s,
            None => { return owned("All stations"); },
        };
        let mut i: usize = 0;
        while i < self.stations.len()
            invariant
                self.selected_station == Some(sid),
                i <= self.stations@.len(),
                station_with_id(self.stations@, sid, 0) == station_with_id(self.stations@, sid, i as int),
            decreases self.stations@.len() - i,
        {
            if self.stations[i].get_i64("id") == Some(sid) {
                assert(crate::state::id_as_i64(self.stations@[i as int]@) == Some(sid));
                assert(station_with_id(self.stations@, sid, i as int) == Some(i as int));
                return station_name(&self.stations[i]);
            }
            i = i + 1;
        }
        owned("All stations")
    }

    /// The label of the compose window's partner picker: the chosen
    /// partner's label, or a prompt when no partner is chosen.
    pub fn compose_partner_label(&self) -> (r: String)
        ensures
            r@ == (if self.compose_partner < self.partners@.len() {
                partner_label_of(self.partners@[self.compose_partner as int]@)
            } else {
                "— pick a partner —"@
            }),
    {
        if self.compose_partner < self.partners.len() {
            partner_label(&self.partners[self.compose_partner])
        } else {
            owned("— pick a partner —")
        }
    }

    /// Whether every row of the active module's grid can be shown (each
    /// certificate's validity end can be cut to a short date).
    pub fn maint_rows_showable(&self) -> (r: bool)
        ensures
            r == forall|i: int| 0 <= i < module_list(*self).len() ==> cells_showable(self.module, (#[trigger] module_list(*self)[i])@),
    {
        let list = self.current_maint_list();
        if self.module != Module::Certificates {
            return true;
        }
        let mut i: usize = 0;
        while i < list.len()
            invariant
                list@ == module_list(*self),
                self.module == Module::Certificates,
                i <= list@.len(),
                forall|k: int| 0 <= k < i ==> cells_showable(self.module, (#[trigger] list@[k])@),
            decreases list@.len() - i,
        {
            let end = field2(&list[i], "validityEnd", "validityend");
            if !date_fits(end.as_str()) {
                return false;
            }
            i = i + 1;
        }
        true
    }
}

} // verus!
