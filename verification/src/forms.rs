//! The create and edit forms of the maintenance modules.

use vstd::prelude::*;
use crate::chars::from_chars;
use crate::config::{trim_chars, trimmed};
use crate::json::{first_field, keys_model, lookup, sfield, JsonValue, NumberModel, Record, ValueModel};
use crate::model::{certificate_defaults, forms_are_default, owned, partner_fields_empty, station_fields_empty, Forms, Module, NewKind, Request, SaveOp};
use crate::state::{id_at, int_number, int_value, AppState};

verus! {

/// Whether `c` is an ASCII decimal digit.
pub open spec fn is_digit(c: char) -> bool {
    '0' <= c && c <= '9'
}

/// The value of a string of decimal digits.
pub open spec fn digits_value(s: Seq<char>) -> nat
    decreases s.len(),
{
    if s.len() == 0 {
        0
    } else {
        digits_value(s.drop_last()) * 10 + ((s.last() as u32) - ('0' as u32)) as nat
    }
}

/// `s` without its leading sign, if it has one.
pub open spec fn unsigned_part(s: Seq<char>) -> Seq<char> {
    if s.len() > 0 && (s[0] == '-' || s[0] == '+') { s.drop_first() } else { s }
}

/// What `str::parse::<i64>` gives: an optional `+` or `-` followed by one or
/// more ASCII digits whose value fits in an `i64`.
pub open spec fn parsed_i64(s: Seq<char>) -> Option<i64> {
    let neg = s.len() > 0 && s[0] == '-';
    let body = unsigned_part(s);
    if body.len() == 0 || !(forall|i: int| 0 <= i < body.len() ==> is_digit(#[trigger] body[i])) {
        None
    } else if neg {
        if digits_value(body) <= 0x8000_0000_0000_0000 { Some((-(digits_value(body) as int)) as i64) } else { None }
    } else {
        if digits_value(body) <= 0x7FFF_FFFF_FFFF_FFFF { Some(digits_value(body) as i64) } else { None }
    }
}

proof fn lemma_digits_monotone(s: Seq<char>, k: int)
    requires
        0 <= k <= s.len(),
    ensures
        digits_value(s.take(k)) <= digits_value(s),
    decreases s.len() - k,
{
    if k < s.len() {
        lemma_digits_monotone(s, k + 1);
        assert(s.take(k + 1).drop_last() =~= s.take(k));
    } else {
        assert(s.take(k) =~= s);
    }
}

/// std's `str::parse::<i64>`, written out.
pub fn parse_i64(s: &[char]) -> (r: Option<i64>)
    ensures
        r == parsed_i64(s@),
{
    let n = s.len();
    let mut start: usize = 0;
    let mut neg = false;
    if n > 0 && (s[0] == '-' || s[0] == '+') {
        neg = s[0] == '-';
        start = 1;
    }
    let ghost body = unsigned_part(s@);
    assert(body =~= s@.subrange(start as int, n as int));
    if start == n {
        return None;
    }
    let limit: u128 = if neg { 0x8000_0000_0000_0000u128 } else { 0x7FFF_FFFF_FFFF_FFFFu128 };
    let mut acc: u128 = 0;
    let mut i: usize = start;
    while i < n
        invariant
            n == s@.len(),
            start <= i <= n,
            start < n,
            body =~= s@.subrange(start as int, n as int),
            body == unsigned_part(s@),
            limit == (if neg { 0x8000_0000_0000_0000u128 } else { 0x7FFF_FFFF_FFFF_FFFFu128 }),
            neg == (s@.len() > 0 && s@[0] == '-'),
            forall|j: int| 0 <= j < i - start ==> is_digit(#[trigger] body[j]),
            acc == digits_value(body.take(i - start)),
            acc <= limit,
        decreases n - i,
    {
        let c = s[i];
        assert(body[i - start] == c);
        if !('0' <= c && c <= '9') {
            assert(!is_digit(body[i - start]));
            assert(!(forall|j: int| 0 <= j < body.len() ==> is_digit(#[trigger] body[j])));
            assert(parsed_i64(s@) is None);
            return None;
        }
        let d: u128 = ((c as u32) - ('0' as u32)) as u128;
        assert(body.take(i - start + 1).drop_last() =~= body.take(i - start));
        assert(body.take(i - start + 1).last() == c);
        acc = acc * 10 + d;
        assert(acc == digits_value(body.take(i - start + 1)));
        if acc > limit {
            proof {
                lemma_digits_monotone(body, i - start + 1);
                assert(digits_value(body) > limit);
                assert(parsed_i64(s@) is None);
            }
            return None;
        }
        i = i + 1;
    }
    assert(body.take(n - start) =~= body);
    if neg {
        if acc == 0x8000_0000_0000_0000u128 {
            Some(-9223372036854775807i64 - 1)
        } else {
            Some(-(acc as i64))
        }
    } else {
        Some(acc as i64)
    }
}

/// The id a form refers to a station by: the `id` of the station at the
/// chosen position, or null.
pub open spec fn station_ref(stations: Seq<Record>, index: int) -> ValueModel {
    match id_at(stations, index) {
        Some(v) => v,
        None => ValueModel::Null,
    }
}

/// A trimmed form field as a JSON string.
pub open spec fn field(s: String) -> ValueModel {
    ValueModel::Str(trimmed(s@))
}

/// The body of a station form.
pub open spec fn station_body(f: Forms) -> Seq<(Seq<char>, ValueModel)> {
    seq![("name"@, field(f.st_name)), ("as2_id"@, field(f.st_as2)), ("email"@, field(f.st_email))]
}

/// The body of a partner form.
pub open spec fn partner_body(f: Forms, stations: Seq<Record>) -> Seq<(Seq<char>, ValueModel)> {
    seq![
        ("station"@, station_ref(stations, f.pt_station as int)),
        ("name"@, field(f.pt_name)),
        ("as2_id"@, field(f.pt_as2)),
        ("email"@, field(f.pt_email)),
        ("url"@, field(f.pt_url)),
    ]
}

/// A number field of the certificate form: its trimmed text parsed, or the
/// default when it does not parse.
pub open spec fn number_field(s: String, default: i64) -> ValueModel {
    ValueModel::Number(int_number(match parsed_i64(trimmed(s@)) { Some(v) => v, None => default }))
}

/// The body of a self-signed certificate form.
pub open spec fn certificate_body(f: Forms, stations: Seq<Record>) -> Seq<(Seq<char>, ValueModel)> {
    seq![
        ("self_signed"@, ValueModel::Bool(true)),
        ("station"@, station_ref(stations, f.ct_station as int)),
        ("commonName"@, field(f.ct_cn)),
        ("email"@, field(f.ct_email)),
        ("countryName"@, field(f.ct_country)),
        ("localityName"@, field(f.ct_locality)),
        ("provinceName"@, field(f.ct_province)),
        ("organization"@, field(f.ct_org)),
        ("organizationUnitName"@, field(f.ct_orgunit)),
        ("dias"@, number_field(f.ct_days, 365)),
        ("keybits"@, number_field(f.ct_keybits, 2048)),
        ("hash"@, field(f.ct_hash)),
    ]
}

/// What a submitted form sends: the body of its kind, with the edited
/// record's `id` added when editing; the endpoint; and the label of the
/// outcome.
pub open spec fn form_submission(f: Forms, stations: Seq<Record>, kind: NewKind) -> (Seq<(Seq<char>, ValueModel)>, SaveOp, Seq<char>) {
    let editing = f.edit_id is Some;
    let body = match kind {
        NewKind::Station => station_body(f),
        NewKind::Partner => partner_body(f, stations),
        NewKind::Certificate => certificate_body(f, stations),
    };
    let body = match f.edit_id {
        Some(id) => body.push(("id"@, id@)),
        None => body,
    };
    match kind {
        NewKind::Station => (body, if editing { SaveOp::UpdateStation } else { SaveOp::CreateStation },
            if editing { "Station updated"@ } else { "Station created"@ }),
        NewKind::Partner => (body, if editing { SaveOp::UpdatePartner } else { SaveOp::CreatePartner },
            if editing { "Partner updated"@ } else { "Partner created"@ }),
        NewKind::Certificate => (body, SaveOp::CreateCertificate, "Certificate created"@),
    }
}

fn field_value(s: &String) -> (v: JsonValue)
    ensures
        v@ == field(*s),
{
    JsonValue::Str(from_chars(trim_chars(s.as_str()).as_slice()))
}

fn number_value(s: &String, default: i64) -> (v: JsonValue)
    ensures
        v@ == number_field(*s, default),
{
    let t = trim_chars(s.as_str());
    let n = match parse_i64(t.as_slice()) {
        Some(v) => v,
        None => default,
    };
    int_value(n)
}

fn station_value(stations: &Vec<Record>, index: usize) -> (v: JsonValue)
    ensures
        v@ == station_ref(stations@, index as int),
{
    if index < stations.len() {
        match stations[index].get_value("id") {
            Some(v) => v,
            None => JsonValue::Null,
        }
    } else {
        JsonValue::Null
    }
}

/// The title of the form window.
pub open spec fn form_title(kind: NewKind, editing: bool) -> Seq<char> {
    match kind {
        NewKind::Station => if editing { "Edit station"@ } else { "New station"@ },
        NewKind::Partner => if editing { "Edit partner"@ } else { "New partner"@ },
        NewKind::Certificate => "New certificate (self-signed)"@,
    }
}

/// `f` is the form of `kind` opened on `item`: the default form, open,
/// editing the item's id (none when it has none), with the kind's fields
/// filled from the item and the first station chosen.
pub open spec fn edit_form(f: Forms, kind: NewKind, item: Seq<(Seq<char>, ValueModel)>) -> bool {
    &&& f.open == Some(kind)
    &&& match f.edit_id {
        Some(id) => lookup(item, "id"@) == Some(id@),
        None => lookup(item, "id"@) is None,
    }
    &&& !f.busy
    &&& match kind {
        NewKind::Station => {
            &&& f.st_name@ == first_field(item, seq!["name"@, "nombre"@])
            &&& f.st_as2@ == first_field(item, seq!["as2_id"@, "as2id"@])
            &&& f.st_email@ == first_field(item, seq!["email"@])
            &&& partner_fields_empty(f) && certificate_defaults(f)
        },
        NewKind::Partner => {
            &&& f.pt_station == 0
            &&& f.pt_name@ == first_field(item, seq!["name"@, "nombre"@])
            &&& f.pt_as2@ == first_field(item, seq!["as2_id"@, "as2id"@])
            &&& f.pt_email@ == first_field(item, seq!["email"@])
            &&& f.pt_url@ == first_field(item, seq!["url"@])
            &&& station_fields_empty(f) && certificate_defaults(f)
        },
        NewKind::Certificate => {
            &&& station_fields_empty(f) && partner_fields_empty(f)
            &&& certificate_defaults(f)
        },
    }
}

impl AppState {
    /// Open the form to edit `item` of the given kind, filled from it.
    pub fn begin_edit(&mut self, kind: NewKind, item: &Record)
        ensures
            edit_form(final(self).forms, kind, item@),
            *final(self) == (AppState { forms: final(self).forms, ..*old(self) }),
    {
        self.forms = Forms::default();
        self.forms.open = Some(kind);
        self.forms.edit_id = item.get_value("id");
        let k1: [&str; 2] = ["name", "nombre"];
        let k2: [&str; 2] = ["as2_id", "as2id"];
        let k3: [&str; 1] = ["email"];
        let k4: [&str; 1] = ["url"];
        assert(keys_model(k1@) =~= seq!["name"@, "nombre"@]);
        assert(keys_model(k2@) =~= seq!["as2_id"@, "as2id"@]);
        assert(keys_model(k3@) =~= seq!["email"@]);
        assert(keys_model(k4@) =~= seq!["url"@]);
        match kind {
            NewKind::Station => {
                self.forms.st_name = sfield(item, k1.as_slice());
                self.forms.st_as2 = sfield(item, k2.as_slice());
                self.forms.st_email = sfield(item, k3.as_slice());
            },
            NewKind::Partner => {
                self.forms.pt_name = sfield(item, k1.as_slice());
                self.forms.pt_as2 = sfield(item, k2.as_slice());
                self.forms.pt_email = sfield(item, k3.as_slice());
                self.forms.pt_url = sfield(item, k4.as_slice());
            },
            NewKind::Certificate => {},
        }
    }

    /// Open an empty "New …" form for the active module (stations when in
    /// mail), loading the stations first if none are known.
    pub fn new_form(&mut self) -> (r: Option<Request>)
        requires
            old(self).stations@.len() == 0 && old(self).connected ==> old(self).inflight < u32::MAX,
        ensures
            forms_are_default(Forms { open: None, ..final(self).forms }),
            final(self).forms.open == Some(match old(self).module {
                Module::Partners => NewKind::Partner,
                Module::Certificates => NewKind::Certificate,
                _ => NewKind::Station,
            }),
            if old(self).stations@.len() == 0 && old(self).connected {
                &&& *final(self) == (AppState { forms: final(self).forms, inflight: (old(self).inflight + 1) as u32, ..*old(self) })
                &&& r == Some(Request::ListStations)
            } else {
                *final(self) == (AppState { forms: final(self).forms, ..*old(self) }) && r is None
            },
    {
        let kind = match self.module {
            Module::Partners => NewKind::Partner,
            Module::Certificates => NewKind::Certificate,
            _ => NewKind::Station,
        };
        let r = if self.stations.len() == 0 { self.load_stations() } else { None };
        self.forms = Forms::default();
        self.forms.open = Some(kind);
        r
    }

    /// Start editing the record shown in the detail pane of a station or
    /// partner module, loading the stations first if none are known.
    pub fn edit_detail(&mut self) -> (r: Option<Request>)
        requires
            (old(self).module == Module::Stations || old(self).module == Module::Partners)
                && old(self).maint_detail is Some && old(self).stations@.len() == 0 && old(self).connected
                ==> old(self).inflight < u32::MAX,
        ensures
            match old(self).maint_detail {
                Some(item) if old(self).module == Module::Stations || old(self).module == Module::Partners => {
                    &&& edit_form(final(self).forms, if old(self).module == Module::Partners { NewKind::Partner } else { NewKind::Station }, item@)
                    &&& if old(self).stations@.len() == 0 && old(self).connected {
                        &&& *final(self) == (AppState { forms: final(self).forms, inflight: (old(self).inflight + 1) as u32, ..*old(self) })
                        &&& r == Some(Request::ListStations)
                    } else {
                        *final(self) == (AppState { forms: final(self).forms, ..*old(self) }) && r is None
                    }
                },
                _ => *final(self) == *old(self) && r is None,
            },
    {
        if !(self.module == Module::Stations || self.module == Module::Partners) {
            return None;
        }
        let item = match &self.maint_detail {
            Some(d) => d.duplicate(),
            None => { return None; },
        };
        let kind = if self.module == Module::Partners { NewKind::Partner } else { NewKind::Station };
        let r = if self.stations.len() == 0 { self.load_stations() } else { None };
        self.begin_edit(kind, &item);
        r
    }

    /// The title of the open form window.
    pub fn form_title(&self) -> (r: Option<&'static str>)
        ensures
            match self.forms.open {
                Some(kind) => r matches Some(t) && t@ == form_title(kind, self.forms.edit_id is Some),
                None => r is None,
            },
    {
        let kind = match self.forms.open {
            Some(k) => k,
            None => { return None; },
        };
        let editing = self.forms.edit_id.is_some();
        Some(match kind {
            NewKind::Station => if editing { "Edit station" } else { "New station" },
            NewKind::Partner => if editing { "Edit partner" } else { "New partner" },
            NewKind::Certificate => "New certificate (self-signed)",
        })
    }

    /// The form window was closed: it goes away unless a submission is
    /// pending.
    pub fn close_form(&mut self)
        ensures
            if old(self).forms.busy {
                *final(self) == *old(self)
            } else {
                *final(self) == (AppState { forms: Forms { open: None, ..old(self).forms }, ..*old(self) })
            },
    {
        if !self.forms.busy {
            self.forms.open = None;
        }
    }

    /// Submit the open form: create, or update when editing.
    pub fn submit_create(&mut self) -> (r: Option<Request>)
        requires
            old(self).forms.open is Some && old(self).connected ==> old(self).inflight < u32::MAX,
        ensures
            match old(self).forms.open {
                Some(kind) if old(self).connected => {
                    let sub = form_submission(old(self).forms, old(self).stations@, kind);
                    &&& *final(self) == (AppState {
                        forms: Forms { busy: true, ..old(self).forms },
                        inflight: (old(self).inflight + 1) as u32,
                        ..*old(self)
                    })
                    &&& r matches Some(Request::Save { op, body, label })
                    &&& body@ == sub.0 && op == sub.1 && label@ == sub.2
                },
                _ => *final(self) == *old(self) && r is None,
            },
    {
        let kind = match self.forms.open {
            Some(k) => k,
            None => { return None; },
        };
        if !self.connected {
            return None;
        }
        let editing = match &self.forms.edit_id {
            Some(id) => Some(id.duplicate()),
            None => None,
        };
        let f = &self.forms;
        let mut entries: Vec<(String, JsonValue)> = Vec::new();
        let op;
        let label;
        match kind {
            NewKind::Station => {
                entries.push((owned("name"), field_value(&f.st_name)));
                entries.push((owned("as2_id"), field_value(&f.st_as2)));
                entries.push((owned("email"), field_value(&f.st_email)));
                if editing.is_some() {
                    op = SaveOp::UpdateStation;
                    label = owned("Station updated");
                } else {
                    op = SaveOp::CreateStation;
                    label = owned("Station created");
                }
            },
            NewKind::Partner => {
                entries.push((owned("station"), station_value(&self.stations, f.pt_station)));
                entries.push((owned("name"), field_value(&f.pt_name)));
                entries.push((owned("as2_id"), field_value(&f.pt_as2)));
                entries.push((owned("email"), field_value(&f.pt_email)));
                entries.push((owned("url"), field_value(&f.pt_url)));
                if editing.is_some() {
                    op = SaveOp::UpdatePartner;
                    label = owned("Partner updated");
                } else {
                    op = SaveOp::CreatePartner;
                    label = owned("Partner created");
                }
            },
            NewKind::Certificate => {
                entries.push((owned("self_signed"), JsonValue::Bool(true)));
                entries.push((owned("station"), station_value(&self.stations, f.ct_station)));
                entries.push((owned("commonName"), field_value(&f.ct_cn)));
                entries.push((owned("email"), field_value(&f.ct_email)));
                entries.push((owned("countryName"), field_value(&f.ct_country)));
                entries.push((owned("localityName"), field_value(&f.ct_locality)));
                entries.push((owned("provinceName"), field_value(&f.ct_province)));
                entries.push((owned("organization"), field_value(&f.ct_org)));
                entries.push((owned("organizationUnitName"), field_value(&f.ct_orgunit)));
                entries.push((owned("dias"), number_value(&f.ct_days, 365)));
                entries.push((owned("keybits"), number_value(&f.ct_keybits, 2048)));
                entries.push((owned("hash"), field_value(&f.ct_hash)));
                op = SaveOp::CreateCertificate;
                label = owned("Certificate created");
            },
        }
        let ghost before = entries@;
        if let Some(id) = editing {
            entries.push((owned("id"), id));
        }
        let body = Record { entries };
        proof {
            let sub = form_submission(old(self).forms, old(self).stations@, kind);
            assert(body@ =~= sub.0);
        }
        self.forms.busy = true;
        self.inflight = self.inflight + 1;
        Some(Request::Save { op, body, label })
    }
}

} // verus!
