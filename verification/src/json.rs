//! The JSON records that the AS2Expert API returns, as the client reads them:
//! objects whose entries hold scalars, with nested arrays and objects kept as
//! their compact JSON text (all that the client ever reads of them).

use vstd::prelude::*;
use crate::chars::{decimal, from_chars, i64_text, signed_decimal, str_eq, to_chars, u64_text};
use serde_json::Value;

verus! {

/// A JSON number as the API delivered it: a non-negative integer, a negative
/// integer, or a floating-point number kept as its JSON text.
pub enum JsonNumber {
    PosInt(u64),
    NegInt(i64),
    Float(String),
}

/// A JSON value inside a record.
pub enum JsonValue {
    Null,
    Bool(bool),
    Number(JsonNumber),
    Str(String),
    /// An array or an object, kept as its compact JSON text.
    Composite(String),
}

/// One JSON object: its entries, in the order the API listed them.
/// A response item that is not an object reads as a record without entries.
pub struct Record {
    pub entries: Vec<(String, JsonValue)>,
}

/// The mathematical model of a number.
pub enum NumberModel {
    PosInt(u64),
    NegInt(i64),
    Float(Seq<char>),
}

/// The mathematical model of a value.
pub enum ValueModel {
    Null,
    Bool(bool),
    Number(NumberModel),
    Str(Seq<char>),
    Composite(Seq<char>),
}

impl View for JsonNumber {
    type V = NumberModel;

    open spec fn view(&self) -> NumberModel {
        match self {
            JsonNumber::PosInt(u) => NumberModel::PosInt(*u),
            JsonNumber::NegInt(i) => NumberModel::NegInt(*i),
            JsonNumber::Float(t) => NumberModel::Float(t@),
        }
    }
}

impl View for JsonValue {
    type V = ValueModel;

    open spec fn view(&self) -> ValueModel {
        match self {
            JsonValue::Null => ValueModel::Null,
            JsonValue::Bool(b) => ValueModel::Bool(*b),
            JsonValue::Number(n) => ValueModel::Number(n@),
            JsonValue::Str(s) => ValueModel::Str(s@),
            JsonValue::Composite(t) => ValueModel::Composite(t@),
        }
    }
}

/// The model of an entry: its key and its value.
pub open spec fn entry_model(e: (String, JsonValue)) -> (Seq<char>, ValueModel) {
    (e.0@, e.1@)
}

impl View for Record {
    type V = Seq<(Seq<char>, ValueModel)>;

    open spec fn view(&self) -> Seq<(Seq<char>, ValueModel)> {
        self.entries@.map_values(|e: (String, JsonValue)| entry_model(e))
    }
}

/// The value of the first entry with key `key`.
pub open spec fn lookup(r: Seq<(Seq<char>, ValueModel)>, key: Seq<char>) -> Option<ValueModel>
    decreases r.len(),
{
    if r.len() == 0 {
        None
    } else if r[0].0 == key {
        Some(r[0].1)
    } else {
        lookup(r.drop_first(), key)
    }
}

/// The number as a signed 64-bit integer, where it is one.
pub open spec fn number_as_i64(n: NumberModel) -> Option<i64> {
    match n {
        NumberModel::PosInt(u) => if u <= i64::MAX { Some(u as i64) } else { None },
        NumberModel::NegInt(i) => Some(i),
        NumberModel::Float(_) => None,
    }
}

/// The number as an unsigned 64-bit integer, where it is one.
pub open spec fn number_as_u64(n: NumberModel) -> Option<u64> {
    match n {
        NumberModel::PosInt(u) => Some(u),
        _ => None,
    }
}

/// The value as a signed 64-bit integer, where it is one.
pub open spec fn value_as_i64(v: ValueModel) -> Option<i64> {
    match v {
        ValueModel::Number(n) => number_as_i64(n),
        _ => None,
    }
}

/// The value as an unsigned 64-bit integer, where it is one.
pub open spec fn value_as_u64(v: ValueModel) -> Option<u64> {
    match v {
        ValueModel::Number(n) => number_as_u64(n),
        _ => None,
    }
}

/// The value as a boolean, where it is one.
pub open spec fn value_as_bool(v: ValueModel) -> Option<bool> {
    match v {
        ValueModel::Bool(b) => Some(b),
        _ => None,
    }
}

/// The value as a string, where it is one.
pub open spec fn value_as_str(v: ValueModel) -> Option<Seq<char>> {
    match v {
        ValueModel::Str(s) => Some(s),
        _ => None,
    }
}

/// How a number is written: integers in decimal, floats as delivered.
pub open spec fn number_text(n: NumberModel) -> Seq<char> {
    match n {
        NumberModel::PosInt(u) => decimal(u as nat),
        NumberModel::NegInt(i) => signed_decimal(i as int),
        NumberModel::Float(t) => t,
    }
}

/// `true` or `false`.
pub open spec fn bool_text(b: bool) -> Seq<char> {
    if b { "true"@ } else { "false"@ }
}

/// The text a field shows, if the value gives one: a non-empty string, a
/// number or a boolean.
pub open spec fn field_text(v: ValueModel) -> Option<Seq<char>> {
    match v {
        ValueModel::Str(s) => if s.len() > 0 { Some(s) } else { None },
        ValueModel::Number(n) => Some(number_text(n)),
        ValueModel::Bool(b) => Some(bool_text(b)),
        _ => None,
    }
}

/// The text of the first key among `keys` whose value gives one; empty if none does.
pub open spec fn first_field(r: Seq<(Seq<char>, ValueModel)>, keys: Seq<Seq<char>>) -> Seq<char>
    decreases keys.len(),
{
    if keys.len() == 0 {
        Seq::empty()
    } else {
        match lookup(r, keys[0]) {
            Some(v) => match field_text(v) {
                Some(t) => t,
                None => first_field(r, keys.drop_first()),
            },
            None => first_field(r, keys.drop_first()),
        }
    }
}

/// The models of a list of keys.
pub open spec fn keys_model(keys: Seq<&str>) -> Seq<Seq<char>> {
    keys.map_values(|k: &str| k@)
}

/// How the detail view shows a value: strings as they are, booleans as
/// `yes`/`no`, null as nothing, anything else as its JSON text.
pub open spec fn display_text(v: ValueModel) -> Seq<char> {
    match v {
        ValueModel::Str(s) => s,
        ValueModel::Bool(b) => if b { "yes"@ } else { "no"@ },
        ValueModel::Null => Seq::empty(),
        ValueModel::Number(n) => number_text(n),
        ValueModel::Composite(t) => t,
    }
}

impl JsonNumber {
    /// A copy of this number.
    pub fn duplicate(&self) -> (r: JsonNumber)
        ensures
            r@ == self@,
    {
        match self {
            JsonNumber::PosInt(u) => JsonNumber::PosInt(*u),
            JsonNumber::NegInt(i) => JsonNumber::NegInt(*i),
            JsonNumber::Float(t) => JsonNumber::Float(t.clone()),
        }
    }

    /// The number as JSON writes it.
    pub fn text(&self) -> (s: String)
        ensures
            s@ == number_text(self@),
    {
        match self {
            JsonNumber::PosInt(u) => u64_text(*u),
            JsonNumber::NegInt(i) => i64_text(*i),
            JsonNumber::Float(t) => t.clone(),
        }
    }
}

impl JsonValue {
    /// A copy of this value.
    pub fn duplicate(&self) -> (r: JsonValue)
        ensures
            r@ == self@,
    {
        match self {
            JsonValue::Null => JsonValue::Null,
            JsonValue::Bool(b) => JsonValue::Bool(*b),
            JsonValue::Number(n) => JsonValue::Number(n.duplicate()),
            JsonValue::Str(s) => JsonValue::Str(s.clone()),
            JsonValue::Composite(t) => JsonValue::Composite(t.clone()),
        }
    }

    /// Whether this is `null`.
    pub fn is_null(&self) -> (r: bool)
        ensures
            r == (self@ == ValueModel::Null),
    {
        match self {
            JsonValue::Null => true,
            _ => false,
        }
    }

    /// The value as a signed 64-bit integer, where it is one.
    pub fn as_i64(&self) -> (r: Option<i64>)
        ensures
            r == value_as_i64(self@),
    {
        match self {
            JsonValue::Number(JsonNumber::PosInt(u)) => {
                if *u <= 9223372036854775807u64 {
                    Some(*u as i64)
                } else {
                    None
                }
            },
            JsonValue::Number(JsonNumber::NegInt(i)) => Some(*i),
            _ => None,
        }
    }

    /// The value as an unsigned 64-bit integer, where it is one.
    pub fn as_u64(&self) -> (r: Option<u64>)
        ensures
            r == value_as_u64(self@),
    {
        match self {
            JsonValue::Number(JsonNumber::PosInt(u)) => Some(*u),
            _ => None,
        }
    }

    /// The value as a boolean, where it is one.
    pub fn as_bool(&self) -> (r: Option<bool>)
        ensures
            r == value_as_bool(self@),
    {
        match self {
            JsonValue::Bool(b) => Some(*b),
            _ => None,
        }
    }

    /// The text a field shows, if the value gives one.
    pub fn field_text(&self) -> (r: Option<String>)
        ensures
            match r {
                Some(s) => field_text(self@) == Some(s@),
                None => field_text(self@) is None,
            },
    {
        match self {
            JsonValue::Str(s) => {
                if s.as_str().unicode_len() > 0 {
                    Some(s.clone())
                } else {
                    None
                }
            },
            JsonValue::Number(n) => Some(n.text()),
            JsonValue::Bool(b) => {
                if *b {
                    Some(from_chars(to_chars("true").as_slice()))
                } else {
                    Some(from_chars(to_chars("false").as_slice()))
                }
            },
            _ => None,
        }
    }
}

impl Record {
    /// A record without entries.
    pub fn empty() -> (r: Record)
        ensures
            r@ == Seq::<(Seq<char>, ValueModel)>::empty(),
    {
        let r = Record { entries: Vec::new() };
        assert(r@ =~= Seq::<(Seq<char>, ValueModel)>::empty());
        r
    }

    /// The value of the first entry with key `key`.
    pub fn get(&self, key: &str) -> (r: Option<&JsonValue>)
        ensures
            match r {
                Some(v) => lookup(self@, key@) == Some(v@),
                None => lookup(self@, key@) is None,
            },
    {
        let mut i: usize = 0;
        assert(self@.skip(0) =~= self@);
        while i < self.entries.len()
            invariant
                i <= self.entries@.len(),
                lookup(self@, key@) == lookup(self@.skip(i as int), key@),
            decreases self.entries@.len() - i,
        {
            let ghost rest = self@.skip(i as int);
            assert(rest[0] == entry_model(self.entries@[i as int]));
            assert(rest.drop_first() =~= self@.skip(i + 1));
            if str_eq(self.entries[i].0.as_str(), key) {
                return Some(&self.entries[i].1);
            }
            i = i + 1;
        }
        assert(self@.skip(i as int).len() == 0);
        None
    }

    /// A copy of this record.
    pub fn duplicate(&self) -> (r: Record)
        ensures
            r@ == self@,
    {
        let mut entries: Vec<(String, JsonValue)> = Vec::new();
        let mut i: usize = 0;
        while i < self.entries.len()
            invariant
                i <= self.entries@.len(),
                entries@.len() == i,
                forall|j: int| 0 <= j < i ==> entry_model(#[trigger] entries@[j]) == entry_model(self.entries@[j]),
            decreases self.entries@.len() - i,
        {
            let e = (self.entries[i].0.clone(), self.entries[i].1.duplicate());
            entries.push(e);
            i = i + 1;
        }
        let r = Record { entries };
        assert(r@ =~= self@);
        r
    }

    /// The value of `key` as a signed 64-bit integer, where there is one.
    pub fn get_i64(&self, key: &str) -> (r: Option<i64>)
        ensures
            r == match lookup(self@, key@) {
                Some(v) => value_as_i64(v),
                None => None,
            },
    {
        match self.get(key) {
            Some(v) => v.as_i64(),
            None => None,
        }
    }

    /// The value of `key`, copied, where there is one.
    pub fn get_value(&self, key: &str) -> (r: Option<JsonValue>)
        ensures
            match r {
                Some(v) => lookup(self@, key@) == Some(v@),
                None => lookup(self@, key@) is None,
            },
    {
        match self.get(key) {
            Some(v) => Some(v.duplicate()),
            None => None,
        }
    }
}

/// The text of the first key among `keys` whose value is a non-empty string,
/// a number or a boolean; empty if there is none.
pub fn sfield(v: &Record, keys: &[&str]) -> (s: String)
    ensures
        s@ == first_field(v@, keys_model(keys@)),
{
    let mut k: usize = 0;
    assert(keys_model(keys@).skip(0) =~= keys_model(keys@));
    while k < keys.len()
        invariant
            k <= keys@.len(),
            first_field(v@, keys_model(keys@)) == first_field(v@, keys_model(keys@).skip(k as int)),
        decreases keys@.len() - k,
    {
        let ghost rest = keys_model(keys@).skip(k as int);
        assert(rest[0] == keys@[k as int]@);
        assert(rest.drop_first() =~= keys_model(keys@).skip(k + 1));
        match v.get(keys[k]) {
            Some(val) => {
                match val.field_text() {
                    Some(t) => { return t; },
                    None => {},
                }
            },
            None => {},
        }
        k = k + 1;
    }
    assert(keys_model(keys@).skip(k as int).len() == 0);
    from_chars(Vec::<char>::new().as_slice())
}

/// How the detail view shows a value.
pub fn value_str(v: &JsonValue) -> (s: String)
    ensures
        s@ == display_text(v@),
{
    match v {
        JsonValue::Str(s) => s.clone(),
        JsonValue::Bool(b) => {
            if *b {
                from_chars(to_chars("yes").as_slice())
            } else {
                from_chars(to_chars("no").as_slice())
            }
        },
        JsonValue::Null => from_chars(Vec::<char>::new().as_slice()),
        JsonValue::Number(n) => n.text(),
        JsonValue::Composite(t) => t.clone(),
    }
}

/// Whether a message is incoming: the `incoming` entry if present, else the
/// `entrante` entry, read as a boolean; `false` otherwise.
pub open spec fn is_incoming(m: Seq<(Seq<char>, ValueModel)>) -> bool {
    let v = match lookup(m, "incoming"@) {
        Some(v) => Some(v),
        None => lookup(m, "entrante"@),
    };
    match v {
        Some(x) => match value_as_bool(x) {
            Some(b) => b,
            None => false,
        },
        None => false,
    }
}

/// Whether a message is incoming.
pub fn bool_dir(m: &Record) -> (r: bool)
    ensures
        r == is_incoming(m@),
{
    let v = match m.get("incoming") {
        Some(v) => Some(v),
        None => m.get("entrante"),
    };
    match v {
        Some(x) => match x.as_bool() {
            Some(b) => b,
            None => false,
        },
        None => false,
    }
}

/// The entries of the top-level object of a JSON text, as serde_json parses
/// it into a `Value` (a value that is not an object has no entries), each
/// value taken as a `JsonValue`; `None` when the text is not JSON.
pub uninterp spec fn json_document(text: Seq<char>) -> Option<Seq<(Seq<char>, ValueModel)>>;

/// serde_json's `from_str::<Value>`, with the top-level object's entries
/// taken one for one as a record; the result is named `json_document`.
/// A number is taken as the variant serde_json holds it in: a non-negative
/// integer, a negative integer, or a float kept as its text.
#[verifier::external_body]
pub(crate) fn parse_document(text: &str) -> (r: Option<Record>)
    ensures
        match r {
            Some(d) => json_document(text@) == Some(d@),
            None => json_document(text@) is None,
        },
{
    let entries = match serde_json::from_str::<Value>(text).ok()? {
        Value::Object(m) => m.into_iter().map(|(k, x)| (k, match x {
            Value::Null => JsonValue::Null,
            Value::Bool(b) => JsonValue::Bool(b),
            Value::String(s) => JsonValue::Str(s),
            Value::Number(n) => JsonValue::Number(match (n.as_u64(), n.as_i64()) {
                (Some(u), _) => JsonNumber::PosInt(u),
                (None, Some(i)) => JsonNumber::NegInt(i),
                _ => JsonNumber::Float(n.to_string()),
            }),
            other => JsonValue::Composite(other.to_string()),
        })).collect(),
        _ => Vec::new(),
    };
    Some(Record { entries })
}

} // verus!
