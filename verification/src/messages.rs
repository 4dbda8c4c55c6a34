//! The message grid: which messages a search shows, and in which order.

use vstd::prelude::*;
use crate::chars::to_chars;
use crate::folders::{message_folder, records_model};
use crate::icons::Icon;
use crate::json::{first_field, keys_model, sfield, Record, ValueModel};
use crate::order::{sortable, stable_sort, stable_sorted};
use crate::text::{contains, lowercase, lowercase_of, occurs_in};

verus! {

/// The grid column the messages are sorted by.
#[derive(Clone, Copy, PartialEq, Eq, Structural, Debug)]
pub enum SortKey {
    Subject,
    Partner,
    Date,
    Mdn,
}

/// A message's subject (`subject`, else `asunto`).
pub open spec fn subject_of(m: Seq<(Seq<char>, ValueModel)>) -> Seq<char> {
    first_field(m, seq!["subject"@, "asunto"@])
}

/// A message's partner name (`partner_name`, else `socio_nombre`).
pub open spec fn partner_of(m: Seq<(Seq<char>, ValueModel)>) -> Seq<char> {
    first_field(m, seq!["partner_name"@, "socio_nombre"@])
}

/// A message's date (`date`, else `fecha`).
pub open spec fn date_of(m: Seq<(Seq<char>, ValueModel)>) -> Seq<char> {
    first_field(m, seq!["date"@, "fecha"@])
}

/// A message's MDN status.
pub open spec fn mdn_of(m: Seq<(Seq<char>, ValueModel)>) -> Seq<char> {
    first_field(m, seq!["mdn"@])
}

/// A message matches a lowercase search text when the text is empty, or
/// occurs in its lowercased subject or partner name.
pub open spec fn matches_search(m: Seq<(Seq<char>, ValueModel)>, needle: Seq<char>) -> bool {
    needle.len() == 0
        || occurs_in(lowercase_of(subject_of(m)), needle)
        || occurs_in(lowercase_of(partner_of(m)), needle)
}

/// The text a message is sorted by: lowercased subject or partner, or the
/// raw date or MDN.
pub open spec fn sort_text(m: Seq<(Seq<char>, ValueModel)>, key: SortKey) -> Seq<char> {
    match key {
        SortKey::Subject => lowercase_of(subject_of(m)),
        SortKey::Partner => lowercase_of(partner_of(m)),
        SortKey::Date => date_of(m),
        SortKey::Mdn => mdn_of(m),
    }
}

/// A message belongs to the selected folder: its `folder_id` reads as that
/// folder's id; with no folder selected, every message belongs.
pub open spec fn in_folder(m: Seq<(Seq<char>, ValueModel)>, folder: Option<i64>) -> bool {
    match folder {
        Some(f) => message_folder(m) == Some(f),
        None => true,
    }
}

/// The grid shows a message when it belongs to the selected folder and
/// matches the lowercase search text.
pub open spec fn shows(m: Seq<(Seq<char>, ValueModel)>, needle: Seq<char>, folder: Option<i64>) -> bool {
    in_folder(m, folder) && matches_search(m, needle)
}

/// The positions among the first `n` messages that the grid shows, in order.
pub open spec fn matching(ms: Seq<Seq<(Seq<char>, ValueModel)>>, needle: Seq<char>, folder: Option<i64>, n: int) -> Seq<usize>
    decreases n,
{
    if n <= 0 {
        Seq::empty()
    } else if shows(ms[n - 1], needle, folder) {
        matching(ms, needle, folder, n - 1).push((n - 1) as usize)
    } else {
        matching(ms, needle, folder, n - 1)
    }
}

/// The sort texts of all messages.
pub open spec fn sort_texts(ms: Seq<Seq<(Seq<char>, ValueModel)>>, key: SortKey) -> Seq<Seq<char>> {
    ms.map_values(|m: Seq<(Seq<char>, ValueModel)>| sort_text(m, key))
}

/// The positions of the messages the grid shows: those of the selected
/// folder matching the lowercased search text, stably sorted by the sort
/// column, ascending or descending.
pub open spec fn shown(ms: Seq<Seq<(Seq<char>, ValueModel)>>, search: Seq<char>, folder: Option<i64>, key: SortKey, asc: bool, out: Seq<usize>) -> bool {
    stable_sorted(out, matching(ms, lowercase_of(search), folder, ms.len() as int), sort_texts(ms, key), asc)
}

proof fn lemma_matching_bounds(ms: Seq<Seq<(Seq<char>, ValueModel)>>, needle: Seq<char>, folder: Option<i64>, n: int)
    requires
        0 <= n <= ms.len(),
        ms.len() <= usize::MAX,
    ensures
        forall|i: int| 0 <= i < matching(ms, needle, folder, n).len() ==> (#[trigger] matching(ms, needle, folder, n)[i] as int) < n,
        forall|i: int, j: int| 0 <= i < j < matching(ms, needle, folder, n).len() ==>
            #[trigger] matching(ms, needle, folder, n)[i] < #[trigger] matching(ms, needle, folder, n)[j],
    decreases n,
{
    if n > 0 {
        lemma_matching_bounds(ms, needle, folder, n - 1);
        let prev = matching(ms, needle, folder, n - 1);
        let cur = matching(ms, needle, folder, n);
        if shows(ms[n - 1], needle, folder) {
            assert(cur == prev.push((n - 1) as usize));
            assert forall|i: int| 0 <= i < cur.len() implies (#[trigger] cur[i] as int) < n by {
                if i < prev.len() { assert(cur[i] == prev[i]); }
            }
            assert forall|i: int, j: int| 0 <= i < j < cur.len() implies #[trigger] cur[i] < #[trigger] cur[j] by {
                assert(cur[i] == prev[i]);
                if j < prev.len() { assert(cur[j] == prev[j]); }
            }
        }
    }
}

fn subject_text(m: &Record) -> (s: String)
    ensures
        s@ == subject_of(m@),
{
    let keys: [&str; 2] = ["subject", "asunto"];
    assert(keys_model(keys@) =~= seq!["subject"@, "asunto"@]);
    sfield(m, keys.as_slice())
}

fn partner_text(m: &Record) -> (s: String)
    ensures
        s@ == partner_of(m@),
{
    let keys: [&str; 2] = ["partner_name", "socio_nombre"];
    assert(keys_model(keys@) =~= seq!["partner_name"@, "socio_nombre"@]);
    sfield(m, keys.as_slice())
}

/// The text a message is sorted by.
fn sort_text_exec(m: &Record, key: SortKey) -> (s: String)
    ensures
        s@ == sort_text(m@, key),
{
    match key {
        SortKey::Subject => lowercase(subject_text(m).as_str()),
        SortKey::Partner => lowercase(partner_text(m).as_str()),
        SortKey::Date => {
            let keys: [&str; 2] = ["date", "fecha"];
            assert(keys_model(keys@) =~= seq!["date"@, "fecha"@]);
            sfield(m, keys.as_slice())
        },
        SortKey::Mdn => {
            let keys: [&str; 1] = ["mdn"];
            assert(keys_model(keys@) =~= seq!["mdn"@]);
            sfield(m, keys.as_slice())
        },
    }
}

/// Indices of the messages to show, filtered by folder (when one is
/// selected) and by the search text (in subject or partner, ignoring case),
/// and sorted by the chosen column.
pub fn visible_indices(messages: &Vec<Record>, search: &str, folder: Option<i64>, sort_key: SortKey, sort_asc: bool) -> (out: Vec<usize>)
    ensures
        shown(records_model(messages@), search@, folder, sort_key, sort_asc, out@),
{
    let ghost ms = records_model(messages@);
    let needle = lowercase(search);
    let empty_needle = needle.as_str().unicode_len() == 0;
    let mut idx: Vec<usize> = Vec::new();
    let mut keys: Vec<Vec<char>> = Vec::new();
    let mut i: usize = 0;
    while i < messages.len()
        invariant
            ms == records_model(messages@),
            needle@ == lowercase_of(search@),
            empty_needle == (needle@.len() == 0),
            i <= messages@.len(),
            idx@ == matching(ms, needle@, folder, i as int),
            keys@.len() == i,
            forall|q: int| 0 <= q < i ==> (#[trigger] keys@[q])@ == sort_text(ms[q], sort_key),
        decreases messages@.len() - i,
    {
        let m = &messages[i];
        assert(ms[i as int] == m@);
        let belongs = match folder {
            Some(f) => m.get_i64("folder_id") == Some(f),
            None => true,
        };
        let hit = belongs && if empty_needle {
            true
        } else {
            contains(lowercase(subject_text(m).as_str()).as_str(), needle.as_str())
                || contains(lowercase(partner_text(m).as_str()).as_str(), needle.as_str())
        };
        if hit {
            idx.push(i);
        }
        keys.push(to_chars(sort_text_exec(m, sort_key).as_str()));
        i = i + 1;
    }
    let total = messages.len();
    proof {
        assert(ms.len() == total);
        lemma_matching_bounds(ms, needle@, folder, ms.len() as int);
        assert(keys@.map_values(|k: Vec<char>| k@) =~= sort_texts(ms, sort_key));
    }
    stable_sort(&idx, &keys, sort_asc)
}

/// An MDN status reads "ok" when it is `ok` in any ASCII case; the grid
/// shows it in green, and any other status in red.
pub open spec fn mdn_reads_ok(s: Seq<char>) -> bool {
    &&& s.len() == 2
    &&& (s[0] == 'o' || s[0] == 'O')
    &&& (s[1] == 'k' || s[1] == 'K')
}

/// Whether an MDN status reads "ok".
pub fn mdn_ok(mdn: &str) -> (r: bool)
    ensures
        r == mdn_reads_ok(mdn@),
{
    let c = to_chars(mdn);
    c.len() == 2 && (c[0] == 'o' || c[0] == 'O') && (c[1] == 'k' || c[1] == 'K')
}

/// The metadata rows of the reading pane, before empty ones are left out:
/// icon, label and the message's field.
pub open spec fn meta_fields(m: Seq<(Seq<char>, ValueModel)>) -> Seq<(Icon, Seq<char>, Seq<char>)> {
    seq![
        (Icon::Partner, "Partner"@, first_field(m, seq!["partner_name"@, "socio_nombre"@])),
        (Icon::Station, "Station"@, first_field(m, seq!["station_name"@, "estacion_nombre"@])),
        (Icon::Message, "Date"@, first_field(m, seq!["date"@, "fecha"@])),
        (Icon::Certificate, "AS2 ID"@, first_field(m, seq!["partner_as2_id"@, "socio_as2id"@])),
        (Icon::OkMark, "MDN"@, first_field(m, seq!["mdn"@])),
        (Icon::Lock, "Encryption"@, first_field(m, seq!["encriptacion"@])),
        (Icon::Key, "Signature"@, first_field(m, seq!["firma"@])),
    ]
}

/// The rows among the first `n` that have a value, in order.
pub open spec fn non_empty_rows(rows: Seq<(Icon, Seq<char>, Seq<char>)>, n: int) -> Seq<(Icon, Seq<char>, Seq<char>)>
    decreases n,
{
    if n <= 0 {
        Seq::empty()
    } else if rows[n - 1].2.len() > 0 {
        non_empty_rows(rows, n - 1).push(rows[n - 1])
    } else {
        non_empty_rows(rows, n - 1)
    }
}

/// The model of metadata rows.
pub open spec fn meta_model(rows: Seq<(Icon, &'static str, String)>) -> Seq<(Icon, Seq<char>, Seq<char>)> {
    rows.map_values(|r: (Icon, &'static str, String)| (r.0, r.1@, r.2@))
}

fn push_if_set(rows: &mut Vec<(Icon, &'static str, String)>, icon: Icon, label: &'static str, value: String)
    ensures
        meta_model(final(rows)@) == if value@.len() > 0 {
            meta_model(old(rows)@).push((icon, label@, value@))
        } else {
            meta_model(old(rows)@)
        },
{
    if value.as_str().unicode_len() > 0 {
        rows.push((icon, label, value));
        assert(meta_model(rows@) =~= meta_model(old(rows)@).push((icon, label@, value@)));
    }
}

/// The metadata rows the reading pane shows for a message: those with a
/// value.
pub fn message_meta(m: &Record) -> (rows: Vec<(Icon, &'static str, String)>)
    ensures
        meta_model(rows@) == non_empty_rows(meta_fields(m@), 7),
{
    let k1: [&str; 2] = ["partner_name", "socio_nombre"];
    let k2: [&str; 2] = ["station_name", "estacion_nombre"];
    let k3: [&str; 2] = ["date", "fecha"];
    let k4: [&str; 2] = ["partner_as2_id", "socio_as2id"];
    let k5: [&str; 1] = ["mdn"];
    let k6: [&str; 1] = ["encriptacion"];
    let k7: [&str; 1] = ["firma"];
    assert(keys_model(k1@) =~= seq!["partner_name"@, "socio_nombre"@]);
    assert(keys_model(k2@) =~= seq!["station_name"@, "estacion_nombre"@]);
    assert(keys_model(k3@) =~= seq!["date"@, "fecha"@]);
    assert(keys_model(k4@) =~= seq!["partner_as2_id"@, "socio_as2id"@]);
    assert(keys_model(k5@) =~= seq!["mdn"@]);
    assert(keys_model(k6@) =~= seq!["encriptacion"@]);
    assert(keys_model(k7@) =~= seq!["firma"@]);
    let ghost fields = meta_fields(m@);
    let mut rows: Vec<(Icon, &'static str, String)> = Vec::new();
    assert(meta_model(rows@) =~= non_empty_rows(fields, 0));
    push_if_set(&mut rows, Icon::Partner, "Partner", sfield(m, k1.as_slice()));
    assert(meta_model(rows@) == non_empty_rows(fields, 1));
    push_if_set(&mut rows, Icon::Station, "Station", sfield(m, k2.as_slice()));
    assert(meta_model(rows@) == non_empty_rows(fields, 2));
    push_if_set(&mut rows, Icon::Message, "Date", sfield(m, k3.as_slice()));
    assert(meta_model(rows@) == non_empty_rows(fields, 3));
    push_if_set(&mut rows, Icon::Certificate, "AS2 ID", sfield(m, k4.as_slice()));
    assert(meta_model(rows@) == non_empty_rows(fields, 4));
    push_if_set(&mut rows, Icon::OkMark, "MDN", sfield(m, k5.as_slice()));
    assert(meta_model(rows@) == non_empty_rows(fields, 5));
    push_if_set(&mut rows, Icon::Lock, "Encryption", sfield(m, k6.as_slice()));
    assert(meta_model(rows@) == non_empty_rows(fields, 6));
    push_if_set(&mut rows, Icon::Key, "Signature", sfield(m, k7.as_slice()));
    rows
}

} // verus!
