//! Text shaping for the grid, the folder tree and the detail panes.

use vstd::prelude::*;
use vstd::utf8::{decode_utf8, encode_utf8, encode_utf8_decode_utf8, is_char_boundary};
use vstd::string::StringSliceAdditionalSpecFns;
use crate::chars::{from_chars, push_str, to_chars};

verus! {

/// The lowercase form of a string, as std's `str::to_lowercase` computes it
/// from the Unicode tables.
pub uninterp spec fn lowercase_of(s: Seq<char>) -> Seq<char>;

/// The uppercase form of a character, as std's `char::to_uppercase` yields it
/// (one or more characters).
pub uninterp spec fn uppercase_of(c: char) -> Seq<char>;

/// Whether a character is alphabetic or numeric in Unicode, as std's
/// `char::is_alphanumeric` decides it.
pub uninterp spec fn alphanumeric(c: char) -> bool;

/// std's `str::to_lowercase`; the result is named `lowercase_of`.
#[verifier::external_body]
pub(crate) fn lowercase(s: &str) -> (r: String)
    ensures
        r@ == lowercase_of(s@),
{
    s.to_lowercase()
}

/// std's `char::to_uppercase`, collected; the result is named `uppercase_of`.
#[verifier::external_body]
fn uppercase_char(c: char) -> (r: Vec<char>)
    ensures
        r@ == uppercase_of(c),
{
    c.to_uppercase().collect::<Vec<char>>()
}

/// std's `char::is_alphanumeric`; the result is named `alphanumeric`.
#[verifier::external_body]
fn is_alphanumeric(c: char) -> (r: bool)
    ensures
        r == alphanumeric(c),
{
    c.is_alphanumeric()
}

/// Whether `needle` occurs in `hay` as a contiguous run of characters
/// (the empty needle occurs everywhere).
pub open spec fn occurs_in(hay: Seq<char>, needle: Seq<char>) -> bool {
    exists|i: int| 0 <= i && i + needle.len() <= hay.len() && #[trigger] hay.subrange(i, i + needle.len()) == needle
}

/// Whether `needle` occurs in `hay`.
pub fn contains(hay: &str, needle: &str) -> (r: bool)
    ensures
        r == occurs_in(hay@, needle@),
{
    let h = to_chars(hay);
    let n = to_chars(needle);
    if n.len() > h.len() {
        return false;
    }
    let mut i: usize = 0;
    let hl: usize = h.len();
    let last: usize = hl - n.len();
    while i <= last
        invariant
            hl == h@.len(),
            last == h@.len() - n@.len(),
            h@ == hay@,
            n@ == needle@,
            n@.len() <= h@.len(),
            i + n@.len() <= h@.len() + 1,
            forall|j: int| 0 <= j < i ==> #[trigger] h@.subrange(j, j + n@.len()) != n@,
        decreases h@.len() + 1 - i,
    {
        let mut k: usize = 0;
        let mut same = true;
        while k < n.len()
            invariant
                h@ == hay@,
                n@ == needle@,
                i + n@.len() <= h@.len(),
                hl == h@.len(),
                k <= n@.len(),
                same == (forall|m: int| 0 <= m < k ==> h@[i + m] == #[trigger] n@[m]),
            decreases n@.len() - k,
        {
            if h[i + k] != n[k] {
                same = false;
            }
            k = k + 1;
        }
        if same {
            assert(h@.subrange(i as int, i + n@.len()) =~= n@);
            return true;
        }
        assert(h@.subrange(i as int, i + n@.len()) != n@) by {
            let m = choose|m: int| 0 <= m < n@.len() && h@[i + m] != n@[m];
            assert(h@.subrange(i as int, i + n@.len())[m] == h@[i + m]);
        }
        i = i + 1;
    }
    assert forall|j: int| 0 <= j && j + needle@.len() <= hay@.len() implies
        #[trigger] hay@.subrange(j, j + needle@.len()) != needle@ by {
        assert(j < i);
    }
    false
}

/// The characters that one character of a JSON key turns into in its
/// human-readable form: `_` becomes a space, the first character of each
/// `_`-separated part is uppercased, the others stay.
pub open spec fn key_piece(k: Seq<char>, j: int) -> Seq<char> {
    if k[j] == '_' {
        seq![' ']
    } else if j == 0 || k[j - 1] == '_' {
        uppercase_of(k[j])
    } else {
        seq![k[j]]
    }
}

/// The human-readable form of the first `n` characters of a key.
pub open spec fn humanized(k: Seq<char>, n: int) -> Seq<char>
    decreases n,
{
    if n <= 0 {
        Seq::empty()
    } else {
        humanized(k, n - 1) + key_piece(k, n - 1)
    }
}

/// Humanize a JSON key for the detail view (snake/alias → Title Case):
/// the `_`-separated parts joined by spaces, each with its first character
/// uppercased.
pub fn pretty_key(k: &str) -> (s: String)
    ensures
        s@ == humanized(k@, k@.len() as int),
{
    let cs = to_chars(k);
    let mut out: Vec<char> = Vec::new();
    let mut j: usize = 0;
    while j < cs.len()
        invariant
            cs@ == k@,
            j <= cs@.len(),
            out@ == humanized(k@, j as int),
        decreases cs@.len() - j,
    {
        let c = cs[j];
        if c == '_' {
            out.push(' ');
        } else if j == 0 || cs[j - 1] == '_' {
            let mut up = uppercase_char(c);
            out.append(&mut up);
        } else {
            out.push(c);
        }
        assert(out@ =~= humanized(k@, j as int) + key_piece(k@, j as int));
        j = j + 1;
    }
    from_chars(out.as_slice())
}

/// The label of an environment in the login form.
pub open spec fn env_label(env: Seq<char>) -> Seq<char> {
    if env == "b2b"@ {
        "B2B — b2b.as2expert.com"@
    } else if env == "custom"@ {
        "Custom base URL"@
    } else {
        "Free — free.as2expert.com"@
    }
}

/// The label of an environment in the login form.
pub fn pretty_env(env: &str) -> (r: &'static str)
    ensures
        r@ == env_label(env@),
{
    if crate::chars::str_eq(env, "b2b") {
        "B2B — b2b.as2expert.com"
    } else if crate::chars::str_eq(env, "custom") {
        "Custom base URL"
    } else {
        "Free — free.as2expert.com"
    }
}

/// The part of `s` before its first `.`; all of `s` when it has none.
pub open spec fn before_dot(s: Seq<char>) -> Seq<char>
    decreases s.len(),
{
    if s.len() == 0 {
        s
    } else if s[0] == '.' {
        Seq::empty()
    } else {
        seq![s[0]] + before_dot(s.drop_first())
    }
}

/// `short_date` can cut `d`: when the part before its first `.` is 16 bytes
/// or longer, its 16th byte ends a character.
pub open spec fn date_cuttable(d: Seq<char>) -> bool {
    encode_utf8(before_dot(d)).len() >= 16 ==> is_char_boundary(encode_utf8(before_dot(d)), 16)
}

/// The shortened date: the part before the first `.`, cut to its first 16
/// bytes when longer (the UTF-8 encoding of the result is given).
pub open spec fn short_date_bytes(d: Seq<char>) -> Seq<u8> {
    let cut = encode_utf8(before_dot(d));
    if cut.len() >= 16 { cut.subrange(0, 16) } else { cut }
}

/// Whether `short_date` can cut `d`.
pub fn date_fits(d: &str) -> (r: bool)
    ensures
        r == date_cuttable(d@),
{
    let cut = from_chars(cut_at_dot(d).as_slice());
    let cs: &str = cut.as_str();
    assert(cs.spec_bytes() == encode_utf8(before_dot(d@)));
    cs.as_bytes().len() < 16 || cs.is_char_boundary(16)
}

/// The shortened date's characters.
pub open spec fn short_date_text(d: Seq<char>) -> Seq<char> {
    decode_utf8(short_date_bytes(d))
}

/// The part of `s` before its first `.`.
fn cut_at_dot(s: &str) -> (r: Vec<char>)
    ensures
        r@ == before_dot(s@),
{
    let cs = to_chars(s);
    let mut out: Vec<char> = Vec::new();
    let mut i: usize = 0;
    assert(cs@.skip(0) =~= cs@);
    while i < cs.len() && cs[i] != '.'
        invariant
            cs@ == s@,
            i <= cs@.len(),
            out@ == cs@.take(i as int),
            forall|j: int| 0 <= j < i ==> cs@[j] != '.',
            before_dot(s@) == out@ + before_dot(cs@.skip(i as int)),
        decreases cs@.len() - i,
    {
        let ghost rest = cs@.skip(i as int);
        assert(rest.drop_first() =~= cs@.skip(i + 1));
        assert(rest[0] == cs@[i as int]);
        out.push(cs[i]);
        assert(out@ =~= cs@.take(i + 1));
        assert(before_dot(rest) == seq![rest[0]] + before_dot(rest.drop_first()));
        assert(out@ + before_dot(cs@.skip(i + 1)) =~= cs@.take(i as int) + (seq![rest[0]] + before_dot(rest.drop_first())));
        i = i + 1;
    }
    if i < cs.len() {
        assert(cs@.skip(i as int)[0] == '.');
    } else {
        assert(cs@.skip(i as int).len() == 0);
    }
    assert(out@ + Seq::<char>::empty() =~= out@);
    out
}

/// Shorten an API timestamp for the grid: drop the fraction after the first
/// `.` and keep at most the first 16 bytes (`YYYY-MM-DDTHH:MM`).
pub fn short_date(d: &str) -> (s: String)
    requires
        date_cuttable(d@),
    ensures
        encode_utf8(s@) == short_date_bytes(d@),
        s@ == short_date_text(d@),
{
    let cut_chars = cut_at_dot(d);
    let cut = from_chars(cut_chars.as_slice());
    let cs: &str = cut.as_str();
    assert(cs.spec_bytes() == encode_utf8(before_dot(d@)));
    if cs.as_bytes().len() >= 16 {
        let (head, _tail) = cs.split_at(16);
        let r = head.to_owned();
        assert(encode_utf8(r@) == head.spec_bytes());
        proof { encode_utf8_decode_utf8(r@); }
        r
    } else {
        proof { encode_utf8_decode_utf8(cut@); }
        cut
    }
}

/// `s` limited to `n` characters: unchanged when it fits, else its first
/// `n - 1` characters followed by an ellipsis.
pub open spec fn truncated(s: Seq<char>, n: nat) -> Seq<char> {
    if s.len() <= n {
        s
    } else {
        s.take(if n >= 1 { n - 1 } else { 0 }).push('…')
    }
}

/// Limit a name to `n` characters for the folder tree.
pub fn trunc(s: &str, n: usize) -> (r: String)
    ensures
        r@ == truncated(s@, n as nat),
{
    let cs = to_chars(s);
    if cs.len() <= n {
        s.to_owned()
    } else {
        let keep: usize = if n >= 1 { n - 1 } else { 0 };
        let mut out: Vec<char> = Vec::new();
        let mut i: usize = 0;
        while i < keep
            invariant
                cs@ == s@,
                keep < cs@.len(),
                i <= keep,
                out@ == cs@.take(i as int),
            decreases keep - i,
        {
            out.push(cs[i]);
            assert(out@ =~= cs@.take(i + 1));
            i = i + 1;
        }
        out.push('…');
        from_chars(out.as_slice())
    }
}

/// The character a file name keeps for `c`: letters, digits, `-` and `_`
/// stay, anything else becomes `_`.
pub open spec fn safe_char(c: char) -> char {
    if alphanumeric(c) || c == '-' || c == '_' { c } else { '_' }
}

/// `name` with every character made safe for a file name.
pub open spec fn safe_name(name: Seq<char>) -> Seq<char> {
    name.map_values(|c: char| safe_char(c))
}

/// Replace every character of `name` that is not a letter, a digit, `-` or
/// `_` by `_`.
pub fn sanitize_file_stem(name: &str) -> (r: Vec<char>)
    ensures
        r@ == safe_name(name@),
{
    let cs = to_chars(name);
    let mut out: Vec<char> = Vec::new();
    let mut i: usize = 0;
    while i < cs.len()
        invariant
            cs@ == name@,
            i <= cs@.len(),
            out@ == safe_name(cs@.take(i as int)),
        decreases cs@.len() - i,
    {
        let c = cs[i];
        let k = if is_alphanumeric(c) || c == '-' || c == '_' { c } else { '_' };
        out.push(k);
        assert(out@ =~= safe_name(cs@.take(i + 1)));
        i = i + 1;
    }
    assert(cs@.take(cs@.len() as int) =~= cs@);
    out
}

/// `a`, a space-free separator-free concatenation helper: the characters of
/// `a` followed by those of `b`.
pub fn concat(a: &str, b: &str) -> (r: String)
    ensures
        r@ == a@ + b@,
{
    let mut out = to_chars(a);
    push_str(&mut out, b);
    from_chars(out.as_slice())
}

} // verus!
