//! Local connection settings: where the client reaches AS2Expert, what is
//! remembered between runs, and where the settings file lives.

use vstd::prelude::*;
use crate::chars::{from_chars, str_eq, to_chars};
use crate::json::{json_document, lookup, parse_document, value_as_str, JsonValue, Record, ValueModel};

verus! {

/// Where the client remembers how to reach AS2Expert.
pub struct Config {
    /// "free", "b2b", or "custom".
    pub environment: String,
    /// Explicit base URL (used when environment == "custom").
    pub base_url: String,
    /// API bearer token.
    pub token: String,
    /// Whether to persist the token to disk (off by default for safety).
    pub remember_token: bool,
}

/// The mathematical model of the settings.
pub struct ConfigModel {
    pub environment: Seq<char>,
    pub base_url: Seq<char>,
    pub token: Seq<char>,
    pub remember_token: bool,
}

impl View for Config {
    type V = ConfigModel;

    open spec fn view(&self) -> ConfigModel {
        ConfigModel {
            environment: self.environment@,
            base_url: self.base_url@,
            token: self.token@,
            remember_token: self.remember_token,
        }
    }
}

/// Whether a character has the Unicode White_Space property, as std's
/// `char::is_whitespace` decides it: tab through carriage return, space,
/// U+0085, U+00A0, U+1680, U+2000 through U+200A, U+2028, U+2029, U+202F,
/// U+205F and U+3000.
pub open spec fn whitespace(c: char) -> bool {
    let u = c as u32;
    ||| 0x09 <= u <= 0x0D
    ||| u == 0x20
    ||| u == 0x85
    ||| u == 0xA0
    ||| u == 0x1680
    ||| 0x2000 <= u <= 0x200A
    ||| u == 0x2028
    ||| u == 0x2029
    ||| u == 0x202F
    ||| u == 0x205F
    ||| u == 0x3000
}

/// Whether a character is white space.
fn is_whitespace(c: char) -> (r: bool)
    ensures
        r == whitespace(c),
{
    let u = c as u32;
    (0x09 <= u && u <= 0x0D) || u == 0x20 || u == 0x85 || u == 0xA0 || u == 0x1680
        || (0x2000 <= u && u <= 0x200A) || u == 0x2028 || u == 0x2029 || u == 0x202F
        || u == 0x205F || u == 0x3000
}

/// `s` without its leading white space.
pub open spec fn trim_start(s: Seq<char>) -> Seq<char>
    decreases s.len(),
{
    if s.len() > 0 && whitespace(s[0]) { trim_start(s.drop_first()) } else { s }
}

/// `s` without its trailing white space.
pub open spec fn trim_end(s: Seq<char>) -> Seq<char>
    decreases s.len(),
{
    if s.len() > 0 && whitespace(s.last()) { trim_end(s.drop_last()) } else { s }
}

/// `s` without leading and trailing white space (as `str::trim`).
pub open spec fn trimmed(s: Seq<char>) -> Seq<char> {
    trim_end(trim_start(s))
}

/// `s` without its trailing slashes (as `str::trim_end_matches('/')`).
pub open spec fn strip_slashes(s: Seq<char>) -> Seq<char>
    decreases s.len(),
{
    if s.len() > 0 && s.last() == '/' { strip_slashes(s.drop_last()) } else { s }
}

/// The characters of `s` without leading and trailing white space.
pub fn trim_chars(s: &str) -> (r: Vec<char>)
    ensures
        r@ == trimmed(s@),
{
    let cs = to_chars(s);
    let n = cs.len();
    let mut a: usize = 0;
    assert(cs@.subrange(0, n as int) =~= cs@);
    while a < n && is_whitespace(cs[a])
        invariant
            cs@ == s@,
            n == cs@.len(),
            a <= n,
            trim_start(s@) == trim_start(cs@.subrange(a as int, n as int)),
        decreases n - a,
    {
        let ghost t = cs@.subrange(a as int, n as int);
        assert(t[0] == cs@[a as int]);
        assert(t.drop_first() =~= cs@.subrange(a + 1, n as int));
        a = a + 1;
    }
    let ghost ts = cs@.subrange(a as int, n as int);
    assert(trim_start(ts) == ts);
    let mut b: usize = n;
    while b > a && is_whitespace(cs[b - 1])
        invariant
            cs@ == s@,
            n == cs@.len(),
            a <= b <= n,
            trimmed(s@) == trim_end(cs@.subrange(a as int, b as int)),
        decreases b - a,
    {
        let ghost t = cs@.subrange(a as int, b as int);
        assert(t.last() == cs@[b - 1]);
        assert(t.drop_last() =~= cs@.subrange(a as int, b - 1));
        b = b - 1;
    }
    let ghost te = cs@.subrange(a as int, b as int);
    assert(trim_end(te) == te);
    let mut out: Vec<char> = Vec::new();
    let mut k: usize = a;
    while k < b
        invariant
            cs@ == s@,
            n == cs@.len(),
            a <= k <= b <= n,
            out@ == cs@.subrange(a as int, k as int),
        decreases b - k,
    {
        out.push(cs[k]);
        assert(out@ =~= cs@.subrange(a as int, k + 1));
        k = k + 1;
    }
    out
}

/// `v` without its trailing slashes.
fn strip_slash_chars(v: Vec<char>) -> (r: Vec<char>)
    ensures
        r@ == strip_slashes(v@),
{
    let mut v = v;
    let ghost orig = v@;
    while v.len() > 0 && v[v.len() - 1] == '/'
        invariant
            strip_slashes(orig) == strip_slashes(v@),
        decreases v@.len(),
    {
        let ghost before = v@;
        let _ = v.pop();
        assert(v@ =~= before.drop_last());
    }
    v
}

/// The base URL the client targets: for a custom environment, the base URL
/// without surrounding white space and trailing slashes; otherwise the URL
/// the SDK knows for the environment, or nothing.
pub open spec fn resolved_url(c: ConfigModel, known: Option<Seq<char>>) -> Seq<char> {
    if c.environment == "custom"@ {
        strip_slashes(trimmed(c.base_url))
    } else {
        match known {
            Some(u) => u,
            None => Seq::empty(),
        }
    }
}

/// The settings a fresh client starts from.
pub open spec fn initial_config() -> ConfigModel {
    ConfigModel { environment: "free"@, base_url: Seq::empty(), token: Seq::empty(), remember_token: false }
}

/// The settings read back from a saved document: each of `environment`,
/// `base_url` and `token` that holds a string replaces the default, and a
/// non-empty token is remembered.
pub open spec fn loaded_config(doc: Seq<(Seq<char>, ValueModel)>) -> ConfigModel {
    let env = match lookup(doc, "environment"@) {
        Some(v) => value_as_str(v),
        None => None,
    };
    let base = match lookup(doc, "base_url"@) {
        Some(v) => value_as_str(v),
        None => None,
    };
    let tok = match lookup(doc, "token"@) {
        Some(v) => value_as_str(v),
        None => None,
    };
    ConfigModel {
        environment: match env { Some(s) => s, None => "free"@ },
        base_url: match base { Some(s) => s, None => Seq::empty() },
        token: match tok { Some(s) => s, None => Seq::empty() },
        remember_token: match tok { Some(s) => s.len() > 0, None => false },
    }
}

/// The document the settings are saved as: environment, base URL, and the
/// token only when it is to be remembered.
pub open spec fn saved_document(c: ConfigModel) -> Seq<(Seq<char>, ValueModel)> {
    seq![
        ("environment"@, ValueModel::Str(c.environment)),
        ("base_url"@, ValueModel::Str(c.base_url)),
        ("token"@, ValueModel::Str(if c.remember_token { c.token } else { Seq::empty() })),
    ]
}

fn text(s: &str) -> (r: String)
    ensures
        r@ == s@,
{
    from_chars(to_chars(s).as_slice())
}

impl Config {
    /// The settings a fresh client starts from.
    pub fn initial() -> (c: Config)
        ensures
            c@ == initial_config(),
    {
        Config {
            environment: text("free"),
            base_url: String::new(),
            token: String::new(),
            remember_token: false,
        }
    }

    /// Resolve the base URL the client should target; `known_url` is the
    /// URL the SDK gives for the environment, if it knows one.
    pub fn resolved_base_url(&self, known_url: Option<String>) -> (r: String)
        ensures
            r@ == resolved_url(self@, match known_url { Some(u) => Some(u@), None => None }),
    {
        if str_eq(self.environment.as_str(), "custom") {
            let t = trim_chars(self.base_url.as_str());
            let s = strip_slash_chars(t);
            from_chars(s.as_slice())
        } else {
            match known_url {
                Some(u) => u,
                None => String::new(),
            }
        }
    }

    /// The settings read back from a saved document; `None` (no file, an
    /// unreadable file or invalid JSON) gives the initial settings.
    pub fn load_from(doc: Option<&Record>) -> (c: Config)
        ensures
            c@ == match doc {
                Some(d) => loaded_config(d@),
                None => initial_config(),
            },
    {
        let mut cfg = Config::initial();
        match doc {
            None => cfg,
            Some(v) => {
                if let Some(JsonValue::Str(s)) = v.get("environment") {
                    cfg.environment = s.clone();
                }
                if let Some(JsonValue::Str(s)) = v.get("base_url") {
                    cfg.base_url = s.clone();
                }
                if let Some(JsonValue::Str(s)) = v.get("token") {
                    cfg.token = s.clone();
                    cfg.remember_token = s.as_str().unicode_len() != 0;
                }
                cfg
            },
        }
    }

    /// The settings read from the text of the settings file: `None` (no
    /// file, or one that cannot be read) and text that is not JSON give the
    /// initial settings.
    pub fn load_text(text: Option<&str>) -> (c: Config)
        ensures
            c@ == match text {
                Some(t) => match json_document(t@) {
                    Some(d) => loaded_config(d),
                    None => initial_config(),
                },
                None => initial_config(),
            },
    {
        match text {
            Some(t) => match parse_document(t) {
                Some(d) => Config::load_from(Some(&d)),
                None => Config::initial(),
            },
            None => Config::initial(),
        }
    }

    /// The document to persist: the token is written only if
    /// `remember_token`.
    pub fn saved_document(&self) -> (r: Record)
        ensures
            r@ == saved_document(self@),
    {
        let token = if self.remember_token { self.token.clone() } else { String::new() };
        let mut entries: Vec<(String, JsonValue)> = Vec::new();
        entries.push((text("environment"), JsonValue::Str(self.environment.clone())));
        entries.push((text("base_url"), JsonValue::Str(self.base_url.clone())));
        entries.push((text("token"), JsonValue::Str(token)));
        let r = Record { entries };
        assert(r@ =~= saved_document(self@));
        r
    }
}

/// Saving the settings and loading them back keeps the environment and the
/// base URL; the token comes back only if it was to be remembered, and it is
/// remembered again exactly when it was remembered and is not empty.
pub proof fn lemma_save_then_load(c: ConfigModel)
    ensures
        loaded_config(saved_document(c)) == (ConfigModel {
            environment: c.environment,
            base_url: c.base_url,
            token: if c.remember_token { c.token } else { Seq::empty() },
            remember_token: c.remember_token && c.token.len() > 0,
        }),
{
    let d = saved_document(c);
    reveal_with_fuel(lookup, 4);
    assert(d.drop_first() =~= seq![d[1], d[2]]);
    assert(d.drop_first().drop_first() =~= seq![d[2]]);
    reveal_strlit("environment");
    reveal_strlit("base_url");
    reveal_strlit("token");
    assert("environment"@.len() == 11);
    assert("base_url"@.len() == 8);
    assert("token"@.len() == 5);
}

/// The operating systems whose settings directories differ.
#[derive(Clone, Copy, PartialEq, Eq, Structural, Debug)]
pub enum Platform {
    Windows,
    MacOs,
    Other,
}

/// A file-system path: a root taken from the environment, then the
/// relative components joined onto it in order.
pub struct AppPath {
    pub root: String,
    pub parts: Vec<String>,
}

/// The mathematical model of a path.
pub struct AppPathModel {
    pub root: Seq<char>,
    pub parts: Seq<Seq<char>>,
}

impl View for AppPath {
    type V = AppPathModel;

    open spec fn view(&self) -> AppPathModel {
        AppPathModel { root: self.root@, parts: self.parts@.map_values(|p: String| p@) }
    }
}

/// The per-user settings directory: `%APPDATA%\as2expert` on Windows,
/// `~/Library/Application Support/as2expert` on macOS, and elsewhere
/// `$XDG_CONFIG_HOME/as2expert`, falling back to `~/.config/as2expert`.
pub open spec fn settings_dir(platform: Platform, appdata: Option<Seq<char>>, home: Option<Seq<char>>, xdg: Option<Seq<char>>) -> Option<AppPathModel> {
    match platform {
        Platform::Windows => match appdata {
            Some(a) => Some(AppPathModel { root: a, parts: seq!["as2expert"@] }),
            None => None,
        },
        Platform::MacOs => match home {
            Some(h) => Some(AppPathModel { root: h, parts: seq!["Library/Application Support/as2expert"@] }),
            None => None,
        },
        Platform::Other => match xdg {
            Some(x) => Some(AppPathModel { root: x, parts: seq!["as2expert"@] }),
            None => match home {
                Some(h) => Some(AppPathModel { root: h, parts: seq![".config"@, "as2expert"@] }),
                None => None,
            },
        },
    }
}

/// The optional string's model.
pub open spec fn opt_model(s: Option<String>) -> Option<Seq<char>> {
    match s {
        Some(t) => Some(t@),
        None => None,
    }
}

fn single(root: String, part: &str) -> (p: AppPath)
    ensures
        p@ == (AppPathModel { root: root@, parts: seq![part@] }),
{
    let mut parts: Vec<String> = Vec::new();
    parts.push(text(part));
    let p = AppPath { root, parts };
    assert(p@.parts =~= seq![part@]);
    p
}

/// The per-user config directory for this app, from the platform and the
/// values of `APPDATA`, `HOME` and `XDG_CONFIG_HOME`.
pub fn config_dir(platform: Platform, appdata: Option<String>, home: Option<String>, xdg_config_home: Option<String>) -> (r: Option<AppPath>)
    ensures
        match r {
            Some(p) => settings_dir(platform, opt_model(appdata), opt_model(home), opt_model(xdg_config_home)) == Some(p@),
            None => settings_dir(platform, opt_model(appdata), opt_model(home), opt_model(xdg_config_home)) is None,
        },
{
    match platform {
        Platform::Windows => match appdata {
            Some(a) => Some(single(a, "as2expert")),
            None => None,
        },
        Platform::MacOs => match home {
            Some(h) => Some(single(h, "Library/Application Support/as2expert")),
            None => None,
        },
        Platform::Other => match xdg_config_home {
            Some(x) => Some(single(x, "as2expert")),
            None => match home {
                Some(h) => {
                    let mut parts: Vec<String> = Vec::new();
                    parts.push(text(".config"));
                    parts.push(text("as2expert"));
                    let p = AppPath { root: h, parts };
                    assert(p@.parts =~= seq![".config"@, "as2expert"@]);
                    Some(p)
                },
                None => None,
            },
        },
    }
}

/// The settings file inside the settings directory.
pub fn config_file(dir: Option<AppPath>) -> (r: Option<AppPath>)
    ensures
        match r {
            Some(p) => match dir {
                Some(d) => p@ == (AppPathModel { root: d@.root, parts: d@.parts.push("config.json"@) }),
                None => false,
            },
            None => dir is None,
        },
{
    match dir {
        Some(d) => {
            let ghost before = d@;
            let mut d = d;
            d.parts.push(text("config.json"));
            assert(d@.parts =~= before.parts.push("config.json"@));
            Some(d)
        },
        None => None,
    }
}

} // verus!
