//! Steam: reading its library folders and app manifests, the addresses of
//! game covers, and the time.

use vstd::prelude::*;
use std::path::PathBuf;
use std::time::{Duration, SystemTime};
use crate::text::{
    alphanumeric, is_ascii_alnum, chars_of, chars_start_with, chars_end_with, decimal, ends_with, is_whitespace,
    is_alphanumeric, is_ws, parse_unsigned, parse_unsigned_chars, push_decimal, starts_with,
    string_from, trim, trim_chars,
};
use crate::vdf::{parse, parse_text, vdf_get, Vdf, VdfValue};
use crate::order::{Named, sort_by_lower_name, sorted_by_lower_name};
use crate::path::{join, joined};
use crate::models::{covers_dir, covers_path};

verus! {

/// A game installed through Steam.
#[derive(Debug, Clone)]
pub struct SteamGame {
    pub appid: u64,
    pub name: String,
    pub installdir: String,
    pub size_on_disk: u64,
    pub library: PathBuf,
}

impl Named for SteamGame {
    open spec fn name_of(&self) -> Seq<char> {
        self.name@
    }

    fn name_text(&self) -> (r: &str) {
        self.name.as_str()
    }
}

// ---------------------------------------------------------------------------
// Time
#[verifier::external_type_specification]
#[verifier::external_body]
pub struct ExSystemTime(SystemTime);

/// Calls `SystemTime::now`; the clock's reading is not stated.
#[verifier::external_body]
fn system_now() -> SystemTime {
    SystemTime::now()
}

/// Calls `SystemTime::duration_since` with the Unix epoch; `None` stands for
/// its error (a time before the epoch). Nothing is stated of the duration.
#[verifier::external_body]
fn since_unix_epoch(t: &SystemTime) -> Option<Duration> {
    t.duration_since(std::time::UNIX_EPOCH).ok()
}

/// Calls `Duration::as_secs`. Nothing is stated of the result.
#[verifier::external_body]
fn whole_secs(d: &Duration) -> u64 {
    d.as_secs()
}

/// The current time in whole seconds since the Unix epoch, 0 when the
/// clock reads an earlier time.
pub fn now_secs() -> u64 {
    let t = system_now();
    match since_unix_epoch(&t) {
        Some(d) => whole_secs(&d),
        None => 0,
    }
}

// ---------------------------------------------------------------------------
// Where Steam is
/// The Steam root to use: the one named by the environment when its
/// `steamapps` directory exists, else the first candidate whose `steamapps`
/// exists. Each path comes with whether its `steamapps` directory exists.
pub fn choose_steam_root(env_root: Option<(PathBuf, bool)>, candidates: Vec<(PathBuf, bool)>) -> (r:
    Option<PathBuf>)
    ensures
        match env_root {
            Some((p, true)) => r == Some(p),
            _ => match first_existing(candidates@) {
                Some(i) => r == Some(candidates@[i].0),
                None => r is None,
            },
        },
{
    if let Some((p, ok)) = env_root {
        if ok {
            return Some(p);
        }
    }
    let ghost orig = candidates@;
    let ghost env = env_root;
    assert(orig.len() == candidates.len());
    assert(!(env matches Some((_, true))));
    let mut rest = candidates;
    let mut n: usize = 0;
    assert(orig.skip(0) =~= orig);
    while rest.len() > 0
        invariant
            !(env matches Some((_, true))),
            env == env_root,
            orig == candidates@,
            orig.len() <= usize::MAX,
            n + rest.len() == orig.len(),
            rest@ == orig.skip(n as int),
            first_existing(orig) == match first_existing(orig.skip(n as int)) {
                Some(k) => Some(k + n),
                None => None,
            },
        decreases rest.len(),
    {
        let ghost before = rest@;
        let (p, ok) = rest.remove(0);
        assert(before[0] == orig[n as int]);
        if ok {
            return Some(p);
        }
        assert(before.drop_first() =~= orig.skip(n + 1));
        assert(rest@ =~= orig.skip(n + 1));
        n = n + 1;
    }
    None
}

/// The position of the first path whose `steamapps` directory exists.
pub open spec fn first_existing(cs: Seq<(PathBuf, bool)>) -> Option<int>
    decreases cs.len(),
{
    if cs.len() == 0 {
        None
    } else if cs[0].1 {
        Some(0)
    } else {
        match first_existing(cs.drop_first()) {
            Some(i) => Some(i + 1),
            None => None,
        }
    }
}

/// The library folder file of a Steam root: `steamapps/libraryfolders.vdf`.
pub fn vdf_file(steam_root: &PathBuf) -> (r: PathBuf)
    ensures
        r == joined(joined(*steam_root, "steamapps"@), "libraryfolders.vdf"@),
{
    join(&join(steam_root, "steamapps"), "libraryfolders.vdf")
}

// ---------------------------------------------------------------------------
// libraryfolders.vdf
/// The text of field `key` of a value, when the value is a section whose
/// first entry with that key is a string.
pub open spec fn field_text(v: Vdf, key: Seq<char>) -> Option<Seq<char>> {
    match vdf_get(v, key) {
        Some(Vdf::Str(t)) => Some(t),
        _ => None,
    }
}

/// An entry of `libraryfolders` names a library folder when its key is a
/// number that fits in a `u32`.
pub open spec fn is_folder_key(k: Seq<char>) -> bool {
    parse_unsigned(k, u32::MAX as nat) is Some
}

/// The `path` texts of the library folder entries among `es`, in order.
pub open spec fn folder_paths(es: Seq<(Seq<char>, Vdf)>) -> Seq<Seq<char>>
    decreases es.len(),
{
    if es.len() == 0 {
        Seq::empty()
    } else {
        let r = folder_paths(es.drop_last());
        let (k, v) = es.last();
        if is_folder_key(k) && field_text(v, "path"@) is Some {
            r.push(field_text(v, "path"@).unwrap())
        } else {
            r
        }
    }
}

/// The library folder paths that a `libraryfolders.vdf` text lists: the
/// `path` of each numbered entry of its `libraryfolders` section.
pub open spec fn library_folders_in(text: Seq<char>) -> Seq<Seq<char>> {
    match parse_text(text) {
        Some(root) => match vdf_get(root, "libraryfolders"@) {
            Some(Vdf::Section(es)) => folder_paths(es),
            _ => Seq::empty(),
        },
        None => Seq::empty(),
    }
}

/// The texts of a list of strings.
pub open spec fn texts(v: Seq<String>) -> Seq<Seq<char>> {
    Seq::new(v.len(), |i: int| v[i]@)
}

/// The library folder paths listed in the text of a `libraryfolders.vdf`.
pub fn library_folder_paths(text: &str) -> (r: Vec<String>)
    ensures
        texts(r@) == library_folders_in(text@),
{
    let mut out: Vec<String> = Vec::new();
    let root = match parse(text) {
        Some(v) => v,
        None => {
            assert(texts(out@) =~= Seq::<Seq<char>>::empty());
            return out;
        },
    };
    let folders = match root.get("libraryfolders") {
        Some(f) => f,
        None => {
            assert(texts(out@) =~= Seq::<Seq<char>>::empty());
            return out;
        },
    };
    match folders {
        VdfValue::Section(entries) => {
            let ghost es = crate::vdf::entries_view(entries@);
            proof {
                crate::vdf::lemma_entries_view_index(entries@);
            }
            assert(es.take(0) =~= Seq::<(Seq<char>, Vdf)>::empty());
            assert(texts(out@) =~= Seq::<Seq<char>>::empty());
            let mut i: usize = 0;
            while i < entries.len()
                invariant
                    i <= entries.len(),
                    es == crate::vdf::entries_view(entries@),
                    es.len() == entries.len(),
                    forall|j: int|
                        0 <= j < entries.len() ==> #[trigger] es[j] == (
                            entries@[j].0@,
                            crate::vdf::value_view(entries@[j].1),
                        ),
                    texts(out@) == folder_paths(es.take(i as int)),
                decreases entries.len() - i,
            {
                assert(es.take(i + 1).drop_last() =~= es.take(i as int));
                assert(es.take(i + 1).last() == es[i as int]);
                let key = chars_of(entries[i].0.as_str());
                if parse_unsigned_chars(&key, 4294967295u64).is_some() {
                    if let Some(p) = entries[i].1.get("path") {
                        if let Some(t) = p.as_str() {
                            let ghost before = texts(out@);
                            out.push(String::from_str(t));
                            assert(texts(out@) =~= before.push(t@));
                        }
                    }
                }
                i = i + 1;
            }
            assert(es.take(i as int) =~= es);
            out
        },
        VdfValue::Str(_) => {
            assert(texts(out@) =~= Seq::<Seq<char>>::empty());
            out
        },
    }
}

// ---------------------------------------------------------------------------
// appmanifest_*.acf
/// A file is an app manifest when its name is `appmanifest_…acf`.
pub open spec fn is_manifest_name(n: Seq<char>) -> bool {
    starts_with(n, "appmanifest_"@) && ends_with(n, ".acf"@)
}

/// The section holding a manifest's fields: its `AppState` entry, or the
/// whole value when it has none.
pub open spec fn app_state(root: Vdf) -> Vdf {
    match vdf_get(root, "AppState"@) {
        Some(s) => s,
        None => root,
    }
}

/// A numeric field: its trimmed text read as a `u64`, 0 when it is missing
/// or not such a number.
pub open spec fn field_number(state: Vdf, key: Seq<char>) -> nat {
    match field_text(state, key) {
        Some(t) => match parse_unsigned(trim(t), u64::MAX as nat) {
            Some(n) => n,
            None => 0,
        },
        None => 0,
    }
}

/// A text field, or `default` when it is missing or not a string.
pub open spec fn field_or(state: Vdf, key: Seq<char>, default: Seq<char>) -> Seq<char> {
    match field_text(state, key) {
        Some(t) => t,
        None => default,
    }
}

/// What an app manifest file gives: its app id, name ("Unknown" when
/// missing), install directory (empty when missing) and size on disk (0
/// when missing). Nothing for other file names, texts that do not parse,
/// and app id 0.
pub open spec fn manifest_entry(file_name: Seq<char>, text: Seq<char>) -> Option<
    (u64, Seq<char>, Seq<char>, u64),
> {
    if !is_manifest_name(file_name) {
        None
    } else {
        match parse_text(text) {
            None => None,
            Some(root) => {
                let st = app_state(root);
                let appid = field_number(st, "appid"@);
                if appid == 0 {
                    None
                } else {
                    Some(
                        (
                            appid as u64,
                            field_or(st, "name"@, "Unknown"@),
                            field_or(st, "installdir"@, ""@),
                            field_number(st, "SizeOnDisk"@) as u64,
                        ),
                    )
                }
            },
        }
    }
}

/// Reading an app manifest: a file gives a game exactly when its name is
/// an app manifest's, its text parses and its app id is a nonzero number;
/// the game's name is then the text of the `name` field of its `AppState`
/// section ("Unknown" when there is no such text), its install directory
/// that of the `installdir` field (empty when there is none), each read
/// from its own field whatever the others hold.
pub proof fn law_manifest_fields(file_name: Seq<char>, text: Seq<char>)
    ensures
        manifest_entry(file_name, text) is Some <==> (is_manifest_name(file_name)
            && parse_text(text) is Some && field_number(
            app_state(parse_text(text).unwrap()),
            "appid"@,
        ) != 0),
        manifest_entry(file_name, text) matches Some((appid, name, dir, size)) ==> {
            let st = app_state(parse_text(text).unwrap());
            &&& appid == field_number(st, "appid"@)
            &&& size == field_number(st, "SizeOnDisk"@)
            &&& (vdf_get(st, "name"@) matches Some(Vdf::Str(t)) ==> name == t)
            &&& (!(vdf_get(st, "name"@) matches Some(Vdf::Str(_))) ==> name == "Unknown"@)
            &&& (vdf_get(st, "installdir"@) matches Some(Vdf::Str(t)) ==> dir == t)
            &&& (!(vdf_get(st, "installdir"@) matches Some(Vdf::Str(_))) ==> dir == ""@)
        },
{
}

/// Whether a file name is that of an app manifest.
pub fn is_manifest_file(file_name: &str) -> (r: bool)
    ensures
        r == is_manifest_name(file_name@),
{
    let n = chars_of(file_name);
    let pre = chars_of("appmanifest_");
    let suf = chars_of(".acf");
    chars_start_with(&n, &pre) && chars_end_with(&n, &suf)
}

fn number_field(state: &VdfValue, key: &str) -> (r: u64)
    ensures
        r == field_number(state@, key@),
{
    match state.get(key) {
        Some(v) => match v.as_str() {
            Some(t) => {
                let cs = chars_of(t);
                let tr = trim_chars(&cs);
                match parse_unsigned_chars(&tr, 18446744073709551615u64) {
                    Some(n) => n,
                    None => 0,
                }
            },
            None => 0,
        },
        None => 0,
    }
}

fn text_field(state: &VdfValue, key: &str, default: &str) -> (r: String)
    ensures
        r@ == field_or(state@, key@, default@),
{
    match state.get(key) {
        Some(v) => match v.as_str() {
            Some(t) => String::from_str(t),
            None => String::from_str(default),
        },
        None => String::from_str(default),
    }
}

/// The game that an app manifest file describes, installed in library
/// folder `library` (see `manifest_entry`).
pub fn manifest_game(file_name: &str, text: &str, library: PathBuf) -> (r: Option<SteamGame>)
    ensures
        match manifest_entry(file_name@, text@) {
            None => r is None,
            Some((appid, name, installdir, size)) => r matches Some(g) && g.appid == appid
                && g.name@ == name && g.installdir@ == installdir && g.size_on_disk == size
                && g.library == library,
        },
{
    if !is_manifest_file(file_name) {
        return None;
    }
    let parsed = match parse(text) {
        Some(v) => v,
        None => return None,
    };
    let state = match parsed.get("AppState") {
        Some(s) => s,
        None => &parsed,
    };
    let appid = number_field(state, "appid");
    if appid == 0 {
        return None;
    }
    let name = text_field(state, "name", "Unknown");
    let installdir = text_field(state, "installdir", "");
    let size_on_disk = number_field(state, "SizeOnDisk");
    Some(SteamGame { appid, name, installdir, size_on_disk, library })
}

/// Installed games in the order Steam's list is shown: stably sorted by
/// lower-case name.
pub fn sort_steam_games(games: Vec<SteamGame>) -> (r: Vec<SteamGame>)
    ensures
        r@ == sorted_by_lower_name(games@),
{
    sort_by_lower_name(games)
}


// ---------------------------------------------------------------------------
// Covers and launching
/// The address of a game's header image on Steam's CDN.
pub open spec fn cover_url_text(appid: u64) -> Seq<char> {
    "https://cdn.cloudflare.steamstatic.com/steam/apps/"@ + decimal(appid as nat) + "/header.jpg"@
}

/// The address of a game's header image on Steam's CDN.
pub fn cover_url(appid: u64) -> (r: String)
    ensures
        r@ == cover_url_text(appid),
{
    let mut r = String::from_str("https://cdn.cloudflare.steamstatic.com/steam/apps/");
    push_decimal(&mut r, appid);
    r.append("/header.jpg");
    r
}

/// The address that makes Steam start a game.
pub open spec fn run_url_text(appid: u64) -> Seq<char> {
    "steam://rungameid/"@ + decimal(appid as nat)
}

/// The address that makes Steam start a game; opening it launches the game.
pub fn steam_run_url(appid: u64) -> (r: String)
    ensures
        r@ == run_url_text(appid),
{
    let mut r = String::from_str("steam://rungameid/");
    push_decimal(&mut r, appid);
    r
}

/// A name with every character that is not alphanumeric replaced by `_`.
pub open spec fn safe_name(name: Seq<char>) -> Seq<char> {
    Seq::new(name.len(), |i: int| if alphanumeric(name[i]) { name[i] } else { '_' })
}

/// How many bytes UTF-8 takes for `c`.
pub open spec fn char_bytes(c: char) -> nat {
    if (c as int) < 0x80 {
        1
    } else if (c as int) < 0x800 {
        2
    } else if (c as int) < 0x10000 {
        3
    } else {
        4
    }
}

/// How many bytes UTF-8 takes for `s`.
pub open spec fn text_bytes(s: Seq<char>) -> nat
    decreases s.len(),
{
    if s.len() == 0 {
        0
    } else {
        char_bytes(s[0]) + text_bytes(s.drop_first())
    }
}

/// The longest beginning of `s` that fits in `n` bytes.
pub open spec fn bytes_prefix(s: Seq<char>, n: nat) -> Seq<char>
    decreases s.len(),
{
    if s.len() == 0 || char_bytes(s[0]) > n {
        Seq::empty()
    } else {
        seq![s[0]] + bytes_prefix(s.drop_first(), (n - char_bytes(s[0])) as nat)
    }
}

/// `s` can be cut at byte `n` (or is shorter): slicing its first
/// `min(len, n)` bytes does not split a character.
pub open spec fn cuts_cleanly(s: Seq<char>, n: nat) -> bool {
    text_bytes(bytes_prefix(s, n)) == if text_bytes(s) < n {
        text_bytes(s)
    } else {
        n
    }
}

/// The file name of a downloaded cover: the app id, `_`, the first 48 bytes
/// of the name made safe, and `.jpg`.
pub open spec fn cover_file_text(appid: u64, name: Seq<char>) -> Seq<char> {
    decimal(appid as nat) + "_"@ + bytes_prefix(safe_name(name), 48) + ".jpg"@
}

fn utf8_len(c: char) -> (r: usize)
    ensures
        r == char_bytes(c),
{
    let u = c as u32;
    if u < 0x80 {
        1
    } else if u < 0x800 {
        2
    } else if u < 0x10000 {
        3
    } else {
        4
    }
}

/// A character that may stand in a cover file name: `_`, an ASCII letter
/// or digit, or a character outside ASCII.
pub open spec fn cover_name_char(c: char) -> bool {
    c == '_' || is_ascii_alnum(c) || (c as int) >= 128
}

fn safe_chars(name: &str) -> (r: Vec<char>)
    ensures
        r@ == safe_name(name@),
        forall|i: int| 0 <= i < r@.len() ==> cover_name_char(#[trigger] r@[i]),
{
    let cs = chars_of(name);
    let mut out: Vec<char> = Vec::new();
    let mut i: usize = 0;
    while i < cs.len()
        invariant
            i <= cs.len(),
            cs@ == name@,
            out@ =~= safe_name(name@).take(i as int),
            forall|k: int| 0 <= k < out@.len() ==> cover_name_char(#[trigger] out@[k]),
        decreases cs.len() - i,
    {
        let c = cs[i];
        if is_alphanumeric(c) {
            out.push(c);
        } else {
            out.push('_');
        }
        i = i + 1;
    }
    out
}

proof fn lemma_bytes_prefix_step(s: Seq<char>, k: int, n: nat)
    requires
        0 <= k < s.len(),
        text_bytes(s.take(k)) + char_bytes(s[k]) <= n,
        bytes_prefix(s, n) == s.take(k) + bytes_prefix(s.skip(k), (n - text_bytes(s.take(k))) as nat),
    ensures
        bytes_prefix(s, n) == s.take(k + 1) + bytes_prefix(s.skip(k + 1), (n - text_bytes(s.take(k + 1))) as nat),
        text_bytes(s.take(k + 1)) == text_bytes(s.take(k)) + char_bytes(s[k]),
{
    lemma_text_bytes_push(s.take(k), s[k]);
    assert(s.take(k).push(s[k]) =~= s.take(k + 1));
    assert(s.skip(k).drop_first() =~= s.skip(k + 1));
    assert(s.skip(k)[0] == s[k]);
    assert(s.take(k) + (seq![s[k]] + bytes_prefix(s.skip(k + 1), (n - text_bytes(s.take(k + 1))) as nat))
        =~= s.take(k + 1) + bytes_prefix(s.skip(k + 1), (n - text_bytes(s.take(k + 1))) as nat));
}

proof fn lemma_text_bytes_push(s: Seq<char>, c: char)
    ensures
        text_bytes(s.push(c)) == text_bytes(s) + char_bytes(c),
    decreases s.len(),
{
    if s.len() > 0 {
        assert(s.push(c).drop_first() =~= s.drop_first().push(c));
        assert(s.push(c)[0] == s[0]);
        lemma_text_bytes_push(s.drop_first(), c);
    } else {
        assert(s.push(c).drop_first() =~= Seq::<char>::empty());
        assert(text_bytes(s.push(c).drop_first()) == 0);
        assert(s.push(c)[0] == c);
    }
}

/// The first `n` bytes of `s` when that does not split a character
/// (`None` when it would), as `&s[..s.len().min(n)]` slices; the result is
/// the longest beginning of `s` that fits in `n` bytes.
pub fn cut_at_bytes(s: &Vec<char>, n: usize) -> (r: Option<Vec<char>>)
    ensures
        match r {
            Some(p) => cuts_cleanly(s@, n as nat) && p@ == bytes_prefix(s@, n as nat),
            None => !cuts_cleanly(s@, n as nat),
        },
{
    let mut out: Vec<char> = Vec::new();
    let mut used: usize = 0;
    let mut k: usize = 0;
    assert(s@.take(0) =~= Seq::<char>::empty());
    assert(s@.skip(0) =~= s@);
    assert(bytes_prefix(s@, n as nat) =~= s@.take(0) + bytes_prefix(s@.skip(0), n as nat));
    while k < s.len() && utf8_len(s[k]) <= n - used
        invariant
            k <= s.len(),
            used <= n,
            used == text_bytes(s@.take(k as int)),
            out@ == s@.take(k as int),
            bytes_prefix(s@, n as nat) == s@.take(k as int) + bytes_prefix(
                s@.skip(k as int),
                (n - used) as nat,
            ),
        decreases s.len() - k,
    {
        proof {
            lemma_bytes_prefix_step(s@, k as int, n as nat);
        }
        used = used + utf8_len(s[k]);
        out.push(s[k]);
        k = k + 1;
    }
    proof {
        if k < s.len() {
            assert(s@.skip(k as int)[0] == s@[k as int]);
        }
        assert(bytes_prefix(s@.skip(k as int), (n - used) as nat) =~= Seq::<char>::empty());
        assert(bytes_prefix(s@, n as nat) =~= out@);
        lemma_text_bytes_split(s@, k as int);
    }
    if k == s.len() || used == n {
        proof {
            if k == s.len() {
                assert(s@.take(k as int) =~= s@);
                assert(s@.skip(k as int) =~= Seq::<char>::empty());
            }
        }
        Some(out)
    } else {
        None
    }
}

proof fn lemma_text_bytes_split(s: Seq<char>, k: int)
    requires
        0 <= k <= s.len(),
    ensures
        text_bytes(s) == text_bytes(s.take(k)) + text_bytes(s.skip(k)),
        k < s.len() ==> text_bytes(s.skip(k)) >= char_bytes(s[k]) + 0,
        k < s.len() ==> text_bytes(s.skip(k)) > 0,
    decreases s.len(),
{
    if k > 0 {
        lemma_text_bytes_split(s.drop_first(), k - 1);
        assert(s.drop_first().take(k - 1) =~= s.take(k).drop_first());
        assert(s.drop_first().skip(k - 1) =~= s.skip(k));
        assert(s.take(k)[0] == s[0]);
    } else {
        assert(s.take(0) =~= Seq::<char>::empty());
        assert(s.skip(0) =~= s);
    }
    if k < s.len() {
        assert(s.skip(k)[0] == s[k]);
    }
}

proof fn lemma_bytes_prefix(s: Seq<char>, n: nat)
    ensures
        text_bytes(bytes_prefix(s, n)) <= n,
        bytes_prefix(s, n).len() <= s.len(),
        bytes_prefix(s, n) == s.take(bytes_prefix(s, n).len() as int),
    decreases s.len(),
{
    if s.len() > 0 && char_bytes(s[0]) <= n {
        let rest = bytes_prefix(s.drop_first(), (n - char_bytes(s[0])) as nat);
        lemma_bytes_prefix(s.drop_first(), (n - char_bytes(s[0])) as nat);
        assert((seq![s[0]] + rest).drop_first() =~= rest);
        assert((seq![s[0]] + rest)[0] == s[0]);
        assert(seq![s[0]] + rest =~= s.take(rest.len() + 1 as int));
    } else {
        assert(s.take(0) =~= Seq::<char>::empty());
    }
}

/// The name part of a cover file holds only alphanumerics and `_`, and
/// takes at most 48 bytes.
pub proof fn law_cover_name_safe_and_short(name: Seq<char>)
    ensures
        text_bytes(bytes_prefix(safe_name(name), 48)) <= 48,
        forall|i: int|
            0 <= i < bytes_prefix(safe_name(name), 48).len() ==> alphanumeric(
                #[trigger] bytes_prefix(safe_name(name), 48)[i],
            ) || bytes_prefix(safe_name(name), 48)[i] == '_',
{
    let p = bytes_prefix(safe_name(name), 48);
    lemma_bytes_prefix(safe_name(name), 48);
    assert forall|i: int| 0 <= i < p.len() implies alphanumeric(#[trigger] p[i]) || p[i] == '_' by {
        assert(p[i] == safe_name(name)[i]);
    }
}

/// Whether the cover file name of a game of this name can be formed: its
/// safe name can be cut at 48 bytes without splitting a character.
pub fn cover_name_fits(name: &str) -> (r: bool)
    ensures
        r == cuts_cleanly(safe_name(name@), 48),
{
    let safe = safe_chars(name);
    cut_at_bytes(&safe, 48).is_some()
}

/// The file name of a game's downloaded cover.
pub fn cover_file_name(appid: u64, name: &str) -> (r: String)
    requires
        cuts_cleanly(safe_name(name@), 48),
    ensures
        r@ == cover_file_text(appid, name@),
        forall|i: int|
            0 <= i < bytes_prefix(safe_name(name@), 48).len() ==> cover_name_char(
                #[trigger] bytes_prefix(safe_name(name@), 48)[i],
            ),
{
    let safe = safe_chars(name);
    proof {
        lemma_bytes_prefix(safe@, 48);
        let p = bytes_prefix(safe@, 48);
        assert forall|i: int| 0 <= i < p.len() implies cover_name_char(#[trigger] p[i]) by {
            assert(p[i] == safe@[i]);
        }
    }
    let cut = match cut_at_bytes(&safe, 48) {
        Some(c) => c,
        None => Vec::new(),
    };
    let mut r = String::new();
    push_decimal(&mut r, appid);
    r.append("_");
    let cut_s = string_from(&cut);
    r.append(cut_s.as_str());
    r.append(".jpg");
    r
}

/// Where a game's downloaded cover is kept: its cover file name in the
/// covers directory.
pub fn cover_local_path(appid: u64, name: &str) -> (r: PathBuf)
    requires
        cuts_cleanly(safe_name(name@), 48),
    ensures
        exists|data: Option<PathBuf>|
            r == joined(#[trigger] covers_path(data), cover_file_text(appid, name@)),
{
    let file = cover_file_name(appid, name);
    let dir = covers_dir();
    let ghost data = choose|data: Option<PathBuf>| dir == covers_path(data);
    let r = join(&dir, file.as_str());
    assert(r == joined(covers_path(data), cover_file_text(appid, name@)));
    r
}

/// Where a game's downloaded cover is kept, or nothing when its name cannot
/// be cut into a file name (see `cover_name_fits`).
pub fn cover_local_path_checked(appid: u64, name: &str) -> (r: Option<PathBuf>)
    ensures
        match r {
            Some(p) => cuts_cleanly(safe_name(name@), 48) && exists|data: Option<PathBuf>|
                p == joined(#[trigger] covers_path(data), cover_file_text(appid, name@)),
            None => !cuts_cleanly(safe_name(name@), 48),
        },
{
    if cover_name_fits(name) {
        Some(cover_local_path(appid, name))
    } else {
        None
    }
}

/// The words of `s`: its maximal runs of non-whitespace characters, in
/// order, read from position `i` with `cur` the word being read and `acc`
/// the words finished so far.
pub open spec fn words_from(s: Seq<char>, i: int, cur: Seq<char>, acc: Seq<Seq<char>>) -> Seq<
    Seq<char>,
>
    decreases s.len() - i,
{
    if i >= s.len() || i < 0 {
        if cur.len() > 0 {
            acc.push(cur)
        } else {
            acc
        }
    } else if is_ws(s[i]) {
        words_from(
            s,
            i + 1,
            Seq::empty(),
            if cur.len() > 0 {
                acc.push(cur)
            } else {
                acc
            },
        )
    } else {
        words_from(s, i + 1, cur.push(s[i]), acc)
    }
}

/// The whitespace-separated words of `s` (what `str::split_whitespace`
/// yields).
pub open spec fn words(s: Seq<char>) -> Seq<Seq<char>> {
    words_from(s, 0, Seq::empty(), Seq::empty())
}

/// The arguments a local game is started with: the words of its argument
/// text, none when it has no argument text.
pub fn launch_args(args: &Option<String>) -> (r: Vec<String>)
    ensures
        texts(r@) == match args {
            Some(a) => words(a@),
            None => Seq::<Seq<char>>::empty(),
        },
{
    let mut out: Vec<String> = Vec::new();
    match args {
        None => {
            assert(texts(out@) =~= Seq::<Seq<char>>::empty());
            out
        },
        Some(a) => {
            let s = chars_of(a.as_str());
            let mut cur: Vec<char> = Vec::new();
            let mut i: usize = 0;
            assert(texts(out@) =~= Seq::<Seq<char>>::empty());
            while i < s.len()
                invariant
                    i <= s.len(),
                    s@ == a@,
                    words(a@) == words_from(s@, i as int, cur@, texts(out@)),
                decreases s.len() - i,
            {
                if is_whitespace(s[i]) {
                    if cur.len() > 0 {
                        let ghost before = texts(out@);
                        out.push(string_from(&cur));
                        assert(texts(out@) =~= before.push(cur@));
                        cur = Vec::new();
                    } else {
                        cur = Vec::new();
                        assert(cur@ =~= Seq::<char>::empty());
                    }
                } else {
                    cur.push(s[i]);
                }
                i = i + 1;
            }
            if cur.len() > 0 {
                let ghost before = texts(out@);
                out.push(string_from(&cur));
                assert(texts(out@) =~= before.push(cur@));
            }
            out
        },
    }
}

} // verus!
