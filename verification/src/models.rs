//! The game library: games, the saved application data, and how they are
//! shown as text.

use vstd::prelude::*;
use std::path::PathBuf;
use crate::text::{alphanumeric, is_ascii_alnum, decimal, is_alphanumeric, push_decimal, chars_of, chars_start_with, starts_with, string_from};
use crate::path::{path_from, join, data_dir, joined, path_of};

verus! {

/// Where a game comes from.
#[derive(Clone, Copy, PartialEq, Eq, Debug, Structural)]
pub enum Source {
    Local,
    Steam,
}

/// A game in the library.
#[derive(Clone, Debug)]
pub struct Game {
    pub id: String,
    pub name: String,
    pub source: Source,
    pub steam_id: Option<u64>,
    pub path: Option<String>,
    pub args: Option<String>,
    pub cover: Option<String>,
    pub notes: Option<String>,
    pub playtime_sec: u64,
    pub last_played: Option<u64>,
    pub added_at: u64,
}

/// A game with its texts taken as character sequences.
pub struct GameView {
    pub id: Seq<char>,
    pub name: Seq<char>,
    pub source: Source,
    pub steam_id: Option<u64>,
    pub path: Option<Seq<char>>,
    pub args: Option<Seq<char>>,
    pub cover: Option<Seq<char>>,
    pub notes: Option<Seq<char>>,
    pub playtime_sec: u64,
    pub last_played: Option<u64>,
    pub added_at: u64,
}

/// The characters of an optional text.
pub open spec fn opt_text(o: Option<String>) -> Option<Seq<char>> {
    match o {
        Some(s) => Some(s@),
        None => None,
    }
}

impl View for Game {
    type V = GameView;

    open spec fn view(&self) -> GameView {
        GameView {
            id: self.id@,
            name: self.name@,
            source: self.source,
            steam_id: self.steam_id,
            path: opt_text(self.path),
            args: opt_text(self.args),
            cover: opt_text(self.cover),
            notes: opt_text(self.notes),
            playtime_sec: self.playtime_sec,
            last_played: self.last_played,
            added_at: self.added_at,
        }
    }
}

/// Everything the application saves.
#[derive(Clone, Debug)]
pub struct AppData {
    pub games: Vec<Game>,
    pub steam_path: Option<String>,
    pub steam_cached: bool,
}

impl Default for AppData {
    fn default() -> (r: Self)
        ensures
            r.games@.len() == 0,
            r.steam_path is None,
            !r.steam_cached,
    {
        AppData { games: Vec::new(), steam_path: None, steam_cached: false }
    }
}

/// A copy of an optional text.
pub fn copy_text(o: &Option<String>) -> (r: Option<String>)
    ensures
        opt_text(r) == opt_text(*o),
{
    match o {
        Some(s) => Some(s.clone()),
        None => None,
    }
}

impl Game {
    /// A copy of the game.
    pub fn duplicate(&self) -> (r: Game)
        ensures
            r@ == self@,
    {
        Game {
            id: self.id.clone(),
            name: self.name.clone(),
            source: self.source,
            steam_id: self.steam_id,
            path: copy_text(&self.path),
            args: copy_text(&self.args),
            cover: copy_text(&self.cover),
            notes: copy_text(&self.notes),
            playtime_sec: self.playtime_sec,
            last_played: self.last_played,
            added_at: self.added_at,
        }
    }
}

// ---------------------------------------------------------------------------
// Texts shown for a game
/// How a cover is addressed: web addresses and `file:` URIs as they are,
/// anything else as a local file path behind `file://`.
pub open spec fn cover_uri_text(c: Seq<char>) -> Seq<char> {
    if starts_with(c, "http"@) || starts_with(c, "file:"@) {
        c
    } else {
        "file://"@ + c
    }
}

/// A number of seconds as whole hours and minutes: "H ч M мин", or
/// "M мин" under an hour.
pub open spec fn duration_text(secs: nat) -> Seq<char> {
    let h: nat = secs / 3600;
    let m: nat = (secs % 3600) / 60;
    if h > 0 {
        decimal(h) + " ч "@ + decimal(m) + " мин"@
    } else {
        decimal(m) + " мин"@
    }
}

/// When a game was last played, in days before `now`: "никогда" (never),
/// "сегодня" (today), "вчера" (yesterday) or "N дн. назад" (N days ago).
pub open spec fn last_played_text(last: Option<u64>, now: u64) -> Seq<char> {
    match last {
        None => "никогда"@,
        Some(ts) => {
            let days: int = (now - ts) / 86400;
            if days == 0 {
                "сегодня"@
            } else if days == 1 {
                "вчера"@
            } else {
                decimal(days as nat) + " дн. назад"@
            }
        },
    }
}

/// When a game was added, in days before `now` (0 when `added` is later):
/// "сегодня" (today) or "N дн. назад" (N days ago).
pub open spec fn added_text(added: u64, now: u64) -> Seq<char> {
    let days: int = if now >= added {
        (now - added) / 86400
    } else {
        0
    };
    if days < 1 {
        "сегодня"@
    } else {
        decimal(days as nat) + " дн. назад"@
    }
}

/// A number of seconds as whole hours and minutes (see `duration_text`).
pub fn duration_readable(secs: u64) -> (r: String)
    ensures
        r@ == duration_text(secs as nat),
{
    let h: u64 = secs / 3600;
    let m: u64 = (secs % 3600) / 60;
    let mut r = String::new();
    if h > 0 {
        push_decimal(&mut r, h);
        r.append(" ч ");
        push_decimal(&mut r, m);
        r.append(" мин");
    } else {
        push_decimal(&mut r, m);
        r.append(" мин");
    }
    r
}

impl Game {
    /// The URI of the game's cover, when it has one.
    pub fn cover_uri(&self) -> (r: Option<String>)
        ensures
            match self.cover {
                None => r is None,
                Some(c) => r matches Some(u) && u@ == cover_uri_text(c@),
            },
    {
        match &self.cover {
            None => None,
            Some(c) => {
                let cs = chars_of(c.as_str());
                let http = chars_of("http");
                let file = chars_of("file:");
                if chars_start_with(&cs, &http) || chars_start_with(&cs, &file) {
                    Some(c.clone())
                } else {
                    let mut u = String::from_str("file://");
                    u.append(c.as_str());
                    Some(u)
                }
            },
        }
    }

    /// The time played, in hours and minutes.
    pub fn playtime_readable(&self) -> (r: String)
        ensures
            r@ == duration_text(self.playtime_sec as nat),
    {
        duration_readable(self.playtime_sec)
    }

    /// When the game was last played, as seen at time `now`.
    pub fn last_played_readable(&self, now: u64) -> (r: String)
        requires
            self.last_played matches Some(ts) ==> ts <= now,
        ensures
            r@ == last_played_text(self.last_played, now),
    {
        match self.last_played {
            None => String::from_str("никогда"),
            Some(ts) => {
                let days: u64 = (now - ts) / 86400;
                if days == 0 {
                    String::from_str("сегодня")
                } else if days == 1 {
                    String::from_str("вчера")
                } else {
                    let mut r = String::new();
                    push_decimal(&mut r, days);
                    r.append(" дн. назад");
                    r
                }
            },
        }
    }

    /// Where the game comes from, as shown on its details page: "Локальная
    /// игра" (local game), or "Steam (N)" with its app id (0 when it has none).
    pub fn source_label(&self) -> (r: String)
        ensures
            r@ == match self.source {
                Source::Local => "Локальная игра"@,
                Source::Steam => "Steam ("@ + decimal(
                    match self.steam_id {
                        Some(n) => n,
                        None => 0,
                    } as nat,
                ) + ")"@,
            },
    {
        match self.source {
            Source::Local => String::from_str("Локальная игра"),
            Source::Steam => {
                let n: u64 = match self.steam_id {
                    Some(n) => n,
                    None => 0,
                };
                let mut r = String::from_str("Steam (");
                push_decimal(&mut r, n);
                r.append(")");
                r
            },
        }
    }

    /// When the game was added, as seen at time `now`.
    pub fn added_readable(&self, now: u64) -> (r: String)
        ensures
            r@ == added_text(self.added_at, now),
    {
        let days: u64 = now.saturating_sub(self.added_at) / 86400;
        if days < 1 {
            String::from_str("сегодня")
        } else {
            let mut r = String::new();
            push_decimal(&mut r, days);
            r.append(" дн. назад");
            r
        }
    }
}

// ---------------------------------------------------------------------------
// Where the data lives
/// The directory under which the data directory lies: the platform's data
/// directory `data` when there is one, else the current directory `.`.
pub open spec fn data_base(data: Option<PathBuf>) -> PathBuf {
    match data {
        Some(d) => d,
        None => path_of("."@),
    }
}

/// The data directory when the platform's data directory is `data`:
/// `launchvault` under `data_base(data)`.
pub open spec fn data_dir_path(data: Option<PathBuf>) -> PathBuf {
    joined(data_base(data), "launchvault"@)
}

/// The covers directory when the platform's data directory is `data`:
/// `covers` under the data directory.
pub open spec fn covers_path(data: Option<PathBuf>) -> PathBuf {
    joined(data_dir_path(data), "covers"@)
}

/// The application's data directory, given the platform's data directory
/// (`None` when there is none): `launchvault` under it, or under the current
/// directory.
pub fn app_data_dir_in(data: Option<PathBuf>) -> (r: PathBuf)
    ensures
        r == data_dir_path(data),
{
    let base = match data {
        Some(d) => d,
        None => path_from("."),
    };
    join(&base, "launchvault")
}

/// The application's data directory: `launchvault` under the platform's
/// data directory (read from the environment on each call), or under the
/// current directory when there is none.
pub fn app_data_dir() -> (r: PathBuf)
    ensures
        exists|data: Option<PathBuf>| r == data_dir_path(data),
{
    let data = data_dir();
    let ghost d = data;
    let r = app_data_dir_in(data);
    assert(r == data_dir_path(d));
    r
}

/// The directory of downloaded and copied covers: `covers` under the data
/// directory.
pub fn covers_dir() -> (r: PathBuf)
    ensures
        exists|data: Option<PathBuf>| r == covers_path(data),
{
    let dir = app_data_dir();
    let ghost data = choose|data: Option<PathBuf>| dir == data_dir_path(data);
    let r = join(&dir, "covers");
    assert(r == covers_path(data));
    r
}

/// The characters of an id kept in a cover file name: alphanumerics and
/// `-`, in order.
pub open spec fn id_file_chars(id: Seq<char>) -> Seq<char>
    decreases id.len(),
{
    if id.len() == 0 {
        id
    } else {
        let r = id_file_chars(id.drop_last());
        if alphanumeric(id.last()) || id.last() == '-' {
            r.push(id.last())
        } else {
            r
        }
    }
}

/// The file name of a cover downloaded for game `id` from its own address.
pub fn custom_cover_file_name(id: &str) -> (r: String)
    ensures
        r@ == id_file_chars(id@) + "_cover.png"@,
        forall|i: int|
            0 <= i < id_file_chars(id@).len() ==> #[trigger] id_file_chars(id@)[i] == '-'
                || is_ascii_alnum(id_file_chars(id@)[i]) || (id_file_chars(id@)[i] as int) >= 128,
{
    let cs = chars_of(id);
    let mut kept: Vec<char> = Vec::new();
    let mut i: usize = 0;
    assert(cs@.take(0) =~= Seq::<char>::empty());
    while i < cs.len()
        invariant
            i <= cs.len(),
            cs@ == id@,
            kept@ == id_file_chars(cs@.take(i as int)),
            forall|k: int|
                0 <= k < kept@.len() ==> #[trigger] kept@[k] == '-' || is_ascii_alnum(kept@[k])
                    || (kept@[k] as int) >= 128,
        decreases cs.len() - i,
    {
        assert(cs@.take(i + 1).drop_last() =~= cs@.take(i as int));
        let c = cs[i];
        if is_alphanumeric(c) || c == '-' {
            kept.push(c);
        }
        i = i + 1;
    }
    assert(cs@.take(i as int) =~= cs@);
    let mut r = string_from(&kept);
    r.append("_cover.png");
    r
}

/// Where the cover downloaded for game `id` from its own address is kept:
/// its cover file name in the covers directory.
pub fn custom_cover_dest(id: &str) -> (r: PathBuf)
    ensures
        exists|data: Option<PathBuf>|
            r == joined(#[trigger] covers_path(data), id_file_chars(id@) + "_cover.png"@),
{
    let file = custom_cover_file_name(id);
    let dir = covers_dir();
    let ghost data = choose|data: Option<PathBuf>| dir == covers_path(data);
    let r = join(&dir, file.as_str());
    assert(r == joined(covers_path(data), id_file_chars(id@) + "_cover.png"@));
    r
}

} // verus!
