//! What the application does to its library: adding games, timing play
//! sessions, removing and searching games.

use vstd::prelude::*;
use crate::models::{AppData, Game, GameView, Source, opt_text};
use crate::order::{with_key, lemma_sort_keyed_stable, sort_keyed, sort_by_lower_name, by_lower_name, payloads, map_payload, keyed_by, lex_le, lemma_sort_keyed_map, lemma_sort_keyed_payloads, lemma_sort_keyed_keyed_by, lemma_sort_keyed_sorted};
use crate::text::{lowercase, trim, decimal, has_substring, to_lowercase, chars_of, trim_chars, string_from, push_decimal, chars_contain};

verus! {

/// The views of a list of games.
pub open spec fn games_view(gs: Seq<Game>) -> Seq<GameView> {
    Seq::new(gs.len(), |i: int| gs[i]@)
}

/// The total time played over `gs`, in seconds.
pub open spec fn total_secs(gs: Seq<GameView>) -> nat
    decreases gs.len(),
{
    if gs.len() == 0 {
        0
    } else {
        total_secs(gs.drop_last()) + gs.last().playtime_sec as nat
    }
}

/// The position of the first game whose id is `id`.
pub open spec fn index_of_id(gs: Seq<GameView>, id: Seq<char>) -> Option<int>
    decreases gs.len(),
{
    if gs.len() == 0 {
        None
    } else if gs[0].id == id {
        Some(0)
    } else {
        match index_of_id(gs.drop_first(), id) {
            Some(i) => Some(i + 1),
            None => None,
        }
    }
}

/// Some game in `gs` has id `id`.
pub open spec fn has_id(gs: Seq<GameView>, id: Seq<char>) -> bool {
    exists|i: int| 0 <= i < gs.len() && #[trigger] gs[i].id == id
}

pub proof fn lemma_index_of_id(gs: Seq<GameView>, id: Seq<char>)
    ensures
        match index_of_id(gs, id) {
            Some(i) => 0 <= i < gs.len() && gs[i].id == id && forall|j: int|
                0 <= j < i ==> #[trigger] gs[j].id != id,
            None => forall|j: int| 0 <= j < gs.len() ==> #[trigger] gs[j].id != id,
        },
        index_of_id(gs, id) is Some <==> has_id(gs, id),
    decreases gs.len(),
{
    if gs.len() > 0 && gs[0].id != id {
        lemma_index_of_id(gs.drop_first(), id);
        assert forall|j: int| 1 <= j < gs.len() implies #[trigger] gs[j] == gs.drop_first()[j
            - 1] by {}
    }
}

proof fn lemma_total_prefix(gs: Seq<GameView>, k: int)
    requires
        0 <= k <= gs.len(),
    ensures
        total_secs(gs.take(k)) <= total_secs(gs),
    decreases gs.len(),
{
    if k < gs.len() {
        lemma_total_prefix(gs.drop_last(), k);
        assert(gs.drop_last().take(k) =~= gs.take(k));
    } else {
        assert(gs.take(k) =~= gs);
    }
}

/// Changing one game's time changes the total by the same amount.
pub proof fn lemma_total_update(gs: Seq<GameView>, i: int, g: GameView)
    requires
        0 <= i < gs.len(),
    ensures
        total_secs(gs.update(i, g)) + gs[i].playtime_sec == total_secs(gs) + g.playtime_sec,
    decreases gs.len(),
{
    if i < gs.len() - 1 {
        lemma_total_update(gs.drop_last(), i, g);
        assert(gs.update(i, g).drop_last() =~= gs.drop_last().update(i, g));
    } else {
        assert(gs.update(i, g).drop_last() =~= gs.drop_last());
    }
}

impl AppData {
    /// The total time played over the library, when it fits in a `u64`.
    pub fn total_playtime_secs(&self) -> (r: Option<u64>)
        ensures
            total_secs(games_view(self.games@)) <= u64::MAX ==> r == Some(
                total_secs(games_view(self.games@)) as u64,
            ),
            total_secs(games_view(self.games@)) > u64::MAX ==> r is None,
    {
        let ghost gv = games_view(self.games@);
        let mut total: u64 = 0;
        let mut i: usize = 0;
        assert(gv.take(0) =~= Seq::<GameView>::empty());
        while i < self.games.len()
            invariant
                i <= self.games.len(),
                gv == games_view(self.games@),
                total as nat == total_secs(gv.take(i as int)),
            decreases self.games.len() - i,
        {
            assert(gv.take(i + 1).drop_last() =~= gv.take(i as int));
            match total.checked_add(self.games[i].playtime_sec) {
                Some(t) => total = t,
                None => {
                    proof {
                        lemma_total_prefix(gv, i + 1);
                    }
                    return None;
                },
            }
            i = i + 1;
        }
        assert(gv.take(i as int) =~= gv);
        Some(total)
    }

    /// The total time played over the library, in hours and minutes.
    pub fn total_playtime(&self) -> (r: String)
        requires
            total_secs(games_view(self.games@)) <= u64::MAX,
        ensures
            r@ == crate::models::duration_text(total_secs(games_view(self.games@))),
    {
        let total = match self.total_playtime_secs() {
            Some(t) => t,
            None => 0,
        };
        crate::models::duration_readable(total)
    }

    /// The position of the first game with id `id`.
    pub fn find_game(&self, id: &str) -> (r: Option<usize>)
        ensures
            match r {
                Some(k) => index_of_id(games_view(self.games@), id@) == Some(k as int),
                None => index_of_id(games_view(self.games@), id@) is None,
            },
    {
        let ghost gv = games_view(self.games@);
        let id_s = String::from_str(id);
        let mut i: usize = 0;
        assert(gv.skip(0) =~= gv);
        while i < self.games.len()
            invariant
                i <= self.games.len(),
                gv == games_view(self.games@),
                id_s@ == id@,
                index_of_id(gv, id@) == match index_of_id(gv.skip(i as int), id@) {
                    Some(k) => Some(k + i),
                    None => None,
                },
            decreases self.games.len() - i,
        {
            assert(gv.skip(i as int)[0] == gv[i as int]);
            if self.games[i].id == id_s {
                return Some(i);
            }
            assert(gv.skip(i as int).drop_first() =~= gv.skip(i + 1));
            i = i + 1;
        }
        None
    }

    /// Ends a play session of game `game_id` that started at `started`:
    /// the first game with that id gains the session's length (`now -
    /// started`, or 0 when `now` is earlier) and is marked as last played at
    /// `started`. Nothing changes when no game has that id.
    pub fn record_session(&mut self, game_id: &str, started: u64, now: u64)
        requires
            match index_of_id(games_view(old(self).games@), game_id@) {
                Some(i) => old(self).games@[i].playtime_sec + (if now >= started {
                    now - started
                } else {
                    0
                }) <= u64::MAX,
                None => true,
            },
        ensures
            final(self).steam_path == old(self).steam_path,
            final(self).steam_cached == old(self).steam_cached,
            match index_of_id(games_view(old(self).games@), game_id@) {
                None => final(self).games@ == old(self).games@,
                Some(i) => games_view(final(self).games@) == games_view(old(self).games@).update(
                    i,
                    (GameView {
                        playtime_sec: (old(self).games@[i].playtime_sec + (if now >= started {
                            now - started
                        } else {
                            0
                        })) as u64,
                        last_played: Some(started),
                        ..old(self).games@[i]@
                    }),
                ),
            },
    {
        let dur: u64 = now.saturating_sub(started);
        proof {
            lemma_index_of_id(games_view(self.games@), game_id@);
        }
        match self.find_game(game_id) {
            Some(i) => {
                let ghost before = games_view(self.games@);
                let new_time: u64 = self.games[i].playtime_sec + dur;
                self.games[i].playtime_sec = new_time;
                self.games[i].last_played = Some(started);
                assert(games_view(self.games@) =~= before.update(
                    i as int,
                    (GameView { playtime_sec: new_time, last_played: Some(started), ..before[i as int] }),
                ));
            },
            None => {},
        }
    }
}

// ---------------------------------------------------------------------------
// Order of the library
/// The key by which the library is ordered: the game's name in lower case.
pub open spec fn name_key(g: GameView) -> Seq<char> {
    lowercase(g.name)
}

/// Games with their keys.
pub open spec fn keyed_by_name(gs: Seq<GameView>) -> Seq<(Seq<char>, GameView)> {
    Seq::new(gs.len(), |i: int| (name_key(gs[i]), gs[i]))
}

/// `gs` stably sorted by lower-case name, as `sort_by` on the lower-cased
/// names orders them.
pub open spec fn sorted_by_name(gs: Seq<GameView>) -> Seq<GameView> {
    payloads(sort_keyed(keyed_by_name(gs)))
}

/// The lower-case names in `gs` never decrease.
pub open spec fn names_sorted(gs: Seq<GameView>) -> bool {
    forall|i: int, j: int|
        0 <= i < j < gs.len() ==> lex_le(name_key(#[trigger] gs[i]), name_key(#[trigger] gs[j]))
}

impl crate::order::Named for Game {
    open spec fn name_of(&self) -> Seq<char> {
        self.name@
    }

    fn name_text(&self) -> (r: &str) {
        self.name.as_str()
    }
}

/// Stably sorts games by lower-case name.
pub fn sort_games(games: Vec<Game>) -> (r: Vec<Game>)
    ensures
        games_view(r@) == sorted_by_name(games_view(games@)),
{
    let ghost orig = games@;
    let r = sort_by_lower_name(games);
    proof {
        let f = |g: Game| g@;
        let k = by_lower_name(orig);
        assert(keyed_by_name(games_view(orig)) =~= map_payload(k, f));
        lemma_sort_keyed_map(k, f);
        assert(games_view(r@) =~= sorted_by_name(games_view(orig)));
    }
    r
}

/// The library order: stably sorting by name puts the lower-case names in
/// order and keeps every game, each as often as before.
pub proof fn law_sorted_by_name(gs: Seq<GameView>)
    ensures
        names_sorted(sorted_by_name(gs)),
        sorted_by_name(gs).to_multiset() == gs.to_multiset(),
        sorted_by_name(gs).len() == gs.len(),
{
    let k = keyed_by_name(gs);
    lemma_sort_keyed_sorted(k);
    lemma_sort_keyed_payloads(k);
    lemma_sort_keyed_keyed_by(k, |g: GameView| name_key(g));
    assert(payloads(k) =~= gs);
    let r = sort_keyed(k);
    assert forall|i: int, j: int| 0 <= i < j < r.len() implies lex_le(
        name_key(#[trigger] payloads(r)[i]),
        name_key(#[trigger] payloads(r)[j]),
    ) by {
        assert(r[i].0 == name_key(r[i].1));
        assert(r[j].0 == name_key(r[j].1));
    }
}

/// The games of `gs` whose lower-case name is `k`, in order.
pub open spec fn named(gs: Seq<GameView>, k: Seq<char>) -> Seq<GameView>
    decreases gs.len(),
{
    if gs.len() == 0 {
        gs
    } else if name_key(gs.last()) == k {
        named(gs.drop_last(), k).push(gs.last())
    } else {
        named(gs.drop_last(), k)
    }
}

proof fn lemma_named_payloads(s: Seq<(Seq<char>, GameView)>, k: Seq<char>)
    requires
        keyed_by(s, |g: GameView| name_key(g)),
    ensures
        payloads(with_key(s, k)) == named(payloads(s), k),
    decreases s.len(),
{
    if s.len() > 0 {
        assert(keyed_by(s.drop_last(), |g: GameView| name_key(g)));
        lemma_named_payloads(s.drop_last(), k);
        assert(payloads(s).drop_last() =~= payloads(s.drop_last()));
        assert(payloads(s).last() == s.last().1);
        assert(s.last().0 == name_key(s.last().1));
        if s.last().0 == k {
            assert(payloads(with_key(s.drop_last(), k).push(s.last())) =~= payloads(
                with_key(s.drop_last(), k),
            ).push(s.last().1));
        }
    }
}

/// Stability of the library order: games whose names are equal in lower
/// case keep the order they had.
pub proof fn law_equal_names_keep_order(gs: Seq<GameView>, k: Seq<char>)
    ensures
        named(sorted_by_name(gs), k) == named(gs, k),
{
    let kk = keyed_by_name(gs);
    assert(keyed_by(kk, |g: GameView| name_key(g)));
    lemma_sort_keyed_keyed_by(kk, |g: GameView| name_key(g));
    lemma_sort_keyed_stable(kk, k);
    lemma_named_payloads(kk, k);
    lemma_named_payloads(sort_keyed(kk), k);
    assert(payloads(kk) =~= gs);
}

// ---------------------------------------------------------------------------
// Adding and removing games
/// The id of the library entry for Steam game `appid`: "steam-" and the
/// number.
pub open spec fn steam_id_text(appid: u64) -> Seq<char> {
    "steam-"@ + decimal(appid as nat)
}

/// The id of the library entry for Steam game `appid`.
pub fn steam_game_id(appid: u64) -> (r: String)
    ensures
        r@ == steam_id_text(appid),
{
    let mut r = String::from_str("steam-");
    push_decimal(&mut r, appid);
    r
}

/// The entry that adding Steam game `appid` creates.
pub open spec fn new_steam_game(
    appid: u64,
    name: Seq<char>,
    cover: Option<Seq<char>>,
    added_at: u64,
) -> GameView {
    GameView {
        id: steam_id_text(appid),
        name,
        source: Source::Steam,
        steam_id: Some(appid),
        path: None,
        args: None,
        cover,
        notes: None,
        playtime_sec: 0,
        last_played: None,
        added_at,
    }
}

/// `t`, or nothing when it is empty.
pub open spec fn nonempty(t: Seq<char>) -> Option<Seq<char>> {
    if t.len() == 0 {
        None
    } else {
        Some(t)
    }
}

/// The entry that adding a local game creates, with id `id`; every text
/// is trimmed and empty optional texts are left out.
pub open spec fn new_local_game(
    id: Seq<char>,
    name: Seq<char>,
    path: Seq<char>,
    args: Seq<char>,
    cover: Seq<char>,
    notes: Seq<char>,
    added_at: u64,
) -> GameView {
    GameView {
        id,
        name: trim(name),
        source: Source::Local,
        steam_id: None,
        path: nonempty(trim(path)),
        args: nonempty(trim(args)),
        cover: nonempty(trim(cover)),
        notes: nonempty(trim(notes)),
        playtime_sec: 0,
        last_played: None,
        added_at,
    }
}

/// `gs` without the games whose id is `id`.
pub open spec fn without_id(gs: Seq<GameView>, id: Seq<char>) -> Seq<GameView>
    decreases gs.len(),
{
    if gs.len() == 0 {
        gs
    } else {
        let r = without_id(gs.drop_last(), id);
        if gs.last().id == id {
            r
        } else {
            r.push(gs.last())
        }
    }
}

/// The search text as it is matched: trimmed, in lower case.
pub open spec fn search_key(query: Seq<char>) -> Seq<char> {
    lowercase(trim(query))
}

/// Game `g` is found by search key `q`: `q` is empty, or occurs in the
/// game's lower-case name.
pub open spec fn matches_query(g: GameView, q: Seq<char>) -> bool {
    q.len() == 0 || has_substring(lowercase(g.name), q)
}

/// The games of `gs` found by search key `q`, in library order.
pub open spec fn matching(gs: Seq<GameView>, q: Seq<char>) -> Seq<GameView>
    decreases gs.len(),
{
    if gs.len() == 0 {
        gs
    } else {
        let r = matching(gs.drop_last(), q);
        if matches_query(gs.last(), q) {
            r.push(gs.last())
        } else {
            r
        }
    }
}

/// A lower-case hexadecimal digit.
pub open spec fn is_lower_hex(c: char) -> bool {
    ('0' <= c && c <= '9') || ('a' <= c && c <= 'f')
}

/// `t` is a random (version 4, RFC 4122 variant) UUID written as
/// `uuid::Uuid` displays it: 36 characters, lower-case hexadecimal digits
/// with hyphens at positions 8, 13, 18 and 23, the version digit `4` at
/// position 14 and one of `8`, `9`, `a`, `b` at position 19.
pub open spec fn is_v4_uuid_text(t: Seq<char>) -> bool {
    &&& t.len() == 36
    &&& forall|i: int|
        0 <= i < 36 ==> if i == 8 || i == 13 || i == 18 || i == 23 {
            #[trigger] t[i] == '-'
        } else {
            is_lower_hex(t[i])
        }
    &&& t[14] == '4'
    &&& (t[19] == '8' || t[19] == '9' || t[19] == 'a' || t[19] == 'b')
}

/// Calls `uuid::Uuid::new_v4` and formats the id with `to_string`
/// (`Display`, the hyphenated lower-case form). The id's random digits are
/// not stated; its form is.
#[verifier::external_body]
fn new_game_id() -> (r: String)
    ensures
        is_v4_uuid_text(r@),
{
    uuid::Uuid::new_v4().to_string()
}

fn trimmed(s: &str) -> (r: String)
    ensures
        r@ == trim(s@),
{
    let cs = chars_of(s);
    let t = trim_chars(&cs);
    string_from(&t)
}

fn nonempty_text(s: String) -> (r: Option<String>)
    ensures
        opt_text(r) == nonempty(s@),
{
    if s.as_str().is_empty() {
        None
    } else {
        Some(s)
    }
}

impl AppData {
    /// Puts the library in order: stably sorted by lower-case name.
    pub fn sort_by_name(&mut self)
        ensures
            games_view(final(self).games@) == sorted_by_name(games_view(old(self).games@)),
            final(self).steam_path == old(self).steam_path,
            final(self).steam_cached == old(self).steam_cached,
    {
        let mut games: Vec<Game> = Vec::new();
        std::mem::swap(&mut games, &mut self.games);
        self.games = sort_games(games);
    }

    /// Adds Steam game `appid` to the library under id "steam-`appid`",
    /// unless an entry with that id is there already, and puts the library
    /// in order. Tells whether it added the game.
    pub fn add_steam_game(&mut self, appid: u64, name: &str, cover: Option<String>, added_at: u64) -> (added: bool)
        ensures
            added == !has_id(games_view(old(self).games@), steam_id_text(appid)),
            added ==> games_view(final(self).games@) == sorted_by_name(
                games_view(old(self).games@).push(
                    new_steam_game(appid, name@, opt_text(cover), added_at),
                ),
            ),
            !added ==> final(self).games@ == old(self).games@,
            final(self).steam_path == old(self).steam_path,
            final(self).steam_cached == old(self).steam_cached,
    {
        let id = steam_game_id(appid);
        proof {
            lemma_index_of_id(games_view(self.games@), id@);
        }
        if self.find_game(id.as_str()).is_some() {
            return false;
        }
        let game = Game {
            id,
            name: String::from_str(name),
            source: Source::Steam,
            steam_id: Some(appid),
            path: None,
            args: None,
            cover,
            notes: None,
            playtime_sec: 0,
            last_played: None,
            added_at,
        };
        let ghost before = games_view(self.games@);
        self.games.push(game);
        assert(games_view(self.games@) =~= before.push(game@));
        self.sort_by_name();
        true
    }

    /// Adds a local game with a fresh random id (a version 4 UUID), its
    /// texts trimmed and empty optional texts left out, and puts the library
    /// in order; does
    /// nothing when the trimmed name is empty. Tells whether it added it.
    pub fn add_local_game(
        &mut self,
        name: &str,
        path: &str,
        args: &str,
        cover: &str,
        notes: &str,
        added_at: u64,
    ) -> (added: bool)
        ensures
            added == (trim(name@).len() > 0),
            added ==> exists|id: Seq<char>|
                is_v4_uuid_text(id) && games_view(final(self).games@) == sorted_by_name(
                    games_view(old(self).games@).push(
                        #[trigger] new_local_game(id, name@, path@, args@, cover@, notes@, added_at),
                    ),
                ),
            !added ==> final(self).games@ == old(self).games@,
            final(self).steam_path == old(self).steam_path,
            final(self).steam_cached == old(self).steam_cached,
    {
        let name_t = trimmed(name);
        if name_t.as_str().is_empty() {
            return false;
        }
        let game = Game {
            id: new_game_id(),
            name: name_t,
            source: Source::Local,
            steam_id: None,
            path: nonempty_text(trimmed(path)),
            args: nonempty_text(trimmed(args)),
            cover: nonempty_text(trimmed(cover)),
            notes: nonempty_text(trimmed(notes)),
            playtime_sec: 0,
            last_played: None,
            added_at,
        };
        let ghost id = game.id@;
        let ghost before = games_view(self.games@);
        self.games.push(game);
        assert(games_view(self.games@) =~= before.push(
            new_local_game(id, name@, path@, args@, cover@, notes@, added_at),
        ));
        self.sort_by_name();
        true
    }

    /// Removes every game whose id is `id`, keeping the others in order.
    pub fn remove_game(&mut self, id: &str)
        ensures
            games_view(final(self).games@) == without_id(games_view(old(self).games@), id@),
            final(self).steam_path == old(self).steam_path,
            final(self).steam_cached == old(self).steam_cached,
    {
        let id_s = String::from_str(id);
        let mut rest: Vec<Game> = Vec::new();
        std::mem::swap(&mut rest, &mut self.games);
        let ghost orig = games_view(rest@);
        assert(orig.len() == rest.len());
        let mut kept: Vec<Game> = Vec::new();
        let mut n: usize = 0;
        assert(orig.take(0) =~= Seq::<GameView>::empty());
        while rest.len() > 0
            invariant
                n + rest.len() == orig.len(),
                orig.len() <= usize::MAX,
                games_view(rest@) =~= orig.skip(n as int),
                games_view(kept@) == without_id(orig.take(n as int), id@),
                id_s@ == id@,
            decreases rest.len(),
        {
            let ghost before = games_view(rest@);
            let g = rest.remove(0);
            assert(g@ == orig[n as int]) by {
                assert(before[0] == orig.skip(n as int)[0]);
            }
            assert(games_view(rest@) =~= orig.skip(n + 1)) by {
                assert forall|t: int| 0 <= t < rest@.len() implies games_view(rest@)[t] == orig.skip(n + 1)[t] by {
                    assert(before[t + 1] == orig.skip(n as int)[t + 1]);
                }
            }
            assert(orig.take(n + 1).drop_last() =~= orig.take(n as int));
            let ghost kept_before = games_view(kept@);
            if g.id != id_s {
                kept.push(g);
                assert(games_view(kept@) =~= kept_before.push(g@));
            }
            n = n + 1;
        }
        assert(orig.take(n as int) =~= orig);
        self.games = kept;
    }

    /// The games found by the search text `query`, in library order: all
    /// of them when the trimmed text is empty, else those whose lower-case
    /// name contains the trimmed, lower-cased text.
    pub fn search(&self, query: &str) -> (r: Vec<Game>)
        ensures
            games_view(r@) == matching(games_view(self.games@), search_key(query@)),
    {
        let q_t = trimmed(query);
        let q_l = to_lowercase(q_t.as_str());
        let q = chars_of(q_l.as_str());
        let ghost gv = games_view(self.games@);
        let mut out: Vec<Game> = Vec::new();
        let mut i: usize = 0;
        assert(gv.take(0) =~= Seq::<GameView>::empty());
        while i < self.games.len()
            invariant
                i <= self.games.len(),
                gv == games_view(self.games@),
                q@ == search_key(query@),
                games_view(out@) == matching(gv.take(i as int), q@),
            decreases self.games.len() - i,
        {
            assert(gv.take(i + 1).drop_last() =~= gv.take(i as int));
            assert(gv.take(i + 1).last() == self.games@[i as int]@);
            let found = if q.len() == 0 {
                true
            } else {
                let lower = to_lowercase(self.games[i].name.as_str());
                let name_l = chars_of(lower.as_str());
                chars_contain(&name_l, &q)
            };
            if found {
                let ghost before = games_view(out@);
                out.push(self.games[i].duplicate());
                assert(games_view(out@) =~= before.push(self.games@[i as int]@));
            }
            i = i + 1;
        }
        assert(gv.take(i as int) =~= gv);
        out
    }
}

// ---------------------------------------------------------------------------
// Sessions
/// `n` in decimal, with a leading zero below 10 (as `{:02}` formats it).
pub open spec fn two_digits(n: nat) -> Seq<char> {
    if n < 10 {
        "0"@ + decimal(n)
    } else {
        decimal(n)
    }
}

/// The running time of a session, as minutes and seconds "MM:SS".
pub open spec fn clock_text(secs: nat) -> Seq<char> {
    two_digits(secs / 60) + ":"@ + two_digits(secs % 60)
}

fn push_two_digits(out: &mut String, n: u64)
    ensures
        final(out)@ == old(out)@ + two_digits(n as nat),
{
    if n < 10 {
        out.append("0");
    }
    push_decimal(out, n);
    proof {
        if n < 10 {
            assert(final(out)@ =~= old(out)@ + two_digits(n as nat));
        }
    }
}

/// The running time of a session that has lasted `secs` seconds, as
/// "MM:SS".
pub fn session_clock(secs: u64) -> (r: String)
    ensures
        r@ == clock_text(secs as nat),
{
    let mut r = String::new();
    push_two_digits(&mut r, secs / 60);
    r.append(":");
    push_two_digits(&mut r, secs % 60);
    r
}

/// How a game is started.
#[derive(Debug)]
pub enum LaunchPlan {
    /// Through Steam, by its app id.
    Steam(u64),
    /// By running a program with arguments.
    Local(String, Vec<String>),
    /// Nothing can be started (no app id or no program path).
    Nothing,
}

/// How game `g` is started: a Steam game through Steam when it has an app
/// id, a local game by running its path with the words of its argument
/// text; otherwise nothing. A play session begins in every case.
pub fn launch_plan(g: &Game) -> (r: LaunchPlan)
    ensures
        match g.source {
            Source::Steam => match g.steam_id {
                Some(appid) => r == LaunchPlan::Steam(appid),
                None => r is Nothing,
            },
            Source::Local => match g.path {
                Some(p) => r matches LaunchPlan::Local(rp, ra) && rp@ == p@
                    && crate::steam::texts(ra@) == match g.args {
                        Some(a) => crate::steam::words(a@),
                        None => Seq::<Seq<char>>::empty(),
                    },
                None => r is Nothing,
            },
        },
{
    match g.source {
        Source::Steam => match g.steam_id {
            Some(appid) => LaunchPlan::Steam(appid),
            None => LaunchPlan::Nothing,
        },
        Source::Local => match &g.path {
            Some(p) => LaunchPlan::Local(p.clone(), crate::steam::launch_args(&g.args)),
            None => LaunchPlan::Nothing,
        },
    }
}

/// Adding a Steam game twice adds it once: after the first addition the
/// library holds its id, so the second finds it there.
pub proof fn law_steam_game_added_once(gs: Seq<GameView>, g: GameView)
    ensures
        has_id(sorted_by_name(gs.push(g)), g.id),
{
    law_sorted_by_name(gs.push(g));
    let r = sorted_by_name(gs.push(g));
    assert(gs.push(g)[gs.len() as int] == g);
    assert(gs.push(g).to_multiset().count(g) > 0) by {
        broadcast use vstd::seq_lib::to_multiset_build;
        broadcast use vstd::multiset::group_multiset_axioms;
    }
    assert(r.contains(g)) by {
        broadcast use vstd::seq_lib::to_multiset_contains;
    }
    let i: int = choose|i: int| 0 <= i < r.len() && r[i] == g;
    assert(r[i].id == g.id);
}

/// Removing a game by id leaves no game with that id.
pub proof fn law_removed_game_is_gone(gs: Seq<GameView>, id: Seq<char>)
    ensures
        !has_id(without_id(gs, id), id),
    decreases gs.len(),
{
    if gs.len() > 0 {
        law_removed_game_is_gone(gs.drop_last(), id);
        let r = without_id(gs.drop_last(), id);
        if gs.last().id != id {
            assert forall|i: int| 0 <= i < r.push(gs.last()).len() implies #[trigger] r.push(gs.last())[i].id != id by {
                if i < r.len() {
                    assert(r.push(gs.last())[i] == r[i]);
                }
            }
        }
    }
}

/// A session adds exactly its length to the library's total time.
pub proof fn law_session_adds_its_length(gs: Seq<GameView>, i: int, started: u64, now: u64)
    requires
        0 <= i < gs.len(),
        gs[i].playtime_sec + (if now >= started { now - started } else { 0 }) <= u64::MAX,
    ensures
        total_secs(
            gs.update(
                i,
                (GameView {
                    playtime_sec: (gs[i].playtime_sec + (if now >= started {
                        now - started
                    } else {
                        0
                    })) as u64,
                    last_played: Some(started),
                    ..gs[i]
                }),
            ),
        ) == total_secs(gs) + (if now >= started { now - started } else { 0 }),
{
    let t: u64 = (gs[i].playtime_sec + (if now >= started { now - started } else { 0 })) as u64;
    lemma_total_update(gs, i, (GameView { playtime_sec: t, last_played: Some(started), ..gs[i] }));
}


/// Local games never take a Steam game's id: a UUID has a hexadecimal digit
/// where a Steam id has its `-`.
pub proof fn law_local_ids_are_not_steam_ids(id: Seq<char>, appid: u64)
    requires
        is_v4_uuid_text(id),
    ensures
        id != steam_id_text(appid),
{
    reveal_strlit("steam-");
    assert(steam_id_text(appid)[5] == '-');
    assert(is_lower_hex(id[5]));
}


/// Search finds names by any part, not only their beginning: the games
/// found by key `q` are, in library order, exactly those whose lower-case
/// name holds `q` somewhere (all games for an empty key).
pub proof fn law_search_finds_any_part_of_a_name(gs: Seq<GameView>, q: Seq<char>)
    ensures
        matching(gs, q) == gs.filter(
            |g: GameView|
                q.len() == 0 || exists|i: int|
                    0 <= i && i + q.len() <= lowercase(g.name).len() && #[trigger] lowercase(
                        g.name,
                    ).subrange(i, i + q.len()) == q,
        ),
    decreases gs.len(),
{
    let pred = |g: GameView|
        q.len() == 0 || exists|i: int|
            0 <= i && i + q.len() <= lowercase(g.name).len() && #[trigger] lowercase(
                g.name,
            ).subrange(i, i + q.len()) == q;
    reveal(Seq::filter);
    if gs.len() > 0 {
        law_search_finds_any_part_of_a_name(gs.drop_last(), q);
        let g = gs.last();
        let n = lowercase(g.name);
        assert(matches_query(g, q) == pred(g)) by {
            if q.len() > 0 {
                if has_substring(n, q) {
                    let i = choose|i: int| crate::text::occurs_at(n, q, i);
                    assert(n.subrange(i, i + q.len()) == q);
                }
                if pred(g) {
                    let i = choose|i: int|
                        0 <= i && i + q.len() <= n.len() && #[trigger] n.subrange(i, i + q.len()) == q;
                    assert(crate::text::occurs_at(n, q, i));
                }
            }
        }
    }
}

/// Removing a game takes out exactly the games with that id and keeps the
/// others in the order they had.
pub proof fn law_removal_keeps_the_rest_in_order(gs: Seq<GameView>, id: Seq<char>)
    ensures
        without_id(gs, id) == gs.filter(|g: GameView| g.id != id),
    decreases gs.len(),
{
    reveal(Seq::filter);
    if gs.len() > 0 {
        law_removal_keeps_the_rest_in_order(gs.drop_last(), id);
    }
}

/// Every game left after a removal was in the library before.
proof fn lemma_without_id_from(gs: Seq<GameView>, id: Seq<char>)
    ensures
        forall|j: int|
            0 <= j < without_id(gs, id).len() ==> exists|i: int|
                0 <= i < gs.len() && gs[i] == #[trigger] without_id(gs, id)[j],
    decreases gs.len(),
{
    if gs.len() > 0 {
        let d = gs.drop_last();
        lemma_without_id_from(d, id);
        let r = without_id(d, id);
        assert forall|j: int| 0 <= j < without_id(gs, id).len() implies exists|i: int|
            0 <= i < gs.len() && gs[i] == #[trigger] without_id(gs, id)[j] by {
            if j < r.len() {
                assert(without_id(gs, id)[j] == r[j]);
                let i = choose|i: int| 0 <= i < d.len() && d[i] == #[trigger] r[j];
                assert(gs[i] == d[i]);
            } else {
                assert(gs[gs.len() - 1] == without_id(gs, id)[j]);
            }
        }
    }
}

/// Removing a game from a library in name order leaves it in name order,
/// and removing an id that no game has changes nothing.
pub proof fn law_removal_keeps_the_library_sorted(gs: Seq<GameView>, id: Seq<char>)
    ensures
        names_sorted(gs) ==> names_sorted(without_id(gs, id)),
        !has_id(gs, id) ==> without_id(gs, id) == gs,
    decreases gs.len(),
{
    if gs.len() > 0 {
        let d = gs.drop_last();
        law_removal_keeps_the_library_sorted(d, id);
        if !has_id(gs, id) {
            assert(!has_id(d, id)) by {
                if has_id(d, id) {
                    let k = choose|k: int| 0 <= k < d.len() && #[trigger] d[k].id == id;
                    assert(gs[k] == d[k]);
                }
            }
            assert(gs.last().id != id) by {
                assert(gs[gs.len() - 1] == gs.last());
            }
            assert(d.push(gs.last()) =~= gs);
        }
        if names_sorted(gs) {
            assert(names_sorted(d)) by {
                assert forall|i: int, j: int| 0 <= i < j < d.len() implies lex_le(
                    name_key(#[trigger] d[i]),
                    name_key(#[trigger] d[j]),
                ) by {
                    assert(d[i] == gs[i] && d[j] == gs[j]);
                }
            }
            let r = without_id(d, id);
            if gs.last().id != id {
                lemma_without_id_from(d, id);
                let rr = r.push(gs.last());
                assert forall|i: int, j: int| 0 <= i < j < rr.len() implies lex_le(
                    name_key(#[trigger] rr[i]),
                    name_key(#[trigger] rr[j]),
                ) by {
                    if j < r.len() {
                        assert(rr[i] == r[i] && rr[j] == r[j]);
                    } else {
                        assert(rr[i] == r[i]);
                        let a = choose|a: int| 0 <= a < d.len() && d[a] == #[trigger] r[i];
                        assert(gs[a] == d[a]);
                        assert(gs[gs.len() - 1] == gs.last());
                        assert(lex_le(name_key(gs[a]), name_key(gs[gs.len() - 1])));
                    }
                }
            }
        }
    }
}

/// A game added to the library is in the library afterwards.
proof fn lemma_added_game_is_listed(gs: Seq<GameView>, g: GameView)
    ensures
        sorted_by_name(gs.push(g)).contains(g),
{
    law_sorted_by_name(gs.push(g));
    assert(gs.push(g)[gs.len() as int] == g);
    assert(gs.push(g).to_multiset().count(g) > 0) by {
        broadcast use vstd::seq_lib::to_multiset_build;
        broadcast use vstd::multiset::group_multiset_axioms;
    }
    assert(sorted_by_name(gs.push(g)).contains(g)) by {
        broadcast use vstd::seq_lib::to_multiset_contains;
    }
}

/// Adding a local game puts into the library a game with the given id,
/// its trimmed name, no play time, and each optional text (path,
/// arguments, cover, notes) trimmed when it is not blank and absent when
/// it is.
pub proof fn law_local_game_keeps_its_texts(
    gs: Seq<GameView>,
    id: Seq<char>,
    name: Seq<char>,
    path: Seq<char>,
    args: Seq<char>,
    cover: Seq<char>,
    notes: Seq<char>,
    added_at: u64,
)
    ensures
        exists|k: int|
            0 <= k < sorted_by_name(
                gs.push(new_local_game(id, name, path, args, cover, notes, added_at)),
            ).len() && {
                let e = #[trigger] sorted_by_name(
                    gs.push(new_local_game(id, name, path, args, cover, notes, added_at)),
                )[k];
                &&& e.id == id
                &&& e.name == trim(name)
                &&& e.source == Source::Local
                &&& e.steam_id is None
                &&& e.path == (if trim(path).len() > 0 { Some(trim(path)) } else { None })
                &&& e.args == (if trim(args).len() > 0 { Some(trim(args)) } else { None })
                &&& e.cover == (if trim(cover).len() > 0 { Some(trim(cover)) } else { None })
                &&& e.notes == (if trim(notes).len() > 0 { Some(trim(notes)) } else { None })
                &&& e.playtime_sec == 0
                &&& e.last_played is None
                &&& e.added_at == added_at
            },
{
    let g = new_local_game(id, name, path, args, cover, notes, added_at);
    lemma_added_game_is_listed(gs, g);
    let r = sorted_by_name(gs.push(g));
    let k = choose|k: int| 0 <= k < r.len() && r[k] == g;
    assert(r[k] == g);
}

} // verus!
