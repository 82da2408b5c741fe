use launchvault_core::library::{launch_plan, session_clock, steam_game_id, LaunchPlan};
use launchvault_core::models::{AppData, Game, Source};

fn game(id: &str, name: &str, secs: u64) -> Game {
    Game {
        id: id.to_string(),
        name: name.to_string(),
        source: Source::Local,
        steam_id: None,
        path: None,
        args: None,
        cover: None,
        notes: None,
        playtime_sec: secs,
        last_played: None,
        added_at: 0,
    }
}

fn names(d: &AppData) -> Vec<String> {
    d.games.iter().map(|g| g.name.clone()).collect()
}

#[test]
fn steam_game_is_added_once_and_library_stays_sorted() {
    let mut d = AppData::default();
    d.games.push(game("a", "beta", 0));
    d.games.push(game("b", "Zeta", 0));
    assert!(d.add_steam_game(620, "Alpha", Some("/c/620.jpg".to_string()), 1000));
    assert_eq!(names(&d), vec!["Alpha", "beta", "Zeta"]);
    let g = &d.games[0];
    assert_eq!(g.id, "steam-620");
    assert_eq!(g.source, Source::Steam);
    assert_eq!(g.steam_id, Some(620));
    assert_eq!(g.cover.as_deref(), Some("/c/620.jpg"));
    assert_eq!(g.added_at, 1000);
    assert!(!d.add_steam_game(620, "Alpha again", None, 2000));
    assert_eq!(d.games.len(), 3);
}

#[test]
fn sorting_is_by_lower_case_name_and_stable() {
    let mut d = AppData::default();
    d.games.push(game("1", "b", 0));
    d.games.push(game("2", "A", 0));
    d.games.push(game("3", "B", 0));
    d.games.push(game("4", "a", 0));
    d.sort_by_name();
    let ids: Vec<&str> = d.games.iter().map(|g| g.id.as_str()).collect();
    assert_eq!(ids, vec!["2", "4", "1", "3"]);
}

#[test]
fn local_game_is_trimmed_and_needs_a_name() {
    let mut d = AppData::default();
    assert!(!d.add_local_game("   ", "/bin/game", "", "", "", 5));
    assert!(d.games.is_empty());
    assert!(d.add_local_game("  Doom ", " /usr/bin/doom ", "  ", "", " fun ", 5));
    let g = &d.games[0];
    assert_eq!(g.name, "Doom");
    assert_eq!(g.path.as_deref(), Some("/usr/bin/doom"));
    assert_eq!(g.args, None);
    assert_eq!(g.cover, None);
    assert_eq!(g.notes.as_deref(), Some("fun"));
    assert_eq!(g.source, Source::Local);
    assert!(!g.id.is_empty());
}

#[test]
fn local_game_ids_are_hyphenated_v4_uuids() {
    let mut d = AppData::default();
    assert!(d.add_local_game("A", "", "", "", "", 1));
    assert!(d.add_local_game("B", "", "", "", "", 1));
    for g in &d.games {
        let cs: Vec<char> = g.id.chars().collect();
        assert_eq!(cs.len(), 36);
        for (i, c) in cs.iter().enumerate() {
            if i == 8 || i == 13 || i == 18 || i == 23 {
                assert_eq!(*c, '-');
            } else {
                assert!(c.is_ascii_digit() || ('a'..='f').contains(c));
            }
        }
        assert_eq!(cs[14], '4');
        assert!(matches!(cs[19], '8' | '9' | 'a' | 'b'));
    }
    assert_ne!(d.games[0].id, d.games[1].id);
}

#[test]
fn session_adds_its_length_to_the_first_matching_game() {
    let mut d = AppData::default();
    d.games.push(game("x", "X", 100));
    d.games.push(game("y", "Y", 5));
    assert_eq!(d.total_playtime_secs(), Some(105));
    d.record_session("y", 1000, 1600);
    assert_eq!(d.games[1].playtime_sec, 605);
    assert_eq!(d.games[1].last_played, Some(1000));
    assert_eq!(d.games[0].playtime_sec, 100);
    assert_eq!(d.total_playtime_secs(), Some(705));
    // A clock that went backwards adds nothing but still marks the game.
    d.record_session("x", 2000, 1500);
    assert_eq!(d.games[0].playtime_sec, 100);
    assert_eq!(d.games[0].last_played, Some(2000));
    // An unknown id changes nothing.
    d.record_session("zzz", 0, 99);
    assert_eq!(d.total_playtime_secs(), Some(705));
}

#[test]
fn total_playtime_text_and_overflow() {
    let mut d = AppData::default();
    d.games.push(game("x", "X", 3600 * 2));
    d.games.push(game("y", "Y", 125));
    assert_eq!(d.total_playtime(), "2 ч 2 мин");
    d.games.push(game("z", "Z", u64::MAX));
    assert_eq!(d.total_playtime_secs(), None);
}

#[test]
fn remove_and_find() {
    let mut d = AppData::default();
    d.games.push(game("x", "X", 0));
    d.games.push(game("y", "Y", 0));
    d.games.push(game("x", "X2", 0));
    assert_eq!(d.find_game("y"), Some(1));
    assert_eq!(d.find_game("x"), Some(0));
    d.remove_game("x");
    assert_eq!(names(&d), vec!["Y"]);
    assert_eq!(d.find_game("x"), None);
}

#[test]
fn search_by_trimmed_lower_case_text() {
    let mut d = AppData::default();
    d.games.push(game("1", "Half-Life 2", 0));
    d.games.push(game("2", "Portal", 0));
    d.games.push(game("3", "HALF measures", 0));
    let found: Vec<String> = d.search("  half ").iter().map(|g| g.name.clone()).collect();
    assert_eq!(found, vec!["Half-Life 2", "HALF measures"]);
    assert_eq!(d.search("   ").len(), 3);
    assert!(d.search("doom").is_empty());
}

#[test]
fn session_clock_pads_to_two_digits() {
    assert_eq!(session_clock(0), "00:00");
    assert_eq!(session_clock(65), "01:05");
    assert_eq!(session_clock(600), "10:00");
    assert_eq!(session_clock(6000 + 59), "100:59");
}

#[test]
fn steam_ids_and_launch_plans() {
    assert_eq!(steam_game_id(440), "steam-440");
    let mut g = game("s", "S", 0);
    g.source = Source::Steam;
    g.steam_id = Some(440);
    assert!(matches!(launch_plan(&g), LaunchPlan::Steam(440)));
    g.steam_id = None;
    assert!(matches!(launch_plan(&g), LaunchPlan::Nothing));
    let mut l = game("l", "L", 0);
    assert!(matches!(launch_plan(&l), LaunchPlan::Nothing));
    l.path = Some("/bin/run".to_string());
    l.args = Some("  -w  -x\t1 ".to_string());
    match launch_plan(&l) {
        LaunchPlan::Local(p, a) => {
            assert_eq!(p, "/bin/run");
            assert_eq!(a, vec!["-w", "-x", "1"]);
        }
        other => panic!("unexpected plan {other:?}"),
    }
}
