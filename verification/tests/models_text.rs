use launchvault_core::models::{custom_cover_file_name, duration_readable, AppData, Game, Source};

fn blank_game() -> Game {
    Game {
        id: "id".to_string(),
        name: "N".to_string(),
        source: Source::Local,
        steam_id: None,
        path: None,
        args: None,
        cover: None,
        notes: None,
        playtime_sec: 0,
        last_played: None,
        added_at: 0,
    }
}

#[test]
fn cover_uris() {
    let mut g = blank_game();
    assert_eq!(g.cover_uri(), None);
    g.cover = Some("https://x/y.jpg".to_string());
    assert_eq!(g.cover_uri().as_deref(), Some("https://x/y.jpg"));
    g.cover = Some("file:///a.png".to_string());
    assert_eq!(g.cover_uri().as_deref(), Some("file:///a.png"));
    g.cover = Some("/home/u/a.png".to_string());
    assert_eq!(g.cover_uri().as_deref(), Some("file:///home/u/a.png"));
    g.cover = Some("htt".to_string());
    assert_eq!(g.cover_uri().as_deref(), Some("file://htt"));
}

#[test]
fn playtime_texts() {
    let mut g = blank_game();
    assert_eq!(g.playtime_readable(), "0 мин");
    g.playtime_sec = 59;
    assert_eq!(g.playtime_readable(), "0 мин");
    g.playtime_sec = 3599;
    assert_eq!(g.playtime_readable(), "59 мин");
    g.playtime_sec = 3600 + 120 + 7;
    assert_eq!(g.playtime_readable(), "1 ч 2 мин");
    assert_eq!(duration_readable(36000), "10 ч 0 мин");
}

#[test]
fn last_played_texts() {
    let mut g = blank_game();
    assert_eq!(g.last_played_readable(1000), "никогда");
    g.last_played = Some(1000);
    assert_eq!(g.last_played_readable(1000 + 86399), "сегодня");
    assert_eq!(g.last_played_readable(1000 + 86400), "вчера");
    assert_eq!(g.last_played_readable(1000 + 86400 * 3 + 5), "3 дн. назад");
}

#[test]
fn added_texts() {
    let mut g = blank_game();
    g.added_at = 500;
    assert_eq!(g.added_readable(400), "сегодня");
    assert_eq!(g.added_readable(500 + 86399), "сегодня");
    assert_eq!(g.added_readable(500 + 86400 * 2), "2 дн. назад");
}

#[test]
fn default_data_is_empty() {
    let d = AppData::default();
    assert!(d.games.is_empty());
    assert!(d.steam_path.is_none());
    assert!(!d.steam_cached);
}

#[test]
fn custom_cover_names_keep_alphanumerics_and_dashes() {
    assert_eq!(
        custom_cover_file_name("3f2a-9c/../x y"),
        "3f2a-9cxy_cover.png"
    );
    assert_eq!(custom_cover_file_name("ёж"), "ёж_cover.png");
}

#[test]
fn game_copies_are_equal() {
    let mut g = blank_game();
    g.notes = Some("n".to_string());
    let c = g.duplicate();
    assert_eq!(c.id, g.id);
    assert_eq!(c.notes, g.notes);
}

#[test]
fn source_labels() {
    let mut g = blank_game();
    assert_eq!(g.source_label(), "Локальная игра");
    g.source = Source::Steam;
    assert_eq!(g.source_label(), "Steam (0)");
    g.steam_id = Some(620);
    assert_eq!(g.source_label(), "Steam (620)");
}
