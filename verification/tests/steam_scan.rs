use launchvault_core::models::{app_data_dir_in, covers_dir, custom_cover_dest};
use launchvault_core::steam::{
    choose_steam_root, cover_file_name, cover_local_path_checked, cover_name_fits, cover_url,
    is_manifest_file, launch_args, library_folder_paths, manifest_game, now_secs,
    sort_steam_games, steam_run_url, vdf_file, SteamGame,
};
use std::path::PathBuf;

const ACF_TEXT: &str = "\"AppState\"\n{\n\t\"appid\"\t\t\" 620 \"\n\t\"name\"\t\t\"Portal 2\"\n\t\"installdir\"\t\t\"Portal 2\"\n\t\"SizeOnDisk\"\t\t\"12345\"\n}\n";

#[test]
fn reads_a_manifest() {
    let lib = PathBuf::from("/games");
    let g = manifest_game("appmanifest_620.acf", ACF_TEXT, lib.clone()).unwrap();
    assert_eq!(g.appid, 620);
    assert_eq!(g.name, "Portal 2");
    assert_eq!(g.installdir, "Portal 2");
    assert_eq!(g.size_on_disk, 12345);
    assert_eq!(g.library, lib);
}

#[test]
fn manifest_defaults_and_refusals() {
    let lib = PathBuf::from("/games");
    assert!(manifest_game("readme.txt", ACF_TEXT, lib.clone()).is_none());
    assert!(manifest_game("appmanifest_620.txt", ACF_TEXT, lib.clone()).is_none());
    assert!(manifest_game("appmanifest_1.acf", "not vdf", lib.clone()).is_none());
    assert!(manifest_game("appmanifest_1.acf", "\"AppState\" { \"appid\" \"0\" }", lib.clone()).is_none());
    assert!(manifest_game("appmanifest_1.acf", "\"AppState\" { \"appid\" \"x\" }", lib.clone()).is_none());
    let g = manifest_game("appmanifest_1.acf", "\"AppState\" { \"appid\" \"7\" \"SizeOnDisk\" \"-1\" }", lib.clone()).unwrap();
    assert_eq!(g.name, "Unknown");
    assert_eq!(g.installdir, "");
    assert_eq!(g.size_on_disk, 0);
    assert!(is_manifest_file("appmanifest_.acf"));
    assert!(!is_manifest_file("appmanifest.acf"));
}

#[test]
fn lists_library_folders() {
    let text = "\"libraryfolders\"\n{\n\"0\"\n{\n\"path\" \"/home/u/.local/share/Steam\"\n}\n\"1\" { \"path\" \"/mnt/ssd/SteamLibrary\" }\n\"contentstatsid\" \"123\"\n\"2\" { \"label\" \"x\" }\n\"+3\" { \"path\" \"/p3\" }\n}\n";
    let paths = library_folder_paths(text);
    assert_eq!(
        paths,
        vec!["/home/u/.local/share/Steam", "/mnt/ssd/SteamLibrary", "/p3"]
    );
    assert!(library_folder_paths("garbage").is_empty());
    assert!(library_folder_paths("\"other\" { }").is_empty());
}

#[test]
fn urls() {
    assert_eq!(
        cover_url(620),
        "https://cdn.cloudflare.steamstatic.com/steam/apps/620/header.jpg"
    );
    assert_eq!(steam_run_url(620), "steam://rungameid/620");
}

#[test]
fn cover_file_names_are_safe_and_cut_at_48_bytes() {
    assert_eq!(cover_file_name(620, "Portal 2: Extra!"), "620_Portal_2__Extra_.jpg");
    let long = "a".repeat(60);
    assert_eq!(cover_file_name(1, &long), format!("1_{}.jpg", "a".repeat(48)));
    // 24 Cyrillic letters take 48 bytes: cut exactly.
    let cyr = "ж".repeat(30);
    assert!(cover_name_fits(&cyr));
    assert_eq!(cover_file_name(2, &cyr), format!("2_{}.jpg", "ж".repeat(24)));
    // One ASCII letter first puts byte 48 inside a letter.
    let odd = format!("a{}", "ж".repeat(30));
    assert!(!cover_name_fits(&odd));
    assert!(cover_local_path_checked(3, &odd).is_none());
    assert!(cover_local_path_checked(3, "ok").is_some());
}

#[test]
fn launch_args_split_like_split_whitespace() {
    for a in ["", "   ", "-a", " -a  -b\t\nc ", "x\u{3000}y"] {
        let want: Vec<String> = a.split_whitespace().map(|s| s.to_string()).collect();
        assert_eq!(launch_args(&Some(a.to_string())), want);
    }
    assert!(launch_args(&None).is_empty());
}

#[test]
fn steam_list_is_sorted_by_lower_case_name() {
    let mk = |id: u64, n: &str| SteamGame {
        appid: id,
        name: n.to_string(),
        installdir: String::new(),
        size_on_disk: 0,
        library: PathBuf::from("/l"),
    };
    let sorted = sort_steam_games(vec![mk(1, "zed"), mk(2, "Alpha"), mk(3, "beta"), mk(4, "alpha")]);
    let ids: Vec<u64> = sorted.iter().map(|g| g.appid).collect();
    assert_eq!(ids, vec![2, 4, 3, 1]);
}

#[test]
fn steam_root_choice() {
    let a = PathBuf::from("/a");
    let b = PathBuf::from("/b");
    let c = PathBuf::from("/c");
    assert_eq!(
        choose_steam_root(Some((a.clone(), true)), vec![(b.clone(), true)]),
        Some(a.clone())
    );
    assert_eq!(
        choose_steam_root(Some((a.clone(), false)), vec![(b.clone(), false), (c.clone(), true)]),
        Some(c.clone())
    );
    assert_eq!(choose_steam_root(None, vec![(b.clone(), false)]), None);
}

#[test]
fn paths_and_time() {
    let f = vdf_file(&PathBuf::from("/s"));
    assert_eq!(f, PathBuf::from("/s/steamapps/libraryfolders.vdf"));
    assert!(now_secs() > 1_600_000_000);
}

#[test]
fn windows_library_folders_keep_their_backslashes() {
    let text = r#""libraryfolders" { "0" { "path" "C:\\Program Files (x86)\\Steam" } "1" { "path" "D:\\SteamLibrary" } }"#;
    assert_eq!(
        library_folder_paths(text),
        vec![r"C:\Program Files (x86)\Steam", r"D:\SteamLibrary"]
    );
}

#[test]
fn data_and_cover_paths_are_joined_under_the_data_directory() {
    assert_eq!(app_data_dir_in(Some(PathBuf::from("/d"))), PathBuf::from("/d/launchvault"));
    assert_eq!(app_data_dir_in(None), PathBuf::from("./launchvault"));
    let covers = covers_dir();
    assert!(covers.ends_with("launchvault/covers"));
    assert_eq!(cover_local_path_checked(7, "a b").unwrap(), covers.join("7_a_b.jpg"));
    assert_eq!(custom_cover_dest("x-1"), covers.join("x-1_cover.png"));
}
