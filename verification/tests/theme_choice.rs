use launchvault_core::theme::{accent_rgb, desktop_preset, palette, windows_preset, Rgb, ThemeKind, ThemePreset};

#[test]
fn names_round_trip() {
    for k in ThemeKind::all() {
        assert_eq!(ThemeKind::from_name(k.name()), k);
    }
    assert_eq!(ThemeKind::from_name("nonsense"), ThemeKind::Auto);
    assert_eq!(ThemeKind::from_name("Adwaita"), ThemeKind::Auto);
    assert_eq!(ThemeKind::Breeze.label(), "Breeze (KDE)");
    assert_eq!(ThemeKind::Auto.label(), "Авто (как в системе)");
}

#[test]
fn detection() {
    assert_eq!(ThemeKind::Adwaita.detect(true, ThemePreset::BreezeLight), ThemePreset::AdwaitaDark);
    assert_eq!(ThemeKind::Windows11.detect(false, ThemePreset::BreezeLight), ThemePreset::Windows11Light);
    assert_eq!(ThemeKind::Auto.detect(false, ThemePreset::BreezeLight), ThemePreset::BreezeLight);
    assert_eq!(desktop_preset("KDE", true), ThemePreset::BreezeDark);
    assert_eq!(desktop_preset("plasma:x", false), ThemePreset::BreezeLight);
    assert_eq!(desktop_preset("ubuntu:GNOME", true), ThemePreset::AdwaitaDark);
    assert_eq!(desktop_preset("", false), ThemePreset::AdwaitaLight);
    assert_eq!(windows_preset(true), ThemePreset::Windows11Dark);
    assert!(ThemePreset::Windows11Dark.is_windows());
    assert!(!ThemePreset::BreezeDark.is_windows());
    assert!(ThemePreset::BreezeDark.dark());
    assert!(!ThemePreset::AdwaitaLight.dark());
    assert_eq!(ThemePreset::BreezeLight.label(), "Breeze (светлая)");
}

#[test]
fn palettes() {
    assert_eq!(accent_rgb(ThemePreset::AdwaitaDark), Rgb { r: 0x78, g: 0xae, b: 0xed });
    assert_eq!(palette(ThemePreset::Windows11Light).bg, Rgb { r: 0xf3, g: 0xf3, b: 0xf3 });
    assert_eq!(palette(ThemePreset::BreezeDark).error, Rgb { r: 0xe2, g: 0x8f, b: 0x8f });
}
