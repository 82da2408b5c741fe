//! Theme choice: the theme kinds a user can pick, the colour presets they
//! resolve to, and each preset's palette.

use vstd::prelude::*;
use crate::text::{chars_of, chars_contain, chars_equal, has_substring, to_uppercase, uppercase};

verus! {

/// The theme the user picked (the base style).
#[derive(Clone, Copy, PartialEq, Eq, Debug, Structural)]
pub enum ThemeKind {
    Auto,
    Adwaita,
    Breeze,
    Windows11,
}

/// A ready set of colours applied to the interface.
#[derive(Clone, Copy, PartialEq, Eq, Debug, Structural)]
pub enum ThemePreset {
    AdwaitaDark,
    AdwaitaLight,
    BreezeDark,
    BreezeLight,
    Windows11Dark,
    Windows11Light,
}

/// The label shown for a theme kind.
pub open spec fn kind_label(k: ThemeKind) -> Seq<char> {
    match k {
        ThemeKind::Auto => "Авто (как в системе)"@,
        ThemeKind::Adwaita => "Adwaita (GNOME)"@,
        ThemeKind::Breeze => "Breeze (KDE)"@,
        ThemeKind::Windows11 => "Windows 11"@,
    }
}

/// The name under which a theme kind is saved.
pub open spec fn kind_name(k: ThemeKind) -> Seq<char> {
    match k {
        ThemeKind::Auto => "auto"@,
        ThemeKind::Adwaita => "adwaita"@,
        ThemeKind::Breeze => "breeze"@,
        ThemeKind::Windows11 => "windows11"@,
    }
}

/// The theme kind saved under `s`; any unknown name means `Auto`.
pub open spec fn kind_from_name(s: Seq<char>) -> ThemeKind {
    if s == "adwaita"@ {
        ThemeKind::Adwaita
    } else if s == "breeze"@ {
        ThemeKind::Breeze
    } else if s == "windows11"@ {
        ThemeKind::Windows11
    } else {
        ThemeKind::Auto
    }
}

/// The preset a theme kind resolves to: its dark or light variant, or, for
/// `Auto`, the system's preset `system`.
pub open spec fn kind_preset(k: ThemeKind, dark: bool, system: ThemePreset) -> ThemePreset {
    match k {
        ThemeKind::Auto => system,
        ThemeKind::Adwaita => if dark {
            ThemePreset::AdwaitaDark
        } else {
            ThemePreset::AdwaitaLight
        },
        ThemeKind::Breeze => if dark {
            ThemePreset::BreezeDark
        } else {
            ThemePreset::BreezeLight
        },
        ThemeKind::Windows11 => if dark {
            ThemePreset::Windows11Dark
        } else {
            ThemePreset::Windows11Light
        },
    }
}

/// A preset is dark.
pub open spec fn preset_dark(p: ThemePreset) -> bool {
    p == ThemePreset::AdwaitaDark || p == ThemePreset::BreezeDark || p
        == ThemePreset::Windows11Dark
}

/// A preset is one of the Windows 11 presets.
pub open spec fn preset_windows(p: ThemePreset) -> bool {
    p == ThemePreset::Windows11Dark || p == ThemePreset::Windows11Light
}

/// The label shown for a preset.
pub open spec fn preset_label(p: ThemePreset) -> Seq<char> {
    match p {
        ThemePreset::AdwaitaDark => "Adwaita (тёмная)"@,
        ThemePreset::AdwaitaLight => "Adwaita (светлая)"@,
        ThemePreset::BreezeDark => "Breeze (тёмная)"@,
        ThemePreset::BreezeLight => "Breeze (светлая)"@,
        ThemePreset::Windows11Dark => "Windows 11 (тёмная)"@,
        ThemePreset::Windows11Light => "Windows 11 (светлая)"@,
    }
}

/// The system preset on a Linux desktop: Breeze under KDE or Plasma (as
/// named, in any case, in the desktop's name), Adwaita elsewhere.
pub open spec fn desktop_preset_of(desktop: Seq<char>, dark: bool) -> ThemePreset {
    let de = uppercase(desktop);
    let kde = has_substring(de, "KDE"@) || has_substring(de, "PLASMA"@);
    if kde {
        if dark {
            ThemePreset::BreezeDark
        } else {
            ThemePreset::BreezeLight
        }
    } else if dark {
        ThemePreset::AdwaitaDark
    } else {
        ThemePreset::AdwaitaLight
    }
}

impl ThemeKind {
    /// The label shown for the theme kind.
    pub fn label(self) -> (r: &'static str)
        ensures
            r@ == kind_label(self),
    {
        match self {
            ThemeKind::Auto => "Авто (как в системе)",
            ThemeKind::Adwaita => "Adwaita (GNOME)",
            ThemeKind::Breeze => "Breeze (KDE)",
            ThemeKind::Windows11 => "Windows 11",
        }
    }

    /// Every theme kind, in the order they are offered.
    pub fn all() -> (r: [ThemeKind; 4])
        ensures
            r@ == seq![ThemeKind::Auto, ThemeKind::Adwaita, ThemeKind::Breeze, ThemeKind::Windows11],
    {
        [ThemeKind::Auto, ThemeKind::Adwaita, ThemeKind::Breeze, ThemeKind::Windows11]
    }

    /// The theme kind saved under `s`; unknown names give `Auto`.
    pub fn from_name(s: &str) -> (r: ThemeKind)
        ensures
            r == kind_from_name(s@),
    {
        let cs = chars_of(s);
        if chars_equal(&cs, &chars_of("adwaita")) {
            ThemeKind::Adwaita
        } else if chars_equal(&cs, &chars_of("breeze")) {
            ThemeKind::Breeze
        } else if chars_equal(&cs, &chars_of("windows11")) {
            ThemeKind::Windows11
        } else {
            ThemeKind::Auto
        }
    }

    /// The name under which the theme kind is saved.
    pub fn name(self) -> (r: &'static str)
        ensures
            r@ == kind_name(self),
    {
        match self {
            ThemeKind::Auto => "auto",
            ThemeKind::Adwaita => "adwaita",
            ThemeKind::Breeze => "breeze",
            ThemeKind::Windows11 => "windows11",
        }
    }

    /// The preset the theme kind resolves to in dark or light mode;
    /// `system` is the system's own preset, used for `Auto`.
    pub fn detect(self, dark: bool, system: ThemePreset) -> (r: ThemePreset)
        ensures
            r == kind_preset(self, dark, system),
    {
        match self {
            ThemeKind::Auto => system,
            ThemeKind::Adwaita => if dark {
                ThemePreset::AdwaitaDark
            } else {
                ThemePreset::AdwaitaLight
            },
            ThemeKind::Breeze => if dark {
                ThemePreset::BreezeDark
            } else {
                ThemePreset::BreezeLight
            },
            ThemeKind::Windows11 => if dark {
                ThemePreset::Windows11Dark
            } else {
                ThemePreset::Windows11Light
            },
        }
    }
}

impl ThemePreset {
    /// Whether the preset is dark.
    pub fn dark(self) -> (r: bool)
        ensures
            r == preset_dark(self),
    {
        match self {
            ThemePreset::AdwaitaDark | ThemePreset::BreezeDark | ThemePreset::Windows11Dark => true,
            _ => false,
        }
    }

    /// Whether the preset is one of the Windows 11 presets.
    pub fn is_windows(self) -> (r: bool)
        ensures
            r == preset_windows(self),
    {
        match self {
            ThemePreset::Windows11Dark | ThemePreset::Windows11Light => true,
            _ => false,
        }
    }

    /// The label shown for the preset.
    pub fn label(self) -> (r: &'static str)
        ensures
            r@ == preset_label(self),
    {
        match self {
            ThemePreset::AdwaitaDark => "Adwaita (тёмная)",
            ThemePreset::AdwaitaLight => "Adwaita (светлая)",
            ThemePreset::BreezeDark => "Breeze (тёмная)",
            ThemePreset::BreezeLight => "Breeze (светлая)",
            ThemePreset::Windows11Dark => "Windows 11 (тёмная)",
            ThemePreset::Windows11Light => "Windows 11 (светлая)",
        }
    }
}

/// The system preset on a Linux desktop named `desktop` (the value of
/// `XDG_CURRENT_DESKTOP`, empty when unset).
pub fn desktop_preset(desktop: &str, dark: bool) -> (r: ThemePreset)
    ensures
        r == desktop_preset_of(desktop@, dark),
{
    let de_s = to_uppercase(desktop);
    let de = chars_of(de_s.as_str());
    let kde = chars_contain(&de, &chars_of("KDE")) || chars_contain(&de, &chars_of("PLASMA"));
    if kde {
        if dark {
            ThemePreset::BreezeDark
        } else {
            ThemePreset::BreezeLight
        }
    } else if dark {
        ThemePreset::AdwaitaDark
    } else {
        ThemePreset::AdwaitaLight
    }
}

/// The system preset on Windows.
pub fn windows_preset(dark: bool) -> (r: ThemePreset)
    ensures
        r == (if dark {
            ThemePreset::Windows11Dark
        } else {
            ThemePreset::Windows11Light
        }),
{
    if dark {
        ThemePreset::Windows11Dark
    } else {
        ThemePreset::Windows11Light
    }
}

/// A theme kind is read back from the name it is saved under.
pub proof fn law_kind_name_round_trip(k: ThemeKind)
    ensures
        kind_from_name(kind_name(k)) == k,
{
    reveal_strlit("auto");
    reveal_strlit("adwaita");
    reveal_strlit("breeze");
    reveal_strlit("windows11");
    assert("auto"@ != "adwaita"@ && "auto"@ != "breeze"@ && "auto"@ != "windows11"@) by {
        assert("auto"@.len() != "adwaita"@.len());
        assert("auto"@[1] != "breeze"@[1]);
        assert("auto"@.len() != "windows11"@.len());
    }
    assert("breeze"@ != "adwaita"@) by {
        assert("breeze"@.len() != "adwaita"@.len());
    }
    assert("windows11"@ != "adwaita"@ && "windows11"@ != "breeze"@) by {
        assert("windows11"@.len() != "adwaita"@.len());
        assert("windows11"@.len() != "breeze"@.len());
    }
}

/// The presets respect the mode: every theme kind other than `Auto`, and
/// `Auto` on a system whose preset respects it, gives a dark preset exactly
/// in dark mode; so do the system presets.
pub proof fn law_presets_follow_mode(k: ThemeKind, dark: bool, system: ThemePreset, desktop: Seq<char>)
    requires
        k == ThemeKind::Auto ==> preset_dark(system) == dark,
    ensures
        preset_dark(kind_preset(k, dark, system)) == dark,
        preset_dark(desktop_preset_of(desktop, dark)) == dark,
        k == ThemeKind::Windows11 ==> preset_windows(kind_preset(k, dark, system)),
{
}


/// The theme family a preset belongs to.
pub open spec fn preset_family(p: ThemePreset) -> ThemeKind {
    match p {
        ThemePreset::AdwaitaDark | ThemePreset::AdwaitaLight => ThemeKind::Adwaita,
        ThemePreset::BreezeDark | ThemePreset::BreezeLight => ThemeKind::Breeze,
        ThemePreset::Windows11Dark | ThemePreset::Windows11Light => ThemeKind::Windows11,
    }
}

/// A theme kind other than `Auto` resolves to a preset of its own family,
/// dark exactly in dark mode, whatever the system's preset; `Auto` takes
/// the system's preset as it is.
pub proof fn law_kind_keeps_its_family(k: ThemeKind, dark: bool, system: ThemePreset)
    ensures
        k != ThemeKind::Auto ==> preset_family(kind_preset(k, dark, system)) == k
            && preset_dark(kind_preset(k, dark, system)) == dark,
        k == ThemeKind::Auto ==> kind_preset(k, dark, system) == system,
{
}

/// A colour as red, green and blue components.
#[derive(Clone, Copy, PartialEq, Eq, Debug, Structural)]
pub struct Rgb {
    pub r: u8,
    pub g: u8,
    pub b: u8,
}

/// The colours of a preset.
#[derive(Clone, Copy, PartialEq, Eq, Debug, Structural)]
pub struct Palette {
    pub bg: Rgb,
    pub base: Rgb,
    pub fg: Rgb,
    pub accent: Rgb,
    pub accent_fg: Rgb,
    pub border: Rgb,
    pub selected: Rgb,
    pub warn: Rgb,
    pub error: Rgb,
}

/// The colours of each preset.
pub open spec fn palette_of(p: ThemePreset) -> Palette {
    match p {
        ThemePreset::AdwaitaDark => Palette {
            bg: Rgb { r: 0x1e, g: 0x1e, b: 0x1e },
            base: Rgb { r: 0x2d, g: 0x2d, b: 0x2d },
            fg: Rgb { r: 0xff, g: 0xff, b: 0xff },
            accent: Rgb { r: 0x78, g: 0xae, b: 0xed },
            accent_fg: Rgb { r: 0x0c, g: 0x0c, b: 0x0c },
            border: Rgb { r: 0x3b, g: 0x3b, b: 0x3b },
            selected: Rgb { r: 0x35, g: 0x84, b: 0xe4 },
            warn: Rgb { r: 0xff, g: 0xc0, b: 0x4d },
            error: Rgb { r: 0xed, g: 0x73, b: 0x73 },
        },
        ThemePreset::AdwaitaLight => Palette {
            bg: Rgb { r: 0xf6, g: 0xf5, b: 0xf4 },
            base: Rgb { r: 0xff, g: 0xff, b: 0xff },
            fg: Rgb { r: 0x20, g: 0x20, b: 0x20 },
            accent: Rgb { r: 0x35, g: 0x84, b: 0xe4 },
            accent_fg: Rgb { r: 0xff, g: 0xff, b: 0xff },
            border: Rgb { r: 0xe0, g: 0xdf, b: 0xdd },
            selected: Rgb { r: 0x35, g: 0x84, b: 0xe4 },
            warn: Rgb { r: 0xd0, g: 0x86, b: 0x00 },
            error: Rgb { r: 0xc0, g: 0x1c, b: 0x28 },
        },
        ThemePreset::BreezeDark => Palette {
            bg: Rgb { r: 0x31, g: 0x36, b: 0x3b },
            base: Rgb { r: 0x23, g: 0x26, b: 0x29 },
            fg: Rgb { r: 0xfc, g: 0xfc, b: 0xfc },
            accent: Rgb { r: 0x3d, g: 0xae, b: 0xe9 },
            accent_fg: Rgb { r: 0x0a, g: 0x0a, b: 0x0a },
            border: Rgb { r: 0x41, g: 0x47, b: 0x4c },
            selected: Rgb { r: 0x3d, g: 0xae, b: 0xe9 },
            warn: Rgb { r: 0xfc, g: 0xe9, b: 0x4f },
            error: Rgb { r: 0xe2, g: 0x8f, b: 0x8f },
        },
        ThemePreset::BreezeLight => Palette {
            bg: Rgb { r: 0xef, g: 0xf0, b: 0xf1 },
            base: Rgb { r: 0xff, g: 0xff, b: 0xff },
            fg: Rgb { r: 0x23, g: 0x26, b: 0x29 },
            accent: Rgb { r: 0x1d, g: 0x99, b: 0xf3 },
            accent_fg: Rgb { r: 0xff, g: 0xff, b: 0xff },
            border: Rgb { r: 0xd7, g: 0xd9, b: 0xdc },
            selected: Rgb { r: 0x3d, g: 0xae, b: 0xe9 },
            warn: Rgb { r: 0xa0, g: 0x7f, b: 0x00 },
            error: Rgb { r: 0xc8, g: 0x32, b: 0x32 },
        },
        ThemePreset::Windows11Dark => Palette {
            bg: Rgb { r: 0x20, g: 0x20, b: 0x20 },
            base: Rgb { r: 0x2b, g: 0x2b, b: 0x2b },
            fg: Rgb { r: 0xff, g: 0xff, b: 0xff },
            accent: Rgb { r: 0x4c, g: 0xc2, b: 0xff },
            accent_fg: Rgb { r: 0x0c, g: 0x0c, b: 0x0c },
            border: Rgb { r: 0x3b, g: 0x3b, b: 0x3b },
            selected: Rgb { r: 0x4c, g: 0xa8, b: 0xe0 },
            warn: Rgb { r: 0xff, g: 0xc0, b: 0x4d },
            error: Rgb { r: 0xed, g: 0x6a, b: 0x6a },
        },
        ThemePreset::Windows11Light => Palette {
            bg: Rgb { r: 0xf3, g: 0xf3, b: 0xf3 },
            base: Rgb { r: 0xfa, g: 0xfa, b: 0xfa },
            fg: Rgb { r: 0x1a, g: 0x1a, b: 0x1a },
            accent: Rgb { r: 0x00, g: 0x78, b: 0xd4 },
            accent_fg: Rgb { r: 0xff, g: 0xff, b: 0xff },
            border: Rgb { r: 0xe5, g: 0xe5, b: 0xe5 },
            selected: Rgb { r: 0x00, g: 0x78, b: 0xd4 },
            warn: Rgb { r: 0x9d, g: 0x5d, b: 0x00 },
            error: Rgb { r: 0xc4, g: 0x2b, b: 0x1c },
        },
    }
}

/// The colours of a preset.
pub fn palette(p: ThemePreset) -> (r: Palette)
    ensures
        r == palette_of(p),
{
    match p {
        ThemePreset::AdwaitaDark => Palette {
            bg: Rgb { r: 0x1e, g: 0x1e, b: 0x1e },
            base: Rgb { r: 0x2d, g: 0x2d, b: 0x2d },
            fg: Rgb { r: 0xff, g: 0xff, b: 0xff },
            accent: Rgb { r: 0x78, g: 0xae, b: 0xed },
            accent_fg: Rgb { r: 0x0c, g: 0x0c, b: 0x0c },
            border: Rgb { r: 0x3b, g: 0x3b, b: 0x3b },
            selected: Rgb { r: 0x35, g: 0x84, b: 0xe4 },
            warn: Rgb { r: 0xff, g: 0xc0, b: 0x4d },
            error: Rgb { r: 0xed, g: 0x73, b: 0x73 },
        },
        ThemePreset::AdwaitaLight => Palette {
            bg: Rgb { r: 0xf6, g: 0xf5, b: 0xf4 },
            base: Rgb { r: 0xff, g: 0xff, b: 0xff },
            fg: Rgb { r: 0x20, g: 0x20, b: 0x20 },
            accent: Rgb { r: 0x35, g: 0x84, b: 0xe4 },
            accent_fg: Rgb { r: 0xff, g: 0xff, b: 0xff },
            border: Rgb { r: 0xe0, g: 0xdf, b: 0xdd },
            selected: Rgb { r: 0x35, g: 0x84, b: 0xe4 },
            warn: Rgb { r: 0xd0, g: 0x86, b: 0x00 },
            error: Rgb { r: 0xc0, g: 0x1c, b: 0x28 },
        },
        ThemePreset::BreezeDark => Palette {
            bg: Rgb { r: 0x31, g: 0x36, b: 0x3b },
            base: Rgb { r: 0x23, g: 0x26, b: 0x29 },
            fg: Rgb { r: 0xfc, g: 0xfc, b: 0xfc },
            accent: Rgb { r: 0x3d, g: 0xae, b: 0xe9 },
            accent_fg: Rgb { r: 0x0a, g: 0x0a, b: 0x0a },
            border: Rgb { r: 0x41, g: 0x47, b: 0x4c },
            selected: Rgb { r: 0x3d, g: 0xae, b: 0xe9 },
            warn: Rgb { r: 0xfc, g: 0xe9, b: 0x4f },
            error: Rgb { r: 0xe2, g: 0x8f, b: 0x8f },
        },
        ThemePreset::BreezeLight => Palette {
            bg: Rgb { r: 0xef, g: 0xf0, b: 0xf1 },
            base: Rgb { r: 0xff, g: 0xff, b: 0xff },
            fg: Rgb { r: 0x23, g: 0x26, b: 0x29 },
            accent: Rgb { r: 0x1d, g: 0x99, b: 0xf3 },
            accent_fg: Rgb { r: 0xff, g: 0xff, b: 0xff },
            border: Rgb { r: 0xd7, g: 0xd9, b: 0xdc },
            selected: Rgb { r: 0x3d, g: 0xae, b: 0xe9 },
            warn: Rgb { r: 0xa0, g: 0x7f, b: 0x00 },
            error: Rgb { r: 0xc8, g: 0x32, b: 0x32 },
        },
        ThemePreset::Windows11Dark => Palette {
            bg: Rgb { r: 0x20, g: 0x20, b: 0x20 },
            base: Rgb { r: 0x2b, g: 0x2b, b: 0x2b },
            fg: Rgb { r: 0xff, g: 0xff, b: 0xff },
            accent: Rgb { r: 0x4c, g: 0xc2, b: 0xff },
            accent_fg: Rgb { r: 0x0c, g: 0x0c, b: 0x0c },
            border: Rgb { r: 0x3b, g: 0x3b, b: 0x3b },
            selected: Rgb { r: 0x4c, g: 0xa8, b: 0xe0 },
            warn: Rgb { r: 0xff, g: 0xc0, b: 0x4d },
            error: Rgb { r: 0xed, g: 0x6a, b: 0x6a },
        },
        ThemePreset::Windows11Light => Palette {
            bg: Rgb { r: 0xf3, g: 0xf3, b: 0xf3 },
            base: Rgb { r: 0xfa, g: 0xfa, b: 0xfa },
            fg: Rgb { r: 0x1a, g: 0x1a, b: 0x1a },
            accent: Rgb { r: 0x00, g: 0x78, b: 0xd4 },
            accent_fg: Rgb { r: 0xff, g: 0xff, b: 0xff },
            border: Rgb { r: 0xe5, g: 0xe5, b: 0xe5 },
            selected: Rgb { r: 0x00, g: 0x78, b: 0xd4 },
            warn: Rgb { r: 0x9d, g: 0x5d, b: 0x00 },
            error: Rgb { r: 0xc4, g: 0x2b, b: 0x1c },
        },
    }
}

/// The accent colour of a preset.
pub fn accent_rgb(p: ThemePreset) -> (r: Rgb)
    ensures
        r == palette_of(p).accent,
{
    palette(p).accent
}

} // verus!
