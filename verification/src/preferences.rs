//! What the user prefers: how the application looks, and how a game is set
//! up.

use vstd::prelude::*;

verus! {

/// The preferences of the application.
#[derive(Debug, Clone, Copy, PartialEq, Eq, Structural)]
pub struct AppPreferences {
    pub ui: UiPreferences,
}

/// How the application looks.
#[derive(Debug, Clone, Copy, PartialEq, Eq, Structural)]
pub struct UiPreferences {
    pub theme: Theme,
    pub theme_mode: ThemeMode,
    pub font_size: FontSize,
    pub font_style: FontStyle,
}

/// How a game is set up.
#[derive(Debug, Clone, Copy, PartialEq, Eq, Structural)]
pub struct GamePreferences {
    pub monster_hp: MonsterHitPoints,
    pub rules_version: RulesVersion,
}

/// The color themes.
#[derive(Debug, Clone, Copy, PartialEq, Eq, Structural)]
pub enum Theme {
    Arcane,
    Dungeoneer,
    HighContrast,
    Intrepid,
    Mystic,
    Woodland,
}

impl Default for Theme {
    fn default() -> (v: Self)
        ensures
            v == Theme::Dungeoneer,
    {
        Theme::Dungeoneer
    }
}

/// The variants of a theme.
#[derive(Debug, Clone, Copy, PartialEq, Eq, Structural)]
pub enum ThemeMode {
    Dawn,
    Dusk,
    Noon,
    Night,
    Light,
    Dark,
}

impl Default for ThemeMode {
    fn default() -> (v: Self)
        ensures
            v == ThemeMode::Dusk,
    {
        ThemeMode::Dusk
    }
}

/// The font sizes.
#[derive(Debug, Clone, Copy, PartialEq, Eq, Structural)]
pub enum FontSize {
    Small,
    Medium,
    Large,
}

impl Default for FontSize {
    fn default() -> (v: Self)
        ensures
            v == FontSize::Medium,
    {
        FontSize::Medium
    }
}

/// The font styles.
#[derive(Debug, Clone, Copy, PartialEq, Eq, Structural)]
pub enum FontStyle {
    Sans,
    Serif,
}

impl Default for FontStyle {
    fn default() -> (v: Self)
        ensures
            v == FontStyle::Serif,
    {
        FontStyle::Serif
    }
}

/// How monster hit points are determined.
#[derive(Debug, Clone, Copy, PartialEq, Eq, Structural)]
pub enum MonsterHitPoints {
    Fixed,
    Rolled,
}

impl Default for MonsterHitPoints {
    fn default() -> (v: Self)
        ensures
            v == MonsterHitPoints::Rolled,
    {
        MonsterHitPoints::Rolled
    }
}

/// The version of the rules.
#[derive(Debug, Clone, Copy, PartialEq, Eq, Structural)]
pub enum RulesVersion {
    Srd51,
    Srd523,
}

impl Default for RulesVersion {
    fn default() -> (v: Self)
        ensures
            v == RulesVersion::Srd523,
    {
        RulesVersion::Srd523
    }
}

impl Default for UiPreferences {
    fn default() -> (u: Self)
        ensures
            u == (UiPreferences {
                theme: Theme::Dungeoneer,
                theme_mode: ThemeMode::Dusk,
                font_size: FontSize::Medium,
                font_style: FontStyle::Serif,
            }),
    {
        Self {
            theme: Theme::default(),
            theme_mode: ThemeMode::default(),
            font_size: FontSize::default(),
            font_style: FontStyle::default(),
        }
    }
}

impl Default for GamePreferences {
    fn default() -> (g: Self)
        ensures
            g == (GamePreferences {
                monster_hp: MonsterHitPoints::Rolled,
                rules_version: RulesVersion::Srd523,
            }),
    {
        Self { monster_hp: MonsterHitPoints::default(), rules_version: RulesVersion::default() }
    }
}

impl Default for AppPreferences {
    fn default() -> (p: Self)
        ensures
            p.ui == (UiPreferences {
                theme: Theme::Dungeoneer,
                theme_mode: ThemeMode::Dusk,
                font_size: FontSize::Medium,
                font_style: FontStyle::Serif,
            }),
    {
        Self { ui: UiPreferences::default() }
    }
}

} // verus!
