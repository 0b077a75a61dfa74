//! Per-campaign settings: the campaign's name and age, the rules it is
//! played by, and how it looks.

use vstd::prelude::*;
use vstd::string::*;
use crate::text::{decimal, join, joined, push_decimal};

verus! {

/// Current schema version for new campaigns.
pub const CURRENT_SCHEMA_VERSION: &'static str = "1.0.0";

/// The version of the layout of a campaign folder and its database.
#[derive(Debug, Clone, Copy, PartialEq, Eq, Structural)]
pub struct SchemaVersion {
    pub major: u64,
    pub minor: u64,
    pub patch: u64,
}

/// Per-campaign settings including metadata, rules configuration, and UI
/// preferences.
#[derive(Debug, Clone)]
pub struct CampaignSettings {
    /// Display name of the campaign.
    pub name: String,
    /// When the campaign was created, in milliseconds since the epoch.
    pub created: i64,
    /// Schema version for the campaign folder and database.
    pub schema_version: SchemaVersion,
    /// Rules configuration for the campaign.
    pub rules: RulesSettings,
    /// UI preferences for this campaign.
    pub ui: UiSettings,
}

/// Rules configuration for a campaign.
#[derive(Debug, Clone, Copy, PartialEq, Eq, Structural)]
pub struct RulesSettings {
    /// SRD rules version to use.
    pub version: RulesVersion,
    /// How monster hit points are determined.
    pub monster_hp: MonsterHitPoints,
}

/// UI preferences that can vary per campaign.
#[derive(Debug, Clone, Copy, PartialEq, Eq, Structural)]
pub struct UiSettings {
    /// Color theme for the UI.
    pub theme: Theme,
    /// Theme mode (light/dark variant).
    pub theme_mode: ThemeMode,
    /// Font size preference.
    pub font_size: FontSize,
}

/// SRD rules version.
#[derive(Debug, Clone, Copy, PartialEq, Eq, Structural)]
pub enum RulesVersion {
    Srd51,
    Srd52,
}

impl Default for RulesVersion {
    fn default() -> (v: Self)
        ensures
            v == RulesVersion::Srd52,
    {
        RulesVersion::Srd52
    }
}

/// How monster hit points are determined when spawning.
#[derive(Debug, Clone, Copy, PartialEq, Eq, Structural)]
pub enum MonsterHitPoints {
    Fixed,
    Rolled,
}

impl Default for MonsterHitPoints {
    fn default() -> (v: Self)
        ensures
            v == MonsterHitPoints::Rolled,
    {
        MonsterHitPoints::Rolled
    }
}

/// Available color themes.
#[derive(Debug, Clone, Copy, PartialEq, Eq, Structural)]
pub enum Theme {
    Arcane,
    Dungeoneer,
    HighContrast,
    Intrepid,
    Mystic,
    Woodland,
}

impl Default for Theme {
    fn default() -> (v: Self)
        ensures
            v == Theme::Dungeoneer,
    {
        Theme::Dungeoneer
    }
}

/// Theme mode (light/dark variants).
#[derive(Debug, Clone, Copy, PartialEq, Eq, Structural)]
pub enum ThemeMode {
    Dawn,
    Dusk,
    Noon,
    Night,
    Light,
    Dark,
}

impl Default for ThemeMode {
    fn default() -> (v: Self)
        ensures
            v == ThemeMode::Dusk,
    {
        ThemeMode::Dusk
    }
}

/// Font size preference.
#[derive(Debug, Clone, Copy, PartialEq, Eq, Structural)]
pub enum FontSize {
    Small,
    Medium,
    Large,
}

impl Default for FontSize {
    fn default() -> (v: Self)
        ensures
            v == FontSize::Medium,
    {
        FontSize::Medium
    }
}

impl Default for RulesSettings {
    fn default() -> (r: Self)
        ensures
            r == (RulesSettings {
                version: RulesVersion::Srd52,
                monster_hp: MonsterHitPoints::Rolled,
            }),
    {
        Self { version: RulesVersion::default(), monster_hp: MonsterHitPoints::default() }
    }
}

impl Default for UiSettings {
    fn default() -> (u: Self)
        ensures
            u == (UiSettings {
                theme: Theme::Dungeoneer,
                theme_mode: ThemeMode::Dusk,
                font_size: FontSize::Medium,
            }),
    {
        Self {
            theme: Theme::default(),
            theme_mode: ThemeMode::default(),
            font_size: FontSize::default(),
        }
    }
}

impl SchemaVersion {
    /// The version as it is written: the three numbers with dots between
    /// them.
    pub open spec fn text(self) -> Seq<char> {
        decimal(self.major as int).push('.') + decimal(self.minor as int).push('.') + decimal(
            self.patch as int,
        )
    }

    /// The version as it is written.
    pub fn to_string(&self) -> (s: String)
        requires
            self.major <= i64::MAX,
            self.minor <= i64::MAX,
            self.patch <= i64::MAX,
        ensures
            s@ == self.text(),
    {
        let mut s = String::new();
        push_decimal(&mut s, self.major as i64);
        s.push('.');
        push_decimal(&mut s, self.minor as i64);
        s.push('.');
        push_decimal(&mut s, self.patch as i64);
        assert(s@ =~= self.text());
        s
    }
}

/// What `semver` reads a text as: the major, minor and patch number of the
/// version, or nothing where the text is no version.
pub uninterp spec fn semver_numbers(text: Seq<char>) -> Option<(u64, u64, u64)>;

/// `semver::Version::parse`: the three numbers of the version that it reads,
/// or nothing where it fails. What it reads depends on the text alone.
#[verifier::external_body]
fn parse_version(text: &str) -> (numbers: Option<(u64, u64, u64)>)
    ensures
        numbers == semver_numbers(text@),
{
    match semver::Version::parse(text) {
        Ok(version) => Some((version.major, version.minor, version.patch)),
        Err(_) => None,
    }
}

impl CampaignSettings {
    /// The settings of a campaign called `name`, created at `now` (in
    /// milliseconds since the epoch) with the schema `schema_version`: the
    /// rules and the looks are the usual ones.
    pub fn with_version(name: String, now: i64, schema_version: SchemaVersion) -> (settings: Self)
        ensures
            settings.name == name,
            settings.created == now,
            settings.schema_version == schema_version,
            settings.rules == (RulesSettings {
                version: RulesVersion::Srd52,
                monster_hp: MonsterHitPoints::Rolled,
            }),
            settings.ui == (UiSettings {
                theme: Theme::Dungeoneer,
                theme_mode: ThemeMode::Dusk,
                font_size: FontSize::Medium,
            }),
    {
        Self {
            name,
            created: now,
            schema_version,
            rules: RulesSettings::default(),
            ui: UiSettings::default(),
        }
    }

    /// Creates new campaign settings with the given name, for a campaign
    /// created at `now`, in milliseconds since the epoch. The schema is the
    /// one that [`CURRENT_SCHEMA_VERSION`] reads as; there are no settings
    /// where it reads as none.
    pub fn new(name: String, now: i64) -> (settings: Option<Self>)
        ensures
            match semver_numbers(CURRENT_SCHEMA_VERSION@) {
                Some((major, minor, patch)) => settings matches Some(s) && s.name == name
                    && s.created == now && s.schema_version == (SchemaVersion {
                    major,
                    minor,
                    patch,
                }) && s.rules == (RulesSettings {
                    version: RulesVersion::Srd52,
                    monster_hp: MonsterHitPoints::Rolled,
                }) && s.ui == (UiSettings {
                    theme: Theme::Dungeoneer,
                    theme_mode: ThemeMode::Dusk,
                    font_size: FontSize::Medium,
                }),
                None => settings is None,
            },
    {
        match parse_version(CURRENT_SCHEMA_VERSION) {
            Some((major, minor, patch)) => Some(
                Self::with_version(name, now, SchemaVersion { major, minor, patch }),
            ),
            None => None,
        }
    }

    /// Returns the path to the settings file within this campaign.
    pub fn settings_path(campaign_path: &str) -> (path: String)
        ensures
            path@ == joined(campaign_path@, "settings.toml"@),
    {
        join(campaign_path, "settings.toml")
    }

    /// Returns the path to the database file within this campaign.
    pub fn db_path(campaign_path: &str) -> (path: String)
        ensures
            path@ == joined(campaign_path@, "db.sqlite3"@),
    {
        join(campaign_path, "db.sqlite3")
    }

    /// Returns the path to the saves folder within this campaign.
    pub fn saves_path(campaign_path: &str) -> (path: String)
        ensures
            path@ == joined(campaign_path@, "saves"@),
    {
        join(campaign_path, "saves")
    }

    /// Returns the path to the portraits folder within this campaign.
    pub fn portraits_path(campaign_path: &str) -> (path: String)
        ensures
            path@ == joined(campaign_path@, "portraits"@),
    {
        join(campaign_path, "portraits")
    }

    /// Returns the path to the maps folder within this campaign.
    pub fn maps_path(campaign_path: &str) -> (path: String)
        ensures
            path@ == joined(campaign_path@, "maps"@),
    {
        join(campaign_path, "maps")
    }
}

/// Summary information about a campaign for list display.
#[derive(Debug, Clone)]
pub struct CampaignSummary {
    /// Path to the campaign folder.
    pub path: String,
    /// Display name of the campaign.
    pub name: String,
    /// When the campaign was created (ISO 8601 format).
    pub created: String,
}

} // verus!
