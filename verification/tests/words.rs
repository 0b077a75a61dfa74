use dminion::config::campaign_settings::{
    CampaignSettings, FontSize, MonsterHitPoints, RulesSettings, RulesVersion, SchemaVersion,
    Theme, ThemeMode, UiSettings, CURRENT_SCHEMA_VERSION,
};
use dminion::dice::eval::{DieRoll, Error as EvalError};
use dminion::dice::lexer::Error as LexError;
use dminion::dice::parser::Error as ParseError;
use dminion::dice::{DiceExpr, Error};
use dminion::game::time::{Duration, Time};
use dminion::preferences::{AppPreferences, FontStyle, GamePreferences, UiPreferences};
use dminion::text::{equal, join};

#[test]
fn error_messages() {
    assert_eq!(
        EvalError::InvalidSelection { selection_size: 5, pool_size: 3 }.message(),
        "Cannot select 5 dice from a pool of 3"
    );
    assert_eq!(EvalError::DivideByZero.message(), "Division by zero");
    assert_eq!(EvalError::StackUnderflow.message(), "Stack underflow");
    assert_eq!(
        EvalError::InvalidRoll { count: -2, sides: 6 }.message(),
        "Cannot roll -2 dice of 6 sides"
    );
    assert_eq!(
        LexError { ch: '$', position: 12 }.message(),
        "Unexpected character '$' at position 12"
    );
    assert_eq!(ParseError::InvalidDie("Invalid die: d7".into()).message(), "Invalid die: d7");
    assert_eq!(
        ParseError::LexError(LexError { ch: '?', position: 0 }).message(),
        "Unexpected character '?' at position 0"
    );
    match DiceExpr::parse("1d7") {
        Err(e) => assert_eq!(e.message(), "Parse error Invalid die: d7"),
        Ok(_) => unreachable!(),
    }
    match DiceExpr::parse("1/0").unwrap().min() {
        Err(e) => assert_eq!(e.message(), "Evaluation error Division by zero"),
        Ok(_) => unreachable!(),
    }
    assert!(matches!(DiceExpr::parse("2 ?"), Err(Error::ParseError(ParseError::LexError(_)))));
}

#[test]
fn dice_as_a_terminal_shows_them() {
    assert_eq!(
        DieRoll { sides: 20, result: 17, keep: true }.to_string(),
        "\x1B[32m[d20:\x1B[22m\x1B[1m17\x1B[22m]\x1B[39m"
    );
    assert_eq!(
        DieRoll { sides: 6, result: 1, keep: false }.to_string(),
        "\x1B[9m\x1B[31m[d6:\x1B[22m\x1B[1m1\x1B[22m]\x1B[39m\x1B[29m"
    );
}

#[test]
fn clocks() {
    assert_eq!(Time::new(25, 0).to_string(), "2:30");
    assert_eq!(Time::new(11, 0).to_string(), "1:06");
    assert_eq!(Time::new(0, 7).to_string(), "0:00");
    assert_eq!(Duration::from_secs(60).to_string(), "1:00");
    assert_eq!(Duration::_from_rounds(-11).to_string(), "-1:06");
    assert_eq!(Duration::_from_rounds(3).to_string(), "0:18");
}

#[test]
fn campaign_settings() {
    let settings = CampaignSettings::new(String::from("Test Campaign"), 1234).unwrap();
    assert_eq!(settings.name, "Test Campaign");
    assert_eq!(settings.created, 1234);
    assert_eq!(settings.schema_version, SchemaVersion { major: 1, minor: 0, patch: 0 });
    assert_eq!(settings.schema_version.to_string(), CURRENT_SCHEMA_VERSION);
    assert_eq!(SchemaVersion { major: 12, minor: 3, patch: 45 }.to_string(), "12.3.45");
    assert_eq!(
        settings.rules,
        RulesSettings { version: RulesVersion::Srd52, monster_hp: MonsterHitPoints::Rolled }
    );
    assert_eq!(
        settings.ui,
        UiSettings {
            theme: Theme::Dungeoneer,
            theme_mode: ThemeMode::Dusk,
            font_size: FontSize::Medium
        }
    );
    let older = CampaignSettings::with_version(
        String::from("Old"),
        5,
        SchemaVersion { major: 0, minor: 9, patch: 2 },
    );
    assert_eq!(older.schema_version.to_string(), "0.9.2");
    assert_eq!(older.rules, settings.rules);
    assert_eq!(CampaignSettings::settings_path("/c"), "/c/settings.toml");
    assert_eq!(CampaignSettings::db_path("/c"), "/c/db.sqlite3");
    assert_eq!(CampaignSettings::saves_path("/c/"), "/c/saves");
    assert_eq!(CampaignSettings::portraits_path("/c"), "/c/portraits");
    assert_eq!(CampaignSettings::maps_path(""), "maps");
}

#[test]
fn preferences() {
    let p = AppPreferences::default();
    assert_eq!(p.ui, UiPreferences::default());
    assert_eq!(p.ui.font_style, FontStyle::Serif);
    assert_eq!(p.ui.theme, dminion::preferences::Theme::Dungeoneer);
    assert_eq!(p.ui.theme_mode, dminion::preferences::ThemeMode::Dusk);
    assert_eq!(p.ui.font_size, dminion::preferences::FontSize::Medium);
    let g = GamePreferences::default();
    assert_eq!(g.monster_hp, dminion::preferences::MonsterHitPoints::Rolled);
    assert_eq!(g.rules_version, dminion::preferences::RulesVersion::Srd523);
}

#[test]
fn texts() {
    assert!(equal("abc", "abc"));
    assert!(!equal("abc", "abd"));
    assert!(!equal("abc", "ab"));
    assert!(equal("", ""));
    assert_eq!(join("a", "b"), "a/b");
    assert_eq!(join("a/", "b"), "a/b");
    assert_eq!(join("", "b"), "b");
}
