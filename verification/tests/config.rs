use dminion::config::app_settings::{default_max_savepoints, AppSettings, SavepointTrigger};
use dminion::config::paths::AppPaths;

#[test]
fn test_recent_campaigns_ordering() {
    let mut settings = AppSettings::default();
    settings.add_recent_campaign(String::from("/a"));
    settings.add_recent_campaign(String::from("/b"));
    settings.add_recent_campaign(String::from("/a")); // Move to front

    assert_eq!(settings.recent_campaigns[0], String::from("/a"));
    assert_eq!(settings.recent_campaigns[1], String::from("/b"));
    assert_eq!(settings.recent_campaigns.len(), 2);
}

#[test]
fn test_normalize_folder_name() {
    assert_eq!(AppPaths::normalize_folder_name("Dragon Heist"), "dragon-heist");
    assert_eq!(AppPaths::normalize_folder_name("Orcs 'n' Goblins!"), "orcs-n-goblins");
    assert_eq!(AppPaths::normalize_folder_name("  Spaced  Out  "), "spaced-out");
    assert_eq!(
        AppPaths::normalize_folder_name("A Very Long Campaign Name Indeed"),
        "a-very-long-camp"
    );
    assert_eq!(
        AppPaths::normalize_folder_name("Revenge---Of---The---Hyphens"),
        "revenge-of-the-h"
    );
    assert_eq!(AppPaths::normalize_folder_name("Quest to /dev/null"), "quest-to-dev-nul");
}

#[test]
fn test_normalize_folder_name_invalid() {
    assert_eq!(AppPaths::normalize_folder_name(""), "campaign");
    assert_eq!(AppPaths::normalize_folder_name("   "), "campaign");
    assert_eq!(AppPaths::normalize_folder_name("---"), "campaign");
}

#[test]
fn normalized_name_never_ends_in_a_hyphen_after_the_cut() {
    assert_eq!(AppPaths::normalize_folder_name("abcdefghijklmno pqrs"), "abcdefghijklmno");
    assert_eq!(AppPaths::normalize_folder_name("ÄÖÜ"), "campaign");
    assert_eq!(AppPaths::normalize_folder_name("x_y"), "x-y");
}

#[test]
fn recent_campaigns_keep_the_ten_most_recent() {
    let mut settings = AppSettings::default();
    for i in 0..12 {
        settings.add_recent_campaign(format!("/c{}", i));
    }
    assert_eq!(settings.recent_campaigns.len(), 10);
    assert_eq!(settings.recent_campaigns[0], "/c11");
    assert_eq!(settings.recent_campaigns[9], "/c2");
    settings.remove_recent_campaign("/c5");
    assert_eq!(settings.recent_campaigns.len(), 9);
    assert!(!settings.recent_campaigns.contains(&String::from("/c5")));
    settings.remove_recent_campaign("/nowhere");
    assert_eq!(settings.recent_campaigns.len(), 9);
}

#[test]
fn default_settings() {
    let settings = AppSettings::default();
    assert_eq!(default_max_savepoints(), 50);
    assert_eq!(settings.savepoints.max_count, 50);
    assert_eq!(settings.savepoints.trigger, SavepointTrigger::Turn);
    assert_eq!(settings.window.width, Some(1280));
    assert_eq!(settings.window.height, Some(720));
    assert!(!settings.window.maximized);
    assert!(settings.recent_campaigns.is_empty());
}

#[test]
fn numbered_folder_names() {
    assert_eq!(AppPaths::find_unique_path("dragon-heist", 2), "dragon-heist-2");
    assert_eq!(AppPaths::find_unique_path("a-very-long-camp", 2), "a-very-long-ca-2");
    assert_eq!(AppPaths::find_unique_path("a-very-long-camp", 10), "a-very-long-c-10");
    assert_eq!(AppPaths::find_unique_path("abcdefghijklm-xy", 2), "abcdefghijklm-2");
    assert_eq!(AppPaths::find_unique_path("", 3), "campaign-3");
}

#[test]
fn application_paths() {
    let paths = AppPaths::at(String::from("/data"), String::from("/prefs/"));
    assert_eq!(paths.data_dir(), "/data");
    assert_eq!(paths.preference_dir(), "/prefs/");
    assert_eq!(paths.app_settings_path(), "/prefs/settings.toml");
    assert_eq!(paths.campaign_path("dragon-heist"), "/data/dragon-heist");
}
