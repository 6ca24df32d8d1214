use l4d2_addon_manager::config::{Settings, SettingsManager};

fn sample() -> Settings {
    Settings {
        gamedir: Some(String::from("/games/l4d2/addons")),
        version: Some(String::from("0.9.0")),
        steam_apikey: None,
        telemetry: true,
    }
}

#[test]
fn default_settings_are_empty() {
    let settings = Settings::default();
    assert_eq!(settings.gamedir, None);
    assert_eq!(settings.version, None);
    assert_eq!(settings.steam_apikey, None);
    assert!(!settings.telemetry);
}

#[test]
fn a_new_manager_holds_the_defaults() {
    let manager = SettingsManager::new(String::from("/cfg/config.json"));
    assert_eq!(manager.path(), "/cfg/config.json");
    assert_eq!(manager.get().gamedir, None);
    assert_eq!(manager.get().version, None);
    assert_eq!(manager.get().steam_apikey, None);
    assert!(!manager.get().telemetry);
}

#[test]
fn replace_puts_new_settings_in() {
    let mut manager = SettingsManager::new(String::from("c.json"));
    manager.replace(sample());
    assert_eq!(manager.get().gamedir.as_deref(), Some("/games/l4d2/addons"));
    assert_eq!(manager.get().version.as_deref(), Some("0.9.0"));
    assert!(manager.get().telemetry);
    assert_eq!(manager.path(), "c.json");
}

#[test]
fn get_mut_changes_the_held_settings() {
    let mut manager = SettingsManager::new(String::from("c.json"));
    manager.get_mut().gamedir = Some(String::from("/elsewhere"));
    manager.get_mut().telemetry = true;
    assert_eq!(manager.get().gamedir.as_deref(), Some("/elsewhere"));
    assert!(manager.get().telemetry);
    assert_eq!(manager.get().version, None);
}

#[test]
fn get_clone_is_a_copy() {
    let mut manager = SettingsManager::new(String::from("c.json"));
    manager.replace(sample());
    let mut copy = manager.get_clone();
    assert_eq!(copy.gamedir.as_deref(), Some("/games/l4d2/addons"));
    assert_eq!(copy.version.as_deref(), Some("0.9.0"));
    assert_eq!(copy.steam_apikey, None);
    assert!(copy.telemetry);
    copy.telemetry = false;
    copy.gamedir = None;
    assert!(manager.get().telemetry);
    assert!(manager.get().gamedir.is_some());
}

#[test]
fn stamp_version_touches_the_version_only() {
    let mut manager = SettingsManager::new(String::from("c.json"));
    manager.replace(sample());
    manager.stamp_version("1.0.0");
    assert_eq!(manager.get().version.as_deref(), Some("1.0.0"));
    assert_eq!(manager.get().gamedir.as_deref(), Some("/games/l4d2/addons"));
    assert!(manager.get().telemetry);
    assert_eq!(manager.path(), "c.json");
}
