use l4d2_addon_manager::addons::{
    check_migration, toggled_name, Addons, MigrateError, ToggleError,
};

#[test]
fn an_enabled_archive_is_switched_off() {
    assert_eq!(toggled_name("123456.vpk"), Ok(String::from("123456.vpk.disabled")));
    assert_eq!(toggled_name(".vpk"), Ok(String::from(".vpk.disabled")));
}

#[test]
fn a_disabled_archive_is_switched_on() {
    assert_eq!(toggled_name("123456.vpk.disabled"), Ok(String::from("123456.vpk")));
    assert_eq!(toggled_name("notes.disabled"), Ok(String::from("notes")));
    assert_eq!(toggled_name(".disabled"), Ok(String::from(".disabled")));
}

#[test]
fn other_files_cannot_be_switched() {
    assert_eq!(toggled_name("readme.txt"), Err(ToggleError::NotAnAddon));
    assert_eq!(toggled_name("a.vpk.part"), Err(ToggleError::NotAnAddon));
    assert_eq!(toggled_name("a.VPK"), Err(ToggleError::NotAnAddon));
    assert_eq!(toggled_name(""), Err(ToggleError::NotAnAddon));
}

#[test]
fn switching_twice_gives_the_name_back() {
    for name in ["a.vpk", "1234.vpk", "with space.vpk", "a.b.vpk"] {
        let off = toggled_name(name).expect("switches off");
        assert_eq!(toggled_name(&off), Ok(String::from(name)));
    }
}

#[test]
fn addons_are_kept_in_two_lists() {
    let addons = Addons {
        enabled: vec![String::from("a.vpk")],
        disabled: vec![String::from("b.vpk.disabled")],
    };
    assert_eq!(addons.enabled.len(), 1);
    assert_eq!(addons.disabled[0], "b.vpk.disabled");
}

#[test]
fn only_files_in_the_workshop_folder_migrate() {
    assert_eq!(check_migration("workshop"), Ok(()));
    assert_eq!(check_migration("Workshop"), Err(MigrateError::NotInWorkshop));
    assert_eq!(check_migration("addons"), Err(MigrateError::NotInWorkshop));
    assert_eq!(check_migration("workshop "), Err(MigrateError::NotInWorkshop));
    assert_eq!(check_migration(""), Err(MigrateError::NotInWorkshop));
}
