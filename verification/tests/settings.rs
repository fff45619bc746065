use hafox::smartfox::{
    check_settings_status, decimal_string, settings_update_request, Error, SettingsUpdate,
    SmartFoxValues, TOTAL_ENERGY_FROM_GRID_SETTING, TOTAL_ENERGY_SMARTFOX_SETTING,
    TOTAL_ENERGY_TO_GRID_SETTING,
};

fn device() -> SmartFoxValues {
    SmartFoxValues::from_pairs([
        ("userPassword", "1509442"),
        ("installerPassword", ""),
        ("networkServerIp", "93.189.25.182"),
        ("networkUploadCycle", "15"),
        ("energyFromGrid", "3047978"),
        ("energyToGrid", "5351925"),
        ("energySmartfox", "0"),
        ("hidloginEnabled", "0"),
        ("hidAdministrationDailyRestart", "1"),
    ])
}

#[test]
fn request_keeps_every_untouched_setting() {
    let request = settings_update_request(&device(), &SettingsUpdate::default()).unwrap();
    let expected: Vec<(&str, String)> = vec![
        ("44300", "1509442".to_owned()),
        ("44319", "".to_owned()),
        ("42008", "93.189.25.182".to_owned()),
        ("42010", "15".to_owned()),
        ("41000", "3047978".to_owned()),
        ("41004", "5351925".to_owned()),
        ("41008", "0".to_owned()),
        ("44317", "0".to_owned()),
        ("44500", "1".to_owned()),
    ];
    assert_eq!(request, expected);
    assert_eq!(TOTAL_ENERGY_FROM_GRID_SETTING, "41000");
    assert_eq!(TOTAL_ENERGY_TO_GRID_SETTING, "41004");
    assert_eq!(TOTAL_ENERGY_SMARTFOX_SETTING, "41008");
}

#[test]
fn request_writes_updates_in_decimal() {
    let update = SettingsUpdate {
        total_energy_from_grid: Some(0),
        total_energy_to_grid: Some(u64::MAX),
        total_energy_smartfox: Some(10),
    };
    let request = settings_update_request(&device(), &update).unwrap();
    assert_eq!(request[4], ("41000", "0".to_owned()));
    assert_eq!(request[5], ("41004", "18446744073709551615".to_owned()));
    assert_eq!(request[6], ("41008", "10".to_owned()));
}

#[test]
fn request_needs_kept_settings() {
    let partial = SmartFoxValues::from_pairs([
        ("userPassword", "1"),
        ("installerPassword", "2"),
        ("networkServerIp", "3"),
        ("networkUploadCycle", "4"),
    ]);
    let update = SettingsUpdate {
        total_energy_from_grid: Some(1),
        total_energy_to_grid: None,
        total_energy_smartfox: None,
    };
    assert!(matches!(
        settings_update_request(&partial, &update),
        Err(Error::MissingSetting { field: "energyToGrid" })
    ));
    assert!(matches!(
        settings_update_request(&SmartFoxValues::new(), &update),
        Err(Error::MissingSetting { field: "userPassword" })
    ));
}

#[test]
fn decimal_digits() {
    for v in [0u64, 7, 10, 99, 100, 3_047_900, u64::MAX] {
        assert_eq!(decimal_string(v), v.to_string());
    }
}

#[test]
fn settings_status() {
    assert!(check_settings_status("true".to_owned()).is_ok());
    assert!(matches!(
        check_settings_status("false".to_owned()),
        Err(Error::SettingsRejected { status }) if status == "false"
    ));
}
