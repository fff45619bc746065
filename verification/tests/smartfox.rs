use hafox::smartfox::{settings_update_request, SettingsUpdate, SmartFoxValues};

/// Parses keyed values from SmartFox XML.
#[test]
fn parses_values_xml() {
    let values = SmartFoxValues::from_xml(
        r#"<root><value id="hidPower">34 W</value><value id="analogOutPower">0.00 &lt;span&gt;kW&lt;/span&gt;</value><value id="batteryTemp">31&#176;C</value><value id="batterySoc">32%</value></root>"#,
    )
    .expect("XML should parse");

    assert_eq!(values.get("hidPower"), Some("34 W"));
    assert_eq!(values.get("analogOutPower"), Some("0.00 kW"));
    assert_eq!(values.get("batteryTemp"), Some("31°C"));
    assert_eq!(values.get("batterySoc"), Some("32%"));
}

/// Builds settings requests while preserving untouched values.
#[test]
fn builds_settings_update_request() {
    let values = SmartFoxValues::from_pairs([
        ("userPassword", "1509442"),
        ("installerPassword", ""),
        ("networkServerIp", "93.189.25.182"),
        ("networkUploadCycle", "15"),
        ("energyFromGrid", "3047978"),
        ("energyToGrid", "5351925"),
        ("energySmartfox", "0"),
        ("hidloginEnabled", "0"),
        ("hidAdministrationDailyRestart", "1"),
    ]);
    let update = SettingsUpdate {
        total_energy_from_grid: Some(3_047_900),
        total_energy_to_grid: None,
        total_energy_smartfox: None,
    };

    let request = settings_update_request(&values, &update).expect("request should build");

    assert_eq!(request[4], ("41000", "3047900".to_owned()));
    assert_eq!(request[5], ("41004", "5351925".to_owned()));
}
