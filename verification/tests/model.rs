use hafox::model::{Energy, EnergySnapshot, Power, Temperature};
use hafox::smartfox::SmartFoxValues;

/// Parses common measurement units into normalized values.
#[test]
fn parses_measurements() {
    // 1.5 kW, 0.025 kWh and 31 °C, in the library's whole units.
    assert_eq!(
        "1500 W".parse::<Power>().expect("power should parse"),
        Power { watts: 1500 }
    );
    assert_eq!(
        "25 Wh".parse::<Energy>().expect("energy should parse"),
        Energy { watt_hours: 25 }
    );
    let temperature = "31°C"
        .parse::<Temperature>()
        .expect("temperature should parse");
    assert_eq!(temperature.celsius.as_str().parse::<f64>().unwrap(), 31.0);
}

/// Derives live power flow and cumulative solar energy.
#[test]
fn builds_snapshot() {
    let values = SmartFoxValues::from_pairs([
        ("hidProduction", "2.00 kW"),
        ("hidPower", "-500 W"),
        ("battery1Power1", "-1.00 kW"),
        ("battery1Soc1", "80%"),
        ("battery1Temperature", "30 °C"),
        ("energyValue", "100.000 kWh"),
        ("eToGridValue", "40.000 kWh"),
        ("wr1PowerValue", "2.00 kW"),
        ("wr1EnergyValue", "500.00 kWh"),
    ]);

    let snapshot = EnergySnapshot::from_smartfox_values(&values).expect("snapshot should build");

    assert_eq!(snapshot.power.grid_import.watts, 0);
    assert_eq!(snapshot.power.grid_export.watts, 500);
    assert_eq!(snapshot.power.consumption.watts, 2500);
    assert_eq!(snapshot.energy.solar_production.watt_hours, 500_000);
}
