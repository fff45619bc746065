use hafox::address::IpAddress;
use hafox::model::{EnergySnapshot, Error, GridPhase, MeasurementParseError};
use hafox::smartfox::SmartFoxValues;

fn base() -> Vec<(&'static str, &'static str)> {
    vec![
        ("hidProduction", "0 W"),
        ("hidPower", "19 W"),
        ("energyValue", "2991.999 kWh"),
        ("eToGridValue", "5339.753 kWh"),
    ]
}

fn values(pairs: &[(&str, &str)]) -> SmartFoxValues {
    let mut values = SmartFoxValues::new();
    for (k, v) in pairs {
        values.insert((*k).to_owned(), (*v).to_owned());
    }
    values
}

#[test]
fn minimal_snapshot() {
    let snapshot = EnergySnapshot::from_smartfox_values(&values(&base())).unwrap();
    assert_eq!(snapshot.power.production.watts, 0);
    assert_eq!(snapshot.power.grid_net.watts, 19);
    assert_eq!(snapshot.power.grid_import.watts, 19);
    assert_eq!(snapshot.power.grid_export.watts, 0);
    assert_eq!(snapshot.power.battery_power, None);
    assert_eq!(snapshot.power.consumption.watts, 19);
    assert_eq!(snapshot.energy.grid_import.watt_hours, 2_991_999);
    assert_eq!(snapshot.energy.grid_export.watt_hours, 5_339_753);
    assert_eq!(snapshot.energy.solar_production.watt_hours, 0);
    assert!(snapshot.battery.is_none());
    assert!(snapshot.inverters.is_empty());
    assert!(snapshot.phases.is_empty());
    assert_eq!(snapshot.system.date, None);
    assert_eq!(snapshot.system.ip_address, None);
    assert_eq!(snapshot.system.firmware_version, "");
}

#[test]
fn readme_power_flow() {
    let mut pairs = base();
    pairs.push(("battery1Power1", "-1140 W"));
    pairs.push(("battery1Soc1", "49%"));
    pairs.push(("dateValue", "2026-06-25"));
    pairs.push(("version", "EM3  00.01.10.02"));
    let snapshot = EnergySnapshot::from_smartfox_values(&values(&pairs)).unwrap();
    assert_eq!(snapshot.power.consumption.watts, 1159);
    assert_eq!(snapshot.power.battery_power.map(|p| p.watts), Some(-1140));
    let battery = snapshot.battery.expect("battery");
    assert_eq!(battery.state_of_charge.percent.as_str(), "49");
    assert_eq!(battery.power.map(|p| p.watts), Some(-1140));
    assert!(battery.temperature.is_none());
    assert_eq!(snapshot.system.date.as_deref(), Some("2026-06-25"));
    assert_eq!(snapshot.system.firmware_version, "EM3  00.01.10.02");
}

#[test]
fn consumption_never_negative() {
    let mut pairs = base();
    pairs[1] = ("hidPower", "-500 W");
    let snapshot = EnergySnapshot::from_smartfox_values(&values(&pairs)).unwrap();
    assert_eq!(snapshot.power.consumption.watts, 0);
    assert_eq!(snapshot.power.grid_export.watts, 500);
}

#[test]
fn battery_key_selection() {
    let mut pairs = base();
    pairs.push(("battery1Power", "100 W"));
    pairs.push(("battery1Power1", "200 W"));
    let snapshot = EnergySnapshot::from_smartfox_values(&values(&pairs)).unwrap();
    assert_eq!(snapshot.power.battery_power.map(|p| p.watts), Some(200));

    pairs.push(("hidBsHuawei2Luna2", "1"));
    pairs.push(("hidBsProd", "18"));
    let snapshot = EnergySnapshot::from_smartfox_values(&values(&pairs)).unwrap();
    assert_eq!(snapshot.power.battery_power.map(|p| p.watts), Some(100));

    let mut pairs = base();
    pairs.push(("battery1Power", "100 W"));
    let snapshot = EnergySnapshot::from_smartfox_values(&values(&pairs)).unwrap();
    assert_eq!(snapshot.power.battery_power.map(|p| p.watts), Some(100));
}

#[test]
fn inverters_and_phases() {
    let mut pairs = base();
    pairs.push(("wr1PowerValue", "1 kW"));
    pairs.push(("wr1EnergyValue", "10 kWh"));
    pairs.push(("wr2PowerValue", "2 kW"));
    pairs.push(("wr3PowerValue", "3 kW"));
    pairs.push(("wr3EnergyValue", "30 kWh"));
    pairs.push(("voltageL2Value", "236 V"));
    pairs.push(("ampereL2Value", "3.16 A"));
    pairs.push(("powerL2Value", "187 W"));
    pairs.push(("voltageL3Value", "234 V"));
    let snapshot = EnergySnapshot::from_smartfox_values(&values(&pairs)).unwrap();
    let indices: Vec<u8> = snapshot.inverters.iter().map(|i| i.index).collect();
    assert_eq!(indices, vec![1, 3]);
    assert_eq!(snapshot.energy.solar_production.watt_hours, 40_000);
    assert_eq!(snapshot.phases.len(), 1);
    assert_eq!(snapshot.phases[0].phase, GridPhase::L2);
    assert_eq!(snapshot.phases[0].current.amperes.as_str(), "3.16");
    assert_eq!(snapshot.phases[0].power.watts, 187);
}

#[test]
fn missing_and_invalid_fields() {
    let pairs = &base()[1..];
    assert_eq!(
        EnergySnapshot::from_smartfox_values(&values(pairs)),
        Err(Error::MissingField {
            field: "hidProduction".to_owned()
        })
    );
    let mut pairs = base();
    pairs.push(("wr2EnergyValue", "lots"));
    assert_eq!(
        EnergySnapshot::from_smartfox_values(&values(&pairs)),
        Err(Error::InvalidMeasurement {
            field: "wr2EnergyValue".to_owned(),
            value: "lots".to_owned(),
            source: MeasurementParseError::InvalidNumber,
        })
    );
    let mut pairs = base();
    pairs.push(("battery1Temperature", "30 K"));
    assert_eq!(
        EnergySnapshot::from_smartfox_values(&values(&pairs)),
        Err(Error::InvalidMeasurement {
            field: "battery1Temperature".to_owned(),
            value: "30 K".to_owned(),
            source: MeasurementParseError::UnsupportedUnit {
                unit: "K".to_owned(),
                expected: "°C"
            },
        })
    );
}

#[test]
fn device_address_and_version() {
    let mut pairs = base();
    pairs.push(("ipAddress", "10.97.59.174"));
    pairs.push(("version", "EM3  00.01.10.02"));
    let snapshot = EnergySnapshot::from_smartfox_values(&values(&pairs)).unwrap();
    assert_eq!(snapshot.system.ip_address, Some(IpAddress::V4 { octets: [10, 97, 59, 174] }));
    assert_eq!(snapshot.system.firmware_version, "EM3  00.01.10.02");
    let mut pairs = base();
    pairs.push(("ipAddress", "not an address"));
    let snapshot = EnergySnapshot::from_smartfox_values(&values(&pairs)).unwrap();
    assert_eq!(snapshot.system.ip_address, None);
}
