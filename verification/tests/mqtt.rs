use hafox::model::{
    BatteryState, Current, Energy, EnergySnapshot, EnergyTotals, GridPhase, NumberText, Percent,
    PhaseMeasurement, Power, PowerFlow, SystemStatus, Temperature, Voltage,
};
use hafox::mqtt::sensor_definitions;

fn number(text: &str) -> NumberText {
    NumberText::new(text).expect("number should be valid")
}

/// Builds sensors for available optional fields.
#[test]
fn builds_sensor_definitions() {
    let snapshot = EnergySnapshot {
        system: SystemStatus {
            date: Some("2026-06-25".to_owned()),
            time: Some("01:07:09".to_owned()),
            ip_address: Some("10.97.59.174".parse().expect("IP should parse")),
            firmware_version: "EM3".to_owned(),
        },
        power: PowerFlow {
            production: Power { watts: 1 },
            grid_net: Power { watts: 2 },
            grid_import: Power { watts: 2 },
            grid_export: Power { watts: 0 },
            battery_power: Some(Power { watts: -3 }),
            consumption: Power { watts: 4 },
        },
        energy: EnergyTotals {
            grid_import: Energy { watt_hours: 5 },
            grid_export: Energy { watt_hours: 6 },
            solar_production: Energy { watt_hours: 7 },
        },
        battery: Some(BatteryState {
            state_of_charge: Percent { percent: number("8.0") },
            power: Some(Power { watts: -3 }),
            temperature: Some(Temperature { celsius: number("9.0") }),
        }),
        inverters: Vec::new(),
        phases: vec![PhaseMeasurement {
            phase: GridPhase::L1,
            voltage: Voltage { volts: number("10.0") },
            current: Current { amperes: number("11.0") },
            power: Power { watts: 12 },
        }],
    };

    let sensors = sensor_definitions(&snapshot);

    assert_eq!(sensors.len(), 12);
    assert!(
        sensors
            .iter()
            .any(|sensor| sensor.unique_id == "hafox_smartfox_battery_power")
    );
}
