use hafox::model::EnergySnapshot;
use hafox::mqtt::{
    availability_payload, availability_topic, discovery_topic, energy_sensor, power_sensor,
    sensor_definitions, state_topic, unique_id, PhasePayload, StatePayload,
};
use hafox::smartfox::SmartFoxValues;

fn snapshot(extra: &[(&str, &str)]) -> EnergySnapshot {
    let mut values = SmartFoxValues::new();
    for (k, v) in [
        ("hidProduction", "1 kW"),
        ("hidPower", "51 W"),
        ("energyValue", "2992.004 kWh"),
        ("eToGridValue", "5339.753 kWh"),
        ("wr1PowerValue", "0 W"),
        ("wr1EnergyValue", "13499.8 kWh"),
    ]
    .iter()
    .chain(extra.iter())
    {
        values.insert((*k).to_owned(), (*v).to_owned());
    }
    EnergySnapshot::from_smartfox_values(&values).expect("snapshot should build")
}

#[test]
fn sensors_follow_available_fields() {
    assert_eq!(sensor_definitions(&snapshot(&[])).len(), 6);
    let full = snapshot(&[
        ("battery1Power", "-1100 W"),
        ("battery1Soc", "49%"),
        ("battery1Temperature", "31 °C"),
        ("voltageL1Value", "235 V"),
        ("ampereL1Value", "1.66 A"),
        ("powerL1Value", "180 W"),
        ("voltageL3Value", "234 V"),
        ("ampereL3Value", "1.39 A"),
        ("powerL3Value", "-316 W"),
    ]);
    let sensors = sensor_definitions(&full);
    assert_eq!(sensors.len(), 6 + 1 + 2 + 6);
    assert!(sensors.iter().all(|s| s.unique_id.starts_with("hafox_smartfox_")));
    let l3 = sensors
        .iter()
        .find(|s| s.unique_id == "hafox_smartfox_l3_current")
        .expect("L3 current sensor");
    assert_eq!(l3.name, "L3 current");
    assert_eq!(l3.value_template, "{{ value_json.phases.l3.current_a }}");
    assert_eq!(l3.unit, Some("A"));
    let soc = &sensors[7];
    assert_eq!(soc.unique_id, "hafox_smartfox_battery_state_of_charge");
    assert_eq!(soc.device_class, Some("battery"));
}

#[test]
fn sensor_builders() {
    assert_eq!(unique_id("x"), "hafox_smartfox_x");
    let p = power_sensor("grid_net_power", "Grid net power", "{{ t }}");
    assert_eq!(p.unique_id, "hafox_smartfox_grid_net_power");
    assert_eq!(p.unit, Some("W"));
    assert_eq!(p.state_class, Some("measurement"));
    let e = energy_sensor("e", "E", "{{ e }}");
    assert_eq!(e.unit, Some("Wh"));
    assert_eq!(e.state_class, Some("total_increasing"));
    assert_eq!(e.device_class, Some("energy"));
}

#[test]
fn discovery_payload_and_topics() {
    let full = snapshot(&[("version", "EM3  00.01.10.02")]);
    let sensor = &sensor_definitions(&full)[0];
    let d = sensor.discovery("hafox", &full);
    assert_eq!(d.state_topic, "hafox/state");
    assert_eq!(d.availability_topic, "hafox/status");
    assert_eq!(d.object_id, "hafox_smartfox_solar_production_power");
    assert_eq!(d.payload_available, "online");
    assert_eq!(d.payload_not_available, "offline");
    assert_eq!(d.device.sw_version, "EM3  00.01.10.02");
    assert_eq!(d.device.identifiers, ["hafox_smartfox"]);
    assert_eq!(state_topic("p"), "p/state");
    assert_eq!(availability_topic("p"), "p/status");
    assert_eq!(
        discovery_topic("homeassistant", "hafox_smartfox_x"),
        "homeassistant/sensor/hafox_smartfox_x/config"
    );
    assert_eq!(availability_payload(true), "online");
    assert_eq!(availability_payload(false), "offline");
}

#[test]
fn state_payload_matches_readme() {
    let full = snapshot(&[
        ("hidProduction", "0 W"),
        ("battery1Power", "-1100 W"),
        ("battery1Soc", "49.0%"),
        ("battery1Temperature", "31.0 °C"),
        ("voltageL1Value", "235.0 V"),
        ("ampereL1Value", "1.66 A"),
        ("powerL1Value", "180 W"),
    ]);
    let state = StatePayload::from_snapshot(&full, 1_782_424_028);
    assert_eq!(state.timestamp, 1_782_424_028);
    assert_eq!(state.power.solar_production_w, 0);
    assert_eq!(state.power.grid_net_w, 51);
    assert_eq!(state.power.battery_w, Some(1100));
    assert_eq!(state.power.site_consumption_w, 1151);
    assert_eq!(state.energy.grid_import_wh, 2_992_004);
    assert_eq!(state.energy.solar_production_wh, 13_499_800);
    let battery = state.battery.expect("battery");
    assert_eq!(battery.state_of_charge_pct.as_str(), "49.0");
    assert_eq!(battery.temperature_c.map(|t| t.as_str().to_owned()), Some("31.0".to_owned()));
    let l1 = state.phases.l1.expect("L1");
    assert_eq!(l1.current_a.as_str(), "1.66");
    assert_eq!(l1.power_w, 180);
    assert!(state.phases.l2.is_none());
}

#[test]
fn later_phase_measurement_wins() {
    let full = snapshot(&[
        ("voltageL1Value", "230 V"),
        ("ampereL1Value", "1 A"),
        ("powerL1Value", "230 W"),
    ]);
    let mut phases = full.phases.clone();
    let mut second = phases[0].clone();
    second.power.watts = 7;
    phases.push(second);
    let payload = PhasePayload::from_phases(&phases);
    assert_eq!(payload.l1.map(|p| p.power_w), Some(7));
}
