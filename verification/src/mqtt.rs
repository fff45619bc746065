//! Home Assistant MQTT discovery and state payloads, and MQTT connection settings.

use vstd::prelude::*;
use crate::model::{
    EnergySnapshot, GridPhase, NumberText, PhaseMeasurement, PhaseView, SnapshotView, clamp_i64,
};

verus! {

/// Describes MQTT connection settings.
pub struct MqttConfig {
    /// MQTT broker host name or address.
    pub host: String,
    /// MQTT broker TCP port.
    pub port: u16,
    /// MQTT client identifier.
    pub client_id: String,
    /// Optional broker credentials.
    pub credentials: Option<MqttCredentials>,
    /// Home Assistant discovery topic prefix.
    pub discovery_prefix: String,
    /// Topic prefix for hafox state topics.
    pub topic_prefix: String,
}

/// Stores MQTT credentials.
pub struct MqttCredentials {
    /// MQTT user name.
    pub username: String,
    /// MQTT password.
    pub password: String,
}

/// The characters of an optional static string.
pub open spec fn opt_str(o: Option<&'static str>) -> Option<Seq<char>> {
    match o {
        Some(s) => Some(s@),
        None => None,
    }
}

/// Describes one Home Assistant sensor.
#[derive(Clone, Debug, PartialEq)]
pub struct SensorDefinition {
    /// Unique Home Assistant entity identifier.
    pub unique_id: String,
    /// Human-readable entity name.
    pub name: String,
    /// Template extracting the entity state from the shared payload.
    pub value_template: String,
    /// Home Assistant unit of measurement.
    pub unit: Option<&'static str>,
    /// Home Assistant device class.
    pub device_class: Option<&'static str>,
    /// Home Assistant state class.
    pub state_class: Option<&'static str>,
    /// Home Assistant icon.
    pub icon: Option<&'static str>,
}

/// A [`SensorDefinition`] with its texts as character sequences.
pub struct SensorView {
    pub unique_id: Seq<char>,
    pub name: Seq<char>,
    pub value_template: Seq<char>,
    pub unit: Option<Seq<char>>,
    pub device_class: Option<Seq<char>>,
    pub state_class: Option<Seq<char>>,
    pub icon: Option<Seq<char>>,
}

impl View for SensorDefinition {
    type V = SensorView;

    open spec fn view(&self) -> SensorView {
        SensorView {
            unique_id: self.unique_id@,
            name: self.name@,
            value_template: self.value_template@,
            unit: opt_str(self.unit),
            device_class: opt_str(self.device_class),
            state_class: opt_str(self.state_class),
            icon: opt_str(self.icon),
        }
    }
}

/// The views of a list of sensors.
pub open spec fn sensor_views(s: Seq<SensorDefinition>) -> Seq<SensorView> {
    s.map_values(|d: SensorDefinition| d@)
}

/// `hafox_smartfox_<suffix>`.
pub open spec fn unique_id_text(suffix: Seq<char>) -> Seq<char> {
    "hafox_smartfox_"@ + suffix
}

/// A measurement sensor with the given unit and device class.
pub open spec fn measurement_sensor(unique_id: Seq<char>, name: Seq<char>, template: Seq<char>, unit: Seq<char>, class: Seq<char>) -> SensorView {
    SensorView {
        unique_id,
        name,
        value_template: template,
        unit: Some(unit),
        device_class: Some(class),
        state_class: Some("measurement"@),
        icon: None,
    }
}

/// A power sensor in watts.
pub open spec fn power_sensor_view(suffix: Seq<char>, name: Seq<char>, template: Seq<char>) -> SensorView {
    measurement_sensor(unique_id_text(suffix), name, template, "W"@, "power"@)
}

/// An ever-increasing energy sensor in watt-hours.
pub open spec fn energy_sensor_view(suffix: Seq<char>, name: Seq<char>, template: Seq<char>) -> SensorView {
    SensorView {
        unique_id: unique_id_text(suffix),
        name,
        value_template: template,
        unit: Some("Wh"@),
        device_class: Some("energy"@),
        state_class: Some("total_increasing"@),
        icon: None,
    }
}

/// The sensors that every snapshot has.
pub open spec fn base_sensors() -> Seq<SensorView> {
    seq![
        power_sensor_view("solar_production_power"@, "Solar production power"@, "{{ value_json.power.solar_production_w }}"@),
        power_sensor_view("grid_net_power"@, "Grid net power"@, "{{ value_json.power.grid_net_w }}"@),
        power_sensor_view("site_consumption_power"@, "Site consumption power"@, "{{ value_json.power.site_consumption_w }}"@),
        energy_sensor_view("grid_import_energy_total"@, "Grid import energy total"@, "{{ value_json.energy.grid_import_wh }}"@),
        energy_sensor_view("grid_export_energy_total"@, "Grid export energy total"@, "{{ value_json.energy.grid_export_wh }}"@),
        energy_sensor_view("solar_production_energy_total"@, "Solar production energy total"@, "{{ value_json.energy.solar_production_wh }}"@),
    ]
}

/// The battery power sensor.
pub open spec fn battery_power_sensor() -> SensorView {
    power_sensor_view("battery_power"@, "Battery power"@, "{{ value_json.power.battery_w }}"@)
}

/// The battery state of charge sensor.
pub open spec fn battery_soc_sensor() -> SensorView {
    measurement_sensor(
        unique_id_text("battery_state_of_charge"@),
        "Battery state of charge"@,
        "{{ value_json.battery.state_of_charge_pct }}"@,
        "%"@,
        "battery"@,
    )
}

/// The battery temperature sensor.
pub open spec fn battery_temperature_sensor() -> SensorView {
    measurement_sensor(
        unique_id_text("battery_temperature"@),
        "Battery temperature"@,
        "{{ value_json.battery.temperature_c }}"@,
        "\u{b0}C"@,
        "temperature"@,
    )
}

/// `l1`, `l2` or `l3`.
pub open spec fn phase_name(p: GridPhase) -> Seq<char> {
    match p {
        GridPhase::L1 => seq!['l', '1'],
        GridPhase::L2 => seq!['l', '2'],
        GridPhase::L3 => seq!['l', '3'],
    }
}

/// `L1`, `L2` or `L3`.
pub open spec fn phase_upper(p: GridPhase) -> Seq<char> {
    match p {
        GridPhase::L1 => seq!['L', '1'],
        GridPhase::L2 => seq!['L', '2'],
        GridPhase::L3 => seq!['L', '3'],
    }
}

/// `{{ value_json.phases.<phase><rest>`, where `rest` is the field and the closing braces.
pub open spec fn phase_template(p: GridPhase, rest: Seq<char>) -> Seq<char> {
    "{{ value_json.phases."@ + phase_name(p) + rest
}

/// The power, voltage and current sensors of one phase.
pub open spec fn phase_sensors(p: GridPhase) -> Seq<SensorView> {
    seq![
        power_sensor_view(phase_name(p) + "_power"@, phase_upper(p) + " power"@, phase_template(p, ".power_w }}"@)),
        measurement_sensor(
            unique_id_text(phase_name(p) + "_voltage"@),
            phase_upper(p) + " voltage"@,
            phase_template(p, ".voltage_v }}"@),
            "V"@,
            "voltage"@,
        ),
        measurement_sensor(
            unique_id_text(phase_name(p) + "_current"@),
            phase_upper(p) + " current"@,
            phase_template(p, ".current_a }}"@),
            "A"@,
            "current"@,
        ),
    ]
}

/// The sensors of all reported phases, in order.
pub open spec fn phases_sensors(ps: Seq<PhaseView>) -> Seq<SensorView>
    decreases ps.len(),
{
    if ps.len() == 0 {
        Seq::empty()
    } else {
        phases_sensors(ps.drop_last()) + phase_sensors(ps.last().phase)
    }
}

/// The Home Assistant sensors of a snapshot: the six that always exist, battery power when it is
/// reported, state of charge and then temperature when a battery state with them is reported,
/// and three per reported phase.
pub open spec fn snapshot_sensors(s: SnapshotView) -> Seq<SensorView> {
    let battery_power: Seq<SensorView> = if s.power.battery_power is Some {
        seq![battery_power_sensor()]
    } else {
        Seq::empty()
    };
    let battery: Seq<SensorView> = match s.battery {
        Some(b) => if b.temperature is Some {
            seq![battery_soc_sensor(), battery_temperature_sensor()]
        } else {
            seq![battery_soc_sensor()]
        },
        None => Seq::empty(),
    };
    base_sensors() + battery_power + battery + phases_sensors(s.phases)
}

/// Joins two texts.
fn concat2(a: &str, b: &str) -> (r: String)
    ensures
        r@ == a@ + b@,
{
    let mut r = a.to_owned();
    r.append(b);
    r
}

/// Joins three texts.
fn concat3(a: &str, b: &str, c: &str) -> (r: String)
    ensures
        r@ == a@ + b@ + c@,
{
    let mut r = a.to_owned();
    r.append(b);
    r.append(c);
    r
}

/// Builds a stable Home Assistant unique identifier.
pub fn unique_id(suffix: &str) -> (r: String)
    ensures
        r@ == unique_id_text(suffix@),
{
    let mut r = "hafox_smartfox_".to_owned();
    r.append(suffix);
    r
}

/// Builds a power sensor definition.
pub fn power_sensor(suffix: &str, name: &str, value_template: &str) -> (r: SensorDefinition)
    ensures
        r@ == power_sensor_view(suffix@, name@, value_template@),
{
    SensorDefinition {
        unique_id: unique_id(suffix),
        name: name.to_owned(),
        value_template: value_template.to_owned(),
        unit: Some("W"),
        device_class: Some("power"),
        state_class: Some("measurement"),
        icon: None,
    }
}

/// Builds an energy sensor definition.
pub fn energy_sensor(suffix: &str, name: &str, value_template: &str) -> (r: SensorDefinition)
    ensures
        r@ == energy_sensor_view(suffix@, name@, value_template@),
{
    SensorDefinition {
        unique_id: unique_id(suffix),
        name: name.to_owned(),
        value_template: value_template.to_owned(),
        unit: Some("Wh"),
        device_class: Some("energy"),
        state_class: Some("total_increasing"),
        icon: None,
    }
}

fn measurement(unique_id: String, name: String, value_template: String, unit: &'static str, class: &'static str) -> (r: SensorDefinition)
    ensures
        r@ == measurement_sensor(unique_id@, name@, value_template@, unit@, class@),
{
    SensorDefinition {
        unique_id,
        name,
        value_template,
        unit: Some(unit),
        device_class: Some(class),
        state_class: Some("measurement"),
        icon: None,
    }
}

fn push_phase_sensors(sensors: &mut Vec<SensorDefinition>, phase: GridPhase)
    ensures
        sensor_views(final(sensors)@) == sensor_views(old(sensors)@) + phase_sensors(phase),
{
    let (short, label) = match phase {
        GridPhase::L1 => ("l1", "L1"),
        GridPhase::L2 => ("l2", "L2"),
        GridPhase::L3 => ("l3", "L3"),
    };
    proof {
        reveal_strlit("l1");
        reveal_strlit("l2");
        reveal_strlit("l3");
        reveal_strlit("L1");
        reveal_strlit("L2");
        reveal_strlit("L3");
    }
    assert(short@ == phase_name(phase));
    assert(label@ == phase_upper(phase));
    let power_suffix = concat2(short, "_power");
    let power_label = concat2(label, " power");
    let power_template = concat3("{{ value_json.phases.", short, ".power_w }}");
    let ghost before = sensor_views(sensors@);
    let p = power_sensor(power_suffix.as_str(), power_label.as_str(), power_template.as_str());
    let v = measurement(
        unique_id(concat2(short, "_voltage").as_str()),
        concat2(label, " voltage"),
        concat3("{{ value_json.phases.", short, ".voltage_v }}"),
        "V",
        "voltage",
    );
    let c = measurement(
        unique_id(concat2(short, "_current").as_str()),
        concat2(label, " current"),
        concat3("{{ value_json.phases.", short, ".current_a }}"),
        "A",
        "current",
    );
    proof {
        assert(p@ == phase_sensors(phase)[0]);
        assert(v@ == phase_sensors(phase)[1]);
        assert(c@ == phase_sensors(phase)[2]);
    }
    sensors.push(p);
    sensors.push(v);
    sensors.push(c);
    assert(sensor_views(sensors@) =~= before + phase_sensors(phase));
}

/// Returns Home Assistant sensors for the available snapshot fields.
pub fn sensor_definitions(snapshot: &EnergySnapshot) -> (r: Vec<SensorDefinition>)
    ensures
        sensor_views(r@) == snapshot_sensors(snapshot@),
{
    let mut sensors: Vec<SensorDefinition> = Vec::new();
    sensors.push(power_sensor(
        "solar_production_power",
        "Solar production power",
        "{{ value_json.power.solar_production_w }}",
    ));
    sensors.push(power_sensor("grid_net_power", "Grid net power", "{{ value_json.power.grid_net_w }}"));
    sensors.push(power_sensor(
        "site_consumption_power",
        "Site consumption power",
        "{{ value_json.power.site_consumption_w }}",
    ));
    sensors.push(energy_sensor(
        "grid_import_energy_total",
        "Grid import energy total",
        "{{ value_json.energy.grid_import_wh }}",
    ));
    sensors.push(energy_sensor(
        "grid_export_energy_total",
        "Grid export energy total",
        "{{ value_json.energy.grid_export_wh }}",
    ));
    sensors.push(energy_sensor(
        "solar_production_energy_total",
        "Solar production energy total",
        "{{ value_json.energy.solar_production_wh }}",
    ));
    assert(sensor_views(sensors@) =~= base_sensors());
    let ghost with_base = sensor_views(sensors@);
    if snapshot.power.battery_power.is_some() {
        sensors.push(power_sensor("battery_power", "Battery power", "{{ value_json.power.battery_w }}"));
    }
    let ghost with_power = sensor_views(sensors@);
    assert(with_power =~= with_base + if snapshot@.power.battery_power is Some {
        seq![battery_power_sensor()]
    } else {
        Seq::<SensorView>::empty()
    });
    match &snapshot.battery {
        Some(battery) => {
            sensors.push(measurement(
                unique_id("battery_state_of_charge"),
                "Battery state of charge".to_owned(),
                "{{ value_json.battery.state_of_charge_pct }}".to_owned(),
                "%",
                "battery",
            ));
            if battery.temperature.is_some() {
                sensors.push(measurement(
                    unique_id("battery_temperature"),
                    "Battery temperature".to_owned(),
                    "{{ value_json.battery.temperature_c }}".to_owned(),
                    "\u{b0}C",
                    "temperature",
                ));
            }
        },
        None => {},
    }
    let ghost with_battery = sensor_views(sensors@);
    assert(with_battery =~= with_power + match snapshot@.battery {
        Some(b) => if b.temperature is Some {
            seq![battery_soc_sensor(), battery_temperature_sensor()]
        } else {
            seq![battery_soc_sensor()]
        },
        None => Seq::<SensorView>::empty(),
    });
    let ghost phases = snapshot@.phases;
    let mut i: usize = 0;
    while i < snapshot.phases.len()
        invariant
            i <= snapshot.phases@.len(),
            phases == snapshot@.phases,
            phases.len() == snapshot.phases@.len(),
            forall|k: int| 0 <= k < phases.len() ==> (#[trigger] phases[k]).phase == snapshot.phases@[k].phase,
            sensor_views(sensors@) == with_battery + phases_sensors(phases.take(i as int)),
        decreases snapshot.phases@.len() - i,
    {
        assert(phases.take(i + 1).drop_last() == phases.take(i as int));
        push_phase_sensors(&mut sensors, snapshot.phases[i].phase);
        assert(with_battery + phases_sensors(phases.take(i as int)) + phase_sensors(phases[i as int].phase)
            == with_battery + (phases_sensors(phases.take(i as int)) + phase_sensors(phases[i as int].phase)));
        i = i + 1;
    }
    assert(phases.take(phases.len() as int) == phases);
    sensors
}


/// `<prefix>/state`, the topic of the shared state payload.
pub fn state_topic(topic_prefix: &str) -> (r: String)
    ensures
        r@ == topic_prefix@ + "/state"@,
{
    concat2(topic_prefix, "/state")
}

/// `<prefix>/status`, the availability topic.
pub fn availability_topic(topic_prefix: &str) -> (r: String)
    ensures
        r@ == topic_prefix@ + "/status"@,
{
    concat2(topic_prefix, "/status")
}

/// `<discovery prefix>/sensor/<unique id>/config`, where Home Assistant looks for a sensor.
pub fn discovery_topic(discovery_prefix: &str, unique_id: &str) -> (r: String)
    ensures
        r@ == discovery_prefix@ + "/sensor/"@ + unique_id@ + "/config"@,
{
    let mut r = concat3(discovery_prefix, "/sensor/", unique_id);
    r.append("/config");
    r
}

/// The availability payload: `online` or `offline`.
pub fn availability_payload(available: bool) -> (r: &'static str)
    ensures
        r@ == if available {
            "online"@
        } else {
            "offline"@
        },
{
    if available {
        "online"
    } else {
        "offline"
    }
}

/// Describes the Home Assistant device attached to all entities.
#[derive(Clone, Debug, PartialEq)]
pub struct DevicePayload {
    /// Stable device identifier.
    pub identifiers: [&'static str; 1],
    /// Human-readable device name.
    pub name: &'static str,
    /// Device manufacturer.
    pub manufacturer: &'static str,
    /// Firmware version reported by SmartFox.
    pub sw_version: String,
}

impl DevicePayload {
    /// Builds device metadata from a snapshot.
    pub fn from_snapshot(snapshot: &EnergySnapshot) -> (r: Self)
        ensures
            r.identifiers@.len() == 1,
            r.identifiers@[0]@ == "hafox_smartfox"@,
            r.name@ == "SmartFox"@,
            r.manufacturer@ == "SmartFox"@,
            r.sw_version@ == snapshot@.system.firmware_version,
    {
        let sw_version = snapshot.system.firmware_version.clone();
        let r = DevicePayload {
            identifiers: ["hafox_smartfox"],
            name: "SmartFox",
            manufacturer: "SmartFox",
            sw_version,
        };
        assert(r.identifiers@[0] == "hafox_smartfox");
        r
    }
}

/// Describes a Home Assistant MQTT discovery payload.
#[derive(Clone, Debug, PartialEq)]
pub struct DiscoveryPayload {
    /// Human-readable entity name.
    pub name: String,
    /// Preferred Home Assistant object identifier.
    pub object_id: String,
    /// Stable Home Assistant unique identifier.
    pub unique_id: String,
    /// MQTT topic carrying state JSON.
    pub state_topic: String,
    /// Home Assistant template extracting the state value.
    pub value_template: String,
    /// MQTT topic carrying availability state.
    pub availability_topic: String,
    /// Payload representing availability.
    pub payload_available: &'static str,
    /// Payload representing unavailability.
    pub payload_not_available: &'static str,
    /// Home Assistant unit of measurement.
    pub unit_of_measurement: Option<&'static str>,
    /// Home Assistant device class.
    pub device_class: Option<&'static str>,
    /// Home Assistant state class.
    pub state_class: Option<&'static str>,
    /// Home Assistant icon.
    pub icon: Option<&'static str>,
    /// Home Assistant device metadata.
    pub device: DevicePayload,
}

impl SensorDefinition {
    /// Builds the Home Assistant discovery payload.
    pub fn discovery(&self, topic_prefix: &str, snapshot: &EnergySnapshot) -> (r: DiscoveryPayload)
        ensures
            r.name@ == self.name@,
            r.object_id@ == self.unique_id@,
            r.unique_id@ == self.unique_id@,
            r.state_topic@ == topic_prefix@ + "/state"@,
            r.value_template@ == self.value_template@,
            r.availability_topic@ == topic_prefix@ + "/status"@,
            r.payload_available@ == "online"@,
            r.payload_not_available@ == "offline"@,
            r.unit_of_measurement == self.unit,
            r.device_class == self.device_class,
            r.state_class == self.state_class,
            r.icon == self.icon,
            r.device.identifiers@.len() == 1,
            r.device.identifiers@[0]@ == "hafox_smartfox"@,
            r.device.name@ == "SmartFox"@,
            r.device.manufacturer@ == "SmartFox"@,
            r.device.sw_version@ == snapshot@.system.firmware_version,
    {
        DiscoveryPayload {
            name: self.name.clone(),
            object_id: self.unique_id.clone(),
            unique_id: self.unique_id.clone(),
            state_topic: state_topic(topic_prefix),
            value_template: self.value_template.clone(),
            availability_topic: availability_topic(topic_prefix),
            payload_available: "online",
            payload_not_available: "offline",
            unit_of_measurement: self.unit,
            device_class: self.device_class,
            state_class: self.state_class,
            icon: self.icon,
            device: DevicePayload::from_snapshot(snapshot),
        }
    }
}

/// Describes live power measurements.
#[derive(Clone, Copy, Debug, PartialEq, Eq)]
pub struct PowerPayload {
    /// Solar production in watts.
    pub solar_production_w: i64,
    /// Signed net grid power in watts.
    pub grid_net_w: i64,
    /// Signed battery power in watts, with charging as negative.
    pub battery_w: Option<i64>,
    /// Site consumption in watts.
    pub site_consumption_w: i64,
}

/// Describes cumulative energy counters.
#[derive(Clone, Copy, Debug, PartialEq, Eq)]
pub struct EnergyPayload {
    /// Cumulative grid import in watt-hours.
    pub grid_import_wh: i64,
    /// Cumulative grid export in watt-hours.
    pub grid_export_wh: i64,
    /// Cumulative solar production in watt-hours.
    pub solar_production_wh: i64,
}

/// Describes battery measurements.
#[derive(Clone, Debug, PartialEq)]
pub struct BatteryPayload {
    /// Battery state of charge in percent.
    pub state_of_charge_pct: NumberText,
    /// Battery temperature in degrees Celsius.
    pub temperature_c: Option<NumberText>,
}

/// Describes one phase measurement payload.
#[derive(Clone, Debug, PartialEq)]
pub struct SinglePhasePayload {
    /// Phase voltage in volts.
    pub voltage_v: NumberText,
    /// Phase current in amperes.
    pub current_a: NumberText,
    /// Signed phase power in watts.
    pub power_w: i64,
}

/// Describes all available phase measurements.
#[derive(Clone, Debug, PartialEq)]
pub struct PhasePayload {
    /// First AC phase.
    pub l1: Option<SinglePhasePayload>,
    /// Second AC phase.
    pub l2: Option<SinglePhasePayload>,
    /// Third AC phase.
    pub l3: Option<SinglePhasePayload>,
}

/// Describes the shared MQTT state payload.
#[derive(Clone, Debug, PartialEq)]
pub struct StatePayload {
    /// Unix timestamp when the payload was produced.
    pub timestamp: u64,
    /// Live power measurements.
    pub power: PowerPayload,
    /// Cumulative energy counters.
    pub energy: EnergyPayload,
    /// Optional battery measurements.
    pub battery: Option<BatteryPayload>,
    /// Per-phase electrical measurements.
    pub phases: PhasePayload,
}

/// A phase payload's numbers as text.
pub struct SinglePhaseView {
    pub voltage_v: Seq<char>,
    pub current_a: Seq<char>,
    pub power_w: i64,
}

/// The view of an optional phase payload.
pub open spec fn single_phase_view(o: Option<SinglePhasePayload>) -> Option<SinglePhaseView> {
    match o {
        Some(p) => Some(SinglePhaseView { voltage_v: p.voltage_v@, current_a: p.current_a@, power_w: p.power_w }),
        None => None,
    }
}

/// The payload of the last measurement of phase `p` in `ps`, if there is one.
pub open spec fn last_of_phase(ps: Seq<PhaseView>, p: GridPhase) -> Option<SinglePhaseView>
    decreases ps.len(),
{
    if ps.len() == 0 {
        None
    } else if ps.last().phase == p {
        Some(SinglePhaseView { voltage_v: ps.last().voltage, current_a: ps.last().current, power_w: ps.last().power.watts })
    } else {
        last_of_phase(ps.drop_last(), p)
    }
}

impl PhasePayload {
    /// Builds phase payloads from normalized phase measurements; a later measurement of a phase
    /// replaces an earlier one.
    pub fn from_phases(phases: &[PhaseMeasurement]) -> (r: Self)
        ensures
            single_phase_view(r.l1) == last_of_phase(phases@.map_values(|p: PhaseMeasurement| p@), GridPhase::L1),
            single_phase_view(r.l2) == last_of_phase(phases@.map_values(|p: PhaseMeasurement| p@), GridPhase::L2),
            single_phase_view(r.l3) == last_of_phase(phases@.map_values(|p: PhaseMeasurement| p@), GridPhase::L3),
    {
        let ghost all = phases@.map_values(|p: PhaseMeasurement| p@);
        let mut payload = PhasePayload { l1: None, l2: None, l3: None };
        let mut i: usize = 0;
        while i < phases.len()
            invariant
                i <= phases@.len(),
                all == phases@.map_values(|p: PhaseMeasurement| p@),
                single_phase_view(payload.l1) == last_of_phase(all.take(i as int), GridPhase::L1),
                single_phase_view(payload.l2) == last_of_phase(all.take(i as int), GridPhase::L2),
                single_phase_view(payload.l3) == last_of_phase(all.take(i as int), GridPhase::L3),
            decreases phases@.len() - i,
        {
            assert(all.take(i + 1).drop_last() == all.take(i as int));
            assert(all.take(i + 1).last() == phases@[i as int]@);
            let phase = &phases[i];
            let value = SinglePhasePayload {
                voltage_v: phase.voltage.volts.clone(),
                current_a: phase.current.amperes.clone(),
                power_w: phase.power.watts,
            };
            match phase.phase {
                GridPhase::L1 => payload.l1 = Some(value),
                GridPhase::L2 => payload.l2 = Some(value),
                GridPhase::L3 => payload.l3 = Some(value),
            }
            i = i + 1;
        }
        assert(all.take(phases@.len() as int) == all);
        payload
    }
}

/// `x` negated, limited to the range of `i64`.
fn negated(x: i64) -> (r: i64)
    ensures
        r == clamp_i64(-x),
{
    if x == i64::MIN {
        i64::MAX
    } else {
        -x
    }
}

impl StatePayload {
    /// Builds a state payload from a normalized snapshot, stamped with `timestamp` (Unix seconds).
    pub fn from_snapshot(snapshot: &EnergySnapshot, timestamp: u64) -> (r: Self)
        ensures
            r.timestamp == timestamp,
            r.power.solar_production_w == snapshot.power.production.watts,
            r.power.grid_net_w == snapshot.power.grid_net.watts,
            r.power.battery_w == match snapshot.power.battery_power {
                Some(p) => Some(clamp_i64(-p.watts) as i64),
                None => None,
            },
            r.power.site_consumption_w == snapshot.power.consumption.watts,
            r.energy.grid_import_wh == snapshot.energy.grid_import.watt_hours,
            r.energy.grid_export_wh == snapshot.energy.grid_export.watt_hours,
            r.energy.solar_production_wh == snapshot.energy.solar_production.watt_hours,
            r.battery is Some <==> snapshot.battery is Some,
            r.battery matches Some(b) ==> b.state_of_charge_pct@ == snapshot@.battery->0.state_of_charge
                && match b.temperature_c {
                Some(t) => snapshot@.battery->0.temperature == Some(t@),
                None => snapshot@.battery->0.temperature is None,
            },
            single_phase_view(r.phases.l1) == last_of_phase(snapshot@.phases, GridPhase::L1),
            single_phase_view(r.phases.l2) == last_of_phase(snapshot@.phases, GridPhase::L2),
            single_phase_view(r.phases.l3) == last_of_phase(snapshot@.phases, GridPhase::L3),
    {
        let battery = match &snapshot.battery {
            Some(battery) => Some(BatteryPayload {
                state_of_charge_pct: battery.state_of_charge.percent.clone(),
                temperature_c: match &battery.temperature {
                    Some(t) => Some(t.celsius.clone()),
                    None => None,
                },
            }),
            None => None,
        };
        StatePayload {
            timestamp,
            power: PowerPayload {
                solar_production_w: snapshot.power.production.watts,
                grid_net_w: snapshot.power.grid_net.watts,
                battery_w: match snapshot.power.battery_power {
                    Some(p) => Some(negated(p.watts)),
                    None => None,
                },
                site_consumption_w: snapshot.power.consumption.watts,
            },
            energy: EnergyPayload {
                grid_import_wh: snapshot.energy.grid_import.watt_hours,
                grid_export_wh: snapshot.energy.grid_export.watt_hours,
                solar_production_wh: snapshot.energy.solar_production.watt_hours,
            },
            battery,
            phases: PhasePayload::from_phases(snapshot.phases.as_slice()),
        }
    }
}


/// Which field of the state payload each sensor reads: the suffix of its unique identifier and
/// the template that reads the field of that name (`power.<name>_w`, `energy.<name>_wh`,
/// `battery.state_of_charge_pct`, `battery.temperature_c`, `phases.<phase>.<quantity>`).
pub open spec fn payload_fields() -> Seq<(Seq<char>, Seq<char>)> {
    seq![
        ("solar_production_power"@, "{{ value_json.power.solar_production_w }}"@),
        ("grid_net_power"@, "{{ value_json.power.grid_net_w }}"@),
        ("site_consumption_power"@, "{{ value_json.power.site_consumption_w }}"@),
        ("grid_import_energy_total"@, "{{ value_json.energy.grid_import_wh }}"@),
        ("grid_export_energy_total"@, "{{ value_json.energy.grid_export_wh }}"@),
        ("solar_production_energy_total"@, "{{ value_json.energy.solar_production_wh }}"@),
        ("battery_power"@, "{{ value_json.power.battery_w }}"@),
        ("battery_state_of_charge"@, "{{ value_json.battery.state_of_charge_pct }}"@),
        ("battery_temperature"@, "{{ value_json.battery.temperature_c }}"@),
        ("l1_power"@, "{{ value_json.phases.l1.power_w }}"@),
        ("l1_voltage"@, "{{ value_json.phases.l1.voltage_v }}"@),
        ("l1_current"@, "{{ value_json.phases.l1.current_a }}"@),
        ("l2_power"@, "{{ value_json.phases.l2.power_w }}"@),
        ("l2_voltage"@, "{{ value_json.phases.l2.voltage_v }}"@),
        ("l2_current"@, "{{ value_json.phases.l2.current_a }}"@),
        ("l3_power"@, "{{ value_json.phases.l3.power_w }}"@),
        ("l3_voltage"@, "{{ value_json.phases.l3.voltage_v }}"@),
        ("l3_current"@, "{{ value_json.phases.l3.current_a }}"@),
    ]
}

/// Whether sensor `v` reads the payload field that its unique identifier names.
pub open spec fn reads_own_field(v: SensorView) -> bool {
    exists|j: int| 0 <= j < payload_fields().len() && v.unique_id == unique_id_text(
        (#[trigger] payload_fields()[j]).0,
    ) && v.value_template == payload_fields()[j].1
}

proof fn lemma_phase_sensors_read_own_fields(p: GridPhase)
    ensures
        forall|k: int| 0 <= k < 3 ==> reads_own_field(#[trigger] phase_sensors(p)[k]),
{
    reveal_strlit("_power");
    reveal_strlit("_voltage");
    reveal_strlit("_current");
    reveal_strlit("{{ value_json.phases.");
    reveal_strlit(".power_w }}");
    reveal_strlit(".voltage_v }}");
    reveal_strlit(".current_a }}");
    let f = payload_fields();
    let base: int = match p {
        GridPhase::L1 => 9,
        GridPhase::L2 => 12,
        GridPhase::L3 => 15,
    };
    let s = phase_sensors(p);
    match p {
        GridPhase::L1 => {
            reveal_strlit("l1_power");
            reveal_strlit("l1_voltage");
            reveal_strlit("l1_current");
            reveal_strlit("{{ value_json.phases.l1.power_w }}");
            reveal_strlit("{{ value_json.phases.l1.voltage_v }}");
            reveal_strlit("{{ value_json.phases.l1.current_a }}");
        },
        GridPhase::L2 => {
            reveal_strlit("l2_power");
            reveal_strlit("l2_voltage");
            reveal_strlit("l2_current");
            reveal_strlit("{{ value_json.phases.l2.power_w }}");
            reveal_strlit("{{ value_json.phases.l2.voltage_v }}");
            reveal_strlit("{{ value_json.phases.l2.current_a }}");
        },
        GridPhase::L3 => {
            reveal_strlit("l3_power");
            reveal_strlit("l3_voltage");
            reveal_strlit("l3_current");
            reveal_strlit("{{ value_json.phases.l3.power_w }}");
            reveal_strlit("{{ value_json.phases.l3.voltage_v }}");
            reveal_strlit("{{ value_json.phases.l3.current_a }}");
        },
    }
    assert(phase_name(p) + "_power"@ =~= f[base].0);
    assert(phase_template(p, ".power_w }}"@) =~= f[base].1);
    assert(phase_name(p) + "_voltage"@ =~= f[base + 1].0);
    assert(phase_template(p, ".voltage_v }}"@) =~= f[base + 1].1);
    assert(phase_name(p) + "_current"@ =~= f[base + 2].0);
    assert(phase_template(p, ".current_a }}"@) =~= f[base + 2].1);
    assert(reads_own_field(s[0]));
    assert(reads_own_field(s[1]));
    assert(reads_own_field(s[2]));
}

proof fn lemma_phases_sensors_read_own_fields(ps: Seq<PhaseView>)
    ensures
        forall|i: int| 0 <= i < phases_sensors(ps).len() ==> reads_own_field(#[trigger] phases_sensors(ps)[i]),
    decreases ps.len(),
{
    if ps.len() > 0 {
        lemma_phases_sensors_read_own_fields(ps.drop_last());
        lemma_phase_sensors_read_own_fields(ps.last().phase);
        let a = phases_sensors(ps.drop_last());
        let b = phase_sensors(ps.last().phase);
        assert forall|i: int| 0 <= i < (a + b).len() implies reads_own_field(#[trigger] (a + b)[i]) by {
            if i >= a.len() {
                assert((a + b)[i] == b[i - a.len()]);
            } else {
                assert((a + b)[i] == a[i]);
            }
        }
    }
}

/// Every sensor of a snapshot reads the state payload field that its unique identifier names, as
/// [`payload_fields`] pairs them: `grid_import_energy_total` reads `energy.grid_import_wh`,
/// `l2_voltage` reads `phases.l2.voltage_v`, and so on.
pub proof fn lemma_sensors_read_their_own_fields(s: SnapshotView)
    ensures
        forall|i: int| 0 <= i < snapshot_sensors(s).len() ==> reads_own_field(#[trigger] snapshot_sensors(s)[i]),
{
    lemma_phases_sensors_read_own_fields(s.phases);
    let f = payload_fields();
    let b = base_sensors();
    let battery_power: Seq<SensorView> = if s.power.battery_power is Some {
        seq![battery_power_sensor()]
    } else {
        Seq::empty()
    };
    let battery: Seq<SensorView> = match s.battery {
        Some(x) => if x.temperature is Some {
            seq![battery_soc_sensor(), battery_temperature_sensor()]
        } else {
            seq![battery_soc_sensor()]
        },
        None => Seq::empty(),
    };
    assert(reads_own_field(b[0])) by { assert(b[0].unique_id == unique_id_text(f[0].0)); }
    assert(reads_own_field(b[1])) by { assert(b[1].unique_id == unique_id_text(f[1].0)); }
    assert(reads_own_field(b[2])) by { assert(b[2].unique_id == unique_id_text(f[2].0)); }
    assert(reads_own_field(b[3])) by { assert(b[3].unique_id == unique_id_text(f[3].0)); }
    assert(reads_own_field(b[4])) by { assert(b[4].unique_id == unique_id_text(f[4].0)); }
    assert(reads_own_field(b[5])) by { assert(b[5].unique_id == unique_id_text(f[5].0)); }
    assert(reads_own_field(battery_power_sensor())) by {
        assert(battery_power_sensor().unique_id == unique_id_text(f[6].0));
    }
    assert(reads_own_field(battery_soc_sensor())) by {
        assert(battery_soc_sensor().unique_id == unique_id_text(f[7].0));
    }
    assert(reads_own_field(battery_temperature_sensor())) by {
        assert(battery_temperature_sensor().unique_id == unique_id_text(f[8].0));
    }
    let all = snapshot_sensors(s);
    let ph = phases_sensors(s.phases);
    assert(all == b + battery_power + battery + ph);
    assert forall|i: int| 0 <= i < all.len() implies reads_own_field(#[trigger] all[i]) by {
        let n1 = b.len() as int;
        let n2 = n1 + battery_power.len();
        let n3 = n2 + battery.len();
        if i < n1 {
            assert(all[i] == b[i]);
        } else if i < n2 {
            assert(all[i] == battery_power[i - n1]);
        } else if i < n3 {
            assert(all[i] == battery[i - n2]);
        } else {
            assert(all[i] == ph[i - n3]);
        }
    }
}

proof fn lemma_phases_sensors(ps: Seq<PhaseView>)
    ensures
        phases_sensors(ps).len() == 3 * ps.len(),
        forall|i: int| 0 <= i < phases_sensors(ps).len() ==> (#[trigger] phases_sensors(ps)[i]).unique_id.take(15)
            == "hafox_smartfox_"@,
    decreases ps.len(),
{
    reveal_strlit("hafox_smartfox_");
    if ps.len() > 0 {
        lemma_phases_sensors(ps.drop_last());
        let a = phases_sensors(ps.drop_last());
        let b = phase_sensors(ps.last().phase);
        assert forall|i: int| 0 <= i < (a + b).len() implies (#[trigger] (a + b)[i]).unique_id.take(15)
            == "hafox_smartfox_"@ by {
            if i >= a.len() {
                let id = b[i - a.len()].unique_id;
                assert(id.take(15) =~= "hafox_smartfox_"@);
            }
        }
    }
}

/// Every snapshot gets the six sensors that always exist, one for battery power when it is
/// reported, one for the state of charge and one for the temperature when a battery state with
/// them is reported, and three for every reported phase; every sensor's unique identifier starts
/// with `hafox_smartfox_`.
pub proof fn lemma_sensor_count(s: SnapshotView)
    ensures
        snapshot_sensors(s).len() == 6 + (if s.power.battery_power is Some {
            1int
        } else {
            0int
        }) + match s.battery {
            Some(b) => if b.temperature is Some {
                2int
            } else {
                1int
            },
            None => 0int,
        } + 3 * s.phases.len(),
        forall|i: int| 0 <= i < snapshot_sensors(s).len() ==> (#[trigger] snapshot_sensors(s)[i]).unique_id.take(15)
            == "hafox_smartfox_"@,
{
    reveal_strlit("hafox_smartfox_");
    lemma_phases_sensors(s.phases);
    let all = snapshot_sensors(s);
    assert forall|i: int| 0 <= i < all.len() implies (#[trigger] all[i]).unique_id.take(15) == "hafox_smartfox_"@ by {
        let id = all[i].unique_id;
        if i >= all.len() - phases_sensors(s.phases).len() {
            assert(all[i] == phases_sensors(s.phases)[i - (all.len() - phases_sensors(s.phases).len())]);
        } else {
            assert(id.take(15) =~= "hafox_smartfox_"@);
        }
    }
}

} // verus!
