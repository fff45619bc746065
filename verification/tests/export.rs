use hafox::model::{Energy, EnergySnapshot, EnergyTotals};
use hafox::run::{
    validate_lifetime_counter, validate_lifetime_counters, Error, MqttArgs, RunState,
    UpdateAction, UpdateEvent,
};
use hafox::smartfox::SmartFoxValues;

fn args(username: Option<&str>, password: Option<&str>) -> MqttArgs {
    MqttArgs {
        mqtt_host: "localhost".to_owned(),
        mqtt_port: 1883,
        mqtt_client_id: "hafox".to_owned(),
        mqtt_username: username.map(str::to_owned),
        mqtt_password: password.map(str::to_owned),
        mqtt_discovery_prefix: "homeassistant".to_owned(),
        mqtt_topic_prefix: "hafox".to_owned(),
    }
}

#[test]
fn credentials_need_both_parts() {
    let config = args(Some("u"), Some("p")).into_config().ok().expect("config");
    let credentials = config.credentials.expect("credentials");
    assert_eq!(credentials.username, "u");
    assert_eq!(credentials.password, "p");
    assert_eq!(config.port, 1883);
    assert_eq!(config.topic_prefix, "hafox");
    assert!(args(None, None).into_config().ok().expect("config").credentials.is_none());
    assert_eq!(args(Some("u"), None).into_config().err(), Some(Error::MissingMqttPassword));
    assert_eq!(args(None, Some("p")).into_config().err(), Some(Error::MissingMqttUsername));
}

fn totals(import: i64, export: i64, solar: i64) -> EnergyTotals {
    EnergyTotals {
        grid_import: Energy { watt_hours: import },
        grid_export: Energy { watt_hours: export },
        solar_production: Energy { watt_hours: solar },
    }
}

fn snapshot_with(energy: EnergyTotals) -> EnergySnapshot {
    let values = SmartFoxValues::from_pairs([
        ("hidProduction", "0 W"),
        ("hidPower", "0 W"),
        ("energyValue", "0 Wh"),
        ("eToGridValue", "0 Wh"),
    ]);
    let mut snapshot = EnergySnapshot::from_smartfox_values(&values).unwrap();
    snapshot.energy = energy;
    snapshot
}

#[test]
fn lifetime_counters() {
    let s = snapshot_with(totals(10, 20, 30));
    assert_eq!(validate_lifetime_counters(&s, None), Ok(()));
    assert_eq!(validate_lifetime_counters(&s, Some(&totals(10, 20, 30))), Ok(()));
    assert_eq!(
        validate_lifetime_counters(&s, Some(&totals(11, 20, 30))),
        Err(Error::DecreasedLifetimeCounter {
            field: "grid_import",
            previous: 11,
            current: 10
        })
    );
    assert_eq!(
        validate_lifetime_counters(&s, Some(&totals(10, 21, 31))),
        Err(Error::DecreasedLifetimeCounter {
            field: "grid_export",
            previous: 21,
            current: 20
        })
    );
    assert_eq!(
        validate_lifetime_counters(&s, Some(&totals(0, 0, 31))),
        Err(Error::DecreasedLifetimeCounter {
            field: "solar_production",
            previous: 31,
            current: 30
        })
    );
    let zero = snapshot_with(totals(10, 20, 0));
    assert_eq!(
        validate_lifetime_counters(&zero, None),
        Err(Error::InvalidLifetimeCounter {
            field: "solar_production",
            value: 0
        })
    );
    assert_eq!(validate_lifetime_counter("x", 5, 5), Ok(()));
    assert!(validate_lifetime_counter("x", 6, 5).is_err());
}

#[test]
fn update_cycle_publishes_discovery_once() {
    let s = RunState::default();
    let (s, a) = s.step(UpdateEvent::Tick);
    assert_eq!(a, UpdateAction::FetchSnapshot);
    let (s, a) = s.step(UpdateEvent::SnapshotFetched);
    assert_eq!(a, UpdateAction::ReadRetained);
    let (s, a) = s.step(UpdateEvent::SnapshotReady);
    assert_eq!(a, UpdateAction::Connect);
    let (s, a) = s.step(UpdateEvent::Connected);
    assert_eq!(a, UpdateAction::PublishDiscovery);
    let (s, a) = s.step(UpdateEvent::DiscoveryPublished);
    assert_eq!(a, UpdateAction::PublishState);
    let (s, a) = s.step(UpdateEvent::StatePublished);
    assert_eq!(a, UpdateAction::PublishOnline);
    let (s, a) = s.step(UpdateEvent::OnlinePublished);
    assert_eq!(a, UpdateAction::Wait);
    let (s, _) = s.step(UpdateEvent::Tick);
    let (s, a) = s.step(UpdateEvent::SnapshotFetched);
    assert_eq!(a, UpdateAction::ReadRetained);
    let (s, a) = s.step(UpdateEvent::SnapshotReady);
    assert_eq!(a, UpdateAction::PublishState);
    let (s, a) = s.step(UpdateEvent::MqttFailed);
    assert_eq!(a, UpdateAction::Wait);
    assert!(!s.connected);
    assert!(s.discovery_published);
    let (s, a) = s.step(UpdateEvent::SnapshotFailed);
    assert_eq!(a, UpdateAction::Wait);
    let (s, a) = s.step(UpdateEvent::Connected);
    assert_eq!(a, UpdateAction::PublishState);
    let (_, a) = s.step(UpdateEvent::CountersRejected);
    assert_eq!(a, UpdateAction::PublishOffline);
}

#[test]
fn failed_fetch_skips_retained_counters() {
    let connected = RunState { connected: true, discovery_published: true };
    let (s, a) = connected.step(UpdateEvent::Tick);
    assert_eq!(a, UpdateAction::FetchSnapshot);
    let (s, a) = s.step(UpdateEvent::SnapshotFailed);
    assert_eq!(s, connected);
    assert_eq!(a, UpdateAction::PublishOffline);
    let (s, a) = RunState::default().step(UpdateEvent::SnapshotFailed);
    assert_eq!(s, RunState::default());
    assert_eq!(a, UpdateAction::Wait);
}
