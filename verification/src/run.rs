//! Rules of the export command: MQTT settings, lifetime counter checks and the update cycle.

use vstd::prelude::*;
use crate::model::{EnergySnapshot, EnergyTotals};
use crate::mqtt::{MqttConfig, MqttCredentials};

verus! {

/// MQTT settings as the command line gives them.
pub struct MqttArgs {
    /// MQTT broker host name or address.
    pub mqtt_host: String,
    /// MQTT broker TCP port.
    pub mqtt_port: u16,
    /// MQTT client identifier.
    pub mqtt_client_id: String,
    /// MQTT user name.
    pub mqtt_username: Option<String>,
    /// MQTT password.
    pub mqtt_password: Option<String>,
    /// Home Assistant discovery topic prefix.
    pub mqtt_discovery_prefix: String,
    /// hafox state topic prefix.
    pub mqtt_topic_prefix: String,
}

/// Reports export failures that the library decides.
#[derive(Clone, Copy, Debug, PartialEq, Eq)]
pub enum Error {
    /// Indicates that a username is needed for the configured password.
    MissingMqttUsername,
    /// Indicates that a lifetime counter is not safe to publish.
    InvalidLifetimeCounter {
        /// Counter field name.
        field: &'static str,
        /// Counter value.
        value: i64,
    },
    /// Indicates that a lifetime counter moved backwards.
    DecreasedLifetimeCounter {
        /// Counter field name.
        field: &'static str,
        /// Previous published value.
        previous: i64,
        /// Current candidate value.
        current: i64,
    },
    /// Indicates that a password is needed for the configured username.
    MissingMqttPassword,
}

impl MqttArgs {
    /// Converts command-line arguments into MQTT configuration: credentials need both a user
    /// name and a password, or neither.
    pub fn into_config(self) -> (r: Result<MqttConfig, Error>)
        ensures
            match (self.mqtt_username, self.mqtt_password) {
                (Some(u), Some(p)) => r matches Ok(c) && c.credentials matches Some(k) && k.username
                    == u && k.password == p,
                (None, None) => r matches Ok(c) && c.credentials is None,
                (Some(_), None) => r == Err::<MqttConfig, _>(Error::MissingMqttPassword),
                (None, Some(_)) => r == Err::<MqttConfig, _>(Error::MissingMqttUsername),
            },
            r matches Ok(c) ==> c.host == self.mqtt_host && c.port == self.mqtt_port && c.client_id
                == self.mqtt_client_id && c.discovery_prefix == self.mqtt_discovery_prefix
                && c.topic_prefix == self.mqtt_topic_prefix,
    {
        let credentials = match (self.mqtt_username, self.mqtt_password) {
            (Some(username), Some(password)) => Some(MqttCredentials { username, password }),
            (None, None) => None,
            (Some(_), None) => {
                return Err(Error::MissingMqttPassword);
            },
            (None, Some(_)) => {
                return Err(Error::MissingMqttUsername);
            },
        };
        Ok(MqttConfig {
            host: self.mqtt_host,
            port: self.mqtt_port,
            client_id: self.mqtt_client_id,
            credentials,
            discovery_prefix: self.mqtt_discovery_prefix,
            topic_prefix: self.mqtt_topic_prefix,
        })
    }
}

/// Validates that one lifetime counter did not decrease.
pub fn validate_lifetime_counter(field: &'static str, previous: i64, current: i64) -> (r: Result<(), Error>)
    ensures
        r == if previous <= current {
            Ok(())
        } else {
            Err::<(), _>(Error::DecreasedLifetimeCounter { field, previous, current })
        },
{
    if current < previous {
        return Err(Error::DecreasedLifetimeCounter { field, previous, current });
    }
    Ok(())
}

/// The verdict on a snapshot's lifetime counters: solar production must be positive, and no
/// counter may fall below the one published before.
pub open spec fn counters_verdict(current: EnergyTotals, previous: Option<EnergyTotals>) -> Result<(), Error> {
    if current.solar_production.watt_hours <= 0 {
        Err(Error::InvalidLifetimeCounter { field: "solar_production", value: current.solar_production.watt_hours })
    } else {
        match previous {
            None => Ok(()),
            Some(p) => if current.grid_import.watt_hours < p.grid_import.watt_hours {
                Err(Error::DecreasedLifetimeCounter {
                    field: "grid_import",
                    previous: p.grid_import.watt_hours,
                    current: current.grid_import.watt_hours,
                })
            } else if current.grid_export.watt_hours < p.grid_export.watt_hours {
                Err(Error::DecreasedLifetimeCounter {
                    field: "grid_export",
                    previous: p.grid_export.watt_hours,
                    current: current.grid_export.watt_hours,
                })
            } else if current.solar_production.watt_hours < p.solar_production.watt_hours {
                Err(Error::DecreasedLifetimeCounter {
                    field: "solar_production",
                    previous: p.solar_production.watt_hours,
                    current: current.solar_production.watt_hours,
                })
            } else {
                Ok(())
            },
        }
    }
}

/// Validates lifetime counters before publishing them to Home Assistant.
pub fn validate_lifetime_counters(snapshot: &EnergySnapshot, previous: Option<&EnergyTotals>) -> (r: Result<(), Error>)
    ensures
        r == counters_verdict(
            snapshot.energy,
            match previous {
                Some(p) => Some(*p),
                None => None,
            },
        ),
{
    if snapshot.energy.solar_production.watt_hours <= 0 {
        return Err(Error::InvalidLifetimeCounter {
            field: "solar_production",
            value: snapshot.energy.solar_production.watt_hours,
        });
    }
    match previous {
        Some(previous) => {
            match validate_lifetime_counter(
                "grid_import",
                previous.grid_import.watt_hours,
                snapshot.energy.grid_import.watt_hours,
            ) {
                Ok(()) => {},
                Err(e) => {
                    return Err(e);
                },
            }
            match validate_lifetime_counter(
                "grid_export",
                previous.grid_export.watt_hours,
                snapshot.energy.grid_export.watt_hours,
            ) {
                Ok(()) => {},
                Err(e) => {
                    return Err(e);
                },
            }
            validate_lifetime_counter(
                "solar_production",
                previous.solar_production.watt_hours,
                snapshot.energy.solar_production.watt_hours,
            )
        },
        None => Ok(()),
    }
}

/// What the continuous export remembers between steps.
#[derive(Clone, Copy, Debug, PartialEq, Eq, Default)]
pub struct RunState {
    /// Whether an MQTT connection is open.
    pub connected: bool,
    /// Whether Home Assistant discovery was already published.
    pub discovery_published: bool,
}

/// What happened in the last step of an update.
#[derive(Clone, Copy, Debug, PartialEq, Eq)]
pub enum UpdateEvent {
    /// The refresh interval has passed.
    Tick,
    /// The snapshot could not be fetched or normalized.
    SnapshotFailed,
    /// The snapshot was fetched and normalized.
    SnapshotFetched,
    /// The snapshot's lifetime counters were rejected.
    CountersRejected,
    /// The snapshot was fetched and its counters accepted.
    SnapshotReady,
    /// The MQTT connection was opened.
    Connected,
    /// The discovery payloads were published.
    DiscoveryPublished,
    /// The state payload was published.
    StatePublished,
    /// The online availability was published.
    OnlinePublished,
    /// An MQTT operation failed.
    MqttFailed,
}

/// What to do next.
#[derive(Clone, Copy, Debug, PartialEq, Eq)]
pub enum UpdateAction {
    /// Fetch a snapshot from the device and normalize it.
    FetchSnapshot,
    /// Read the retained counters and check the fetched snapshot's counters against them.
    ReadRetained,
    /// Publish offline availability, then wait for the next tick.
    PublishOffline,
    /// Open an MQTT connection.
    Connect,
    /// Publish the discovery payloads.
    PublishDiscovery,
    /// Publish the state payload.
    PublishState,
    /// Publish online availability.
    PublishOnline,
    /// Wait for the next tick.
    Wait,
}

/// The step after a snapshot was accepted or a connection opened: connect when not connected,
/// publish discovery once, then publish the state.
pub open spec fn publish_next(s: RunState) -> UpdateAction {
    if !s.connected {
        UpdateAction::Connect
    } else if !s.discovery_published {
        UpdateAction::PublishDiscovery
    } else {
        UpdateAction::PublishState
    }
}

/// One step of the continuous export: from the state and what happened, the next state and what
/// to do. A tick fetches a snapshot; only a fetched one has the retained counters read. A failed
/// snapshot or rejected counters publish offline availability when connected;
/// an MQTT failure drops the connection (discovery stays published); a completed update waits.
pub open spec fn step_spec(s: RunState, e: UpdateEvent) -> (RunState, UpdateAction) {
    match e {
        UpdateEvent::Tick => (s, UpdateAction::FetchSnapshot),
        UpdateEvent::SnapshotFetched => (s, UpdateAction::ReadRetained),
        UpdateEvent::SnapshotFailed | UpdateEvent::CountersRejected => (s, if s.connected {
            UpdateAction::PublishOffline
        } else {
            UpdateAction::Wait
        }),
        UpdateEvent::SnapshotReady => (s, publish_next(s)),
        UpdateEvent::Connected => {
            let n = RunState { connected: true, discovery_published: s.discovery_published };
            (n, publish_next(n))
        },
        UpdateEvent::DiscoveryPublished => (
            RunState { connected: s.connected, discovery_published: true },
            UpdateAction::PublishState,
        ),
        UpdateEvent::StatePublished => (s, UpdateAction::PublishOnline),
        UpdateEvent::OnlinePublished => (s, UpdateAction::Wait),
        UpdateEvent::MqttFailed => (
            RunState { connected: false, discovery_published: s.discovery_published },
            UpdateAction::Wait,
        ),
    }
}

fn publish_next_of(s: RunState) -> (a: UpdateAction)
    ensures
        a == publish_next(s),
{
    if !s.connected {
        UpdateAction::Connect
    } else if !s.discovery_published {
        UpdateAction::PublishDiscovery
    } else {
        UpdateAction::PublishState
    }
}

impl RunState {
    /// Advances the continuous export by one event.
    pub fn step(self, event: UpdateEvent) -> (r: (RunState, UpdateAction))
        ensures
            r == step_spec(self, event),
    {
        match event {
            UpdateEvent::Tick => (self, UpdateAction::FetchSnapshot),
            UpdateEvent::SnapshotFetched => (self, UpdateAction::ReadRetained),
            UpdateEvent::SnapshotFailed | UpdateEvent::CountersRejected => (self, if self.connected {
                UpdateAction::PublishOffline
            } else {
                UpdateAction::Wait
            }),
            UpdateEvent::SnapshotReady => (self, publish_next_of(self)),
            UpdateEvent::Connected => {
                let n = RunState { connected: true, discovery_published: self.discovery_published };
                (n, publish_next_of(n))
            },
            UpdateEvent::DiscoveryPublished => (
                RunState { connected: self.connected, discovery_published: true },
                UpdateAction::PublishState,
            ),
            UpdateEvent::StatePublished => (self, UpdateAction::PublishOnline),
            UpdateEvent::OnlinePublished => (self, UpdateAction::Wait),
            UpdateEvent::MqttFailed => (
                RunState { connected: false, discovery_published: self.discovery_published },
                UpdateAction::Wait,
            ),
        }
    }
}


/// Discovery is published once per run: once published it stays published whatever happens,
/// including a dropped connection, and no step asks to publish it again; an MQTT failure drops
/// the connection; only an open connection is asked to publish.
pub proof fn lemma_discovery_once(s: RunState, e: UpdateEvent)
    ensures
        s.discovery_published ==> step_spec(s, e).0.discovery_published,
        s.discovery_published ==> step_spec(s, e).1 != UpdateAction::PublishDiscovery,
        e == UpdateEvent::MqttFailed ==> !step_spec(s, e).0.connected,
        (step_spec(s, e).1 == UpdateAction::PublishDiscovery || step_spec(s, e).1 == UpdateAction::PublishState
            || step_spec(s, e).1 == UpdateAction::PublishOffline) ==> step_spec(s, e).0.connected
            || e == UpdateEvent::DiscoveryPublished,
{
}

/// The retained counters are read only right after a snapshot was fetched: a failed fetch keeps
/// the state, never reads them, and publishes offline availability exactly when connected.
pub proof fn lemma_retained_read_only_after_fetch(s: RunState, e: UpdateEvent)
    ensures
        step_spec(s, e).1 == UpdateAction::ReadRetained <==> e == UpdateEvent::SnapshotFetched,
        e == UpdateEvent::SnapshotFailed ==> step_spec(s, e).0 == s && step_spec(s, e).1 == if s.connected {
            UpdateAction::PublishOffline
        } else {
            UpdateAction::Wait
        },
{
}

/// Every tick starts a new fetch, whatever happened before: a failure, a dropped connection or a
/// completed update never stops the export from trying again.
pub proof fn lemma_tick_starts_fetch(s: RunState)
    ensures
        step_spec(s, UpdateEvent::Tick) == (s, UpdateAction::FetchSnapshot),
{
}

/// The counters are accepted exactly when solar production is positive and no counter is below
/// the one published before; a counter that grows or stays the same is never rejected, and a
/// rejection names a counter that really fell, with both values.
pub proof fn lemma_counters_verdict_exact(current: EnergyTotals, previous: Option<EnergyTotals>)
    ensures
        counters_verdict(current, previous) is Ok <==> current.solar_production.watt_hours > 0 && match previous {
            None => true,
            Some(p) => current.grid_import.watt_hours >= p.grid_import.watt_hours
                && current.grid_export.watt_hours >= p.grid_export.watt_hours
                && current.solar_production.watt_hours >= p.solar_production.watt_hours,
        },
        match (counters_verdict(current, previous), previous) {
            (Err(Error::DecreasedLifetimeCounter { field, previous: was, current: now }), Some(p)) => now < was && (
                (field@ == "grid_import"@ && was == p.grid_import.watt_hours && now == current.grid_import.watt_hours)
                || (field@ == "grid_export"@ && was == p.grid_export.watt_hours && now
                    == current.grid_export.watt_hours) || (field@ == "solar_production"@ && was
                    == p.solar_production.watt_hours && now == current.solar_production.watt_hours)),
            (Err(Error::DecreasedLifetimeCounter { .. }), None) => false,
            (Err(Error::InvalidLifetimeCounter { field, value }), _) => field@ == "solar_production"@ && value
                == current.solar_production.watt_hours && value <= 0,
            (Err(_), _) => false,
            (Ok(()), _) => true,
        },
{
}

/// Counters accepted once are accepted again unchanged, and an accepted update never lowers a
/// counter.
pub proof fn lemma_counters_monotone(current: EnergyTotals, previous: EnergyTotals)
    ensures
        counters_verdict(current, Some(current)) is Ok <==> current.solar_production.watt_hours > 0,
        counters_verdict(current, Some(previous)) is Ok ==> {
            &&& current.grid_import.watt_hours >= previous.grid_import.watt_hours
            &&& current.grid_export.watt_hours >= previous.grid_export.watt_hours
            &&& current.solar_production.watt_hours >= previous.solar_production.watt_hours
            &&& current.solar_production.watt_hours > 0
        },
{
}

} // verus!
