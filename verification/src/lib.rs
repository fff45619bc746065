//! Reads SmartFox energy-manager values and turns them into Home Assistant MQTT payloads.
//!
//! - `text`: character-level text operations (trimming, replacing) with their meaning.
//! - `number`: the syntax of decimal numbers and their exact scaling to whole units.
//! - `address`: IP addresses and their text.
//! - `model`: measurements (power, energy, ...) and the normalized energy snapshot.
//! - `xml`: a pull reader over XML text and the events it gives.
//! - `smartfox`: the raw value store, its `values.xml` source and the settings request.
//! - `mqtt`: Home Assistant sensors, discovery and state payloads, MQTT settings.
//! - `run`: the export command's rules: configuration, lifetime counters, update cycle.

pub mod text;
pub mod number;
pub mod address;
pub mod model;
pub mod xml;
pub mod smartfox;
pub mod mqtt;
pub mod run;
