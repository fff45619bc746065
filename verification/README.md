# hafox

Reads the values that a SmartFox energy manager publishes in `values.xml` and turns them
into Home Assistant MQTT discovery and state payloads.

- `src/` is the library, verified with Verus: measurement parsing (with exact decimal
  scaling to whole watts and watt-hours), the raw value store and its XML reader (on top of
  quick-xml), the normalized energy snapshot (with the device's IP address read as std reads one), the settings update request, the sensor and
  payload builders, lifetime counter checks and the update cycle of the continuous export.
- `app/` is the command-line program around it: HTTP (reqwest), MQTT (rumqttc), JSON
  (serde), argument parsing (clap) and logging.
- `tests/` exercises the library on concrete values.
