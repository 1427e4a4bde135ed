//! The resource model of an emulated Hue bridge and how it maps to and
//! from Home Assistant and Zigbee2MQTT: deterministic identities, the
//! resource store with cascading deletes and its event stream, and the
//! Home Assistant integration's configuration document.

pub mod rtype;
pub mod store;
pub mod events;
pub mod keyed;
pub mod legacy_api;
pub mod stubs;
pub mod patina;
pub mod text;
pub mod z2m;
pub mod hass_ui;
pub mod area_rooms;
pub mod hass_runtime;
pub mod hass_import;
pub mod hass_state;
pub mod hass_sync;
