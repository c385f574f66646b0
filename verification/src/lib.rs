//! Verified core of a client for the TwinCAT ADS protocol: the byte layout of
//! PLC values, the symbol and data type tables uploaded from a controller, the
//! conversions between raw bytes, variant values and JSON values, the symbols
//! registered for notification, and the decisions the client takes between
//! its calls into the ADS router.

pub mod codec;
pub mod variant;
pub mod text;
pub mod client_types;
pub mod address;
pub mod name_map;
pub mod error;
pub mod symbols;
pub mod ads_data;
pub mod deserialize;
pub mod serialize;
pub mod loader;
pub mod json;
pub mod registry;
pub mod client;
