//! Binder capture records: a length-prefixed little-endian wire format with
//! field-by-field offset reconstruction, and the binder protocol types it carries.
pub mod binder;
pub mod bwr_layer;
pub mod capture_info;
pub mod de;
pub mod epan;
pub mod error;
pub mod event_layer;
pub mod events;
pub mod layout;
pub mod link_layer;
pub mod offsets;
pub mod process_cache;
pub mod round_trip;
pub mod ser;
pub mod shape;
pub mod transaction;
pub mod wire;
