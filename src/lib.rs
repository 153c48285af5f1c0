//! Carries Bluetooth Low Energy pairing keys from a Windows registry hive
//! over to BlueZ's per-device `info` files.
//!
//! The hive is read key by key, as [`reader`] directs, into an index-backed
//! key tree ([`hive`]); the pairing records are extracted from it
//! ([`extract`]); and each local `info` file is rewritten section by section
//! ([`config`]) by a plan that says what to write and where to move the
//! device's directory ([`reconcile`]).

pub mod text;
pub mod lines;
pub mod device;
pub mod config;
pub mod table;
pub mod hive;
pub mod number;
pub mod extract;
pub mod reader;
pub mod reconcile;
pub mod mac;

pub use mac::fmt_mac;
pub use device::BtDeviceInfo;
pub use config::{get_ltk, update_bt_info};
