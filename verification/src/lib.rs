//! Verified core logic of the light-robot flight computer: the on-flash
//! artifact layout and store, the W25N01GV serial-NAND command protocol,
//! sensor register decoding and compensation, servo encoder positions,
//! the neural-network trainer's population arithmetic, the Wi-Fi start-up
//! decisions, the checks made on web-interface commands, the web
//! interface's framing rules and the telemetry data types.

pub mod api;
pub mod artifact;
pub mod commands;
pub mod compensation;
pub mod crc;
pub mod layout;
pub mod nand;
pub mod population;
pub mod read;
pub mod scan;
pub mod sensors;
pub mod servo;
pub mod store;
pub mod web;
pub mod wifi;
pub mod writer;
