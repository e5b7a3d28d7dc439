//! Logic of a cellular vending gateway built around a SIM800L modem.
//!
//! Everything here is pure: no pins, no UART, no network. The firmware feeds
//! bytes, replies and timer ticks in and performs the actions that come out.

pub mod battery;
pub mod bounded;
pub mod clock;
pub mod cmux;
pub mod cmux_transport;
pub mod coin;
pub mod coin_io;
pub mod config;
pub mod demo;
pub mod display;
pub mod fmt;
pub mod fuel;
pub mod health;
pub mod led;
pub mod link;
pub mod lipo;
pub mod modem;
pub mod mqtt;
pub mod sim800l;
pub mod text;
pub mod usb_logger;
