//! The protocol and settings logic of a Pico W that opens its own access
//! point, sends every client to one settings page, and blinks its LED at the
//! frequency chosen there.

pub mod bounded;
pub mod bytes;
pub mod config;
pub mod decimal;
pub mod dhcp;
pub mod dns;
pub mod json;
pub mod record;
pub mod request;
pub mod response;
pub mod serve;
pub mod settings;
pub mod store;
