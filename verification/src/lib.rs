//! MiraBox hardware manager for Deckr: recognises the devices, speaks their protocol, and carries
//! input and commands between them and the controllers that have claimed them.

pub mod config;
pub mod device;
pub mod discovery;
pub mod envelope;
pub mod grammar;
pub mod json;
pub mod lanes;
pub mod layout;
pub mod manager;
pub mod nats;
pub mod numeral;
pub mod outside;
pub mod policy;
pub mod protocol;
pub mod routing;
pub mod setup;
pub mod state;
pub mod text;
pub mod text_map;
pub mod wire;
pub mod worker;
