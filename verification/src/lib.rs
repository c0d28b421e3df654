//! Verified core of pitchfork's reverse proxy.
pub mod activity;
pub mod dns;
pub mod doctor;
pub mod hostname;
pub mod names;
pub mod order;
pub mod routing;
pub mod settings;
pub mod setup;
pub mod sni;
pub mod split;
pub mod text;
pub mod throttle;
