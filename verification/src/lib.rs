//! The logic of a Wi-Fi panel for the COSMIC desktop: reading the link,
//! the network list, the band and DNS settings out of what NetworkManager's
//! tools print, deciding what the panel does with each message, and what it
//! shows.

pub mod text;
pub mod number;
pub mod terse;
pub mod net;
pub mod scan;
pub mod band;
pub mod nmcli;
pub mod qr;
pub mod json;
pub mod status;
pub mod model;
pub mod panel;
pub mod layout;
pub mod speedtest;
