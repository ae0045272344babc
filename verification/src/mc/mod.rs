//! The Minecraft control panel: server list, live log, console and log history.

pub mod boot_laws;
pub mod boots;
pub mod history;
pub mod logs;
pub mod names;
pub mod panel_laws;
pub mod rcon;
pub mod server_laws;
pub mod servers;
pub mod socket;
