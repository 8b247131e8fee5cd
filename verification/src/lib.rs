//! Finds the dev servers listening on this machine and the LAN address a
//! phone would use to reach them, with the tray app's decisions.

pub mod ip;
pub mod net;
pub mod qr;
pub mod scanner;
pub mod text;
pub mod tray;
