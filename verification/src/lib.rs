//! Core logic of a LocalSend receiver/sender for retro handhelds: the HTTP
//! framing, file-name hygiene, save routing and the pad-driven UI state
//! machines, each with its contract.

pub mod overlay;
pub mod text;
pub mod net;
pub mod transfer;
pub mod config;
pub mod ui;
pub mod app;
pub mod event;
