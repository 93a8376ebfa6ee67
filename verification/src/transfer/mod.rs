//! Received and sent files: name hygiene, save routing and the transfer
//! history.

pub mod files;
pub mod route;
pub mod history;
pub mod inbound;
pub mod paths;
