//! clispeak: the parts of a peer-to-peer speech notifier that decide things.

pub mod strs;
pub mod plain;
pub mod validate;
pub mod winpath;
pub mod proto;
pub mod order;
pub mod spaces;
pub mod prefs;
pub mod config;
pub mod history;
pub mod ticket;
pub mod identity;
pub mod keystore;
pub mod ipc;
pub mod node;
pub mod transport;
pub mod mirror;
pub mod rediscovering;
pub mod panel;
pub mod requests;
pub mod skill;
pub mod child;
pub mod shell_path;
pub mod shown;
