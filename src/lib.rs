//! Session and fan-out core of a collaborative text server, with the
//! position arithmetic that every participant shares.

pub mod command;
pub mod content;
pub mod edit;
pub mod editor;
pub mod position;
pub mod presence;
pub mod protocol;
pub mod replica;
pub mod server;
pub mod storage;
pub mod store;
pub mod text;
