//! A telemetry node's UI document: an addressable element tree, a ledger of
//! the changes made to it since the last synchronization, and the decisions
//! of the node's event loop.

pub mod document;
pub mod element;
pub mod node;
pub mod page;
pub mod path;
pub mod replay;
pub mod sensor;
pub mod update;
