//! Protocol logic for Behringer Wing digital mixing consoles: decoding the console's byte
//! stream, encoding requests and parameter changes, node definitions, meters and discovery.
//!
//! Nothing here touches the network. A connection hands the bytes it receives to a
//! [`WingConsole`] and sends the bytes that its request methods produce.
use vstd::prelude::*;

pub mod bytes;
pub mod catalog;
pub mod console;
pub mod discovery;
pub mod dispatch;
pub mod encode;
pub mod headings;
pub mod json;
pub mod meter;
pub mod node;
pub mod shared;
pub mod simple;
pub mod subscriptions;
pub mod tables;
pub mod text;
pub mod laws;
pub mod wire;

pub use console::{MeterSubscriptions, WingConsole};
pub use discovery::DiscoveryInfo;
pub use meter::Meter;
pub use node::{Float32, FloatEnumItem, NodeType, NodeUnit, StringEnumItem, WingNodeData, WingNodeDef};

verus! {

#[verifier::external_type_specification]
#[verifier::external_body]
pub struct ExIoError(std::io::Error);

/// The errors of the library and of the connections built on it.
#[derive(Debug)]
pub enum Error {
    Io(std::io::Error),
    InvalidData,
    ConnectionError,
    DiscoveryError,
}

pub type Result<T> = core::result::Result<T, Error>;

/// A message from the console.
#[derive(Clone, Debug)]
pub enum WingResponse {
    RequestEnd,
    NodeDef(WingNodeDef),
    NodeData(i32, WingNodeData),
}

} // verus!
