//! Device Connect edge SDK core: wire subjects, JSON-RPC envelopes,
//! identifier validation and the decisions that a device runtime makes.

pub mod text;
pub mod json;
pub mod errors;
pub mod ids;
pub mod types;
pub mod protocol;
pub mod driver;
pub mod runtime;
pub mod transport;
pub mod transports;
pub mod discovery;
