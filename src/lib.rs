//! A minimal broker front end for a subset of the Kafka wire protocol:
//! version negotiation (`ApiVersions`) and stub `Fetch` responses.
pub mod connection;
pub mod frame;
pub mod model;
pub mod protocol;
pub mod wire;
