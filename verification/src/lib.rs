//! The rules of a SmartCast remote: which addresses name a television, which
//! requests may be sent to it and how their responses are taken in, how a
//! session is set up, run and forgotten, and how televisions are found on the
//! local network.

pub mod course;
pub mod exchange;
pub mod json;
pub mod measure;
pub mod origin;
pub mod run;
pub mod search;
pub mod session;
pub mod ssdp;
pub mod text;
