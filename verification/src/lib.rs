//! Verified decoding of Teledyne RDI PD0 / ENX ensemble files.

pub mod bytes;
pub mod error;
pub mod header;
pub mod fixed_leader;
pub mod velocity;
pub mod echo_intensity;
pub mod vmdas_nav;
pub mod variable_leader;
pub mod checksum;
pub mod ensemble;
pub mod parser;
