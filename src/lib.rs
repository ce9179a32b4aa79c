//! Remote control of running browser instances: the binary command-line
//! payload, instance discovery over session-bus names, and the helpers that
//! frame the container-name lookup.

pub mod codec;
pub mod discovery;
pub mod docker;
pub mod profile;
pub mod window;
