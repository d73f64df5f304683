//! Core logic of a DLL proxy: parsing export manifests, generating the
//! forwarding stub set and table layout, the load-time bootstrap state
//! machine, and the chain-load file filter.

pub mod bootstrap;
pub mod chain;
pub mod generator;
pub mod manifest;
