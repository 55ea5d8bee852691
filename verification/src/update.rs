//! The integrated updater: the signing keyring, the release manifest and
//! its acceptance rules, and the update service's decisions.

pub mod keys;
pub mod manifest;
pub mod service;
