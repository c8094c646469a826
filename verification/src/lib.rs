//! Request handling for a single-route IP geolocation service.
//!
//! The crate holds the decisions of the service: which requests reach the
//! lookup, how the address in the path is read, how a provider record is
//! normalised, and which response answers each outcome.
pub mod ip;
pub mod provider;
pub mod record;
pub mod service;
pub mod syntax;
