//! A verified core for a prosocial-behaviour model: Maslow needs levels,
//! helping and honesty decisions, and the bookkeeping of a population whose
//! members help, refuse and remember one another.

pub mod chance;
pub mod needs;
pub mod resilience;
pub mod snapshot;
pub mod society;
