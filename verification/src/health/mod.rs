//! The health dashboard: what the backend reads from the kernel and keeps
//! in its sample rings, the status it reports, and what the web page
//! derives from it.

pub mod metrics;
pub mod sampler;
pub mod status;
pub mod web;
pub mod series;
