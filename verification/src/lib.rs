//! Verified core of the home-lab utilities: the container dashboard's page
//! rendering, request decisions and podman output handling, and the health
//! dashboard's `/proc` parsers, sample rings and series naming.

pub mod text;
pub mod json;
pub mod codec;
pub mod table;
pub mod container_ui;
pub mod health;

use vstd::prelude::*;

verus! {

} // verus!
