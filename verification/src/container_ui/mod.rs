//! The container dashboard: configuration and sessions, podman output,
//! the HTML pages and the decisions its request handlers make.

pub mod state;
pub mod podman;
pub mod html;
pub mod oidc;
pub mod handlers;
