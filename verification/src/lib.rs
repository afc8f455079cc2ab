//! The decisions of the root helper: what it accepts, what it runs and what it answers.
pub mod addr;
pub mod children;
pub mod cli;
pub mod json;
pub mod log;
pub mod netlink;
pub mod netlink_laws;
pub mod packages;
pub mod rootd;
pub mod routing;
pub mod routing_laws;
pub mod serve;
pub mod session;
pub mod text;
pub mod wire;
