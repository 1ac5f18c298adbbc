//! Host-side USB 2.0 transaction engine and descriptor decoder.

pub mod std_request;
pub mod hc;
pub mod fake_hc;
pub mod endpoint;
pub mod control;
pub mod ep0;
pub mod descriptor;
pub mod fake_ep0;
