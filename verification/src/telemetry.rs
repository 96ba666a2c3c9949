//! Counters and rolling line counts for the control plane.

pub mod metrics;
pub mod server;

pub use metrics::AppMetrics;
pub use server::InviteTracker;
