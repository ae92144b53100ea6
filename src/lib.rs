//! Supervision engine for a set of long-lived forwarding links ("tunnels").
//!
//! The crate holds the decisions of the engine: the host-keyed rate limiter,
//! the per-tunnel supervisor state machine with its exponential backoff, the
//! shared status registry and the coordinated shutdown.  Processes, sockets,
//! timers and configuration files are driven by the hosting program, which
//! hands the engine plain values and performs the directives it returns.

mod clock;
pub mod config;
pub mod limiter;
pub mod link;
pub mod manager;
pub mod metrics;
pub mod report;
pub mod security;
pub mod supervisor;
pub mod text;
pub mod tunnel;

pub use config::{Config, ConfigError, ConnectionLimits, SshConfig, TunnelConfig};
pub use limiter::ConnectionLimiter;
pub use manager::TunnelManager;
pub use metrics::{MetricsCollector, TunnelStats, TunnelStatus};
pub use security::{KeyError, SecureKeyManager};
pub use tunnel::{Tunnel, TunnelDirection};
pub use supervisor::{Directive, Phase, SupervisorEvent, TunnelSupervisor};
