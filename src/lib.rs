//! Data-plane core of a software router: longest-prefix-match routing with a
//! lookup cache, layered frame parsing, per-flow accounting, buffer pooling
//! and runtime counters, each with its behaviour stated and proved.
pub mod addr;
pub mod batch;
pub mod classify;
mod clock;
pub mod frame;
pub mod history;
pub mod memory_pool;
pub mod metrics;
pub mod packet_engine;
pub mod router;
pub mod routing_table;
pub mod select;
pub mod text;

pub use memory_pool::{MemoryPool, PacketBuffer, PoolStats};
pub use metrics::{Metrics, MetricsCollector};
pub use packet_engine::PacketEngine;
pub use router::{Decision, Packet, RouterAnalytics};
pub use routing_table::{Route, RoutingStats, RoutingTable};
