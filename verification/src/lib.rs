//! Decision logic of a batch DNS resolver: the retry loop, the recursive
//! reverse-lookup walk, result classification, pacing arithmetic, task
//! partitioning, status counters, configuration, and the reading of inputs
//! and merging of outputs, each with a verified contract. Sockets, threads
//! and clocks live with the caller, which feeds their outcomes into the
//! state machines defined here. The same loops can be run whole against a
//! fixed table of DNS answers.

pub mod addr;
pub mod batch;
pub mod cli;
pub mod config;
pub mod dns;
pub mod dns_data;
pub mod error;
pub mod fixed_dns;
pub mod input;
pub mod ipv6;
pub mod lifecycle;
pub mod message;
pub mod output;
pub mod pacer;
pub mod pool;
pub mod recurse;
pub mod resolve_config;
pub mod resolver;
pub mod retry;
pub mod status;
pub mod text;

pub use addr::{parse_addr, parse_server, ServerAddr};
pub use batch::{Batch, BatchTask};
pub use config::{Config, ConfigError, ConfigResult, RawConfig};
pub use dns::{CountingDns, Dns, DnsStore};
pub use dns_data::DnsData;
pub use error::{ClientError, ResolverError};
pub use fixed_dns::{Answer, FixedDns};
pub use lifecycle::{run_in_turn, BatchReport, FinishedTask, RunningTask, StartedTask};
pub use message::{Message, QueryType, RData, Record};
pub use output::{OutputFile, ResolveResult};
pub use pacer::{TriggerHandle, TriggerTimer};
pub use pool::{PoolPlan, Resolved, ResolveTask, ResolverThreadPool};
pub use recurse::{ns_lookup, RecurseState, WalkAction, NS};
pub use resolver::{
    conclude, partial_ok, plan_query, ptr_name, report_status, root_anchored, QueryPlan, Resolution,
};
pub use retry::{RetryState, RetryStep};
pub use status::{ResolveStatus, Status};
