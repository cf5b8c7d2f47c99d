//! Deterministic simulation of Raft clusters: the rules of the simulation.

pub mod agents;
pub mod agreement;
pub mod calendar;
pub mod campaign;
pub mod client;
pub mod cluster;
pub mod crash_data;
pub mod derived;
pub mod fake_fuzz;
pub mod history;
pub mod invariants;
pub mod iteration;
pub mod listing;
pub mod network;
pub mod options;
pub mod ordered;
pub mod orchestrator;
pub mod rng;
pub mod safety;
pub mod store;
pub mod strmap;
pub mod text;
pub mod typ;

pub use typ::LogId;
pub use typ::LogIds;
pub use typ::Node;
pub use typ::NodeId;
pub use typ::RaftMetrics;
pub use typ::RaftStateSnapshot;
pub use typ::Request;
pub use typ::Response;
pub use typ::ServerState;
pub use typ::Vote;
