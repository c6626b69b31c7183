pub mod config;
pub mod cover_flow;
pub mod health_gossip;
pub mod health_quorum_log;
pub mod metrics_export;
pub mod net;
pub mod node;
pub mod peer_health;
pub mod relay_id;
pub mod trace;
