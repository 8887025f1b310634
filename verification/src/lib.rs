//! Distributed continuous integration: a committee of runners executes a job,
//! signs what it saw, and a stake-weighted quorum decides what is anchored in
//! an append-only log.

pub mod admin;
pub mod admin_auth;
pub mod agent;
pub mod aggregator;
pub mod attestation;
pub mod auditor;
pub mod boundary;
pub mod bytes;
pub mod capabilities;
pub mod cbor;
pub mod cli;
pub mod clock;
pub mod confidentiality;
pub mod coordinator;
pub mod demo;
pub mod enrollment;
pub mod env_map;
pub mod github_checks;
pub mod gossip;
pub mod handshake;
pub mod jobs;
pub mod journal;
pub mod json;
pub mod lease;
pub mod maps;
pub mod merkle_log;
pub mod native;
pub mod network;
pub mod partial_quorum;
pub mod proto;
pub mod quorum;
pub mod rate_limit;
pub mod replay;
pub mod replicated_cluster;
pub mod reputation;
pub mod retrieval;
pub mod sharding;
pub mod signing;
pub mod source_fetch;
pub mod stake_ledger;
pub mod status;
pub mod submission_auth;
pub mod sums;
pub mod tenant;
pub mod text;
pub mod toml_doc;
pub mod vrf;
pub mod wasm_runtime;
pub mod webhook;
pub mod wire;
