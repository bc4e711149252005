//! Corpus generation and benchmark orchestration for zkVM block-validation
//! workloads: fixture discovery, corpus assembly, executor-driven metric
//! collection and the JSON stores of corpora and metrics.

pub mod json;
pub mod depth;
pub mod regions;
pub mod metrics;
pub mod blocks_and_witnesses;
pub mod text;
pub mod paths;
pub mod corpus;
pub mod executor;
pub mod benchmark_runner;
pub mod block_order;
pub mod fixture_discovery;
pub mod generate_stateless_witness;
pub mod guest;
