//! Aggregation of many proofs of one base statement into a single proof, by a tree of
//! recursive verification layers.
//!
//! The proof system itself is a collaborator that this crate never calls. The crate holds
//! what is decided around it: how many layers a tree needs, how the leaf proofs are padded
//! to the tree's capacity, which proofs go into which circuit instance, what the public
//! inputs of every aggregated proof must be, and how they are cut back into statements.
//! A caller performs the proof system's work between the steps and hands the results back.

pub mod aggregate;
pub mod error;
pub mod proofs;
pub mod schedule;
pub mod setup;
pub mod statement;
pub mod traits;

pub use aggregate::padd_proofs;
pub use aggregate::Aggregation;
pub use aggregate::AggregationStep;
pub use error::AggregationError;
pub use proofs::Proof;
pub use schedule::constant_strategy;
pub use schedule::schedule_capacity;
pub use setup::check_schedule;
pub use setup::AggregationSetUp;
pub use setup::CircuitAssembly;
pub use setup::LayerPlan;
pub use statement::concat_statements;
pub use statement::split_statements;
pub use traits::Provable;
pub use traits::RecursiveTarget;
