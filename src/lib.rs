//! Declarative shell pipelines: a tree of series / parallel composites whose
//! leaves are shell tasks, with a variable context, placeholder substitution
//! and reusable named sub-pipelines.
pub mod subst;
pub mod model;
pub mod property;
pub mod node;
pub mod context;
pub mod task;
pub mod semantics;
pub mod engine;
pub mod laws;
pub mod doc;
