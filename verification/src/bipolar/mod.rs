//! Bipolar argumentation frameworks under necessary-support semantics:
//! arguments related by attack and by support, flattened into a Dung
//! framework whose attacks are closed under the support relation.

pub mod coalition;
pub mod derived;
pub mod flatten;
pub mod framework;
pub mod queries;
pub mod semantics;
pub mod types;
