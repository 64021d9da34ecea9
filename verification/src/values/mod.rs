//! Value-based argumentation: each argument promotes values, and an
//! audience ranks values; an attack succeeds as a defeat unless the
//! audience prefers what the target promotes over what the attacker
//! promotes. Arguments may promote several values (Pareto defeat).

pub mod acceptance;
pub mod apx;
pub mod error;
pub mod framework;
pub mod multi;
pub mod scheme_bridge;
pub mod types;
