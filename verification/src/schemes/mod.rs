//! Walton argumentation schemes: recognisable patterns of reasoning with
//! named premise slots, a conclusion template and the critical questions
//! that probe them, instantiated against concrete bindings.

pub mod aif;
pub mod bindings;
pub mod catalog;
pub mod critical;
pub mod error;
pub mod instance;
pub mod literal;
pub mod registry;
pub mod scheme;
pub mod types;
