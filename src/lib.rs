//! People linked by parent and child relations that do not own each other.
//!
//! A [`PersonGraph`] owns every person it holds and counts the owning holders
//! of each one; the relations stored inside a [`Person`] are plain
//! [`PersonRef`] identifiers, so a cycle between a parent and a child never
//! keeps either of them alive.
pub mod graph;
pub mod person;

pub use graph::PersonGraph;
pub use person::{Person, PersonRef};
