//! A personal task tracker: tasks and projects (each with its own tasks) kept in one store,
//! with verified operations to create, remove and complete them.
use vstd::prelude::*;

pub mod objects;
pub mod reference;
pub mod operations;
pub mod laws;
pub mod command;

verus! {

} // verus!
