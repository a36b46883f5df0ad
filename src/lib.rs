//! A personal task board: tasks live in a record store, and two derived
//! indices (an ordered key list per column, a member list per tag) are kept
//! consistent with that store by the board coordinator.

pub mod board;
pub mod commands;
pub mod index;
pub mod laws;
pub mod opts;
pub mod store;
pub mod task;
pub mod text;
