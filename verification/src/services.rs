//! Services for campaign functionality: portraits and savepoints.

pub mod portrait;
pub mod savepoint;
