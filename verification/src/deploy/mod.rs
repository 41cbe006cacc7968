//! The plainer family of the framework, whose programs read the `DEPLOY`
//! variables: process identifiers that are nothing but an address, statuses
//! that are either a code or a signal, and sizes without fractions.

pub mod args;
pub mod exit;
pub mod format;
pub mod pid;
pub mod size;
pub mod start;
