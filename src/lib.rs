//! An art contest run as a verified state machine: artists enter works tied to
//! tokens they own, voters cast one vote per contest, and a prize pool is split
//! among the most voted entries once voting has closed.
//!
//! Every entry point takes the caller, the current time and, for the steps that
//! resume after an ownership or permission lookup, the looked-up value as plain
//! arguments. Nothing is written before such a lookup is requested.

pub mod util;
pub mod errors;
pub mod ext;
pub mod storage;
pub mod allocation;
pub mod permission;
pub mod contract;
