//! Checking a published corpus of sample files: the checks themselves, the findings
//! they produce, one file or index validated at a time, and the decisions of the
//! command line around them.

pub mod checks;
pub mod report;
pub mod validate;
pub mod command;
