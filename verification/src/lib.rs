//! Repository activity checks, git invocation planning, security-scan job
//! planning and the schema of the conditioned-programs table, with the
//! textual processing of command output verified against its specification.

pub mod text;
pub mod calendar;
pub mod activity;
pub mod git;
pub mod scan;
pub mod schema;
pub mod progress;
