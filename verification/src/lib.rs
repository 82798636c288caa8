//! Verified core of a device-provisioning tool: scripted command templating
//! and a fail-fast sequential executor.
//!
//! A provisioning script is an ordered list of command lines, some of which
//! are no-ops (they began life as comments). Placeholder tokens in the lines
//! are substituted with caller-supplied paths, and the resulting commands are
//! dispatched strictly in order to a device driver, stopping at the first
//! failure.

pub mod cli;
pub mod executor;
pub mod script;
pub mod templates;
pub mod text;
