//! Verified core of a container-image pull orchestrator.
//!
//! The library models the events of concurrent image pulls and proves the
//! reduction of those events into a deterministically ordered report of the
//! images that were freshly downloaded. The asynchronous plumbing around the
//! container engine lives outside the library and drives these verified
//! functions step by step.

pub mod aggregate;
pub mod batch;
pub mod status;
pub mod text;
pub mod worker;
