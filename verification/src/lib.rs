//! A small time toolbox: it takes one free-form string (a bare epoch number,
//! an ISO-8601 or RFC-2822 date, a combined date and time, a bare date, or a
//! bare time), resolves it to a single canonical instant, and re-expresses
//! that instant in several representations (epoch counts at four scales,
//! UTC and local civil time, and a human-relative duration).
//!
//! The heart of the crate is the parser chain in [`parse`], with its
//! epoch-magnitude detection for bare integers, and the representation
//! expander in [`expand`]; [`workflow`] ties the two together for one
//! invocation, and [`laws`] states and proves the properties that hold
//! across them.

pub mod civil;
pub mod digits;
pub mod expand;
pub mod laws;
pub mod moment;
pub mod parse;
pub mod workflow;
