//! Layout reflection and matching between host aggregates and GPU-side data.
//!
//! The crate has three parts that share one vocabulary of type tags:
//!
//! - [`vertex`] builds the per-field attribute descriptors of a vertex type;
//! - [`host`] and [`matcher`] compare the shape of a host aggregate with a
//!   reflected block layout ([`layout`]) and report the first difference as
//!   a [`mismatch`] error that carries the path to it;
//! - [`content`] sizes and views buffers made of a fixed head and a run of
//!   equally sized trailing elements.
//!
//! Two smaller modules serve the tools around them: [`diagnostics`] labels
//! an error check with its place in the source, and [`discovery`] finds test
//! targets and test functions in text.
//!
//! Every function states what it returns over a mathematical model of its
//! arguments, and the laws that tie the functions together are proof
//! functions next to them.

pub mod search;
pub mod type_tag;
pub mod layout;
pub mod mismatch;
pub mod host;
pub mod matcher;
pub mod vertex;
pub mod content;
pub mod diagnostics;
pub mod discovery;
