//! Tolerant parameter decoding and canonical encoding for the JSON-RPC
//! surface of a development node.
//!
//! RPC parameters may legally arrive in more than one textual or structural
//! shape: integers as JSON numbers, decimal strings or `0x`-prefixed hex
//! strings; objects either bare or wrapped under a tag key; single values
//! standing for whole option objects. This crate normalizes every accepted
//! shape into one strongly typed value, and encodes typed values back into
//! the exact wire shape downstream consumers expect, including shapes whose
//! field set or length depends on which optional fields are present.

use vstd::prelude::*;

pub mod bundle;
pub mod json;
pub mod metadata;
pub mod node;
pub mod render;
pub mod scalar;
pub mod transaction;
pub mod types;
pub mod words;
