//! A type-keyed dependency-injection registry.
//!
//! Callers register, per abstract capability, a factory that produces a
//! concrete implementation, and later resolve an instance of that capability
//! by its identity alone. Capabilities are identified by a stable `u64` tag;
//! instances are carried as tagged, reference-counted handles, so the binding
//! table can hold heterogeneous entries behind one representation while every
//! resolution is checked against the requested tag.

use vstd::prelude::*;

pub mod container;
pub mod injectable;

pub use container::{Container, Instance, Resolution, ResolutionType, wrap_injectable};
pub use injectable::{FromContainer, Injectable};

verus! {

/// The single error kind of the registry.
///
/// `TypeNotBound` is returned both when the requested capability has no
/// registered entry and when a stored or produced instance carries a tag
/// other than the requested one.
#[derive(Clone, Copy, Debug, PartialEq, Eq, Structural)]
pub enum InjectionError {
    TypeNotBound,
}

} // verus!
