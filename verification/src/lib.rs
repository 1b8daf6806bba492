//! A checked in-place construction protocol.
//!
//! A value of a composite type is built directly inside pre-allocated,
//! address-stable storage, field by field, with three guarantees stated
//! and proved as contracts:
//!
//! - every field is written exactly once before the value counts as
//!   initialized,
//! - if construction stops partway, every field already written is
//!   released again, most recently written first, and the storage is left
//!   safely deallocatable,
//! - a field that captures its container's address is only written after
//!   that address has been fixed.
//!
//! Storage is modelled by an explicit [`Arena`](mem::Arena) of word-sized
//! slots; an address is a stable slot index. Capabilities that a
//! raw-pointer design would enforce with unnameable marker types are
//! carried here by move-only handles whose identifiers are unique across
//! the whole arena, and every protocol rule is stated in the contracts of
//! the functions that enforce it.

use vstd::prelude::*;

pub mod adapters;
pub mod builder;
pub mod construct;
pub mod init;
pub mod initializer;
pub mod laws;
pub mod mem;
pub mod place;

verus! {

/// Direct value based initialization: a field receives a ready value.
pub struct Direct;

/// Initialization via a delegated initializer that completes the field.
pub struct Closure;

/// Supertrait that keeps [`InitWay`] closed: only the two ways declared
/// in this crate implement it.
pub trait Sealed {}

impl Sealed for Direct {}

impl Sealed for Closure {}

/// The ways a single field can be initialized: either [`Direct`] or
/// [`Closure`].
pub trait InitWay: Sealed {}

impl InitWay for Direct {}

impl InitWay for Closure {}

} // verus!
