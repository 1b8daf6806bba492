//! The per-field capabilities: guard tokens, field cursors and completion
//! proofs.
//!
//! Every field-initialization attempt mints one [`GuardToken`] together
//! with one cursor ([`InitMe`] for a movable field, [`PinInitMe`] for an
//! address-fixed one). The cursor is the only way to legally write that
//! field: its `write` stores the value at the field's address there and
//! then, and consuming the cursor yields an [`InitProof`] stamped with
//! the token's identifier. A proof can only be redeemed against the token
//! it was minted with: identifiers are unique per arena (they are derived
//! from the field's own slot address), every type here is move-only, and
//! nothing outside this crate can forge one.

use crate::mem::Arena;
use vstd::prelude::*;

verus! {

/// A single-use capability minted once per field-initialization attempt.
///
/// The token's identifier is the field's slot address, so no two fields —
/// of this construction or of any other construction in the same arena —
/// share one, and a completion proof stamped with it can vouch for
/// exactly one field. The token carries no access to storage; it only
/// redeems proofs. It cannot be cloned and cannot be constructed outside
/// this crate.
#[derive(Debug)]
pub struct GuardToken {
    field: usize,
    id: u64,
}

impl GuardToken {
    /// The field this token was minted for.
    pub closed spec fn field(self) -> usize {
        self.field
    }

    /// The identifier the matching proof must carry.
    pub closed spec fn id(self) -> u64 {
        self.id
    }

    pub(crate) fn mint(field: usize, slot: usize) -> (t: GuardToken)
        ensures
            t.field() == field,
            t.id() == slot as u64,
    {
        GuardToken { field, id: slot as u64 }
    }

    pub(crate) fn into_parts(self) -> (t: (usize, u64))
        ensures
            t.0 == self.field(),
            t.1 == self.id(),
    {
        (self.field, self.id)
    }
}

/// Evidence that one field's initialization succeeded, carrying a return
/// payload of type `R` and the identifier of the guard token that the
/// attempt minted.
///
/// The field's value is already in its slot by the time a proof exists —
/// the cursor stored it — so the proof carries no data of the field, only
/// the evidence. Redeeming it checks the slot really holds a value, which
/// also covers proofs claimed through the raw-address escape hatch.
#[derive(Debug)]
pub struct InitProof<R> {
    value: R,
    id: u64,
}

impl<R> InitProof<R> {
    /// The identifier of the guard token this proof answers to.
    pub closed spec fn id(self) -> u64 {
        self.id
    }

    /// The return payload.
    pub closed spec fn value(self) -> R {
        self.value
    }

    pub(crate) fn into_parts(self) -> (t: (R, u64))
        ensures
            t.0 == self.value(),
            t.1 == self.id(),
    {
        (self.value, self.id)
    }

    /// Takes the payload out of the proof, consuming the matching guard
    /// token. A foreign or stale token cannot unwrap a proof: the
    /// identifiers would differ.
    pub fn unwrap(self, guard: GuardToken) -> (r: R)
        requires
            guard.id() == self.id(),
        ensures
            r == self.value(),
    {
        self.value
    }

    /// Replaces the payload, keeping what the proof vouches for.
    pub fn ret<T>(self, value: T) -> (p: InitProof<T>)
        ensures
            p.id() == self.id(),
            p.value() == value,
    {
        InitProof { value, id: self.id }
    }
}

/// A movable field cursor: the capability to write one field of a place
/// whose value may still move after construction.
///
/// The cursor knows the field's address (a stable arena slot index) and
/// the identifier of the guard token minted with it. Writing consumes the
/// cursor, so the field can be written through it at most once.
#[derive(Debug)]
pub struct InitMe {
    field: usize,
    addr: usize,
    id: u64,
}

impl InitMe {
    /// The field this cursor initializes.
    pub closed spec fn field(self) -> usize {
        self.field
    }

    /// The address of the field's slot.
    pub closed spec fn addr(self) -> usize {
        self.addr
    }

    /// The identifier shared with the guard token minted alongside.
    pub closed spec fn id(self) -> u64 {
        self.id
    }

    pub(crate) fn make(field: usize, addr: usize, id: u64) -> (c: InitMe)
        ensures
            c.field() == field,
            c.addr() == addr,
            c.id() == id,
            c == movable_cursor(field, addr, id),
    {
        InitMe { field, addr, id }
    }

    /// Writes `val` at the field's address, unconditionally overwriting
    /// without releasing whatever the slot held before — the protocol
    /// treats it as uninitialized bytes. The write itself cannot fail;
    /// the returned proof is the evidence that this field was
    /// initialized.
    pub fn write(self, a: &mut Arena, val: u64) -> (p: InitProof<()>)
        requires
            self.addr() < old(a).cells().len(),
        ensures
            final(a).cells() == old(a).cells().update(self.addr() as int, Some(val)),
            final(a).drop_log() == old(a).drop_log(),
            final(a).cap() == old(a).cap(),
            p.id() == self.id(),
    {
        a.write_word(self.addr, val);
        InitProof { value: (), id: self.id }
    }

    /// The raw address of the field's slot, for advanced use: the caller
    /// may write the slot directly in the arena and then claim completion
    /// with [`InitMe::assume_init`]. Dangerous: whoever writes through
    /// this address takes on the obligation to store a fully valid value
    /// before the field is claimed complete.
    pub fn as_mut_ptr(&self) -> (a: usize)
        ensures
            a == self.addr(),
    {
        self.addr
    }

    /// Claims completion without this cursor performing the write, for
    /// use after writing through [`InitMe::as_mut_ptr`]. The claim is
    /// checked on redemption: the slot must actually hold a value by
    /// then.
    pub fn assume_init(self) -> (p: InitProof<()>)
        ensures
            p.id() == self.id(),
    {
        InitProof { value: (), id: self.id }
    }
}

/// An address-fixed field cursor: the capability to write one field whose
/// container's address has been fixed for good.
///
/// It grants exactly what [`InitMe`] grants, and additionally certifies
/// to delegated initializers that the address it reports will be the
/// field's address in the finished value, so they may store
/// back-references to it.
#[derive(Debug)]
pub struct PinInitMe {
    field: usize,
    addr: usize,
    id: u64,
}

impl PinInitMe {
    /// The field this cursor initializes.
    pub closed spec fn field(self) -> usize {
        self.field
    }

    /// The address of the field's slot, fixed for the life of the value.
    pub closed spec fn addr(self) -> usize {
        self.addr
    }

    /// The identifier shared with the guard token minted alongside.
    pub closed spec fn id(self) -> u64 {
        self.id
    }

    pub(crate) fn make(field: usize, addr: usize, id: u64) -> (c: PinInitMe)
        ensures
            c.field() == field,
            c.addr() == addr,
            c.id() == id,
            c == pinned_cursor(field, addr, id),
    {
        PinInitMe { field, addr, id }
    }

    /// Writes `val` at the field's fixed address, unconditionally
    /// overwriting without releasing the previous slot contents, exactly
    /// as [`InitMe::write`] does.
    pub fn write(self, a: &mut Arena, val: u64) -> (p: InitProof<()>)
        requires
            self.addr() < old(a).cells().len(),
        ensures
            final(a).cells() == old(a).cells().update(self.addr() as int, Some(val)),
            final(a).drop_log() == old(a).drop_log(),
            final(a).cap() == old(a).cap(),
            p.id() == self.id(),
    {
        a.write_word(self.addr, val);
        InitProof { value: (), id: self.id }
    }

    /// The fixed address of the field's slot. Because the cursor is
    /// address-fixed, this equals the field's address in the finished
    /// value, so a self-referential field may store it.
    pub fn as_mut_ptr(&self) -> (a: usize)
        ensures
            a == self.addr(),
    {
        self.addr
    }

    /// Claims completion without this cursor performing the write; the
    /// claim is checked on redemption exactly as for
    /// [`InitMe::assume_init`].
    pub fn assume_init(self) -> (p: InitProof<()>)
        ensures
            p.id() == self.id(),
    {
        InitProof { value: (), id: self.id }
    }

    /// The same capability with the address promise forgotten.
    pub closed spec fn as_movable(self) -> InitMe {
        InitMe { field: self.field, addr: self.addr, id: self.id }
    }

    /// Weakens the cursor to a movable one: sound in this direction,
    /// because it only forgets a guarantee the holder was given. The
    /// field, address and guard identifier all stay the same.
    pub fn into_movable(self) -> (c: InitMe)
        ensures
            c == self.as_movable(),
            c.field() == self.field(),
            c.addr() == self.addr(),
            c.id() == self.id(),
    {
        InitMe { field: self.field, addr: self.addr, id: self.id }
    }
}

/// The one movable cursor for a given field, address and guard
/// identifier: the spec-level description of what a builder mints. Two
/// cursors with the same attributes are the same capability.
pub closed spec fn movable_cursor(field: usize, addr: usize, id: u64) -> InitMe {
    InitMe { field, addr, id }
}

/// The one address-fixed cursor for a given field, address and guard
/// identifier.
pub closed spec fn pinned_cursor(field: usize, addr: usize, id: u64) -> PinInitMe {
    PinInitMe { field, addr, id }
}

} // verus!
