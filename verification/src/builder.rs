//! The composite constructor: one [`Builder`] per construction walks a
//! place's fields, hands out one cursor and one guard token per field,
//! redeems completion proofs, accumulates rollback guards, and in the end
//! either finalizes the place into an initialized handle or tears the
//! written fields down again in reverse completion order.

use crate::init::{movable_cursor, pinned_cursor, GuardToken, InitMe, InitProof, PinInitMe};
use crate::mem::Arena;
use crate::place::{FieldTable, InitHandle, UninitPlace};
use vstd::assert_seqs_equal;
use vstd::prelude::*;

verus! {

/// How a construction step can be rejected. Every rejection happens
/// before the step touches storage, and leaves builder and arena exactly
/// as they were.
#[derive(Debug, PartialEq, Eq, Structural)]
pub enum BuildError {
    /// The place and the pin projection table disagree on the number of
    /// fields.
    SizeMismatch,
    /// The table declares an address-fixed field, but the place is
    /// movable, so no address could be promised.
    UnpinnedPlace,
    /// The field index is not a field of this composite.
    NoSuchField,
    /// A movable cursor was requested for an address-fixed field, or an
    /// address-fixed cursor for a movable one.
    WrongCursor,
    /// A cursor for this field was already handed out in this
    /// construction.
    AlreadyClaimed,
    /// The completion proof and the guard token do not belong to one
    /// another, or the token does not belong to an open field of this
    /// construction.
    TokenMismatch,
    /// A completion claim arrived for a field whose slot was never
    /// written.
    NotWritten,
    /// Completion was requested while some field has not been
    /// initialized.
    Incomplete,
}

/// When dropped while still armed, releases the value at one address; a
/// disarmed guard does nothing, ever. One guard is created the instant a
/// field's initialization completes, and disarmed when the whole
/// composite completes, because ownership of the field has passed to the
/// finished value.
#[derive(Debug)]
pub struct DropGuard {
    addr: usize,
    armed: bool,
}

impl DropGuard {
    /// The address this guard watches over.
    pub closed spec fn addr(self) -> usize {
        self.addr
    }

    /// Whether the guard will still release its value.
    pub closed spec fn armed(self) -> bool {
        self.armed
    }

    /// A new, armed guard for the value at `addr`. The caller takes on
    /// the obligation that, by the time the guard fires, the slot holds a
    /// value that nothing else will release.
    pub fn new(addr: usize) -> (g: DropGuard)
        ensures
            g.addr() == addr,
            g.armed(),
    {
        DropGuard { addr, armed: true }
    }

    /// Disarms the guard: from now on firing it is a no-op.
    pub fn disarm(&mut self)
        ensures
            final(self).addr() == old(self).addr(),
            !final(self).armed(),
    {
        self.armed = false;
    }

    /// Runs the guard: an armed guard releases the value at its address,
    /// appending it to the drop log; a disarmed guard leaves the arena
    /// untouched, so no destructor can fire twice.
    pub fn fire(self, a: &mut Arena)
        requires
            self.armed() ==> self.addr() < old(a).cells().len() && old(a).cells()[self.addr() as int] is Some,
        ensures
            self.armed() ==> {
                &&& final(a).cells() == old(a).cells().update(self.addr() as int, None::<u64>)
                &&& final(a).drop_log() == old(a).drop_log().push(self.addr())
                &&& final(a).cap() == old(a).cap()
            },
            !self.armed() ==> *final(a) == *old(a),
    {
        if self.armed {
            a.drop_in_place(self.addr);
        }
    }
}

/// The addresses `base + order[j]`, last completion first: the order in
/// which rollback releases the completed fields.
pub open spec fn rev_addrs(base: usize, order: Seq<usize>) -> Seq<usize> {
    Seq::new(order.len(), |t: int| (base + order[order.len() - 1 - t]) as usize)
}

/// One in-progress construction of a composite value inside one place.
///
/// The builder owns the place: it was consumed to create the builder and
/// reappears only as the finished handle. Per field the builder hands out
/// at most one cursor (with its guard token), accepts exactly the
/// matching completion proof, and pushes one rollback guard. `finalize`
/// checks completeness and disarms the guards; `abort` fires them in
/// reverse completion order.
#[derive(Debug)]
pub struct Builder {
    addr: usize,
    pinned_place: bool,
    table: FieldTable,
    claimed: Vec<bool>,
    done: Vec<bool>,
    order: Vec<usize>,
    guards: Vec<DropGuard>,
}

impl Builder {
    /// The address of the place under construction.
    pub closed spec fn addr(self) -> usize {
        self.addr
    }

    /// The pin projection table: for each field, whether it is
    /// address-fixed.
    pub closed spec fn pin_table(self) -> Seq<bool> {
        self.table@
    }

    /// The number of fields of the composite.
    pub open spec fn num_fields(self) -> int {
        self.pin_table().len() as int
    }

    /// Whether the place under construction is address-fixed.
    pub closed spec fn is_pinned_place(self) -> bool {
        self.pinned_place
    }

    /// Which fields a cursor has been handed out for.
    pub closed spec fn claimed(self) -> Seq<bool> {
        self.claimed@
    }

    /// Which fields have completed initialization.
    pub closed spec fn done(self) -> Seq<bool> {
        self.done@
    }

    /// The completed fields, in completion order.
    pub closed spec fn order(self) -> Seq<usize> {
        self.order@
    }

    /// The identifier of the guard token minted for field `i`: the
    /// field's own slot address, so no two fields of any construction in
    /// one arena share an identifier.
    pub closed spec fn guard_id(self, i: int) -> u64 {
        (self.addr + i) as u64
    }

    /// The builder's bookkeeping is consistent. Established by
    /// [`Builder::new`] and preserved by every operation.
    pub closed spec fn wf(self) -> bool {
        &&& self.claimed@.len() == self.table@.len()
        &&& self.done@.len() == self.table@.len()
        &&& self.guards@.len() == self.order@.len()
        &&& self.addr + self.table@.len() <= usize::MAX
        &&& forall|j: int|
            0 <= j < self.order@.len() ==> (#[trigger] self.order@[j]) < self.table@.len()
        &&& forall|j: int| 0 <= j < self.order@.len() ==> self.done@[#[trigger] self.order@[j] as int]
        &&& forall|j: int|
            0 <= j < self.guards@.len() ==> (#[trigger] self.guards@[j]).addr() == self.addr
                + self.order@[j] && self.guards@[j].armed()
        &&& forall|j1: int, j2: int|
            0 <= j1 < j2 < self.order@.len() ==> self.order@[j1] != self.order@[j2]
        &&& forall|i: int|
            0 <= i < self.table@.len() && self.done@[i] ==> self.claimed@[i]
        &&& forall|i: int|
            0 <= i < self.table@.len() && self.done@[i] ==> self.order@.contains(i as usize)
    }

    /// The builder's view of the arena is intact: its span is allocated,
    /// and every completed field's slot holds a value. Writes outside the
    /// span never disturb this.
    pub open spec fn valid_in(self, a: Arena) -> bool {
        &&& self.addr() + self.num_fields() <= a.cells().len()
        &&& forall|i: int|
            0 <= i < self.num_fields() && self.done()[i] ==> (#[trigger] a.cells()[self.addr()
                + i]) is Some
    }

    /// A token with identifier `token_id` and a proof with identifier
    /// `proof_id` can complete field `field`: the field is open (claimed,
    /// not yet done) and both identifiers are the one minted for it.
    pub open spec fn redeemable(self, field: int, token_id: u64, proof_id: u64) -> bool {
        &&& 0 <= field < self.num_fields()
        &&& self.claimed()[field]
        &&& !self.done()[field]
        &&& token_id == self.guard_id(field)
        &&& proof_id == token_id
    }

    /// Starts a construction: consumes the place and pairs it with the
    /// composite type's pin projection table. Rejected, before anything
    /// is written, if the table does not fit the place: wrong field
    /// count, or an address-fixed field in a movable place.
    pub fn new(place: UninitPlace, table: FieldTable) -> (r: Result<Builder, BuildError>)
        requires
            place.addr() + place.len() <= usize::MAX,
        ensures
            match r {
                Ok(b) => {
                    &&& place.len() == table@.len()
                    &&& (place.is_pinned() || forall|i: int| 0 <= i < table@.len() ==> !table@[i])
                    &&& b.wf()
                    &&& b.addr() == place.addr()
                    &&& b.pin_table() == table@
                    &&& b.is_pinned_place() == place.is_pinned()
                    &&& b.claimed() == Seq::new(table@.len(), |i: int| false)
                    &&& b.done() == Seq::new(table@.len(), |i: int| false)
                    &&& b.order() == Seq::<usize>::empty()
                },
                Err(e) => {
                    &&& (e == BuildError::SizeMismatch <==> place.len() != table@.len())
                    &&& (e == BuildError::UnpinnedPlace <==> place.len() == table@.len()
                        && !place.is_pinned() && exists|i: int|
                        0 <= i < table@.len() && table@[i])
                    &&& (e == BuildError::SizeMismatch || e == BuildError::UnpinnedPlace)
                },
            },
    {
        let n = table.len();
        if place.field_count() != n {
            return Err(BuildError::SizeMismatch);
        }
        if !place.pinned() {
            let mut k: usize = 0;
            while k < n
                invariant
                    k <= n,
                    n == table@.len(),
                    place.len() == table@.len(),
                    !place.is_pinned(),
                    forall|i: int| 0 <= i < k ==> !table@[i],
                decreases n - k,
            {
                if table.is_pinned(k) {
                    proof {
                        assert((k as int) < table@.len() && table@[k as int]);
                    }
                    return Err(BuildError::UnpinnedPlace);
                }
                k = k + 1;
            }
        }
        let mut claimed: Vec<bool> = Vec::new();
        let mut done: Vec<bool> = Vec::new();
        let mut k: usize = 0;
        while k < n
            invariant
                k <= n,
                claimed@ == Seq::new(k as nat, |i: int| false),
                done@ == Seq::new(k as nat, |i: int| false),
            decreases n - k,
        {
            claimed.push(false);
            done.push(false);
            k = k + 1;
            proof {
                assert_seqs_equal!(claimed@, Seq::new(k as nat, |i: int| false));
                assert_seqs_equal!(done@, Seq::new(k as nat, |i: int| false));
            }
        }
        Ok(
            Builder {
                addr: place.address(),
                pinned_place: place.pinned(),
                table,
                claimed,
                done,
                order: Vec::new(),
                guards: Vec::new(),
            },
        )
    }

    /// Mints a movable cursor and its guard token for field `i`. At most
    /// one cursor per field per construction: a second request for the
    /// same field is rejected, as is a request for an address-fixed
    /// field. A rejection changes nothing.
    pub fn field(&mut self, i: usize) -> (r: Result<(InitMe, GuardToken), BuildError>)
        requires
            old(self).wf(),
        ensures
            final(self).wf(),
            final(self).addr() == old(self).addr(),
            final(self).pin_table() == old(self).pin_table(),
            final(self).is_pinned_place() == old(self).is_pinned_place(),
            final(self).done() == old(self).done(),
            final(self).order() == old(self).order(),
            match r {
                Ok((c, t)) => {
                    &&& i < old(self).num_fields()
                    &&& !old(self).pin_table()[i as int]
                    &&& !old(self).claimed()[i as int]
                    &&& c.field() == i
                    &&& c.addr() == old(self).addr() + i
                    &&& c.id() == t.id()
                    &&& c == movable_cursor(i, (old(self).addr() + i) as usize, t.id())
                    &&& t.field() == i
                    &&& t.id() == final(self).guard_id(i as int)
                    &&& t.id() == old(self).guard_id(i as int)
                    &&& final(self).claimed() == old(self).claimed().update(i as int, true)
                    &&& forall|j: int|
                        0 <= j < old(self).num_fields() && j != i ==> final(self).guard_id(j)
                            != t.id()
                },
                Err(e) => {
                    &&& *final(self) == *old(self)
                    &&& (e == BuildError::NoSuchField <==> i >= old(self).num_fields())
                    &&& (e == BuildError::WrongCursor <==> i < old(self).num_fields() && old(self).pin_table()[i as int])
                    &&& (e == BuildError::AlreadyClaimed <==> i < old(self).num_fields() && !old(self).pin_table()[i as int] && old(self).claimed()[i as int])
                    &&& (e == BuildError::NoSuchField || e == BuildError::WrongCursor || e
                        == BuildError::AlreadyClaimed)
                },
            },
    {
        let n = self.table.len();
        if i >= n {
            return Err(BuildError::NoSuchField);
        }
        if self.table.is_pinned(i) {
            return Err(BuildError::WrongCursor);
        }
        if self.claimed[i] {
            return Err(BuildError::AlreadyClaimed);
        }
        self.claimed.set(i, true);
        let slot = self.addr + i;
        let cursor = InitMe::make(i, slot, slot as u64);
        let token = GuardToken::mint(i, slot);
        Ok((cursor, token))
    }

    /// Mints an address-fixed cursor and its guard token for field `i`:
    /// the counterpart of [`Builder::field`] for fields the pin
    /// projection table declares address-fixed. The address the cursor
    /// reports is the field's address in the finished value.
    pub fn pin_field(&mut self, i: usize) -> (r: Result<(PinInitMe, GuardToken), BuildError>)
        requires
            old(self).wf(),
        ensures
            final(self).wf(),
            final(self).addr() == old(self).addr(),
            final(self).pin_table() == old(self).pin_table(),
            final(self).is_pinned_place() == old(self).is_pinned_place(),
            final(self).done() == old(self).done(),
            final(self).order() == old(self).order(),
            match r {
                Ok((c, t)) => {
                    &&& i < old(self).num_fields()
                    &&& old(self).pin_table()[i as int]
                    &&& !old(self).claimed()[i as int]
                    &&& c.field() == i
                    &&& c.addr() == old(self).addr() + i
                    &&& c.id() == t.id()
                    &&& c == pinned_cursor(i, (old(self).addr() + i) as usize, t.id())
                    &&& t.field() == i
                    &&& t.id() == final(self).guard_id(i as int)
                    &&& t.id() == old(self).guard_id(i as int)
                    &&& final(self).claimed() == old(self).claimed().update(i as int, true)
                    &&& forall|j: int|
                        0 <= j < old(self).num_fields() && j != i ==> final(self).guard_id(j)
                            != t.id()
                },
                Err(e) => {
                    &&& *final(self) == *old(self)
                    &&& (e == BuildError::NoSuchField <==> i >= old(self).num_fields())
                    &&& (e == BuildError::WrongCursor <==> i < old(self).num_fields() && !old(self).pin_table()[i as int])
                    &&& (e == BuildError::AlreadyClaimed <==> i < old(self).num_fields() && old(self).pin_table()[i as int] && old(self).claimed()[i as int])
                    &&& (e == BuildError::NoSuchField || e == BuildError::WrongCursor || e
                        == BuildError::AlreadyClaimed)
                },
            },
    {
        let n = self.table.len();
        if i >= n {
            return Err(BuildError::NoSuchField);
        }
        if !self.table.is_pinned(i) {
            return Err(BuildError::WrongCursor);
        }
        if self.claimed[i] {
            return Err(BuildError::AlreadyClaimed);
        }
        self.claimed.set(i, true);
        let slot = self.addr + i;
        let cursor = PinInitMe::make(i, slot, slot as u64);
        let token = GuardToken::mint(i, slot);
        Ok((cursor, token))
    }

    /// The claimed and done maps have one entry per field: part of the
    /// builder's bookkeeping consistency, for callers outside this
    /// module.
    pub proof fn lemma_wf_shape(self)
        requires
            self.wf(),
        ensures
            self.claimed().len() == self.num_fields(),
            self.done().len() == self.num_fields(),
            self.addr() + self.num_fields() <= usize::MAX,
    {
    }

    /// A field no cursor was handed out for cannot have completed: part
    /// of the builder's bookkeeping consistency, for callers outside this
    /// module.
    pub proof fn lemma_not_claimed_not_done(self, i: int)
        requires
            self.wf(),
            0 <= i < self.num_fields(),
            !self.claimed()[i],
        ensures
            !self.done()[i],
    {
    }

    /// Whether the pin projection table declares field `i` address-fixed,
    /// i.e. which of [`Builder::field`] and [`Builder::pin_field`] serves
    /// it.
    pub fn field_is_pinned(&self, i: usize) -> (b: bool)
        requires
            i < self.num_fields(),
        ensures
            b == self.pin_table()[i as int],
    {
        self.table.is_pinned(i)
    }

    /// Redeems a completion proof against its guard token. Redemption
    /// writes nothing: the cursor already stored the field's value (or,
    /// for a claim made through the address escape hatch, the caller
    /// did), and the slot is checked to hold one. On success the field
    /// counts as done and a rollback guard for it is armed. A proof can
    /// never complete a field other than the one its token was minted
    /// for, and never completes anything twice; a rejected redemption
    /// changes nothing.
    pub fn complete<R>(&mut self, a: &Arena, token: GuardToken, proof: InitProof<R>) -> (r: Result<
        R,
        BuildError,
    >)
        requires
            old(self).wf(),
            old(self).valid_in(*a),
        ensures
            final(self).wf(),
            final(self).valid_in(*a),
            final(self).addr() == old(self).addr(),
            final(self).pin_table() == old(self).pin_table(),
            final(self).is_pinned_place() == old(self).is_pinned_place(),
            match r {
                Ok(v) => {
                    &&& old(self).redeemable(token.field() as int, token.id(), proof.id())
                    &&& a.cells()[old(self).addr() + token.field()] is Some
                    &&& v == proof.value()
                    &&& final(self).claimed() == old(self).claimed()
                    &&& final(self).done() == old(self).done().update(token.field() as int, true)
                    &&& final(self).order() == old(self).order().push(token.field())
                },
                Err(e) => {
                    &&& *final(self) == *old(self)
                    &&& (e == BuildError::TokenMismatch <==> !old(self).redeemable(
                        token.field() as int,
                        token.id(),
                        proof.id(),
                    ))
                    &&& (e == BuildError::NotWritten <==> old(self).redeemable(
                        token.field() as int,
                        token.id(),
                        proof.id(),
                    ) && a.cells()[old(self).addr() + token.field()] is None)
                    &&& (e == BuildError::TokenMismatch || e == BuildError::NotWritten)
                },
            },
    {
        let (tf, tid) = token.into_parts();
        let (value, pid) = proof.into_parts();
        let n = self.table.len();
        if tf >= n || !self.claimed[tf] || self.done[tf] {
            return Err(BuildError::TokenMismatch);
        }
        let slot = self.addr + tf;
        if tid != slot as u64 || pid != tid {
            return Err(BuildError::TokenMismatch);
        }
        if !a.is_written(slot) {
            return Err(BuildError::NotWritten);
        }
        let ghost pre = *self;
        self.done.set(tf, true);
        self.order.push(tf);
        self.guards.push(DropGuard::new(slot));
        proof {
            assert forall|i: int|
                0 <= i < self.table@.len() && self.done@[i] implies self.order@.contains(
                i as usize,
            ) by {
                if i == tf {
                    assert(self.order@[self.order@.len() - 1] == tf);
                } else {
                    assert(pre.done@[i]);
                    let j = choose|j: int| 0 <= j < pre.order@.len() && pre.order@[j] == i as usize;
                    assert(self.order@[j] == i as usize);
                }
            }
        }
        Ok(value)
    }

    /// The completeness check and the transfer of ownership: succeeds
    /// exactly when every field has completed, in which case every
    /// rollback guard is disarmed and the initialized handle over the
    /// same span, at the same address, is returned. Nothing is written:
    /// the arena is only read. If a field is missing, the builder is
    /// handed back unchanged so the caller can finish or abort.
    pub fn finalize(self, a: &Arena) -> (r: Result<InitHandle, (BuildError, Builder)>)
        requires
            self.wf(),
            self.valid_in(*a),
        ensures
            match r {
                Ok(h) => {
                    &&& forall|i: int| 0 <= i < self.num_fields() ==> self.done()[i]
                    &&& h.addr() == self.addr()
                    &&& h.len() == self.num_fields()
                    &&& h.is_pinned() == self.is_pinned_place()
                    &&& h.wf(*a)
                },
                Err((e, b)) => {
                    &&& e == BuildError::Incomplete
                    &&& exists|i: int| 0 <= i < self.num_fields() && !self.done()[i]
                    &&& b == self
                },
            },
    {
        let n = self.table.len();
        let mut k: usize = 0;
        while k < n
            invariant
                k <= n,
                n == self.done@.len(),
                n == self.num_fields(),
                forall|i: int| 0 <= i < k ==> self.done()[i],
            decreases n - k,
        {
            if !self.done[k] {
                proof {
                    assert((k as int) < self.num_fields() && !self.done()[k as int]);
                }
                return Err((BuildError::Incomplete, self));
            }
            k = k + 1;
        }
        let mut this = self;
        let mut guards = Vec::new();
        core::mem::swap(&mut guards, &mut this.guards);
        while guards.len() > 0
            decreases guards.len(),
        {
            let mut g = guards.pop().unwrap();
            g.disarm();
        }
        Ok(InitHandle::make(this.addr, n, this.pinned_place))
    }

    /// The rollback path: fires every armed guard, releasing the
    /// completed fields in reverse completion order — most recently
    /// written first — and leaves the place's span uninitialized and
    /// safely deallocatable. Fields that never completed are not touched:
    /// their destructors never ran and never will.
    pub fn abort(self, a: &mut Arena)
        requires
            self.wf(),
            self.valid_in(*old(a)),
        ensures
            final(a).cells().len() == old(a).cells().len(),
            final(a).cap() == old(a).cap(),
            final(a).drop_log() == old(a).drop_log() + rev_addrs(self.addr(), self.order()),
            forall|i: int|
                0 <= i < self.num_fields() && self.done()[i] ==> (#[trigger] final(a).cells()[self.addr()
                    + i]) is None,
            forall|i: int|
                0 <= i < self.num_fields() && !self.done()[i] ==> #[trigger] final(a).cells()[self.addr()
                    + i] == old(a).cells()[self.addr() + i],
            forall|k: int|
                0 <= k < old(a).cells().len() && !(self.addr() <= k < self.addr()
                    + self.num_fields()) ==> #[trigger] final(a).cells()[k] == old(a).cells()[k],
    {
        let ghost orig_a = *a;
        let ghost full = self.order@;
        let ghost base = self.addr;
        let mut this = self;
        while this.guards.len() > 0
            invariant
                this.addr == base,
                this.guards@.len() == this.order@.len(),
                forall|j: int|
                    0 <= j < this.guards@.len() ==> (#[trigger] this.guards@[j]).addr() == base
                        + full[j] && this.guards@[j].armed(),
                this.order@ =~= full.take(this.order@.len() as int),
                a.cells().len() == orig_a.cells().len(),
                a.cap() == orig_a.cap(),
                base + this.table@.len() <= usize::MAX,
                base + this.table@.len() <= a.cells().len(),
                this.order@.len() <= full.len(),
                forall|j: int| 0 <= j < full.len() ==> (#[trigger] full[j]) < this.table@.len(),
                forall|j1: int, j2: int| 0 <= j1 < j2 < full.len() ==> full[j1] != full[j2],
                forall|j: int|
                    0 <= j < this.order@.len() ==> (#[trigger] a.cells()[base + full[j]]) is Some,
                forall|j: int|
                    this.order@.len() <= j < full.len() ==> (#[trigger] a.cells()[base
                        + full[j]]) is None,
                forall|k: int|
                    0 <= k < orig_a.cells().len() && #[trigger] a.cells()[k] != orig_a.cells()[k]
                        ==> exists|j: int|
                        this.order@.len() <= j < full.len() && k == base + full[j],
                a.drop_log() == orig_a.drop_log() + Seq::new(
                    (full.len() - this.order@.len()) as nat,
                    |t: int| (base + full[full.len() - 1 - t]) as usize,
                ),
            decreases this.guards.len(),
        {
            let g = this.guards.pop().unwrap();
            let f = this.order.pop().unwrap();
            let ghost m = this.order@.len() as int;
            proof {
                assert(f == full[m]);
                assert(g.addr() == base + f);
                assert(a.cells()[base + full[m]] is Some);
            }
            g.fire(a);
            proof {
                assert forall|k: int|
                    0 <= k < orig_a.cells().len() && #[trigger] a.cells()[k]
                        != orig_a.cells()[k] implies exists|j: int|
                    m <= j < full.len() && k == base + full[j] by {
                    if k == base + full[m] {
                        assert(m <= m < full.len() && k == base + full[m]);
                    }
                }
                assert_seqs_equal!(
                    a.drop_log(),
                    orig_a.drop_log() + Seq::new(
                        (full.len() - m) as nat,
                        |t: int| (base + full[full.len() - 1 - t]) as usize,
                    )
                );
                assert(this.order@ =~= full.take(m));
            }
        }
        proof {
            assert(this.order@.len() == 0);
            assert_seqs_equal!(a.drop_log(), orig_a.drop_log() + rev_addrs(base, full));
            assert forall|i: int|
                0 <= i < self.num_fields() && self.done()[i] implies (#[trigger] a.cells()[base
                + i]) is None by {
                assert(self.order().contains(i as usize));
                let j = choose|j: int| 0 <= j < full.len() && full[j] == i as usize;
                assert(a.cells()[base + full[j]] is None);
            }
            assert forall|i: int|
                0 <= i < self.num_fields() && !self.done()[i] implies #[trigger] a.cells()[base + i]
                == orig_a.cells()[base + i] by {
                if a.cells()[base + i] != orig_a.cells()[base + i] {
                    let j = choose|j: int|
                        0 <= j < full.len() && base + i == base + full[j];
                    assert(self.done()[full[j] as int]);
                    assert(full[j] == i);
                }
            }
            assert forall|k: int|
                0 <= k < orig_a.cells().len() && !(base <= k < base
                    + self.num_fields()) implies #[trigger] a.cells()[k] == orig_a.cells()[k] by {
                if a.cells()[k] != orig_a.cells()[k] {
                    let j = choose|j: int| 0 <= j < full.len() && k == base + full[j];
                    assert(base <= base + full[j] < base + self.num_fields());
                }
            }
        }
    }
}

} // verus!
