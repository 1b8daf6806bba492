//! Places: storage for a composite value, tracked as uninitialized or
//! initialized by two distinct types, plus the per-type pin projection
//! table.
//!
//! An [`UninitPlace`] is a span of fresh arena slots, one per field. It is
//! consumed exactly once by a construction, which either yields an
//! [`InitHandle`] over the same span or tears the span down again. For an
//! address-fixed place the handle's address provably equals the place's
//! address: nothing between allocation and completion moves the span.

use crate::mem::{AllocError, Arena};
use vstd::assert_seqs_equal;
use vstd::prelude::*;

verus! {

/// The pin projection table of a composite type: for each field, in
/// declared order, whether the field is address-fixed (`true`) or movable
/// (`false`). Built once per type and never mutated.
#[derive(Debug)]
pub struct FieldTable {
    pinned: Vec<bool>,
}

impl View for FieldTable {
    type V = Seq<bool>;

    /// The table as a sequence of address-fixed flags, in field order.
    closed spec fn view(&self) -> Seq<bool> {
        self.pinned@
    }
}

impl FieldTable {
    /// A table declaring one flag per field: `true` for address-fixed,
    /// `false` for movable.
    pub fn from_flags(flags: Vec<bool>) -> (t: FieldTable)
        ensures
            t@ == flags@,
    {
        FieldTable { pinned: flags }
    }

    /// A table for a type of `n` fields, all movable.
    pub fn all_movable(n: usize) -> (t: FieldTable)
        ensures
            t@ == Seq::new(n as nat, |i: int| false),
    {
        let mut flags: Vec<bool> = Vec::new();
        let mut k: usize = 0;
        while k < n
            invariant
                k <= n,
                flags@ == Seq::new(k as nat, |i: int| false),
            decreases n - k,
        {
            flags.push(false);
            k = k + 1;
            proof {
                assert_seqs_equal!(flags@, Seq::new(k as nat, |i: int| false));
            }
        }
        FieldTable { pinned: flags }
    }

    /// The number of fields.
    pub fn len(&self) -> (n: usize)
        ensures
            n == self@.len(),
    {
        self.pinned.len()
    }

    /// Whether field `i` is address-fixed.
    pub fn is_pinned(&self, i: usize) -> (b: bool)
        requires
            i < self@.len(),
        ensures
            b == self@[i as int],
    {
        self.pinned[i]
    }
}

/// Storage for a composite value of `len` fields, currently
/// uninitialized. Consumed exactly once by a construction.
#[derive(Debug)]
pub struct UninitPlace {
    addr: usize,
    n: usize,
    pinned: bool,
}

impl UninitPlace {
    /// The address of the place: the index of its first slot.
    pub closed spec fn addr(self) -> usize {
        self.addr
    }

    /// The number of fields the place has room for.
    pub closed spec fn len(self) -> usize {
        self.n
    }

    /// Whether the place is address-fixed: its address will not change
    /// from the first field write to the end of the value's life.
    pub closed spec fn is_pinned(self) -> bool {
        self.pinned
    }

    /// The place spans allocated arena slots and does not overrun the
    /// arena.
    pub open spec fn wf(self, a: Arena) -> bool {
        self.addr() + self.len() <= a.cells().len()
    }

    /// The place's slots are all uninitialized: the state an allocation
    /// adapter hands out and the state an aborted construction restores.
    pub open spec fn fresh(self, a: Arena) -> bool {
        &&& self.wf(a)
        &&& forall|i: int|
            0 <= i < self.len() ==> (#[trigger] a.cells()[self.addr() + i]) is None
    }

    pub(crate) fn make(addr: usize, n: usize, pinned: bool) -> (p: UninitPlace)
        ensures
            p.addr() == addr,
            p.len() == n,
            p.is_pinned() == pinned,
    {
        UninitPlace { addr, n, pinned }
    }

    /// The number of fields, as an executable query.
    pub fn field_count(&self) -> (n: usize)
        ensures
            n == self.len(),
    {
        self.n
    }

    /// The address, as an executable query.
    pub fn address(&self) -> (a: usize)
        ensures
            a == self.addr(),
    {
        self.addr
    }

    /// Whether the place is address-fixed, as an executable query.
    pub fn pinned(&self) -> (b: bool)
        ensures
            b == self.is_pinned(),
    {
        self.pinned
    }
}

/// A fully initialized composite value of `len` fields, produced only by
/// a construction that wrote every field. For an address-fixed handle the
/// address equals the address of the place it was built in.
#[derive(Debug)]
pub struct InitHandle {
    addr: usize,
    n: usize,
    pinned: bool,
}

impl InitHandle {
    /// The address of the value: the index of its first slot.
    pub closed spec fn addr(self) -> usize {
        self.addr
    }

    /// The number of fields.
    pub closed spec fn len(self) -> usize {
        self.n
    }

    /// Whether the value is address-fixed.
    pub closed spec fn is_pinned(self) -> bool {
        self.pinned
    }

    /// The handle refers to allocated slots that all hold values: the
    /// invariant every construction establishes and ordinary use keeps.
    pub open spec fn wf(self, a: Arena) -> bool {
        &&& self.addr() + self.len() <= a.cells().len()
        &&& forall|i: int|
            0 <= i < self.len() ==> (#[trigger] a.cells()[self.addr() + i]) is Some
    }

    pub(crate) fn make(addr: usize, n: usize, pinned: bool) -> (h: InitHandle)
        ensures
            h.addr() == addr,
            h.len() == n,
            h.is_pinned() == pinned,
    {
        InitHandle { addr, n, pinned }
    }

    /// The number of fields, as an executable query.
    pub fn field_count(&self) -> (n: usize)
        ensures
            n == self.len(),
    {
        self.n
    }

    /// The address, as an executable query.
    pub fn address(&self) -> (a: usize)
        ensures
            a == self.addr(),
    {
        self.addr
    }

    /// The address of field `i` in the finished value.
    pub fn field_address(&self, a: &Arena, i: usize) -> (r: usize)
        requires
            self.wf(*a),
            i < self.len(),
        ensures
            r == self.addr() + i,
    {
        let sz = a.size();
        self.addr + i
    }

    /// Reads field `i` of the finished value.
    pub fn read(&self, a: &Arena, i: usize) -> (v: u64)
        requires
            self.wf(*a),
            i < self.len(),
        ensures
            a.cells()[self.addr() + i] == Some(v),
    {
        let sz = a.size();
        a.read_word(self.addr + i)
    }

    /// Releases the value: every field's destructor runs, in reverse
    /// field order, and the storage becomes uninitialized and safely
    /// deallocatable.
    pub fn dispose(self, a: &mut Arena)
        requires
            self.wf(*old(a)),
        ensures
            final(a).cells().len() == old(a).cells().len(),
            forall|i: int|
                0 <= i < self.len() ==> (#[trigger] final(a).cells()[self.addr() + i]) is None,
            forall|j: int|
                0 <= j < old(a).cells().len() && !(self.addr() <= j < self.addr() + self.len())
                    ==> #[trigger] final(a).cells()[j] == old(a).cells()[j],
            final(a).drop_log() == old(a).drop_log() + Seq::new(
                self.len() as nat,
                |i: int| (self.addr() + self.len() - 1 - i) as usize,
            ),
            final(a).cap() == old(a).cap(),
    {
        let ghost orig = *a;
        let sz = a.size();
        let mut k: usize = 0;
        while k < self.n
            invariant
                k <= self.n,
                self.addr + self.n <= sz,
                sz == a.cells().len(),
                self.wf(orig),
                a.cells().len() == orig.cells().len(),
                a.cap() == orig.cap(),
                forall|i: int|
                    self.addr() + self.n - k <= i < self.addr() + self.n
                        ==> (#[trigger] a.cells()[i]) is None,
                forall|j: int|
                    0 <= j < orig.cells().len() && !(self.addr() + self.n - k <= j < self.addr()
                        + self.n) ==> #[trigger] a.cells()[j] == orig.cells()[j],
                a.drop_log() == orig.drop_log() + Seq::new(
                    k as nat,
                    |i: int| (self.addr() + self.n - 1 - i) as usize,
                ),
            decreases self.n - k,
        {
            let idx = self.addr + (self.n - 1 - k);
            a.drop_in_place(idx);
            k = k + 1;
            proof {
                assert_seqs_equal!(
                    a.drop_log(),
                    orig.drop_log() + Seq::new(k as nat, |i: int| (self.addr() + self.n - 1 - i) as usize)
                );
            }
        }
    }
}

/// Allocates an uninitialized place of `n` fields from the arena. This is
/// the plain, movable storage variant; address-fixed variants wrap it.
/// Fails exactly when the arena is out of capacity, in which case no
/// construction begins and nothing needs rollback.
pub fn alloc_place(a: &mut Arena, n: usize) -> (r: Result<UninitPlace, AllocError>)
    ensures
        match r {
            Ok(p) => {
                &&& old(a).cells().len() + n <= old(a).cap()
                &&& p.addr() + p.len() <= usize::MAX
                &&& p.fresh(*final(a))
                &&& p.addr() == old(a).cells().len()
                &&& p.len() == n
                &&& !p.is_pinned()
                &&& final(a).cells() == old(a).cells() + Seq::new(n as nat, |i: int| None::<u64>)
                &&& final(a).drop_log() == old(a).drop_log()
                &&& final(a).cap() == old(a).cap()
            },
            Err(_) => {
                &&& old(a).cells().len() + n > old(a).cap()
                &&& *final(a) == *old(a)
            },
        },
{
    let addr = a.alloc_words(n)?;
    Ok(UninitPlace { addr, n, pinned: false })
}

/// Allocates an address-fixed place of `n` fields: the same storage as
/// [`alloc_place`], with the guarantee that the span will never move, so
/// self-referential fields may be built in it.
pub fn alloc_pinned_place(a: &mut Arena, n: usize) -> (r: Result<UninitPlace, AllocError>)
    ensures
        match r {
            Ok(p) => {
                &&& old(a).cells().len() + n <= old(a).cap()
                &&& p.addr() + p.len() <= usize::MAX
                &&& p.fresh(*final(a))
                &&& p.addr() == old(a).cells().len()
                &&& p.len() == n
                &&& p.is_pinned()
                &&& final(a).cells() == old(a).cells() + Seq::new(n as nat, |i: int| None::<u64>)
                &&& final(a).drop_log() == old(a).drop_log()
                &&& final(a).cap() == old(a).cap()
            },
            Err(_) => {
                &&& old(a).cells().len() + n > old(a).cap()
                &&& *final(a) == *old(a)
            },
        },
{
    let addr = a.alloc_words(n)?;
    Ok(UninitPlace { addr, n, pinned: true })
}

/// Storage a construction can target: a fixed span of arena slots,
/// tracked uninitialized, that becomes a value of type `Init` when every
/// field has been written. The uninitialized and the initialized form are
/// distinct types, so no caller can observe a partially initialized
/// value.
pub trait PartialInitPlace: Sized {
    /// The type the storage turns into on completion.
    type Init;

    /// The address of the span.
    spec fn span_addr(self) -> usize;

    /// The number of fields the span holds.
    spec fn span_len(self) -> usize;

    /// Whether the span's address is fixed for the value's life.
    spec fn span_pinned(self) -> bool;
}

impl PartialInitPlace for UninitPlace {
    type Init = InitHandle;

    closed spec fn span_addr(self) -> usize {
        self.addr
    }

    closed spec fn span_len(self) -> usize {
        self.n
    }

    closed spec fn span_pinned(self) -> bool {
        self.pinned
    }
}

/// Marker for storage disciplines whose finished value never moves:
/// self-referential fields may be built in them.
pub trait PinnedPlace {}

/// Storage disciplines whose places come from the arena, so that
/// allocation and initialization can happen in one go.
pub trait AllocablePlace: Sized {
    /// Whether places of this kind are address-fixed.
    spec fn allocates_pinned() -> bool;

    /// Allocates a place of this kind: fresh slots, one per field. Fails
    /// exactly when the arena is out of capacity, and then no
    /// construction begins and nothing needs rollback.
    fn allocate(a: &mut Arena, n: usize) -> (r: Result<UninitPlace, AllocError>)
        ensures
            match r {
                Ok(p) => {
                    &&& old(a).cells().len() + n <= old(a).cap()
                    &&& p.fresh(*final(a))
                    &&& p.addr() == old(a).cells().len()
                    &&& p.len() == n
                    &&& p.is_pinned() == Self::allocates_pinned()
                    &&& final(a).cells() == old(a).cells() + Seq::new(n as nat, |i: int| None::<u64>)
                    &&& final(a).drop_log() == old(a).drop_log()
                    &&& final(a).cap() == old(a).cap()
                },
                Err(_) => {
                    &&& old(a).cells().len() + n > old(a).cap()
                    &&& *final(a) == *old(a)
                },
            },
    ;
}

impl InitHandle {
    /// Moves a movable value to freshly allocated storage: the address
    /// changes, the contents do not, and no destructor runs — moving is
    /// not dropping. An address-fixed value has no such operation, which
    /// is exactly what self-referential fields rely on. When no fresh
    /// storage fits, the value is handed back untouched.
    pub fn relocate(self, a: &mut Arena) -> (r: Result<InitHandle, (AllocError, InitHandle)>)
        requires
            !self.is_pinned(),
            self.wf(*old(a)),
        ensures
            match r {
                Ok(h) => {
                    &&& !h.is_pinned()
                    &&& h.len() == self.len()
                    &&& h.addr() == old(a).cells().len()
                    &&& h.wf(*final(a))
                    &&& final(a).cells().len() == old(a).cells().len() + self.len()
                    &&& forall|i: int|
                        0 <= i < self.len() ==> #[trigger] final(a).cells()[h.addr() + i] == old(
                            a,
                        ).cells()[self.addr() + i]
                    &&& forall|i: int|
                        0 <= i < self.len() ==> (#[trigger] final(a).cells()[self.addr()
                            + i]) is None
                    &&& forall|k: int|
                        0 <= k < old(a).cells().len() && !(self.addr() <= k < self.addr()
                            + self.len()) ==> #[trigger] final(a).cells()[k] == old(a).cells()[k]
                    &&& final(a).drop_log() == old(a).drop_log()
                    &&& final(a).cap() == old(a).cap()
                },
                Err((_, h)) => {
                    &&& h == self
                    &&& old(a).cells().len() + self.len() > old(a).cap()
                    &&& *final(a) == *old(a)
                },
            },
    {
        let ghost a0 = *a;
        let n = self.n;
        let new_addr = match a.alloc_words(n) {
            Ok(addr) => addr,
            Err(e) => {
                return Err((e, self));
            },
        };
        let ghost a1 = *a;
        let mut i: usize = 0;
        while i < n
            invariant
                i <= n,
                n == self.n,
                !self.pinned,
                self.addr + n <= a0.cells().len(),
                new_addr == a0.cells().len(),
                new_addr + n <= usize::MAX,
                a.cells().len() == a1.cells().len(),
                a1.cells().len() == a0.cells().len() + n,
                a.cap() == a0.cap(),
                a.drop_log() == a0.drop_log(),
                forall|j: int|
                    0 <= j < i ==> #[trigger] a.cells()[new_addr + j] == a0.cells()[self.addr + j],
                forall|j: int|
                    0 <= j < i ==> (#[trigger] a.cells()[self.addr + j]) is None,
                forall|j: int|
                    i <= j < n ==> #[trigger] a.cells()[self.addr + j] == a0.cells()[self.addr
                        + j],
                forall|j: int|
                    i <= j < n ==> (#[trigger] a.cells()[new_addr + j]) is None,
                forall|k: int|
                    0 <= k < a0.cells().len() && !(self.addr <= k < self.addr + n)
                        ==> #[trigger] a.cells()[k] == a0.cells()[k],
                forall|i0: int|
                    0 <= i0 < n ==> (#[trigger] a0.cells()[self.addr + i0]) is Some,
            decreases n - i,
        {
            let v = a.read_word(self.addr + i);
            a.write_word(new_addr + i, v);
            a.take_word(self.addr + i);
            i = i + 1;
        }
        Ok(InitHandle { addr: new_addr, n, pinned: false })
    }
}

} // verus!
