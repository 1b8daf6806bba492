//! Allocation adapters: thin bindings from the construction entry points
//! to concrete storage disciplines — exclusively owned heap slots,
//! caller-scoped stack slots, shared-ownership cells that are exclusive
//! while under construction, and once-initialized static cells.
//!
//! At this layer the completeness check is static: every entry point
//! requires an instruction list with exactly one completing step per
//! field, so a list that omits a field or reads a not-yet-written field
//! is rejected when the caller is verified, before any code runs. The
//! only run-time outcomes left are the two the adapters surface:
//! allocation failure and an initializer's own error — and each entry
//! point succeeds exactly when neither strikes.

use crate::construct::{bad_at, construct_in, field_value, rollback_log, step_ok, steps_ok,
    ConstructError, Op};
use crate::mem::{AllocError, Arena};
use crate::place::{alloc_pinned_place, AllocablePlace, FieldTable, InitHandle, PinnedPlace,
    UninitPlace};
use vstd::prelude::*;

verus! {

/// Either an allocation error, or an initialization error.
#[derive(Debug, PartialEq, Eq)]
pub enum AllocInitErr<E> {
    /// A step reported this domain error; everything already written was
    /// rolled back.
    Init(E),
    /// Storage could not be obtained; no construction began.
    Alloc,
}

/// Every step either completes its field or reports an error: no field is
/// omitted, none is repeated (the list is positional), and a read of an
/// earlier field really is of an earlier field. This is the adapters'
/// static completeness check; with it, the only run-time failures left
/// are allocation failure and initializer errors.
pub open spec fn steps_cover<E>(steps: Seq<Op<E>>, table: Seq<bool>) -> bool {
    &&& steps.len() == table.len()
    &&& forall|k: int|
        0 <= k < steps.len() ==> (steps[k] is Fail || #[trigger] step_ok(steps, k))
}

/// Types that stand for one storage discipline and can therefore be
/// allocated and initialized in one go. `Self` is the handle the
/// discipline yields for a finished value.
pub trait InPlaceInit: Sized {
    /// The finished value this adapter handed out.
    spec fn made(self) -> InitHandle;

    /// Whether this discipline pins the value: the handle's address is
    /// fixed for the value's whole life.
    spec fn pins() -> bool;

    /// Allocates storage for the composite described by `table` and runs
    /// the instruction list in it. Succeeds exactly when the storage fits
    /// under the arena's capacity and no step fails. On an initializer
    /// error the first failing step's error comes through unchanged,
    /// every completed field was released again — most recently written
    /// first, each exactly once — and the allocated span is left
    /// uninitialized; no whole-value destructor ever ran. Storage that
    /// existed before the call is never touched.
    fn pin_init<E>(a: &mut Arena, table: FieldTable, steps: Vec<Op<E>>) -> (r: Result<
        Self,
        AllocInitErr<E>,
    >)
        requires
            steps_cover(steps@, table@),
        ensures
            final(a).cap() == old(a).cap(),
            forall|k: int|
                0 <= k < old(a).cells().len() ==> #[trigger] final(a).cells()[k] == old(a).cells()[k],
            (r == Result::<Self, AllocInitErr<E>>::Err(AllocInitErr::Alloc) <==> old(a).cells().len() + table@.len() > old(a).cap()),
            (r is Ok <==> old(a).cells().len() + table@.len() <= old(a).cap() && steps_ok(
                steps@,
            )),
            match r {
                Ok(cell) => {
                    &&& cell.made().addr() == old(a).cells().len()
                    &&& cell.made().len() == table@.len()
                    &&& cell.made().is_pinned() == Self::pins()
                    &&& cell.made().wf(*final(a))
                    &&& forall|i: int|
                        0 <= i < table@.len() ==> #[trigger] final(a).cells()[cell.made().addr()
                            + i] == Some(field_value(steps@, i))
                    &&& final(a).drop_log() == old(a).drop_log()
                },
                Err(AllocInitErr::Alloc) => *final(a) == *old(a),
                Err(AllocInitErr::Init(err)) => {
                    &&& final(a).cells().len() == old(a).cells().len() + table@.len()
                    &&& forall|i: int|
                        0 <= i < table@.len() ==> (#[trigger] final(a).cells()[old(a).cells().len()
                            + i]) is None
                    &&& exists|k: int|
                        #[trigger] bad_at(steps@, k) && steps@[k] == Op::Fail(err) && final(a).drop_log() == old(a).drop_log() + rollback_log(
                            old(a).cells().len() as usize,
                            k,
                        )
                },
            },
    ;

    /// Exactly [`InPlaceInit::pin_init`], but the finished value stays
    /// movable: for composites with no address-fixed field and no
    /// self-references.
    fn init<E>(a: &mut Arena, table: FieldTable, steps: Vec<Op<E>>) -> (r: Result<
        Self,
        AllocInitErr<E>,
    >)
        requires
            steps_cover(steps@, table@),
            forall|i: int| 0 <= i < table@.len() ==> !table@[i],
        ensures
            final(a).cap() == old(a).cap(),
            forall|k: int|
                0 <= k < old(a).cells().len() ==> #[trigger] final(a).cells()[k] == old(a).cells()[k],
            (r == Result::<Self, AllocInitErr<E>>::Err(AllocInitErr::Alloc) <==> old(a).cells().len() + table@.len() > old(a).cap()),
            (r is Ok <==> old(a).cells().len() + table@.len() <= old(a).cap() && steps_ok(
                steps@,
            )),
            match r {
                Ok(cell) => {
                    &&& cell.made().addr() == old(a).cells().len()
                    &&& cell.made().len() == table@.len()
                    &&& !cell.made().is_pinned()
                    &&& cell.made().wf(*final(a))
                    &&& forall|i: int|
                        0 <= i < table@.len() ==> #[trigger] final(a).cells()[cell.made().addr()
                            + i] == Some(field_value(steps@, i))
                    &&& final(a).drop_log() == old(a).drop_log()
                },
                Err(AllocInitErr::Alloc) => *final(a) == *old(a),
                Err(AllocInitErr::Init(err)) => {
                    &&& final(a).cells().len() == old(a).cells().len() + table@.len()
                    &&& forall|i: int|
                        0 <= i < table@.len() ==> (#[trigger] final(a).cells()[old(a).cells().len()
                            + i]) is None
                    &&& exists|k: int|
                        #[trigger] bad_at(steps@, k) && steps@[k] == Op::Fail(err) && final(a).drop_log() == old(a).drop_log() + rollback_log(
                            old(a).cells().len() as usize,
                            k,
                        )
                },
            },
    ;
}

/// An initialized value behind exclusive heap-style ownership: the
/// counterpart of a box. Built address-fixed, it may hold
/// self-referential fields.
#[derive(Debug)]
pub struct HeapBox {
    handle: InitHandle,
}

impl HeapBox {
    /// The finished value, for reading and releasing.
    pub fn handle(&self) -> (h: &InitHandle)
        ensures
            h == self.made(),
    {
        &self.handle
    }

    /// Releases the boxed value: its fields' destructors run in reverse
    /// field order and the storage becomes deallocatable.
    pub fn dispose(self, a: &mut Arena)
        requires
            self.made().wf(*old(a)),
        ensures
            final(a).cells().len() == old(a).cells().len(),
            final(a).cap() == old(a).cap(),
            forall|i: int|
                0 <= i < self.made().len() ==> (#[trigger] final(a).cells()[self.made().addr()
                    + i]) is None,
            forall|j: int|
                0 <= j < old(a).cells().len() && !(self.made().addr() <= j < self.made().addr()
                    + self.made().len()) ==> #[trigger] final(a).cells()[j] == old(a).cells()[j],
            final(a).drop_log() == old(a).drop_log() + Seq::new(
                self.made().len() as nat,
                |i: int| (self.made().addr() + self.made().len() - 1 - i) as usize,
            ),
    {
        self.handle.dispose(a)
    }
}

impl InPlaceInit for HeapBox {
    closed spec fn made(self) -> InitHandle {
        self.handle
    }

    open spec fn pins() -> bool {
        true
    }

    fn pin_init<E>(a: &mut Arena, table: FieldTable, steps: Vec<Op<E>>) -> (r: Result<
        Self,
        AllocInitErr<E>,
    >) {
        match construct_in(a, table, true, steps) {
            Ok(h) => Ok(HeapBox { handle: h }),
            Err(ConstructError::Alloc) => Err(AllocInitErr::Alloc),
            Err(ConstructError::Init(e)) => Err(AllocInitErr::Init(e)),
            Err(ConstructError::Misuse(_)) => unreached(),
        }
    }

    fn init<E>(a: &mut Arena, table: FieldTable, steps: Vec<Op<E>>) -> (r: Result<
        Self,
        AllocInitErr<E>,
    >) {
        match construct_in(a, table, false, steps) {
            Ok(h) => Ok(HeapBox { handle: h }),
            Err(ConstructError::Alloc) => Err(AllocInitErr::Alloc),
            Err(ConstructError::Init(e)) => Err(AllocInitErr::Init(e)),
            Err(ConstructError::Misuse(_)) => unreached(),
        }
    }
}

/// A shared-ownership cell that is exclusively owned while the value in
/// it is under construction: the reference count is exactly one until
/// [`UniqueCell::share`] converts it, so nothing can observe a partially
/// initialized value.
#[derive(Debug)]
pub struct UniqueCell {
    handle: InitHandle,
}

/// The shared form of a [`UniqueCell`], only obtainable once the value is
/// fully initialized.
#[derive(Debug)]
pub struct SharedCell {
    handle: InitHandle,
}

impl UniqueCell {
    /// The finished value, for reading.
    pub fn handle(&self) -> (h: &InitHandle)
        ensures
            h == self.made(),
    {
        &self.handle
    }

    /// Converts the exclusively owned cell into its shared form; only now
    /// can other owners appear, and they all see a fully initialized
    /// value at the same address.
    pub fn share(self) -> (s: SharedCell)
        ensures
            s.made() == self.made(),
    {
        SharedCell { handle: self.handle }
    }
}

impl SharedCell {
    /// The finished value.
    pub closed spec fn made(self) -> InitHandle {
        self.handle
    }

    /// The finished value, for reading.
    pub fn handle(&self) -> (h: &InitHandle)
        ensures
            h == self.made(),
    {
        &self.handle
    }
}

impl InPlaceInit for UniqueCell {
    closed spec fn made(self) -> InitHandle {
        self.handle
    }

    open spec fn pins() -> bool {
        true
    }

    fn pin_init<E>(a: &mut Arena, table: FieldTable, steps: Vec<Op<E>>) -> (r: Result<
        Self,
        AllocInitErr<E>,
    >) {
        match construct_in(a, table, true, steps) {
            Ok(h) => Ok(UniqueCell { handle: h }),
            Err(ConstructError::Alloc) => Err(AllocInitErr::Alloc),
            Err(ConstructError::Init(e)) => Err(AllocInitErr::Init(e)),
            Err(ConstructError::Misuse(_)) => unreached(),
        }
    }

    fn init<E>(a: &mut Arena, table: FieldTable, steps: Vec<Op<E>>) -> (r: Result<
        Self,
        AllocInitErr<E>,
    >) {
        match construct_in(a, table, false, steps) {
            Ok(h) => Ok(UniqueCell { handle: h }),
            Err(ConstructError::Alloc) => Err(AllocInitErr::Alloc),
            Err(ConstructError::Init(e)) => Err(AllocInitErr::Init(e)),
            Err(ConstructError::Misuse(_)) => unreached(),
        }
    }
}

impl PinnedPlace for HeapBox {}

impl PinnedPlace for UniqueCell {}

impl PinnedPlace for StackInit {}

impl AllocablePlace for HeapBox {
    open spec fn allocates_pinned() -> bool {
        true
    }

    fn allocate(a: &mut Arena, n: usize) -> (r: Result<UninitPlace, AllocError>) {
        alloc_pinned_place(a, n)
    }
}

impl AllocablePlace for UniqueCell {
    open spec fn allocates_pinned() -> bool {
        true
    }

    fn allocate(a: &mut Arena, n: usize) -> (r: Result<UninitPlace, AllocError>) {
        alloc_pinned_place(a, n)
    }
}

/// Caller-scoped storage: uninitialized when declared, address-fixed for
/// the scope's duration once initialized, released by an explicit
/// [`StackInit::dispose`] at scope end.
#[derive(Debug)]
pub struct StackInit {
    state: Option<InitHandle>,
}

impl StackInit {
    /// The finished value, if initialization has happened.
    pub closed spec fn state(self) -> Option<InitHandle> {
        self.state
    }

    /// Fresh stack storage, not yet initialized and holding nothing to
    /// release.
    pub fn uninit() -> (s: StackInit)
        ensures
            s.state() is None,
    {
        StackInit { state: None }
    }

    /// Initializes the storage: allocates an address-fixed span and runs
    /// the instruction list in it. On success the storage holds the
    /// finished, pinned value; on failure it holds nothing — after an
    /// initializer error the completed fields were released again, most
    /// recently written first, and the span is uninitialized.
    pub fn init<E>(&mut self, a: &mut Arena, table: FieldTable, steps: Vec<Op<E>>) -> (r: Result<
        (),
        AllocInitErr<E>,
    >)
        requires
            old(self).state() is None,
            steps_cover(steps@, table@),
        ensures
            final(a).cap() == old(a).cap(),
            forall|k: int|
                0 <= k < old(a).cells().len() ==> #[trigger] final(a).cells()[k] == old(a).cells()[k],
            (r == Result::<(), AllocInitErr<E>>::Err(AllocInitErr::Alloc) <==> old(a).cells().len()
                + table@.len() > old(a).cap()),
            (r is Ok <==> old(a).cells().len() + table@.len() <= old(a).cap() && steps_ok(
                steps@,
            )),
            match r {
                Ok(_) => {
                    &&& final(self).state() is Some
                    &&& final(self).state()->Some_0.addr() == old(a).cells().len()
                    &&& final(self).state()->Some_0.len() == table@.len()
                    &&& final(self).state()->Some_0.is_pinned()
                    &&& final(self).state()->Some_0.wf(*final(a))
                    &&& forall|i: int|
                        0 <= i < table@.len() ==> #[trigger] final(a).cells()[final(self).state()->Some_0.addr() + i] == Some(field_value(steps@, i))
                    &&& final(a).drop_log() == old(a).drop_log()
                },
                Err(AllocInitErr::Alloc) => final(self).state() is None && *final(a) == *old(a),
                Err(AllocInitErr::Init(err)) => {
                    &&& final(self).state() is None
                    &&& final(a).cells().len() == old(a).cells().len() + table@.len()
                    &&& forall|i: int|
                        0 <= i < table@.len() ==> (#[trigger] final(a).cells()[old(a).cells().len()
                            + i]) is None
                    &&& exists|k: int|
                        #[trigger] bad_at(steps@, k) && steps@[k] == Op::Fail(err) && final(a).drop_log() == old(a).drop_log() + rollback_log(
                            old(a).cells().len() as usize,
                            k,
                        )
                },
            },
    {
        match construct_in(a, table, true, steps) {
            Ok(h) => {
                self.state = Some(h);
                Ok(())
            },
            Err(ConstructError::Alloc) => Err(AllocInitErr::Alloc),
            Err(ConstructError::Init(e)) => Err(AllocInitErr::Init(e)),
            Err(ConstructError::Misuse(_)) => unreached(),
        }
    }

    /// The finished value, readable once initialization succeeded.
    pub fn handle(&self) -> (h: &InitHandle)
        requires
            self.state() is Some,
        ensures
            Some(*h) == self.state(),
    {
        match &self.state {
            Some(h) => h,
            None => unreached(),
        }
    }

    /// The scope-end release: if the storage was initialized, the value's
    /// destructors run, in reverse field order; empty storage releases
    /// nothing. Either way the storage holds nothing afterwards.
    pub fn dispose(&mut self, a: &mut Arena)
        requires
            old(self).state() is Some ==> old(self).state()->Some_0.wf(*old(a)),
        ensures
            final(self).state() is None,
            old(self).state() is None ==> *final(a) == *old(a),
            old(self).state() is Some ==> {
                let h = old(self).state()->Some_0;
                &&& final(a).cells().len() == old(a).cells().len()
                &&& final(a).cap() == old(a).cap()
                &&& forall|i: int|
                    0 <= i < h.len() ==> (#[trigger] final(a).cells()[h.addr() + i]) is None
                &&& forall|j: int|
                    0 <= j < old(a).cells().len() && !(h.addr() <= j < h.addr() + h.len())
                        ==> #[trigger] final(a).cells()[j] == old(a).cells()[j]
                &&& final(a).drop_log() == old(a).drop_log() + Seq::new(
                    h.len() as nat,
                    |i: int| (h.addr() + h.len() - 1 - i) as usize,
                )
            },
    {
        let mut state: Option<InitHandle> = None;
        core::mem::swap(&mut state, &mut self.state);
        match state {
            Some(h) => h.dispose(a),
            None => (),
        }
    }
}

/// Process-wide storage initialized exactly once, before anything can
/// observe it. There is no release path: the value lives for the rest of
/// the run, so the cell only ever goes from empty to initialized.
#[derive(Debug)]
pub struct StaticCell {
    state: Option<InitHandle>,
}

impl StaticCell {
    /// The finished value, if the one-time initialization has happened.
    pub closed spec fn state(self) -> Option<InitHandle> {
        self.state
    }

    /// An empty cell, observable by nobody until it is initialized.
    pub fn new() -> (s: StaticCell)
        ensures
            s.state() is None,
    {
        StaticCell { state: None }
    }

    /// The one-time initialization: allocates an address-fixed span and
    /// runs the instruction list in it. It can only run on an empty cell,
    /// so no observer ever sees two initializations. An initializer error
    /// leaves the cell empty, the completed fields released again and the
    /// span uninitialized.
    pub fn init_once<E>(&mut self, a: &mut Arena, table: FieldTable, steps: Vec<Op<E>>) -> (r:
        Result<(), AllocInitErr<E>>)
        requires
            old(self).state() is None,
            steps_cover(steps@, table@),
        ensures
            final(a).cap() == old(a).cap(),
            forall|k: int|
                0 <= k < old(a).cells().len() ==> #[trigger] final(a).cells()[k] == old(a).cells()[k],
            (r == Result::<(), AllocInitErr<E>>::Err(AllocInitErr::Alloc) <==> old(a).cells().len()
                + table@.len() > old(a).cap()),
            (r is Ok <==> old(a).cells().len() + table@.len() <= old(a).cap() && steps_ok(
                steps@,
            )),
            match r {
                Ok(_) => {
                    &&& final(self).state() is Some
                    &&& final(self).state()->Some_0.addr() == old(a).cells().len()
                    &&& final(self).state()->Some_0.len() == table@.len()
                    &&& final(self).state()->Some_0.is_pinned()
                    &&& final(self).state()->Some_0.wf(*final(a))
                    &&& forall|i: int|
                        0 <= i < table@.len() ==> #[trigger] final(a).cells()[final(self).state()->Some_0.addr() + i] == Some(field_value(steps@, i))
                    &&& final(a).drop_log() == old(a).drop_log()
                },
                Err(AllocInitErr::Alloc) => final(self).state() is None && *final(a) == *old(a),
                Err(AllocInitErr::Init(err)) => {
                    &&& final(self).state() is None
                    &&& final(a).cells().len() == old(a).cells().len() + table@.len()
                    &&& forall|i: int|
                        0 <= i < table@.len() ==> (#[trigger] final(a).cells()[old(a).cells().len()
                            + i]) is None
                    &&& exists|k: int|
                        #[trigger] bad_at(steps@, k) && steps@[k] == Op::Fail(err) && final(a).drop_log() == old(a).drop_log() + rollback_log(
                            old(a).cells().len() as usize,
                            k,
                        )
                },
            },
    {
        match construct_in(a, table, true, steps) {
            Ok(h) => {
                self.state = Some(h);
                Ok(())
            },
            Err(ConstructError::Alloc) => Err(AllocInitErr::Alloc),
            Err(ConstructError::Init(e)) => Err(AllocInitErr::Init(e)),
            Err(ConstructError::Misuse(_)) => unreached(),
        }
    }

    /// The finished value: only an initialized cell can be observed.
    pub fn get(&self) -> (h: &InitHandle)
        requires
            self.state() is Some,
        ensures
            Some(*h) == self.state(),
    {
        match &self.state {
            Some(h) => h,
            None => unreached(),
        }
    }
}

/// Marker for field values whose all-zero bit pattern is valid, so that
/// [`zeroed`] may stand in for them in an instruction list. The word type
/// every field is stored as carries it.
pub trait Zeroable {}

impl Zeroable for u64 {}

/// An instruction that zero-initializes its field: for a field whose
/// zero bit pattern is a valid value, nothing more need be said.
pub fn zeroed<E>() -> (op: Op<E>)
    ensures
        op == Op::<E>::Value(0u64),
{
    Op::Value(0u64)
}

} // verus!
