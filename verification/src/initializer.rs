//! Initializers for a single field: a ready value ([`Direct`] way) or a
//! delegated callable ([`Closure`] way) that completes the field through
//! its cursor.
//!
//! A delegated initializer receives the arena and the cursor and must
//! hand back a completion proof answering to that cursor's own guard
//! token — it cannot smuggle in a proof minted for another field, it
//! cannot keep the cursor, which is consumed by the call, and it may
//! touch no storage but its own field's slot. What a raw-pointer design
//! would put in an unsafe contract on closure constructors is here the
//! verified well-formedness condition [`PinInit::wf_init`].

use crate::builder::{BuildError, Builder};
use crate::construct::ConstructError;
use crate::init::{movable_cursor, pinned_cursor, InitMe, InitProof, PinInitMe};
use crate::mem::Arena;
use crate::{Closure, Direct, InitWay};
use vstd::prelude::*;

verus! {

/// An initializer usable for an address-fixed field. Implemented by
/// ready values (every value initializes a field directly) and by
/// delegated callables.
///
/// Whatever the implementation, a run leaves every slot but the field's
/// own untouched, releases nothing, and — on success — leaves the
/// field's slot holding a value, with the returned proof answering to
/// the cursor it was handed.
pub trait PinInit<E, Way: InitWay>: Sized {
    /// The initializer is ready to run on whatever open field it is
    /// handed, and honours the field discipline above.
    spec fn wf_init(self) -> bool;

    /// Everything this particular initializer guarantees about its
    /// outcome on an address-fixed cursor, relating the arena before and
    /// after the run.
    spec fn post_pinned(self, a0: Arena, a1: Arena, c: PinInitMe, r: Result<InitProof<()>, E>) -> bool;

    /// Runs the initializer on the field the cursor grants; the value is
    /// written at the field's address during this call. On an error the
    /// field was not completed and cannot be completed anymore, and the
    /// caller rolls back.
    fn __init_pinned(self, a: &mut Arena, c: PinInitMe) -> (r: Result<InitProof<()>, E>)
        requires
            self.wf_init(),
            c.addr() < old(a).cells().len(),
        ensures
            r is Ok ==> r->Ok_0.id() == c.id(),
            r is Ok ==> final(a).cells()[c.addr() as int] is Some,
            final(a).cells().len() == old(a).cells().len(),
            final(a).drop_log() == old(a).drop_log(),
            final(a).cap() == old(a).cap(),
            forall|k: int|
                0 <= k < old(a).cells().len() && k != c.addr() ==> #[trigger] final(a).cells()[k]
                    == old(a).cells()[k],
            self.post_pinned(*old(a), *final(a), c, r),
    ;
}

/// An initializer usable for a movable field. Every such initializer is
/// also usable for an address-fixed field, because promising not to move
/// the value only gives the initializer more than it asked for.
pub trait Init<E, Way: InitWay>: PinInit<E, Way> {
    /// Everything this particular initializer guarantees about its
    /// outcome on a movable cursor.
    spec fn post(self, a0: Arena, a1: Arena, c: InitMe, r: Result<InitProof<()>, E>) -> bool;

    /// Runs the initializer on the field the cursor grants, exactly as
    /// [`PinInit::__init_pinned`] but without the address guarantee.
    fn __init(self, a: &mut Arena, c: InitMe) -> (r: Result<InitProof<()>, E>)
        requires
            self.wf_init(),
            c.addr() < old(a).cells().len(),
        ensures
            r is Ok ==> r->Ok_0.id() == c.id(),
            r is Ok ==> final(a).cells()[c.addr() as int] is Some,
            final(a).cells().len() == old(a).cells().len(),
            final(a).drop_log() == old(a).drop_log(),
            final(a).cap() == old(a).cap(),
            forall|k: int|
                0 <= k < old(a).cells().len() && k != c.addr() ==> #[trigger] final(a).cells()[k]
                    == old(a).cells()[k],
            self.post(*old(a), *final(a), c, r),
    ;
}

impl<E> PinInit<E, Direct> for u64 {
    open spec fn wf_init(self) -> bool {
        true
    }

    open spec fn post_pinned(
        self,
        a0: Arena,
        a1: Arena,
        c: PinInitMe,
        r: Result<InitProof<()>, E>,
    ) -> bool {
        &&& r is Ok
        &&& r->Ok_0.id() == c.id()
        &&& a1.cells() == a0.cells().update(c.addr() as int, Some(self))
    }

    fn __init_pinned(self, a: &mut Arena, c: PinInitMe) -> (r: Result<InitProof<()>, E>) {
        Ok(c.write(a, self))
    }
}

impl<E> Init<E, Direct> for u64 {
    open spec fn post(self, a0: Arena, a1: Arena, c: InitMe, r: Result<InitProof<()>, E>) -> bool {
        &&& r is Ok
        &&& r->Ok_0.id() == c.id()
        &&& a1.cells() == a0.cells().update(c.addr() as int, Some(self))
    }

    fn __init(self, a: &mut Arena, c: InitMe) -> (r: Result<InitProof<()>, E>) {
        Ok(c.write(a, self))
    }
}

/// The obligations a delegated callable over a movable cursor must meet
/// to be an initializer: it can be run on any open field, a proof it
/// returns answers to that field's cursor, it touches no slot but its
/// own, releases nothing, and on success its slot holds a value.
pub open spec fn closure_wf<E, F: FnOnce(Arena, InitMe) -> (Arena, Result<InitProof<()>, E>)>(
    f: F,
) -> bool {
    &&& forall|ar: Arena, c: InitMe|
        c.addr() < ar.cells().len() ==> #[trigger] call_requires(f, (ar, c))
    &&& forall|ar: Arena, c: InitMe, out: (Arena, Result<InitProof<()>, E>)|
        #[trigger] call_ensures(f, (ar, c), out) ==> {
            &&& (out.1 is Ok ==> out.1->Ok_0.id() == c.id())
            &&& (out.1 is Ok ==> out.0.cells()[c.addr() as int] is Some)
            &&& out.0.cells().len() == ar.cells().len()
            &&& out.0.drop_log() == ar.drop_log()
            &&& out.0.cap() == ar.cap()
            &&& forall|k: int|
                0 <= k < ar.cells().len() && k != c.addr() ==> #[trigger] out.0.cells()[k]
                    == ar.cells()[k]
        }
}

/// The same obligations for a delegated callable over an address-fixed
/// cursor.
pub open spec fn pin_closure_wf<
    E,
    F: FnOnce(Arena, PinInitMe) -> (Arena, Result<InitProof<()>, E>),
>(f: F) -> bool {
    &&& forall|ar: Arena, c: PinInitMe|
        c.addr() < ar.cells().len() ==> #[trigger] call_requires(f, (ar, c))
    &&& forall|ar: Arena, c: PinInitMe, out: (Arena, Result<InitProof<()>, E>)|
        #[trigger] call_ensures(f, (ar, c), out) ==> {
            &&& (out.1 is Ok ==> out.1->Ok_0.id() == c.id())
            &&& (out.1 is Ok ==> out.0.cells()[c.addr() as int] is Some)
            &&& out.0.cells().len() == ar.cells().len()
            &&& out.0.drop_log() == ar.drop_log()
            &&& out.0.cap() == ar.cap()
            &&& forall|k: int|
                0 <= k < ar.cells().len() && k != c.addr() ==> #[trigger] out.0.cells()[k]
                    == ar.cells()[k]
        }
}

/// A delegated initializer for a movable field, wrapping a callable that
/// takes the arena and the cursor and hands both the arena and the
/// outcome back.
pub struct InitClosure<F> {
    f: F,
}

impl<F> InitClosure<F> {
    /// The wrapped callable.
    pub closed spec fn func(self) -> F {
        self.f
    }

    /// Wraps a callable as an initializer. The callable's obligations —
    /// [`closure_wf`] — become [`PinInit::wf_init`], which every run
    /// requires.
    pub fn from_closure(f: F) -> (r: InitClosure<F>)
        ensures
            r.func() == f,
    {
        InitClosure { f }
    }
}

impl<E, F: FnOnce(Arena, InitMe) -> (Arena, Result<InitProof<()>, E>)> PinInit<
    E,
    Closure,
> for InitClosure<F> {
    open spec fn wf_init(self) -> bool {
        closure_wf(self.func())
    }

    open spec fn post_pinned(
        self,
        a0: Arena,
        a1: Arena,
        c: PinInitMe,
        r: Result<InitProof<()>, E>,
    ) -> bool {
        call_ensures(self.func(), (a0, c.as_movable()), (a1, r))
    }

    fn __init_pinned(self, a: &mut Arena, c: PinInitMe) -> (r: Result<InitProof<()>, E>) {
        proof {
            assert(closure_wf::<E, F>(self.func()));
            assert(self.func() == self.f);
        }
        let c2 = c.into_movable();
        let mut owned = Arena::new(0);
        core::mem::swap(a, &mut owned);
        proof {
            assert(call_requires(self.func(), (owned, c2)));
        }
        let (owned2, r) = (self.f)(owned, c2);
        *a = owned2;
        proof {
            assert(call_ensures(self.func(), (*old(a), c2), (*a, r)));
        }
        r
    }
}

impl<E, F: FnOnce(Arena, InitMe) -> (Arena, Result<InitProof<()>, E>)> Init<
    E,
    Closure,
> for InitClosure<F> {
    open spec fn post(self, a0: Arena, a1: Arena, c: InitMe, r: Result<InitProof<()>, E>) -> bool {
        call_ensures(self.func(), (a0, c), (a1, r))
    }

    fn __init(self, a: &mut Arena, c: InitMe) -> (r: Result<InitProof<()>, E>) {
        proof {
            assert(closure_wf::<E, F>(self.func()));
            assert(self.func() == self.f);
        }
        let mut owned = Arena::new(0);
        core::mem::swap(a, &mut owned);
        proof {
            assert(call_requires(self.func(), (owned, c)));
        }
        let ghost c0 = c;
        let (owned2, r) = (self.f)(owned, c);
        *a = owned2;
        proof {
            assert(call_ensures(self.func(), (*old(a), c0), (*a, r)));
        }
        r
    }
}

/// A delegated initializer only usable for an address-fixed field: its
/// callable may rely on the cursor's address staying fixed, for example
/// to store a back-reference to the field itself.
pub struct PinInitClosure<F> {
    f: F,
}

impl<F> PinInitClosure<F> {
    /// The wrapped callable.
    pub closed spec fn func(self) -> F {
        self.f
    }

    /// Wraps a callable as an address-fixed initializer, under the same
    /// obligations as [`InitClosure::from_closure`].
    pub fn from_closure(f: F) -> (r: PinInitClosure<F>)
        ensures
            r.func() == f,
    {
        PinInitClosure { f }
    }
}

impl<E, F: FnOnce(Arena, PinInitMe) -> (Arena, Result<InitProof<()>, E>)> PinInit<
    E,
    Closure,
> for PinInitClosure<F> {
    open spec fn wf_init(self) -> bool {
        pin_closure_wf(self.func())
    }

    open spec fn post_pinned(
        self,
        a0: Arena,
        a1: Arena,
        c: PinInitMe,
        r: Result<InitProof<()>, E>,
    ) -> bool {
        call_ensures(self.func(), (a0, c), (a1, r))
    }

    fn __init_pinned(self, a: &mut Arena, c: PinInitMe) -> (r: Result<InitProof<()>, E>) {
        proof {
            assert(pin_closure_wf::<E, F>(self.func()));
            assert(self.func() == self.f);
        }
        let mut owned = Arena::new(0);
        core::mem::swap(a, &mut owned);
        proof {
            assert(call_requires(self.func(), (owned, c)));
        }
        let ghost c0 = c;
        let (owned2, r) = (self.f)(owned, c);
        *a = owned2;
        proof {
            assert(call_ensures(self.func(), (*old(a), c0), (*a, r)));
        }
        r
    }
}

impl Builder {
    /// One whole delegated field-initialization step on a movable field:
    /// mints the cursor and its token, runs the initializer, and redeems
    /// the proof. Succeeds whenever the field is open and the
    /// initializer succeeds: the initializer wrote the slot, so nothing
    /// is left to go wrong at redemption. On the initializer's own error
    /// the error is passed through unchanged and the field stays
    /// claimed, so the construction can only be aborted. No slot but the
    /// field's own is ever touched, and nothing is released.
    #[verifier::rlimit(50)]
    #[verifier::spinoff_prover]
    pub fn init_field<E, Way: InitWay, I: Init<E, Way>>(
        &mut self,
        a: &mut Arena,
        i: usize,
        init: I,
    ) -> (r: Result<(), ConstructError<E>>)
        requires
            old(self).wf(),
            old(self).valid_in(*old(a)),
            init.wf_init(),
        ensures
            final(self).wf(),
            final(self).valid_in(*final(a)),
            final(self).addr() == old(self).addr(),
            final(self).pin_table() == old(self).pin_table(),
            final(self).is_pinned_place() == old(self).is_pinned_place(),
            final(a).cells().len() == old(a).cells().len(),
            final(a).drop_log() == old(a).drop_log(),
            final(a).cap() == old(a).cap(),
            forall|k: int|
                0 <= k < old(a).cells().len() && k != old(self).addr() + i
                    ==> #[trigger] final(a).cells()[k] == old(a).cells()[k],
            !(r matches Err(ConstructError::Alloc)),
            !(r matches Err(ConstructError::Misuse(BuildError::NotWritten))),
            r is Ok ==> {
                &&& i < old(self).num_fields()
                &&& !old(self).pin_table()[i as int]
                &&& !old(self).claimed()[i as int]
                &&& final(a).cells()[old(self).addr() + i] is Some
                &&& final(self).claimed() == old(self).claimed().update(i as int, true)
                &&& final(self).done() == old(self).done().update(i as int, true)
                &&& final(self).order() == old(self).order().push(i)
            },
            r is Ok ==> exists|pr: InitProof<()>|
                #[trigger] init.post(
                    *old(a),
                    *final(a),
                    movable_cursor(
                        i,
                        (old(self).addr() + i) as usize,
                        old(self).guard_id(i as int),
                    ),
                    Ok(pr),
                ),
            (r matches Err(ConstructError::Init(err)) ==> {
                &&& i < old(self).num_fields()
                &&& !old(self).pin_table()[i as int]
                &&& !old(self).claimed()[i as int]
                &&& final(self).claimed() == old(self).claimed().update(i as int, true)
                &&& final(self).done() == old(self).done()
                &&& final(self).order() == old(self).order()
                &&& init.post(
                    *old(a),
                    *final(a),
                    movable_cursor(
                        i,
                        (old(self).addr() + i) as usize,
                        old(self).guard_id(i as int),
                    ),
                    Err(err),
                )
            }),
            (r matches Err(ConstructError::Misuse(me)) ==> {
                &&& *final(self) == *old(self)
                &&& *final(a) == *old(a)
                &&& (me == BuildError::NoSuchField <==> i >= old(self).num_fields())
                &&& (me == BuildError::WrongCursor <==> i < old(self).num_fields() && old(
                    self,
                ).pin_table()[i as int])
                &&& (me == BuildError::AlreadyClaimed <==> i < old(self).num_fields() && !old(
                    self,
                ).pin_table()[i as int] && old(self).claimed()[i as int])
                &&& (me == BuildError::NoSuchField || me == BuildError::WrongCursor || me
                    == BuildError::AlreadyClaimed)
            }),
    {
        let (c, t) = match self.field(i) {
            Ok(p) => p,
            Err(e) => {
                return Err(ConstructError::Misuse(e));
            },
        };
        let ghost c0 = c;
        let ghost a1 = *a;
        let pr = match init.__init(a, c) {
            Ok(pr) => pr,
            Err(e) => {
                proof {
                    old(self).lemma_not_claimed_not_done(i as int);
                    old(self).lemma_wf_shape();
                    assert(init.post(a1, *a, c0, Err(e)));
                    assert forall|j: int|
                        0 <= j < self.num_fields() && self.done()[j] implies (
                        #[trigger] a.cells()[self.addr() + j]) is Some by {
                        assert(j != i);
                        assert(a.cells()[self.addr() + j] == a1.cells()[self.addr() + j]);
                    }
                }
                return Err(ConstructError::Init(e));
            },
        };
        let ghost pr0 = pr;
        proof {
            old(self).lemma_not_claimed_not_done(i as int);
            old(self).lemma_wf_shape();
            self.lemma_wf_shape();
            assert(self.claimed()[i as int]);
            assert(!self.done()[i as int]);
            assert(t.id() == self.guard_id(i as int));
            assert(pr.id() == t.id());
            assert(t.field() == i);
            assert(self.redeemable(t.field() as int, t.id(), pr.id()));
        }
        match self.complete(a, t, pr) {
            Ok(_) => {
                proof {
                    assert(init.post(a1, *a, c0, Ok(pr0)));
                }
                Ok(())
            },
            Err(_) => unreached(),
        }
    }

    /// One whole delegated field-initialization step on an address-fixed
    /// field, exactly as [`Builder::init_field`] but through an
    /// address-fixed cursor, whose address the initializer may keep.
    #[verifier::rlimit(50)]
    #[verifier::spinoff_prover]
    pub fn pin_init_field<E, Way: InitWay, I: PinInit<E, Way>>(
        &mut self,
        a: &mut Arena,
        i: usize,
        init: I,
    ) -> (r: Result<(), ConstructError<E>>)
        requires
            old(self).wf(),
            old(self).valid_in(*old(a)),
            init.wf_init(),
        ensures
            final(self).wf(),
            final(self).valid_in(*final(a)),
            final(self).addr() == old(self).addr(),
            final(self).pin_table() == old(self).pin_table(),
            final(self).is_pinned_place() == old(self).is_pinned_place(),
            final(a).cells().len() == old(a).cells().len(),
            final(a).drop_log() == old(a).drop_log(),
            final(a).cap() == old(a).cap(),
            forall|k: int|
                0 <= k < old(a).cells().len() && k != old(self).addr() + i
                    ==> #[trigger] final(a).cells()[k] == old(a).cells()[k],
            !(r matches Err(ConstructError::Alloc)),
            !(r matches Err(ConstructError::Misuse(BuildError::NotWritten))),
            r is Ok ==> {
                &&& i < old(self).num_fields()
                &&& old(self).pin_table()[i as int]
                &&& !old(self).claimed()[i as int]
                &&& final(a).cells()[old(self).addr() + i] is Some
                &&& final(self).claimed() == old(self).claimed().update(i as int, true)
                &&& final(self).done() == old(self).done().update(i as int, true)
                &&& final(self).order() == old(self).order().push(i)
            },
            r is Ok ==> exists|pr: InitProof<()>|
                #[trigger] init.post_pinned(
                    *old(a),
                    *final(a),
                    pinned_cursor(
                        i,
                        (old(self).addr() + i) as usize,
                        old(self).guard_id(i as int),
                    ),
                    Ok(pr),
                ),
            (r matches Err(ConstructError::Init(err)) ==> {
                &&& i < old(self).num_fields()
                &&& old(self).pin_table()[i as int]
                &&& !old(self).claimed()[i as int]
                &&& final(self).claimed() == old(self).claimed().update(i as int, true)
                &&& final(self).done() == old(self).done()
                &&& final(self).order() == old(self).order()
                &&& init.post_pinned(
                    *old(a),
                    *final(a),
                    pinned_cursor(
                        i,
                        (old(self).addr() + i) as usize,
                        old(self).guard_id(i as int),
                    ),
                    Err(err),
                )
            }),
            (r matches Err(ConstructError::Misuse(me)) ==> {
                &&& *final(self) == *old(self)
                &&& *final(a) == *old(a)
                &&& (me == BuildError::NoSuchField <==> i >= old(self).num_fields())
                &&& (me == BuildError::WrongCursor <==> i < old(self).num_fields() && !old(
                    self,
                ).pin_table()[i as int])
                &&& (me == BuildError::AlreadyClaimed <==> i < old(self).num_fields() && old(
                    self,
                ).pin_table()[i as int] && old(self).claimed()[i as int])
                &&& (me == BuildError::NoSuchField || me == BuildError::WrongCursor || me
                    == BuildError::AlreadyClaimed)
            }),
    {
        let (c, t) = match self.pin_field(i) {
            Ok(p) => p,
            Err(e) => {
                return Err(ConstructError::Misuse(e));
            },
        };
        let ghost c0 = c;
        let ghost a1 = *a;
        let pr = match init.__init_pinned(a, c) {
            Ok(pr) => pr,
            Err(e) => {
                proof {
                    old(self).lemma_not_claimed_not_done(i as int);
                    old(self).lemma_wf_shape();
                    assert(init.post_pinned(a1, *a, c0, Err(e)));
                    assert forall|j: int|
                        0 <= j < self.num_fields() && self.done()[j] implies (
                        #[trigger] a.cells()[self.addr() + j]) is Some by {
                        assert(j != i);
                        assert(a.cells()[self.addr() + j] == a1.cells()[self.addr() + j]);
                    }
                }
                return Err(ConstructError::Init(e));
            },
        };
        let ghost pr0 = pr;
        proof {
            old(self).lemma_not_claimed_not_done(i as int);
            old(self).lemma_wf_shape();
            self.lemma_wf_shape();
            assert(self.claimed()[i as int]);
            assert(!self.done()[i as int]);
            assert(t.id() == self.guard_id(i as int));
            assert(pr.id() == t.id());
            assert(t.field() == i);
            assert(self.redeemable(t.field() as int, t.id(), pr.id()));
        }
        match self.complete(a, t, pr) {
            Ok(_) => {
                proof {
                    assert(init.post_pinned(a1, *a, c0, Ok(pr0)));
                }
                Ok(())
            },
            Err(_) => unreached(),
        }
    }
}

} // verus!
