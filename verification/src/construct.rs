//! The construction entry points: run a whole per-field instruction list
//! against a place.
//!
//! Instructions are given in declaration order, one per field, and are
//! executed strictly in that order, so a later field's instruction may
//! read the already-written value of an earlier field. Success is owed
//! exactly when the table fits the place, the list covers every field,
//! and no step fails; any failure stops the run immediately and rolls the
//! already-completed fields back in reverse order before the error is
//! surfaced.

use crate::builder::{rev_addrs, BuildError, Builder};
use crate::mem::Arena;
use crate::place::{alloc_pinned_place, alloc_place, FieldTable, InitHandle, UninitPlace};
use vstd::prelude::*;

verus! {

/// One per-field instruction.
pub enum Op<E> {
    /// Initialize the field with this value.
    Value(u64),
    /// Initialize the field with the value already written for an earlier
    /// field: fields are written in declaration order, so only earlier
    /// fields are readable.
    FromField(usize),
    /// A delegated initializer that reports a domain error instead of
    /// completing the field.
    Fail(E),
}

/// Why a construction run returned no value.
#[derive(Debug, PartialEq, Eq)]
pub enum ConstructError<E> {
    /// Storage could not be allocated; construction never began.
    Alloc,
    /// A step reported this domain error; completed sibling fields were
    /// rolled back and the error is passed through unchanged.
    Init(E),
    /// The instruction list does not fit the composite: wrong field
    /// count, a pinning mismatch, or a read of a not-yet-written field.
    Misuse(BuildError),
}

/// The pin projection table fits the place: same field count, and
/// address-fixed fields only inside an address-fixed place.
pub open spec fn layout_fits(place: UninitPlace, table: Seq<bool>) -> bool {
    &&& place.len() == table.len()
    &&& (place.is_pinned() || forall|i: int| 0 <= i < table.len() ==> !table[i])
}

/// Step `i` can complete: it is a value, or a read of a strictly earlier
/// field. A failing step never completes.
pub open spec fn step_ok<E>(steps: Seq<Op<E>>, i: int) -> bool {
    match steps[i] {
        Op::Value(_) => true,
        Op::FromField(j) => (j as int) < i,
        Op::Fail(_) => false,
    }
}

/// Every step of the list can complete.
pub open spec fn steps_ok<E>(steps: Seq<Op<E>>) -> bool {
    forall|i: int| 0 <= i < steps.len() ==> step_ok(steps, i)
}

/// `k` is the position where the run stops: the first step that cannot
/// complete. At most one position satisfies this.
pub open spec fn bad_at<E>(steps: Seq<Op<E>>, k: int) -> bool {
    &&& 0 <= k < steps.len()
    &&& !step_ok(steps, k)
    &&& forall|i: int| 0 <= i < k ==> step_ok(steps, i)
}

/// The value step `i` writes into field `i`, resolving reads of earlier
/// fields through the list itself.
pub open spec fn field_value<E>(steps: Seq<Op<E>>, i: int) -> u64
    decreases i,
{
    if 0 <= i < steps.len() {
        match steps[i] {
            Op::Value(v) => v,
            Op::FromField(j) => if (j as int) < i {
                field_value(steps, j as int)
            } else {
                0
            },
            Op::Fail(_) => 0,
        }
    } else {
        0
    }
}

/// The addresses the rollback of a run that stopped at position `k`
/// releases: `base + k - 1, .., base + 0`, most recently written field
/// first, each exactly once.
pub open spec fn rollback_log(base: usize, k: int) -> Seq<usize> {
    Seq::new(k as nat, |t: int| (base + k - 1 - t) as usize)
}

/// Runs an instruction list against an already-obtained place.
///
/// Succeeds exactly when the table fits the place, the list has one step
/// per field, and every step completes; the finished value then sits at
/// the place's own address, field `i` holding the value step `i`
/// determined, and no destructor has run. Otherwise nothing of the place
/// survives: a list of the wrong shape is rejected before any byte is
/// written, and a step that fails at position `k` rolls fields
/// `k-1, .., 0` back in that order — each released exactly once — before
/// the error is surfaced. Storage outside the place is never touched.
pub fn construct<E>(
    a: &mut Arena,
    place: UninitPlace,
    table: FieldTable,
    steps: Vec<Op<E>>,
) -> (r: Result<InitHandle, ConstructError<E>>)
    requires
        place.fresh(*old(a)),
        place.addr() + place.len() <= usize::MAX,
    ensures
        final(a).cells().len() == old(a).cells().len(),
        final(a).cap() == old(a).cap(),
        forall|k: int|
            0 <= k < old(a).cells().len() && !(place.addr() <= k < place.addr() + place.len())
                ==> #[trigger] final(a).cells()[k] == old(a).cells()[k],
        (r is Ok <==> layout_fits(place, table@) && steps@.len() == table@.len() && steps_ok(
            steps@,
        )),
        match r {
            Ok(h) => {
                &&& h.addr() == place.addr()
                &&& h.len() == place.len()
                &&& h.is_pinned() == place.is_pinned()
                &&& h.wf(*final(a))
                &&& forall|i: int|
                    0 <= i < place.len() ==> #[trigger] final(a).cells()[place.addr() + i] == Some(
                        field_value(steps@, i),
                    )
                &&& final(a).drop_log() == old(a).drop_log()
            },
            Err(e) => {
                &&& forall|i: int|
                    0 <= i < place.len() ==> (#[trigger] final(a).cells()[place.addr() + i]) is None
                &&& match e {
                    ConstructError::Alloc => false,
                    ConstructError::Init(err) => {
                        &&& layout_fits(place, table@)
                        &&& steps@.len() == table@.len()
                        &&& exists|k: int|
                            #[trigger] bad_at(steps@, k) && steps@[k] == Op::Fail(err) && final(a).drop_log() == old(a).drop_log() + rollback_log(place.addr(), k)
                    },
                    ConstructError::Misuse(me) => {
                        &&& (me == BuildError::SizeMismatch <==> place.len() != table@.len())
                        &&& (me == BuildError::UnpinnedPlace <==> place.len() == table@.len()
                            && !place.is_pinned() && exists|i: int|
                            0 <= i < table@.len() && table@[i])
                        &&& (me == BuildError::Incomplete <==> layout_fits(place, table@)
                            && steps@.len() != table@.len())
                        &&& (me == BuildError::SizeMismatch || me == BuildError::UnpinnedPlace
                            || me == BuildError::Incomplete ==> *final(a) == *old(a))
                        &&& (me == BuildError::NotWritten ==> layout_fits(place, table@)
                            && steps@.len() == table@.len() && exists|k: int|
                            #[trigger] bad_at(steps@, k) && steps@[k] is FromField && final(a).drop_log() == old(a).drop_log() + rollback_log(place.addr(), k))
                        &&& (me == BuildError::SizeMismatch || me == BuildError::UnpinnedPlace
                            || me == BuildError::Incomplete || me == BuildError::NotWritten)
                    },
                }
            },
        },
{
    let ghost steps0 = steps@;
    let ghost a0 = *a;
    let base = place.address();
    let n = table.len();
    let mut b = match Builder::new(place, table) {
        Ok(b) => b,
        Err(e) => {
            return Err(ConstructError::Misuse(e));
        },
    };
    if steps.len() != n {
        return Err(ConstructError::Misuse(BuildError::Incomplete));
    }
    let mut rest = steps;
    let mut i: usize = 0;
    while i < n
        invariant
            i <= n,
            n == b.num_fields(),
            a0 == *old(a),
            steps0 == steps@,
            base == place.addr(),
            n == place.len(),
            n == table@.len(),
            b.is_pinned_place() == place.is_pinned(),
            b.pin_table() == table@,
            layout_fits(place, table@),
            place.fresh(a0),
            rest@ =~= steps0.skip(i as int),
            steps0.len() == n,
            b.wf(),
            b.valid_in(*a),
            b.addr() == base,
            base + n <= usize::MAX,
            b.claimed() =~= Seq::new(n as nat, |j: int| j < i),
            b.done() =~= Seq::new(n as nat, |j: int| j < i),
            b.order() =~= Seq::new(i as nat, |j: int| j as usize),
            a.cells().len() == a0.cells().len(),
            a.cap() == a0.cap(),
            a.drop_log() == a0.drop_log(),
            base + n <= a.cells().len(),
            forall|j: int| 0 <= j < i ==> step_ok(steps0, j),
            forall|j: int|
                0 <= j < i ==> #[trigger] a.cells()[base + j] == Some(field_value(steps0, j)),
            forall|j: int| i <= j < n ==> (#[trigger] a.cells()[base + j]) is None,
            forall|k: int|
                0 <= k < a0.cells().len() && !(base <= k < base + n) ==> #[trigger] a.cells()[k]
                    == a0.cells()[k],
        decreases n - i,
    {
        let op = rest.remove(0);
        proof {
            assert(steps0.skip(i as int)[0] == steps0[i as int]);
            assert(rest@ =~= steps0.skip(i + 1));
        }
        let w: u64 = match op {
            Op::Value(v) => v,
            Op::FromField(j) => {
                if j >= i {
                    proof {
                        assert(!step_ok(steps0, i as int));
                        assert(bad_at(steps0, i as int));
                    }
                    let ghost ord = b.order();
                    b.abort(a);
                    proof {
                        lemma_canonical_rollback(base, i as nat, ord);
                    }
                    return Err(ConstructError::Misuse(BuildError::NotWritten));
                }
                a.read_word(base + j)
            },
            Op::Fail(err) => {
                proof {
                    assert(!step_ok(steps0, i as int));
                    assert(bad_at(steps0, i as int));
                }
                let ghost ord = b.order();
                b.abort(a);
                proof {
                    lemma_canonical_rollback(base, i as nat, ord);
                }
                return Err(ConstructError::Init(err));
            },
        };
        let pinned_field = b.field_is_pinned(i);
        let outcome: Result<(), BuildError> = if pinned_field {
            let (c, t) = match b.pin_field(i) {
                Ok(p) => p,
                Err(_) => unreached(),
            };
            let p = c.write(a, w);
            b.complete(a, t, p)
        } else {
            let (c, t) = match b.field(i) {
                Ok(p) => p,
                Err(_) => unreached(),
            };
            let p = c.write(a, w);
            b.complete(a, t, p)
        };
        match outcome {
            Ok(_) => {},
            Err(_) => unreached(),
        }
        i = i + 1;
        proof {
            assert(b.claimed() =~= Seq::new(n as nat, |j: int| j < i));
            assert(b.done() =~= Seq::new(n as nat, |j: int| j < i));
            assert(b.order() =~= Seq::new(i as nat, |j: int| j as usize));
            assert(step_ok(steps0, i - 1));
            assert(a.cells()[base + (i - 1)] == Some(field_value(steps0, i - 1)));
        }
    }
    let h = match b.finalize(a) {
        Ok(h) => h,
        Err(_) => unreached(),
    };
    Ok(h)
}

/// Rolling back the canonical completion order `0, 1, .., k-1` releases
/// the addresses `base + k - 1, .., base + 0`, in that order.
proof fn lemma_canonical_rollback(base: usize, k: nat, order: Seq<usize>)
    requires
        order =~= Seq::new(k, |j: int| j as usize),
        base + k <= usize::MAX,
    ensures
        rev_addrs(base, order) =~= rollback_log(base, k as int),
{
    assert forall|t: int| 0 <= t < k implies rev_addrs(base, order)[t] == rollback_log(
        base,
        k as int,
    )[t] by {
        assert(order[k - 1 - t] == (k - 1 - t) as usize);
    }
}


/// The obligations a callable must meet to drive a whole construction:
/// run on any well-formed builder over any arena backing it, it hands
/// back a well-formed builder over the same composite — same address,
/// same table, same pinnedness — and touches no storage outside the
/// composite's span, releases nothing, and never shrinks the arena.
pub open spec fn driver_wf<E, F: FnOnce(Arena, Builder) -> (Arena, Builder, Result<(), E>)>(
    f: F,
) -> bool {
    &&& forall|ar: Arena, b: Builder|
        b.wf() && b.valid_in(ar) ==> #[trigger] call_requires(f, (ar, b))
    &&& forall|ar: Arena, b: Builder, out: (Arena, Builder, Result<(), E>)|
        b.wf() && b.valid_in(ar) && #[trigger] call_ensures(f, (ar, b), out) ==> {
            &&& out.1.wf()
            &&& out.1.valid_in(out.0)
            &&& out.1.addr() == b.addr()
            &&& out.1.pin_table() == b.pin_table()
            &&& out.1.is_pinned_place() == b.is_pinned_place()
            &&& out.0.cells().len() == ar.cells().len()
            &&& out.0.cap() == ar.cap()
            &&& out.0.drop_log() == ar.drop_log()
            &&& forall|k: int|
                0 <= k < ar.cells().len() && !(b.addr() <= k < b.addr() + b.num_fields())
                    ==> #[trigger] out.0.cells()[k] == ar.cells()[k]
        }
}

/// The construct-via-single-delegated-function entry point: consumes the
/// place and hands a fresh builder over it to one callable, which fills
/// the fields — through direct writes, delegated per-field initializers,
/// or however it composes them — and reports success or a domain error.
/// The run then finalizes: a completed composite becomes the handle at
/// the place's own address; on the callable's error, or if it left a
/// field unfinished, every completed field is rolled back in reverse
/// completion order before the error is surfaced. What the callable did
/// is available to the caller through its own contract, tied in below.
pub fn construct_with<E, F: FnOnce(Arena, Builder) -> (Arena, Builder, Result<(), E>)>(
    a: &mut Arena,
    place: UninitPlace,
    table: FieldTable,
    f: F,
) -> (r: Result<InitHandle, ConstructError<E>>)
    requires
        place.wf(*old(a)),
        place.addr() + place.len() <= usize::MAX,
        driver_wf(f),
    ensures
        final(a).cells().len() == old(a).cells().len(),
        final(a).cap() == old(a).cap(),
        forall|k: int|
            0 <= k < old(a).cells().len() && !(place.addr() <= k < place.addr() + place.len())
                ==> #[trigger] final(a).cells()[k] == old(a).cells()[k],
        !(r matches Err(ConstructError::Alloc)),
        (r matches Err(ConstructError::Misuse(me)) ==> {
            &&& (me == BuildError::SizeMismatch <==> place.len() != table@.len())
            &&& (me == BuildError::UnpinnedPlace <==> place.len() == table@.len()
                && !place.is_pinned() && exists|i: int| 0 <= i < table@.len() && table@[i])
            &&& (me == BuildError::SizeMismatch || me == BuildError::UnpinnedPlace ==> *final(a)
                == *old(a))
            &&& (me == BuildError::SizeMismatch || me == BuildError::UnpinnedPlace || me
                == BuildError::Incomplete)
        }),
        r is Ok ==> {
            &&& layout_fits(place, table@)
            &&& r->Ok_0.addr() == place.addr()
            &&& r->Ok_0.len() == place.len()
            &&& r->Ok_0.is_pinned() == place.is_pinned()
            &&& r->Ok_0.wf(*final(a))
        },
        layout_fits(place, table@) ==> exists|b0: Builder, out: (Arena, Builder, Result<(), E>)| {
            &&& b0.wf()
            &&& b0.addr() == place.addr()
            &&& b0.pin_table() == table@
            &&& b0.is_pinned_place() == place.is_pinned()
            &&& b0.claimed() == Seq::new(table@.len(), |i: int| false)
            &&& b0.done() == Seq::new(table@.len(), |i: int| false)
            &&& b0.order() == Seq::<usize>::empty()
            &&& #[trigger] call_ensures(f, (*old(a), b0), out)
            &&& (r is Ok <==> out.2 is Ok && forall|i: int|
                0 <= i < table@.len() ==> out.1.done()[i])
            &&& (r is Ok ==> *final(a) == out.0)
            &&& (out.2 matches Err(e) ==> r == Result::<InitHandle, ConstructError<E>>::Err(
                ConstructError::Init(e),
            ) && final(a).cells().len() == out.0.cells().len() && final(a).drop_log()
                == out.0.drop_log() + rev_addrs(place.addr(), out.1.order()))
            &&& (out.2 is Ok && !(forall|i: int| 0 <= i < table@.len() ==> out.1.done()[i])
                ==> r == Result::<InitHandle, ConstructError<E>>::Err(ConstructError::Misuse(
                BuildError::Incomplete,
            )) && final(a).cells().len() == out.0.cells().len() && final(a).drop_log()
                == out.0.drop_log() + rev_addrs(place.addr(), out.1.order()))
        },
{
    let base = place.address();
    let b = match Builder::new(place, table) {
        Ok(b) => b,
        Err(e) => {
            return Err(ConstructError::Misuse(e));
        },
    };
    let ghost b0 = b;
    let mut owned = Arena::new(0);
    core::mem::swap(a, &mut owned);
    proof {
        assert(call_requires(f, (owned, b0)));
    }
    let (owned2, b2, res) = f(owned, b);
    *a = owned2;
    proof {
        assert(call_ensures(f, (*old(a), b0), (*a, b2, res)));
    }
    let ghost out0 = (*a, b2, res);
    match res {
        Ok(_) => {
            match b2.finalize(a) {
                Ok(h) => Ok(h),
                Err((_, b3)) => {
                    b3.abort(a);
                    Err(ConstructError::Misuse(BuildError::Incomplete))
                },
            }
        },
        Err(e) => {
            b2.abort(a);
            Err(ConstructError::Init(e))
        },
    }
}

/// Obtains a place from the arena and then runs [`construct`] in it: the
/// construct-and-allocate entry point. Allocation fails exactly when the
/// arena is out of capacity, and then nothing was constructed and nothing
/// needs rollback; afterwards the behaviour is that of [`construct`] on
/// the fresh place at the old end of the arena.
pub fn construct_in<E>(
    a: &mut Arena,
    table: FieldTable,
    pinned: bool,
    steps: Vec<Op<E>>,
) -> (r: Result<InitHandle, ConstructError<E>>)
    ensures
        final(a).cap() == old(a).cap(),
        forall|k: int|
            0 <= k < old(a).cells().len() ==> #[trigger] final(a).cells()[k] == old(a).cells()[k],
        (r == Result::<InitHandle, ConstructError<E>>::Err(ConstructError::Alloc) <==> old(a).cells().len() + table@.len() > old(a).cap()),
        (r == Result::<InitHandle, ConstructError<E>>::Err(ConstructError::Alloc) ==> *final(a)
            == *old(a)),
        (r is Err && r != Result::<InitHandle, ConstructError<E>>::Err(ConstructError::Alloc)
            ==> final(a).cells().len() == old(a).cells().len() + table@.len() && forall|i: int|
            0 <= i < table@.len() ==> (#[trigger] final(a).cells()[old(a).cells().len()
                + i]) is None),
        (r is Ok ==> final(a).cells().len() == old(a).cells().len() + table@.len()),
        (r is Ok <==> old(a).cells().len() + table@.len() <= old(a).cap() && (pinned || forall|
            i: int,
        | 0 <= i < table@.len() ==> !table@[i]) && steps@.len() == table@.len() && steps_ok(
            steps@,
        )),
        match r {
            Ok(h) => {
                &&& h.addr() == old(a).cells().len()
                &&& h.len() == table@.len()
                &&& h.is_pinned() == pinned
                &&& h.wf(*final(a))
                &&& forall|i: int|
                    0 <= i < table@.len() ==> #[trigger] final(a).cells()[h.addr() + i] == Some(
                        field_value(steps@, i),
                    )
                &&& final(a).drop_log() == old(a).drop_log()
            },
            Err(e) => match e {
                ConstructError::Alloc => true,
                ConstructError::Init(err) => {
                    &&& steps@.len() == table@.len()
                    &&& (pinned || forall|i: int| 0 <= i < table@.len() ==> !table@[i])
                    &&& exists|k: int|
                        #[trigger] bad_at(steps@, k) && steps@[k] == Op::Fail(err) && final(a).drop_log() == old(a).drop_log() + rollback_log(
                            old(a).cells().len() as usize,
                            k,
                        )
                },
                ConstructError::Misuse(me) => {
                    &&& (me == BuildError::UnpinnedPlace <==> !pinned && exists|i: int|
                        0 <= i < table@.len() && table@[i])
                    &&& (me == BuildError::Incomplete <==> (pinned || forall|i: int|
                        0 <= i < table@.len() ==> !table@[i]) && steps@.len() != table@.len())
                    &&& (me == BuildError::NotWritten ==> steps@.len() == table@.len() && exists|
                        k: int,
                    | #[trigger] bad_at(steps@, k) && steps@[k] is FromField)
                    &&& (me == BuildError::UnpinnedPlace || me == BuildError::Incomplete || me
                        == BuildError::NotWritten)
                },
            },
        },
{
    let n = table.len();
    let alloced = if pinned {
        alloc_pinned_place(a, n)
    } else {
        alloc_place(a, n)
    };
    let place = match alloced {
        Ok(p) => p,
        Err(_) => {
            return Err(ConstructError::Alloc);
        },
    };
    let sz = a.size();
    construct(a, place, table, steps)
}

} // verus!
