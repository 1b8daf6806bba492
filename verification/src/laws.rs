//! Statements about the construction contracts that hold for every run,
//! proved once here: where the run stops is uniquely determined, and the
//! rollback it triggers releases exactly the fields written before the
//! stop, most recently written first, each exactly once.

use crate::builder::Builder;
use crate::construct::{bad_at, rollback_log, step_ok, steps_ok, Op};
use crate::init::PinInitMe;
use crate::place::InitHandle;
use vstd::prelude::*;

verus! {

/// A run has at most one stopping position: if two positions both
/// qualify as the first step that cannot complete, they are the same.
pub proof fn lemma_first_failure_unique<E>(steps: Seq<Op<E>>, k1: int, k2: int)
    requires
        bad_at(steps, k1),
        bad_at(steps, k2),
    ensures
        k1 == k2,
{
    if k1 < k2 {
        assert(step_ok(steps, k1));
    }
    if k2 < k1 {
        assert(step_ok(steps, k2));
    }
}

/// A list completes as a whole exactly when no position stops it: the
/// two sides of completeness. An instruction list either constructs the
/// full value or has one well-defined stopping point.
pub proof fn lemma_complete_or_stops<E>(steps: Seq<Op<E>>)
    ensures
        steps_ok(steps) <==> !exists|k: int| bad_at(steps, k),
{
    if !steps_ok(steps) {
        let w = choose|i: int| 0 <= i < steps.len() && !step_ok(steps, i);
        lemma_some_failure_is_first(steps, w);
    }
}

/// Below any failing position there is a first one.
proof fn lemma_some_failure_is_first<E>(steps: Seq<Op<E>>, w: int)
    requires
        0 <= w < steps.len(),
        !step_ok(steps, w),
    ensures
        exists|k: int| bad_at(steps, k),
    decreases w,
{
    if forall|i: int| 0 <= i < w ==> step_ok(steps, i) {
        assert(bad_at(steps, w));
    } else {
        let w2 = choose|i: int| 0 <= i < w && !step_ok(steps, i);
        lemma_some_failure_is_first(steps, w2);
    }
}

/// What a rollback that stopped at position `k` releases: the addresses
/// of exactly the fields written before the stop — fields `0` up to
/// `k - 1` — in reverse write order, each exactly once, and nothing
/// else.
pub proof fn lemma_rollback_releases_each_once(base: usize, k: int)
    requires
        0 <= k,
        base + k <= usize::MAX,
    ensures
        rollback_log(base, k).len() == k,
        // reverse write order: the field written last is released first
        forall|t: int| 0 <= t < k ==> #[trigger] rollback_log(base, k)[t] == (base + k - 1 - t) as usize,
        // each released at most once
        forall|t1: int, t2: int|
            0 <= t1 < t2 < k ==> #[trigger] rollback_log(base, k)[t1] != #[trigger] rollback_log(
                base,
                k,
            )[t2],
        // every field written before the stop is released
        forall|f: int|
            0 <= f < k ==> #[trigger] rollback_log(base, k)[k - 1 - f] == (base + f) as usize,
        // nothing outside the written prefix is released
        forall|t: int|
            0 <= t < k ==> base <= #[trigger] rollback_log(base, k)[t] < base + k,
{
}

/// Address stability: an address-fixed cursor reports `b.addr() + i` for
/// its field — that is what minting one ensures — and the finished value
/// that completes the construction sits at `b.addr()` again — that is
/// what finalizing ensures. So the address the cursor reported is the
/// address of field `i` in the finished value.
pub proof fn lemma_address_stability(b: Builder, h: InitHandle, c: PinInitMe, i: int)
    requires
        0 <= i < b.num_fields(),
        c.field() == i,
        c.addr() == b.addr() + i,
        h.addr() == b.addr(),
        h.len() == b.num_fields(),
    ensures
        c.addr() == h.addr() + c.field(),
{
}

} // verus!
