//! The backing store that every place lives in.
//!
//! Storage is an arena of word-sized slots. An address is the index of a
//! slot; a slot never moves once allocated, so an address handed out
//! during construction stays valid for the life of the arena. Each slot
//! is either uninitialized or holds one value. Releasing an initialized
//! slot ("running its destructor") is recorded in a drop log, so contracts
//! can state exactly which destructors ran and in which order.

use vstd::assert_seqs_equal;
use vstd::prelude::*;

verus! {

/// Storage could not be obtained. Recoverable: when allocation fails,
/// no construction has begun and nothing needs rollback.
#[derive(Debug, PartialEq, Eq, Structural)]
pub struct AllocError;

/// An arena of word-sized slots with a fixed capacity and a drop log.
pub struct Arena {
    words: Vec<Option<u64>>,
    cap: usize,
    drops: Vec<usize>,
}

impl Arena {
    /// The slots allocated so far: `None` is uninitialized, `Some(v)`
    /// holds the value `v`.
    pub closed spec fn cells(self) -> Seq<Option<u64>> {
        self.words@
    }

    /// How many slots this arena may ever hand out.
    pub closed spec fn cap(self) -> nat {
        self.cap as nat
    }

    /// The addresses whose values have been released, in the order the
    /// releases happened.
    pub closed spec fn drop_log(self) -> Seq<usize> {
        self.drops@
    }

    /// A fresh arena that can hand out up to `cap` slots.
    pub fn new(cap: usize) -> (a: Arena)
        ensures
            a.cells() == Seq::<Option<u64>>::empty(),
            a.cap() == cap as nat,
            a.drop_log() == Seq::<usize>::empty(),
    {
        Arena { words: Vec::new(), cap, drops: Vec::new() }
    }

    /// The number of slots allocated so far.
    pub fn size(&self) -> (n: usize)
        ensures
            n == self.cells().len(),
    {
        self.words.len()
    }

    /// Hands out `n` fresh, uninitialized, contiguous slots, or fails
    /// exactly when they would not fit under the capacity. On failure the
    /// arena is unchanged.
    pub fn alloc_words(&mut self, n: usize) -> (r: Result<usize, AllocError>)
        ensures
            match r {
                Ok(addr) => {
                    &&& old(self).cells().len() + n <= old(self).cap()
                    &&& addr + n <= usize::MAX
                    &&& addr == old(self).cells().len()
                    &&& final(self).cells() == old(self).cells() + Seq::new(
                        n as nat,
                        |i: int| None::<u64>,
                    )
                    &&& final(self).drop_log() == old(self).drop_log()
                    &&& final(self).cap() == old(self).cap()
                },
                Err(_) => {
                    &&& old(self).cells().len() + n > old(self).cap()
                    &&& *final(self) == *old(self)
                },
            },
    {
        if n <= self.cap && self.words.len() <= self.cap - n {
            let ghost orig = *self;
            let addr = self.words.len();
            let mut k: usize = 0;
            while k < n
                invariant
                    k <= n,
                    self.words@ == orig.words@ + Seq::new(k as nat, |i: int| None::<u64>),
                    self.cap == orig.cap,
                    self.drops@ == orig.drops@,
                decreases n - k,
            {
                self.words.push(None);
                k = k + 1;
                proof {
                    assert_seqs_equal!(
                        self.words@,
                        orig.words@ + Seq::new(k as nat, |i: int| None::<u64>)
                    );
                }
            }
            Ok(addr)
        } else {
            Err(AllocError)
        }
    }

    /// Writes `v` into the slot at `addr`, unconditionally overwriting
    /// whatever was there without releasing it. This is the raw store that
    /// cursors and the address escape hatch go through; overwriting an
    /// already initialized slot leaks its old value, which is the caller's
    /// responsibility.
    pub fn write_word(&mut self, addr: usize, v: u64)
        requires
            addr < old(self).cells().len(),
        ensures
            final(self).cells() == old(self).cells().update(addr as int, Some(v)),
            final(self).drop_log() == old(self).drop_log(),
            final(self).cap() == old(self).cap(),
    {
        self.words.set(addr, Some(v));
    }

    /// Reads the value held by the initialized slot at `addr`.
    pub fn read_word(&self, addr: usize) -> (v: u64)
        requires
            addr < self.cells().len(),
            self.cells()[addr as int] is Some,
        ensures
            self.cells()[addr as int] == Some(v),
    {
        self.words[addr].unwrap()
    }

    /// Whether the slot at `addr` currently holds a value.
    pub fn is_written(&self, addr: usize) -> (b: bool)
        requires
            addr < self.cells().len(),
        ensures
            b == (self.cells()[addr as int] is Some),
    {
        self.words[addr].is_some()
    }

    /// Releases the value at `addr`: the slot becomes uninitialized again
    /// and the release is appended to the drop log. Only rollback guards
    /// and handle teardown call this; a value is never released twice
    /// because the slot must hold a value.
    pub(crate) fn drop_in_place(&mut self, addr: usize)
        requires
            addr < old(self).cells().len(),
            old(self).cells()[addr as int] is Some,
        ensures
            final(self).cells() == old(self).cells().update(addr as int, None::<u64>),
            final(self).drop_log() == old(self).drop_log().push(addr),
            final(self).cap() == old(self).cap(),
    {
        self.words.set(addr, None);
        self.drops.push(addr);
    }


    /// Takes the value out of the slot at `addr` without releasing it: a
    /// move, not a drop, so nothing is appended to the drop log. Only
    /// relocation of movable values calls this.
    pub(crate) fn take_word(&mut self, addr: usize)
        requires
            addr < old(self).cells().len(),
        ensures
            final(self).cells() == old(self).cells().update(addr as int, None::<u64>),
            final(self).drop_log() == old(self).drop_log(),
            final(self).cap() == old(self).cap(),
    {
        self.words.set(addr, None);
    }

    /// The drop log as a vector of addresses, oldest release first.
    pub fn drops(&self) -> (d: &Vec<usize>)
        ensures
            d@ == self.drop_log(),
    {
        &self.drops
    }
}

} // verus!
