use simple_safe_init::builder::BuildError;
use simple_safe_init::builder::Builder;
use simple_safe_init::construct::{construct, construct_in, construct_with, ConstructError, Op};
use simple_safe_init::mem::Arena;
use simple_safe_init::place::{alloc_pinned_place, alloc_place, FieldTable};

#[test]
fn round_trip_two_fields() {
    // a composite {a: small word, b: wide word} built from direct values
    let mut arena = Arena::new(8);
    let place = alloc_place(&mut arena, 2).unwrap();
    let table = FieldTable::all_movable(2);
    let a: u64 = 32;
    let b: u64 = 64 + 8;
    let steps: Vec<Op<u64>> = vec![Op::Value(a), Op::Value(b)];
    let h = construct(&mut arena, place, table, steps).unwrap();
    assert_eq!(h.read(&arena, 0), 32);
    assert_eq!(h.read(&arena, 1), 72);
    assert!(arena.drops().is_empty());
}

#[test]
fn rollback_at_every_failure_position() {
    // inject the failure at each position in turn: destructors run for
    // exactly the fields before it, in reverse order, each exactly once
    let n: usize = 4;
    let mut k: usize = 0;
    while k < n {
        let mut arena = Arena::new(8);
        let place = alloc_place(&mut arena, n).unwrap();
        let base = place.address();
        let table = FieldTable::all_movable(n);
        let mut steps: Vec<Op<u64>> = Vec::new();
        let mut i: usize = 0;
        while i < n {
            if i == k {
                steps.push(Op::Fail(1000 + k as u64));
            } else {
                steps.push(Op::Value(i as u64));
            }
            i += 1;
        }
        let r = construct(&mut arena, place, table, steps);
        match r {
            Err(ConstructError::Init(e)) => assert_eq!(e, 1000 + k as u64),
            _ => panic!("expected an initializer error"),
        }
        let expected: Vec<usize> = (0..k).rev().map(|f| base + f).collect();
        assert_eq!(arena.drops(), &expected);
        k += 1;
    }
}

#[test]
fn omitted_field_rejected_before_any_write() {
    let mut arena = Arena::new(8);
    let place = alloc_place(&mut arena, 2).unwrap();
    let base = place.address();
    let table = FieldTable::all_movable(2);
    // one instruction for a two-field composite
    let steps: Vec<Op<u64>> = vec![Op::Value(1)];
    let r = construct(&mut arena, place, table, steps);
    assert_eq!(r.unwrap_err(), ConstructError::Misuse(BuildError::Incomplete));
    // nothing was written and nothing was released
    assert!(arena.drops().is_empty());
    assert!(!arena.is_written(base));
    assert!(!arena.is_written(base + 1));
}

#[test]
fn extra_instructions_rejected_before_any_write() {
    let mut arena = Arena::new(8);
    let place = alloc_place(&mut arena, 1).unwrap();
    let table = FieldTable::all_movable(1);
    let steps: Vec<Op<u64>> = vec![Op::Value(1), Op::Value(2)];
    let r = construct(&mut arena, place, table, steps);
    assert_eq!(r.unwrap_err(), ConstructError::Misuse(BuildError::Incomplete));
    assert!(arena.drops().is_empty());
}

#[test]
fn later_field_reads_earlier_value() {
    // declaration order is binding: a later instruction may use the value
    // already written for an earlier field
    let mut arena = Arena::new(8);
    let place = alloc_place(&mut arena, 3).unwrap();
    let table = FieldTable::all_movable(3);
    let steps: Vec<Op<u64>> = vec![Op::Value(7), Op::FromField(0), Op::FromField(1)];
    let h = construct(&mut arena, place, table, steps).unwrap();
    assert_eq!(h.read(&arena, 0), 7);
    assert_eq!(h.read(&arena, 1), 7);
    assert_eq!(h.read(&arena, 2), 7);
}

#[test]
fn reading_a_later_field_rejected_with_rollback() {
    let mut arena = Arena::new(8);
    let place = alloc_place(&mut arena, 3).unwrap();
    let base = place.address();
    let table = FieldTable::all_movable(3);
    // the second instruction reads a field that is not yet written
    let steps: Vec<Op<u64>> = vec![Op::Value(7), Op::FromField(2), Op::Value(9)];
    let r = construct(&mut arena, place, table, steps);
    assert_eq!(r.unwrap_err(), ConstructError::Misuse(BuildError::NotWritten));
    // the one completed field was rolled back
    assert_eq!(arena.drops(), &vec![base]);
    assert!(!arena.is_written(base));
}

#[test]
fn empty_composite_constructs() {
    let mut arena = Arena::new(8);
    let place = alloc_place(&mut arena, 0).unwrap();
    let table = FieldTable::all_movable(0);
    let steps: Vec<Op<u64>> = Vec::new();
    let h = construct(&mut arena, place, table, steps).unwrap();
    assert_eq!(h.field_count(), 0);
}

#[test]
fn construct_in_allocates_and_builds() {
    let mut arena = Arena::new(8);
    let table = FieldTable::all_movable(2);
    let steps: Vec<Op<u64>> = vec![Op::Value(3), Op::Value(4)];
    let h = construct_in(&mut arena, table, true, steps).unwrap();
    assert_eq!(h.read(&arena, 0), 3);
    assert_eq!(h.read(&arena, 1), 4);
}

#[test]
fn allocation_failure_is_recoverable() {
    // capacity 3, first construction takes 2 slots, the second cannot fit
    let mut arena = Arena::new(3);
    let table = FieldTable::all_movable(2);
    let steps: Vec<Op<u64>> = vec![Op::Value(1), Op::Value(2)];
    let h = construct_in(&mut arena, table, false, steps).unwrap();
    let table = FieldTable::all_movable(2);
    let steps: Vec<Op<u64>> = vec![Op::Value(5), Op::Value(6)];
    let r = construct_in(&mut arena, table, false, steps);
    assert_eq!(r.unwrap_err(), ConstructError::Alloc);
    // the failure disturbed nothing: the first value is intact, and a
    // fitting retry succeeds
    assert_eq!(h.read(&arena, 0), 1);
    let table = FieldTable::all_movable(1);
    let steps: Vec<Op<u64>> = vec![Op::Value(5)];
    let h2 = construct_in(&mut arena, table, false, steps).unwrap();
    assert_eq!(h2.read(&arena, 0), 5);
}

#[test]
fn pinning_mismatch_surfaces_through_construct() {
    let mut arena = Arena::new(8);
    let place = alloc_place(&mut arena, 1).unwrap();
    let table = FieldTable::from_flags(vec![true]);
    let steps: Vec<Op<u64>> = vec![Op::Value(1)];
    let r = construct(&mut arena, place, table, steps);
    assert_eq!(r.unwrap_err(), ConstructError::Misuse(BuildError::UnpinnedPlace));
}

#[test]
fn size_mismatch_surfaces_through_construct() {
    let mut arena = Arena::new(8);
    let place = alloc_place(&mut arena, 1).unwrap();
    let table = FieldTable::all_movable(2);
    let steps: Vec<Op<u64>> = vec![Op::Value(1), Op::Value(2)];
    let r = construct(&mut arena, place, table, steps);
    assert_eq!(r.unwrap_err(), ConstructError::Misuse(BuildError::SizeMismatch));
}

#[test]
fn pinned_construct_keeps_place_address() {
    let mut arena = Arena::new(8);
    let place = alloc_pinned_place(&mut arena, 2).unwrap();
    let base = place.address();
    let table = FieldTable::from_flags(vec![true, false]);
    let steps: Vec<Op<u64>> = vec![Op::Value(1), Op::Value(2)];
    let h = construct(&mut arena, place, table, steps).unwrap();
    assert_eq!(h.address(), base);
    assert_eq!(h.field_address(&arena, 0), base);
    assert_eq!(h.field_address(&arena, 1), base + 1);
}

#[test]
fn storage_reusable_after_failed_construction() {
    // after a rollback the same span is uninitialized; a fresh place over
    // new slots lets the caller retry
    let mut arena = Arena::new(8);
    let place = alloc_place(&mut arena, 2).unwrap();
    let base = place.address();
    let table = FieldTable::all_movable(2);
    let steps: Vec<Op<u64>> = vec![Op::Value(1), Op::Fail(9)];
    let r = construct(&mut arena, place, table, steps);
    assert!(matches!(r, Err(ConstructError::Init(9))));
    assert!(!arena.is_written(base));
    assert!(!arena.is_written(base + 1));
    let place = alloc_place(&mut arena, 2).unwrap();
    let table = FieldTable::all_movable(2);
    let steps: Vec<Op<u64>> = vec![Op::Value(1), Op::Value(2)];
    let h = construct(&mut arena, place, table, steps).unwrap();
    assert_eq!(h.read(&arena, 1), 2);
}

#[test]
fn handle_dispose_releases_reverse_field_order() {
    let mut arena = Arena::new(8);
    let place = alloc_place(&mut arena, 3).unwrap();
    let base = place.address();
    let table = FieldTable::all_movable(3);
    let steps: Vec<Op<u64>> = vec![Op::Value(1), Op::Value(2), Op::Value(3)];
    let h = construct(&mut arena, place, table, steps).unwrap();
    h.dispose(&mut arena);
    assert_eq!(arena.drops(), &vec![base + 2, base + 1, base]);
    assert!(!arena.is_written(base));
}

#[test]
fn relocate_moves_without_dropping() {
    let mut arena = Arena::new(8);
    let place = alloc_place(&mut arena, 2).unwrap();
    let old_addr = place.address();
    let table = FieldTable::all_movable(2);
    let steps: Vec<Op<u64>> = vec![Op::Value(5), Op::Value(6)];
    let h = construct(&mut arena, place, table, steps).unwrap();
    let h = h.relocate(&mut arena).unwrap();
    // the contents moved, nothing was dropped, the address changed
    assert_ne!(h.address(), old_addr);
    assert_eq!(h.read(&arena, 0), 5);
    assert_eq!(h.read(&arena, 1), 6);
    assert!(arena.drops().is_empty());
    assert!(!arena.is_written(old_addr));
}

#[test]
fn movable_self_address_dangles_after_relocation() {
    // why self-referential fields need address-fixed storage: in a movable
    // value, a stored address stops matching once the value moves
    let mut arena = Arena::new(8);
    let place = alloc_place(&mut arena, 1).unwrap();
    let base = place.address();
    let table = FieldTable::all_movable(1);
    let steps: Vec<Op<u64>> = vec![Op::Value(base as u64)];
    let h = construct(&mut arena, place, table, steps).unwrap();
    assert_eq!(h.read(&arena, 0), h.field_address(&arena, 0) as u64);
    let h = h.relocate(&mut arena).unwrap();
    assert_ne!(h.read(&arena, 0), h.field_address(&arena, 0) as u64);
}

#[test]
fn whole_construction_through_one_delegate() {
    // one function builds the whole composite: it gets the builder and
    // fills every field itself
    let mut arena = Arena::new(8);
    let place = alloc_place(&mut arena, 2).unwrap();
    let table = FieldTable::all_movable(2);
    let h = construct_with(
        &mut arena,
        place,
        table,
        |mut ar: Arena, mut b: Builder| -> (Arena, Builder, Result<(), u64>) {
            let (c, t) = b.field(0).unwrap();
            let p = c.write(&mut ar, 42);
            b.complete(&ar, t, p).unwrap();
            let (c, t) = b.field(1).unwrap();
            let p = c.write(&mut ar, 64);
            b.complete(&ar, t, p).unwrap();
            (ar, b, Ok(()))
        },
    )
    .unwrap();
    assert_eq!(h.read(&arena, 0), 42);
    assert_eq!(h.read(&arena, 1), 64);
    assert!(arena.drops().is_empty());
}

#[test]
fn failing_delegate_rolls_back_whole_construction() {
    let mut arena = Arena::new(8);
    let place = alloc_place(&mut arena, 2).unwrap();
    let base = place.address();
    let table = FieldTable::all_movable(2);
    let r = construct_with(
        &mut arena,
        place,
        table,
        |mut ar: Arena, mut b: Builder| -> (Arena, Builder, Result<(), u64>) {
            let (c, t) = b.field(0).unwrap();
            let p = c.write(&mut ar, 1);
            b.complete(&ar, t, p).unwrap();
            (ar, b, Err(6))
        },
    );
    assert_eq!(r.unwrap_err(), ConstructError::Init(6));
    // the one completed field was released again
    assert_eq!(arena.drops(), &vec![base]);
    assert!(!arena.is_written(base));
}

#[test]
fn incomplete_delegate_rejected_with_rollback() {
    let mut arena = Arena::new(8);
    let place = alloc_place(&mut arena, 2).unwrap();
    let base = place.address();
    let table = FieldTable::all_movable(2);
    let r = construct_with(
        &mut arena,
        place,
        table,
        |mut ar: Arena, mut b: Builder| -> (Arena, Builder, Result<(), u64>) {
            let (c, t) = b.field(0).unwrap();
            let p = c.write(&mut ar, 1);
            b.complete(&ar, t, p).unwrap();
            // claims success without ever touching the second field
            (ar, b, Ok(()))
        },
    );
    assert_eq!(r.unwrap_err(), ConstructError::Misuse(BuildError::Incomplete));
    assert_eq!(arena.drops(), &vec![base]);
}
