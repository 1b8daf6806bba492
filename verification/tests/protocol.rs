use simple_safe_init::builder::{BuildError, Builder, DropGuard};
use simple_safe_init::init::{InitMe, InitProof};
use simple_safe_init::initializer::{InitClosure, PinInitClosure};
use simple_safe_init::mem::Arena;
use simple_safe_init::place::{alloc_pinned_place, alloc_place, FieldTable};

fn pinned_table(flags: &[bool]) -> FieldTable {
    FieldTable::from_flags(flags.to_vec())
}

#[test]
fn cursor_write_and_finalize() {
    let mut a = Arena::new(8);
    let place = alloc_place(&mut a, 2).unwrap();
    let table = FieldTable::all_movable(2);
    let mut b = Builder::new(place, table).unwrap();

    let (c0, t0) = b.field(0).unwrap();
    let pr0 = c0.write(&mut a, 11);
    b.complete(&a, t0, pr0).unwrap();

    let (c1, t1) = b.field(1).unwrap();
    let pr1 = c1.write(&mut a, 22);
    b.complete(&a, t1, pr1).unwrap();

    let h = b.finalize(&a).unwrap();
    assert_eq!(h.read(&a, 0), 11);
    assert_eq!(h.read(&a, 1), 22);
    assert!(a.drops().is_empty());
}

#[test]
fn at_most_once_second_cursor_rejected() {
    let mut a = Arena::new(8);
    let place = alloc_place(&mut a, 2).unwrap();
    let table = FieldTable::all_movable(2);
    let mut b = Builder::new(place, table).unwrap();

    let (c0, t0) = b.field(0).unwrap();
    // a second cursor for the same field in one construction is rejected
    assert_eq!(b.field(0).unwrap_err(), BuildError::AlreadyClaimed);
    // and the rejection changed nothing: the first attempt still works
    let pr = c0.write(&mut a, 5);
    b.complete(&a, t0, pr).unwrap();
    assert_eq!(b.field(0).unwrap_err(), BuildError::AlreadyClaimed);
}

#[test]
fn no_such_field_rejected() {
    let mut a = Arena::new(8);
    let place = alloc_place(&mut a, 1).unwrap();
    let table = FieldTable::all_movable(1);
    let mut b = Builder::new(place, table).unwrap();
    assert_eq!(b.field(3).unwrap_err(), BuildError::NoSuchField);
    assert_eq!(b.pin_field(3).unwrap_err(), BuildError::NoSuchField);
}

#[test]
fn wrong_cursor_kind_rejected() {
    let mut a = Arena::new(8);
    let place = alloc_pinned_place(&mut a, 2).unwrap();
    let table = pinned_table(&[true, false]);
    let mut b = Builder::new(place, table).unwrap();
    // movable cursor for an address-fixed field
    assert_eq!(b.field(0).unwrap_err(), BuildError::WrongCursor);
    // address-fixed cursor for a movable field
    assert_eq!(b.pin_field(1).unwrap_err(), BuildError::WrongCursor);
}

#[test]
fn size_mismatch_rejected() {
    let mut a = Arena::new(8);
    let place = alloc_place(&mut a, 2).unwrap();
    let table = FieldTable::all_movable(3);
    assert!(matches!(Builder::new(place, table), Err(BuildError::SizeMismatch)));
}

#[test]
fn pinned_field_needs_pinned_place() {
    let mut a = Arena::new(8);
    let place = alloc_place(&mut a, 1).unwrap();
    let table = pinned_table(&[true]);
    assert!(matches!(Builder::new(place, table), Err(BuildError::UnpinnedPlace)));
}

#[test]
fn foreign_proof_cannot_complete_other_field() {
    let mut a = Arena::new(8);
    let place = alloc_place(&mut a, 2).unwrap();
    let table = FieldTable::all_movable(2);
    let mut b = Builder::new(place, table).unwrap();

    let (_c0, t0) = b.field(0).unwrap();
    let (c1, _t1) = b.field(1).unwrap();
    // redeem field 1's proof against field 0's token: identifiers differ
    let pr1 = c1.write(&mut a, 7);
    assert_eq!(b.complete(&a, t0, pr1).unwrap_err(), BuildError::TokenMismatch);
}

#[test]
fn token_for_unclaimed_field_rejected() {
    let mut a = Arena::new(8);
    let place1 = alloc_place(&mut a, 2).unwrap();
    let mut b1 = Builder::new(place1, FieldTable::all_movable(2)).unwrap();
    let place2 = alloc_place(&mut a, 2).unwrap();
    let mut b2 = Builder::new(place2, FieldTable::all_movable(2)).unwrap();

    // a token minted by another construction, for a field this one never
    // opened, redeems nothing here
    let (c2, t2) = b2.field(1).unwrap();
    let pr2 = c2.write(&mut a, 9);
    assert_eq!(b1.complete(&a, t2, pr2).unwrap_err(), BuildError::TokenMismatch);
}

#[test]
fn finalize_incomplete_rejected() {
    let mut a = Arena::new(8);
    let place = alloc_place(&mut a, 2).unwrap();
    let table = FieldTable::all_movable(2);
    let mut b = Builder::new(place, table).unwrap();
    let (c0, t0) = b.field(0).unwrap();
    let pr = c0.write(&mut a, 1);
    b.complete(&a, t0, pr).unwrap();
    // one field missing: no handle, the builder comes back unchanged
    let (e, b) = b.finalize(&a).unwrap_err();
    assert_eq!(e, BuildError::Incomplete);
    // the construction can still be finished
    let mut b = b;
    let (c1, t1) = b.field(1).unwrap();
    let pr = c1.write(&mut a, 2);
    b.complete(&a, t1, pr).unwrap();
    let h = b.finalize(&a).unwrap();
    assert_eq!(h.read(&a, 0), 1);
    assert_eq!(h.read(&a, 1), 2);
}

#[test]
fn escape_hatch_write_through_address() {
    let mut a = Arena::new(8);
    let place = alloc_place(&mut a, 1).unwrap();
    let table = FieldTable::all_movable(1);
    let mut b = Builder::new(place, table).unwrap();
    let (c, t) = b.field(0).unwrap();
    let addr = c.as_mut_ptr();
    a.write_word(addr, 77);
    let pr = c.assume_init();
    b.complete(&a, t, pr).unwrap();
    let h = b.finalize(&a).unwrap();
    assert_eq!(h.read(&a, 0), 77);
}

#[test]
fn unwritten_completion_claim_rejected() {
    let mut a = Arena::new(8);
    let place = alloc_place(&mut a, 1).unwrap();
    let table = FieldTable::all_movable(1);
    let mut b = Builder::new(place, table).unwrap();
    let (c, t) = b.field(0).unwrap();
    // claim completion without ever writing the slot
    let pr = c.assume_init();
    assert_eq!(b.complete(&a, t, pr).unwrap_err(), BuildError::NotWritten);
}

#[test]
fn abort_releases_in_reverse_completion_order() {
    let mut a = Arena::new(8);
    let place = alloc_place(&mut a, 3).unwrap();
    let base = place.address();
    let table = FieldTable::all_movable(3);
    let mut b = Builder::new(place, table).unwrap();
    // complete fields out of declaration order: 2, then 0
    let (c2, t2) = b.field(2).unwrap();
    let pr = c2.write(&mut a, 20);
    b.complete(&a, t2, pr).unwrap();
    let (c0, t0) = b.field(0).unwrap();
    let pr = c0.write(&mut a, 10);
    b.complete(&a, t0, pr).unwrap();
    b.abort(&mut a);
    // most recently completed released first
    assert_eq!(a.drops(), &vec![base + 0, base + 2]);
}

#[test]
fn disarmed_guard_never_fires() {
    let mut a = Arena::new(8);
    let place = alloc_place(&mut a, 1).unwrap();
    let addr = place.address();
    a.write_word(addr, 1);
    let mut g = DropGuard::new(addr);
    g.disarm();
    g.fire(&mut a);
    // no destructor ran, the value is still there
    assert!(a.drops().is_empty());
    assert_eq!(a.read_word(addr), 1);
}

#[test]
fn armed_guard_fires_once() {
    let mut a = Arena::new(8);
    let place = alloc_place(&mut a, 1).unwrap();
    let addr = place.address();
    a.write_word(addr, 1);
    let g = DropGuard::new(addr);
    g.fire(&mut a);
    assert_eq!(a.drops(), &vec![addr]);
}

fn write_five(a: &mut Arena, c: InitMe) -> InitProof<()> {
    c.write(a, 5)
}

#[test]
fn delegation_fills_private_field() {
    // a composite whose single count field only a delegated initializer
    // knows how to fill
    let mut a = Arena::new(8);
    let place = alloc_place(&mut a, 1).unwrap();
    let table = FieldTable::all_movable(1);
    let mut b = Builder::new(place, table).unwrap();
    let (c, t) = b.field(0).unwrap();
    let pr = write_five(&mut a, c);
    b.complete(&a, t, pr).unwrap();
    let h = b.finalize(&a).unwrap();
    assert_eq!(h.read(&a, 0), 5);
}

#[test]
fn delegation_through_closure_initializer() {
    let mut a = Arena::new(8);
    let place = alloc_place(&mut a, 1).unwrap();
    let table = FieldTable::all_movable(1);
    let mut b = Builder::new(place, table).unwrap();
    let init = InitClosure::from_closure(
        |mut ar: Arena, c: InitMe| -> (Arena, Result<InitProof<()>, u64>) {
            let p = c.write(&mut ar, 5);
            (ar, Ok(p))
        },
    );
    b.init_field(&mut a, 0, init).unwrap();
    let h = b.finalize(&a).unwrap();
    assert_eq!(h.read(&a, 0), 5);
}

#[test]
fn failing_delegated_initializer_passes_error_through() {
    let mut a = Arena::new(8);
    let place = alloc_place(&mut a, 1).unwrap();
    let table = FieldTable::all_movable(1);
    let mut b = Builder::new(place, table).unwrap();
    let init = InitClosure::from_closure(
        |ar: Arena, _c: InitMe| -> (Arena, Result<InitProof<()>, u64>) { (ar, Err(13)) },
    );
    let e = b.init_field(&mut a, 0, init).unwrap_err();
    assert!(matches!(e, simple_safe_init::construct::ConstructError::Init(13)));
    // nothing was written, nothing is released on abort
    b.abort(&mut a);
    assert!(a.drops().is_empty());
}

#[test]
fn self_reference_survives_moving_the_handle() {
    let mut a = Arena::new(8);
    let place = alloc_pinned_place(&mut a, 1).unwrap();
    let table = pinned_table(&[true]);
    let mut b = Builder::new(place, table).unwrap();
    // a node that stores its own address in its field
    let init = PinInitClosure::from_closure(
        |mut ar: Arena, c: simple_safe_init::init::PinInitMe| -> (
            Arena,
            Result<InitProof<()>, u64>,
        ) {
            let own = c.as_mut_ptr();
            let p = c.write(&mut ar, own as u64);
            (ar, Ok(p))
        },
    );
    b.pin_init_field(&mut a, 0, init).unwrap();
    let h = b.finalize(&a).unwrap();
    let stored = h.read(&a, 0);
    assert_eq!(stored, h.field_address(&a, 0) as u64);
    // move the handle into a container: the address-fixed storage never
    // moved, so the self-reference still holds
    let v = vec![h];
    let h = &v[0];
    assert_eq!(h.read(&a, 0), h.field_address(&a, 0) as u64);
}

#[test]
fn address_stability_cursor_vs_finished_value() {
    let mut a = Arena::new(8);
    let place = alloc_pinned_place(&mut a, 2).unwrap();
    let table = pinned_table(&[true, true]);
    let mut b = Builder::new(place, table).unwrap();

    let (c0, t0) = b.pin_field(0).unwrap();
    let cursor_addr_0 = c0.as_mut_ptr();
    let pr = c0.write(&mut a, 1);
    b.complete(&a, t0, pr).unwrap();

    let (c1, t1) = b.pin_field(1).unwrap();
    let cursor_addr_1 = c1.as_mut_ptr();
    let pr = c1.write(&mut a, 2);
    b.complete(&a, t1, pr).unwrap();

    let h = b.finalize(&a).unwrap();
    assert_eq!(cursor_addr_0, h.field_address(&a, 0));
    assert_eq!(cursor_addr_1, h.field_address(&a, 1));
}

#[test]
fn proof_payload_ret_and_unwrap() {
    let mut a = Arena::new(8);
    let place = alloc_place(&mut a, 1).unwrap();
    let table = FieldTable::all_movable(1);
    let mut b = Builder::new(place, table).unwrap();
    let (c, t) = b.field(0).unwrap();
    let pr = c.write(&mut a, 4).ret(99u32);
    assert_eq!(pr.unwrap(t), 99);
    // the field was claimed but never completed: aborting releases nothing
    b.abort(&mut a);
    assert!(a.drops().is_empty());
}

#[test]
fn completion_payload_returned_by_complete() {
    let mut a = Arena::new(8);
    let place = alloc_place(&mut a, 1).unwrap();
    let table = FieldTable::all_movable(1);
    let mut b = Builder::new(place, table).unwrap();
    let (c, t) = b.field(0).unwrap();
    let pr = c.write(&mut a, 4).ret(123u32);
    let got = b.complete(&a, t, pr).unwrap();
    assert_eq!(got, 123);
}

#[test]
fn foreign_token_same_index_rejected() {
    // two constructions in one arena: their guard identifiers differ even
    // for same-numbered fields, because they are derived from the slot
    let mut a = Arena::new(8);
    let place1 = alloc_place(&mut a, 1).unwrap();
    let mut b1 = Builder::new(place1, FieldTable::all_movable(1)).unwrap();
    let place2 = alloc_place(&mut a, 1).unwrap();
    let mut b2 = Builder::new(place2, FieldTable::all_movable(1)).unwrap();

    let (_c1, _t1) = b1.field(0).unwrap();
    let (c2, t2) = b2.field(0).unwrap();
    let pr2 = c2.write(&mut a, 9);
    assert_eq!(b1.complete(&a, t2, pr2).unwrap_err(), BuildError::TokenMismatch);
}

#[test]
fn write_stores_at_the_field_address_immediately() {
    // the write lands in storage when the cursor writes, not at redemption
    let mut a = Arena::new(8);
    let place = alloc_place(&mut a, 1).unwrap();
    let table = FieldTable::all_movable(1);
    let mut b = Builder::new(place, table).unwrap();
    let (c, t) = b.field(0).unwrap();
    let addr = c.as_mut_ptr();
    assert!(!a.is_written(addr));
    let pr = c.write(&mut a, 31);
    assert!(a.is_written(addr));
    assert_eq!(a.read_word(addr), 31);
    b.complete(&a, t, pr).unwrap();
    let h = b.finalize(&a).unwrap();
    assert_eq!(h.read(&a, 0), 31);
}

#[test]
fn direct_value_as_initializer() {
    // every value is its own initializer: the direct way
    let mut a = Arena::new(8);
    let place = alloc_place(&mut a, 1).unwrap();
    let table = FieldTable::all_movable(1);
    let mut b = Builder::new(place, table).unwrap();
    let r: Result<(), simple_safe_init::construct::ConstructError<u64>> =
        b.init_field(&mut a, 0, 17u64);
    r.unwrap();
    let h = b.finalize(&a).unwrap();
    assert_eq!(h.read(&a, 0), 17);
}
