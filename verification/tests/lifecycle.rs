use kitties::kitties::{combine_dna, Error, Event, Module};

const ALICE: u64 = 7;
const BOB: u64 = 8;

fn dna(byte: u8) -> [u8; 16] {
    [byte; 16]
}

fn initialized() -> Module {
    // min breed age 2, max breed age 5, max age 10
    let mut m = Module::new();
    assert_eq!(m.init(ALICE, 2, 5, 10), Ok(()));
    m
}

#[test]
fn operations_require_initialization() {
    let mut m = Module::new();
    assert_eq!(m.create(ALICE, 0, dna(1)), Err(Error::NotInitialized));
    assert_eq!(m.breed(ALICE, 0, 0, 1, dna(0)), Err(Error::NotInitialized));
    assert_eq!(m.transfer(ALICE, 0, BOB, 0), Err(Error::NotInitialized));
    assert_eq!(m.ask(ALICE, 0, 0, Some(1)), Err(Error::NotInitialized));
    assert_eq!(m.update_min_breed_age(ALICE, 3), Err(Error::NotInitialized));
    assert_eq!(m.update_owner(ALICE, BOB), Err(Error::NotInitialized));
}

#[test]
fn init_runs_exactly_once() {
    let mut m = initialized();
    assert_eq!(m.init(BOB, 2, 5, 10), Err(Error::AlreadyInitialized));
}

#[test]
fn init_rejects_unordered_bounds() {
    let mut m = Module::new();
    assert_eq!(m.init(ALICE, 0, 5, 10), Err(Error::InvalidParameters));
    assert_eq!(m.init(ALICE, 6, 5, 10), Err(Error::InvalidParameters));
    assert_eq!(m.init(ALICE, 2, 10, 10), Err(Error::InvalidParameters));
    // A failed init leaves the store uninitialized.
    assert_eq!(m.create(ALICE, 0, dna(1)), Err(Error::NotInitialized));
    assert_eq!(m.init(ALICE, 2, 5, 10), Ok(()));
}

#[test]
fn create_assigns_monotonic_ids() {
    let mut m = initialized();
    assert_eq!(m.kitties_count(), 0);
    assert_eq!(m.create(ALICE, 0, dna(1)), Ok(Event::Created(ALICE, 0)));
    assert_eq!(m.create(BOB, 0, dna(2)), Ok(Event::Created(BOB, 1)));
    assert_eq!(m.kitties_count(), 2);
    assert_eq!(m.kitty_owner(0), Some(ALICE));
    assert_eq!(m.kitty_owner(1), Some(BOB));
    let k = m.kitties(0).unwrap();
    assert_eq!(k.dna, dna(1));
    assert_eq!(k.create_block_number, 0);
    assert_eq!(m.kitties(2), None);
    assert_eq!(m.kitty_owner(2), None);
}

#[test]
fn combine_dna_muxes_each_bit() {
    // Each child bit comes from the first parent where the selector bit is
    // set, else from the second parent.
    assert_eq!(combine_dna(0b1100_1100, 0b1010_1010, 0b1111_0000), 0b1100_1010);
    assert_eq!(combine_dna(0xab, 0xcd, 0xff), 0xab);
    assert_eq!(combine_dna(0xab, 0xcd, 0x00), 0xcd);
    // Determinism: the same inputs always give the same byte.
    assert_eq!(combine_dna(0x5a, 0xa5, 0x0f), combine_dna(0x5a, 0xa5, 0x0f));
}

#[test]
fn breed_derives_child_from_selector() {
    let mut m = initialized();
    assert_eq!(m.create(ALICE, 0, dna(0xab)), Ok(Event::Created(ALICE, 0)));
    assert_eq!(m.create(ALICE, 0, dna(0xcd)), Ok(Event::Created(ALICE, 1)));

    // At block 3 both parents are of eligible age (2 <= 3 <= 5).
    let mut selector = [0u8; 16];
    for (i, s) in selector.iter_mut().enumerate() {
        *s = if i % 2 == 0 { 0xff } else { 0x00 };
    }
    assert_eq!(m.breed(ALICE, 3, 0, 1, selector), Ok(Event::Created(ALICE, 2)));

    let child = m.kitties(2).unwrap();
    assert_eq!(child.create_block_number, 3);
    for i in 0..16 {
        let expected = if i % 2 == 0 { 0xab } else { 0xcd };
        assert_eq!(child.dna[i], expected);
    }
    assert_eq!(m.kitty_owner(2), Some(ALICE));
}

#[test]
fn breed_rejects_same_parent_regardless_of_age() {
    let mut m = initialized();
    assert_eq!(m.create(ALICE, 0, dna(1)), Ok(Event::Created(ALICE, 0)));
    // Age 0 (below the breeding window), age 3 (inside), age 6 (above):
    // the same-parent check comes first in every case.
    assert_eq!(m.breed(ALICE, 0, 0, 0, dna(0)), Err(Error::SameParent));
    assert_eq!(m.breed(ALICE, 3, 0, 0, dna(0)), Err(Error::SameParent));
    assert_eq!(m.breed(ALICE, 6, 0, 0, dna(0)), Err(Error::SameParent));
    assert_eq!(m.kitties_count(), 1);
}

#[test]
fn breed_rejects_parents_outside_age_window() {
    let mut m = initialized();
    assert_eq!(m.create(ALICE, 0, dna(1)), Ok(Event::Created(ALICE, 0)));
    assert_eq!(m.create(ALICE, 0, dna(2)), Ok(Event::Created(ALICE, 1)));
    // Too young at block 1 (age 1 < 2), too old at block 6 (age 6 > 5).
    assert_eq!(m.breed(ALICE, 1, 0, 1, dna(0)), Err(Error::IneligibleAge));
    assert_eq!(m.breed(ALICE, 6, 0, 1, dna(0)), Err(Error::IneligibleAge));
    assert_eq!(m.kitties_count(), 2);
}

#[test]
fn breed_requires_existing_parents_owned_by_caller() {
    let mut m = initialized();
    assert_eq!(m.create(ALICE, 0, dna(1)), Ok(Event::Created(ALICE, 0)));
    assert_eq!(m.create(BOB, 0, dna(2)), Ok(Event::Created(BOB, 1)));
    assert_eq!(m.breed(ALICE, 3, 0, 9, dna(0)), Err(Error::NotFound));
    assert_eq!(m.breed(ALICE, 3, 9, 0, dna(0)), Err(Error::NotFound));
    assert_eq!(m.breed(ALICE, 3, 0, 1, dna(0)), Err(Error::Unauthorized));
    assert_eq!(m.breed(BOB, 3, 0, 1, dna(0)), Err(Error::Unauthorized));
    assert_eq!(m.kitties_count(), 2);
}

#[test]
fn dead_records_cannot_breed() {
    let mut m = initialized();
    assert_eq!(m.create(ALICE, 0, dna(1)), Ok(Event::Created(ALICE, 0)));
    // A second parent born late enough to be of breeding age at block 12.
    assert_eq!(m.create(ALICE, 9, dna(2)), Ok(Event::Created(ALICE, 1)));
    // At block 12 the first record's age reaches 12 >= max age 10.
    assert_eq!(m.breed(ALICE, 12, 0, 1, dna(0)), Err(Error::Dead));
    assert_eq!(m.breed(ALICE, 12, 1, 0, dna(0)), Err(Error::Dead));
}

#[test]
fn liveness_is_lost_exactly_at_max_age() {
    let mut m = initialized();
    assert_eq!(m.create(ALICE, 0, dna(1)), Ok(Event::Created(ALICE, 0)));
    // Age 9 < 10: still alive, so an owner-gated operation passes the
    // liveness check.
    assert_eq!(m.ask(ALICE, 9, 0, None), Ok(Event::Ask(ALICE, 0, None)));
    // Age 10: dead, and it stays dead at every later time.
    assert_eq!(m.ask(ALICE, 10, 0, None), Err(Error::Dead));
    assert_eq!(m.ask(ALICE, 11, 0, None), Err(Error::Dead));
}
