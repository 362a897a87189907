use kitties::kitties::{Currency, Error, Event, Module};
use kitties::linked_item::LinkedItem;

const ALICE: u64 = 7;
const BOB: u64 = 8;
const CAROL: u64 = 9;

/// A stub currency collaborator: records every transfer it performs, and can
/// be told to refuse payment.
struct TestCurrency {
    refuse: bool,
    transfers: Vec<(u64, u64, u64, bool)>,
}

impl TestCurrency {
    fn new(refuse: bool) -> TestCurrency {
        TestCurrency { refuse, transfers: Vec::new() }
    }
}

impl Currency for TestCurrency {
    fn transfer(&mut self, from: u64, to: u64, amount: u64, keep_alive: bool) -> Result<(), ()> {
        if self.refuse {
            Err(())
        } else {
            self.transfers.push((from, to, amount, keep_alive));
            Ok(())
        }
    }
}

fn initialized_with_kitty() -> Module {
    // min breed age 2, max breed age 5, max age 10; one record, id 0, owned
    // by ALICE, created at block 0.
    let mut m = Module::new();
    assert_eq!(m.init(ALICE, 2, 5, 10), Ok(()));
    assert_eq!(m.create(ALICE, 0, [1u8; 16]), Ok(Event::Created(ALICE, 0)));
    m
}

#[test]
fn create_then_transfer_moves_record_between_lists() {
    let mut m = initialized_with_kitty();
    assert_eq!(m.kitty_owner(0), Some(ALICE));
    assert_eq!(m.owned_kitties(ALICE, None), Some(LinkedItem { prev: Some(0), next: Some(0) }));
    assert_eq!(m.owned_kitties(ALICE, Some(0)), Some(LinkedItem { prev: None, next: None }));

    assert_eq!(m.transfer(ALICE, 1, BOB, 0), Ok(Event::Transferred(ALICE, BOB, 0)));

    assert_eq!(m.kitty_owner(0), Some(BOB));
    assert_eq!(m.owned_kitties(ALICE, None), None);
    assert_eq!(m.owned_kitties(ALICE, Some(0)), None);
    assert_eq!(m.owned_kitties(BOB, None), Some(LinkedItem { prev: Some(0), next: Some(0) }));
    assert_eq!(m.owned_kitties(BOB, Some(0)), Some(LinkedItem { prev: None, next: None }));
}

#[test]
fn transfer_is_owner_gated() {
    let mut m = initialized_with_kitty();
    assert_eq!(m.transfer(BOB, 1, CAROL, 0), Err(Error::Unauthorized));
    assert_eq!(m.transfer(ALICE, 1, BOB, 9), Err(Error::NotFound));
    assert_eq!(m.kitty_owner(0), Some(ALICE));
    // A dead record cannot be transferred.
    assert_eq!(m.transfer(ALICE, 10, BOB, 0), Err(Error::Dead));
    assert_eq!(m.kitty_owner(0), Some(ALICE));
}

#[test]
fn ask_sets_and_clears_the_listing() {
    let mut m = initialized_with_kitty();
    assert_eq!(m.kitty_price(0), None);
    assert_eq!(m.ask(ALICE, 1, 0, Some(100)), Ok(Event::Ask(ALICE, 0, Some(100))));
    assert_eq!(m.kitty_price(0), Some(100));
    assert_eq!(m.ask(ALICE, 1, 0, Some(250)), Ok(Event::Ask(ALICE, 0, Some(250))));
    assert_eq!(m.kitty_price(0), Some(250));
    assert_eq!(m.ask(ALICE, 1, 0, None), Ok(Event::Ask(ALICE, 0, None)));
    assert_eq!(m.kitty_price(0), None);

    assert_eq!(m.ask(BOB, 1, 0, Some(5)), Err(Error::Unauthorized));
    assert_eq!(m.ask(ALICE, 1, 9, Some(5)), Err(Error::NotFound));
    assert_eq!(m.kitty_price(0), None);
}

#[test]
fn buy_below_price_is_rejected_and_keeps_the_listing() {
    let mut m = initialized_with_kitty();
    let mut currency = TestCurrency::new(false);
    assert_eq!(m.ask(ALICE, 1, 0, Some(100)), Ok(Event::Ask(ALICE, 0, Some(100))));

    assert_eq!(m.buy(&mut currency, BOB, 2, 0, 50), Err(Error::PriceTooLow));

    assert_eq!(m.kitty_price(0), Some(100));
    assert_eq!(m.kitty_owner(0), Some(ALICE));
    assert!(currency.transfers.is_empty());
}

#[test]
fn buy_moves_payment_listing_and_ownership() {
    let mut m = initialized_with_kitty();
    let mut currency = TestCurrency::new(false);
    assert_eq!(m.ask(ALICE, 1, 0, Some(100)), Ok(Event::Ask(ALICE, 0, Some(100))));

    // Offering more than the listed price pays exactly the listed price.
    assert_eq!(m.buy(&mut currency, BOB, 2, 0, 120), Ok(Event::Sold(ALICE, BOB, 0, 100)));

    assert_eq!(currency.transfers, vec![(BOB, ALICE, 100, true)]);
    assert_eq!(m.kitty_price(0), None);
    assert_eq!(m.kitty_owner(0), Some(BOB));
    assert_eq!(m.owned_kitties(ALICE, None), None);
    assert_eq!(m.owned_kitties(BOB, Some(0)), Some(LinkedItem { prev: None, next: None }));
}

#[test]
fn buy_requires_a_listing() {
    let mut m = initialized_with_kitty();
    let mut currency = TestCurrency::new(false);
    assert_eq!(m.buy(&mut currency, BOB, 2, 0, 100), Err(Error::NotForSale));
    assert_eq!(m.buy(&mut currency, BOB, 2, 9, 100), Err(Error::NotFound));
    assert!(currency.transfers.is_empty());
}

#[test]
fn failed_payment_aborts_the_sale() {
    let mut m = initialized_with_kitty();
    let mut currency = TestCurrency::new(true);
    assert_eq!(m.ask(ALICE, 1, 0, Some(100)), Ok(Event::Ask(ALICE, 0, Some(100))));

    assert_eq!(m.buy(&mut currency, BOB, 2, 0, 100), Err(Error::PaymentFailed));

    // No state change at all: the listing and the ownership stand.
    assert_eq!(m.kitty_price(0), Some(100));
    assert_eq!(m.kitty_owner(0), Some(ALICE));
}

#[test]
fn buy_delists_a_dead_record_lazily() {
    let mut m = initialized_with_kitty();
    let mut currency = TestCurrency::new(false);
    assert_eq!(m.ask(ALICE, 1, 0, Some(100)), Ok(Event::Ask(ALICE, 0, Some(100))));

    // At block 10 the record's age reaches the maximum age: the stale
    // listing is cleared as a side effect of the failed purchase.
    assert_eq!(m.buy(&mut currency, BOB, 10, 0, 100), Err(Error::Dead));

    assert_eq!(m.kitty_price(0), None);
    assert_eq!(m.kitty_owner(0), Some(ALICE));
    assert!(currency.transfers.is_empty());
}

#[test]
fn admin_updates_are_gated_and_ordered() {
    let mut m = initialized_with_kitty();
    assert_eq!(m.update_min_breed_age(BOB, 3), Err(Error::Unauthorized));
    assert_eq!(m.update_min_breed_age(ALICE, 0), Err(Error::InvalidParameters));
    assert_eq!(m.update_min_breed_age(ALICE, 6), Err(Error::InvalidParameters));
    assert_eq!(m.update_min_breed_age(ALICE, 3), Ok(()));

    assert_eq!(m.update_max_breed_age(BOB, 4), Err(Error::Unauthorized));
    assert_eq!(m.update_max_breed_age(ALICE, 2), Err(Error::InvalidParameters));
    assert_eq!(m.update_max_breed_age(ALICE, 10), Err(Error::InvalidParameters));
    assert_eq!(m.update_max_breed_age(ALICE, 4), Ok(()));

    assert_eq!(m.update_max_age(BOB, 20), Err(Error::Unauthorized));
    assert_eq!(m.update_max_age(ALICE, 4), Err(Error::InvalidParameters));
    assert_eq!(m.update_max_age(ALICE, 6), Ok(()));

    // The record, created at block 0, is now dead at block 6.
    assert_eq!(m.transfer(ALICE, 6, BOB, 0), Err(Error::Dead));
    assert_eq!(m.transfer(ALICE, 5, BOB, 0), Ok(Event::Transferred(ALICE, BOB, 0)));
}

#[test]
fn admin_identity_can_be_replaced() {
    let mut m = initialized_with_kitty();
    assert_eq!(m.update_owner(BOB, BOB), Err(Error::Unauthorized));
    assert_eq!(m.update_owner(ALICE, BOB), Ok(()));
    assert_eq!(m.update_min_breed_age(ALICE, 3), Err(Error::Unauthorized));
    assert_eq!(m.update_min_breed_age(BOB, 3), Ok(()));
}

#[test]
fn each_record_sits_in_exactly_one_list() {
    let mut m = initialized_with_kitty();
    assert_eq!(m.create(ALICE, 0, [2u8; 16]), Ok(Event::Created(ALICE, 1)));
    assert_eq!(m.transfer(ALICE, 1, BOB, 0), Ok(Event::Transferred(ALICE, BOB, 0)));

    // Record 0 is in BOB's list and only there; record 1 stays with ALICE.
    assert_eq!(m.owned_kitties(BOB, Some(0)), Some(LinkedItem { prev: None, next: None }));
    assert_eq!(m.owned_kitties(ALICE, Some(0)), None);
    assert_eq!(m.owned_kitties(ALICE, Some(1)), Some(LinkedItem { prev: None, next: None }));
    assert_eq!(m.owned_kitties(BOB, Some(1)), None);
}
