use kitties::dna::combine_dna;
use kitties::kitties::{ensure_signed, Event, Kitty, KittyError, Module, Origin, Payment};
use kitties::owned_kitties::LinkedItem;
use kitties::randomness::{random_value, BlockContext};

fn ctx(block: u64) -> BlockContext {
    BlockContext { random_seed: [9u8; 32], extrinsic_index: Some(1), block_number: block }
}

fn item(prev: Option<u32>, next: Option<u32>) -> LinkedItem {
    LinkedItem { prev, next }
}

#[test]
fn ensure_signed_accepts_only_signed_calls() {
    assert_eq!(ensure_signed(Origin::Signed(4)), Ok(4));
    assert_eq!(ensure_signed(Origin::Root), Err(KittyError::BadOrigin));
    assert_eq!(ensure_signed(Origin::Unsigned), Err(KittyError::BadOrigin));
}

#[test]
fn genesis_is_empty() {
    let m = Module::new();
    assert_eq!(m.kitties_count(), 0);
    assert_eq!(m.kitties(0), None);
    assert_eq!(m.kitty_owner(0), None);
    assert_eq!(m.kitty_price(0), None);
    assert_eq!(m.next_kitty_id(), Ok(0));
}

#[test]
fn create_kitties_stores_random_kitty() {
    let mut m = Module::new();
    assert_eq!(m.create_kitties(Origin::Signed(1), &ctx(10)), Ok(Event::Created(1, 0)));
    assert_eq!(m.kitties_count(), 1);
    assert_eq!(m.kitties(0), Some(Kitty(random_value(&1, &ctx(10)))));
    assert_eq!(m.kitty_owner(0), Some(1));
    assert_eq!(m.owned_kitties().read(&1, None), item(Some(0), Some(0)));
    assert_eq!(m.create_kitties(Origin::Signed(1), &ctx(11)), Ok(Event::Created(1, 1)));
    assert_eq!(m.owned_kitties().read(&1, None), item(Some(1), Some(0)));
    assert_eq!(m.owned_kitties().read(&1, Some(0)), item(None, Some(1)));
}

#[test]
fn create_kitties_refuses_unsigned() {
    let mut m = Module::new();
    assert_eq!(m.create_kitties(Origin::Root, &ctx(1)), Err(KittyError::BadOrigin));
    assert_eq!(m.create_kitties(Origin::Unsigned, &ctx(1)), Err(KittyError::BadOrigin));
    assert_eq!(m.kitties_count(), 0);
}

#[test]
fn counter_overflow_is_refused() {
    let mut m = Module::new();
    m.insert_kitty(5, u32::MAX - 1, Kitty([1u8; 16]));
    assert_eq!(m.kitties_count(), u32::MAX);
    assert_eq!(m.next_kitty_id(), Err(KittyError::KittiesCountOverflow));
    assert_eq!(m.do_create(5, [2u8; 16]), Err(KittyError::KittiesCountOverflow));
    assert_eq!(m.create_kitties(Origin::Signed(5), &ctx(1)), Err(KittyError::KittiesCountOverflow));
    assert_eq!(m.kitties(u32::MAX), None);
}

#[test]
fn breed_checks_parents_in_order() {
    let mut m = Module::new();
    assert_eq!(m.do_create(1, [0xF0u8; 16]), Ok(0));
    assert_eq!(m.do_create(2, [0xCCu8; 16]), Ok(1));
    assert_eq!(m.do_breed_with_selector(3, 7, 8, [0u8; 16]), Err(KittyError::InvalidKittyId1));
    assert_eq!(m.do_breed_with_selector(3, 0, 8, [0u8; 16]), Err(KittyError::InvalidKittyId2));
    assert_eq!(m.do_breed_with_selector(3, 1, 1, [0u8; 16]), Err(KittyError::NeedDifferentParent));
    assert_eq!(m.breed_kitty(Origin::Root, 0, 1, &ctx(1)), Err(KittyError::BadOrigin));
    assert_eq!(m.kitties_count(), 2);
}

#[test]
fn breed_combines_parent_dna() {
    let mut m = Module::new();
    m.do_create(1, [0b11110000u8; 16]).unwrap();
    m.do_create(2, [0b11001100u8; 16]).unwrap();
    assert_eq!(m.do_breed_with_selector(3, 0, 1, [0b10101010u8; 16]), Ok(2));
    assert_eq!(m.kitties(2), Some(Kitty([0b11100100u8; 16])));
    assert_eq!(m.kitty_owner(2), Some(3));
    assert_eq!(m.kitties_count(), 3);
}

#[test]
fn breed_kitty_uses_random_selector() {
    let mut m = Module::new();
    let d1 = [0x3Cu8, 1, 2, 3, 4, 5, 6, 7, 8, 9, 10, 11, 12, 13, 14, 15];
    let d2 = [0xA5u8; 16];
    m.do_create(1, d1).unwrap();
    m.do_create(1, d2).unwrap();
    assert_eq!(m.breed_kitty(Origin::Signed(4), 0, 1, &ctx(3)), Ok(Event::Created(4, 2)));
    let sel = random_value(&4, &ctx(3));
    let mut expected = [0u8; 16];
    for i in 0..16 {
        expected[i] = combine_dna(d1[i], d2[i], sel[i]);
    }
    assert_eq!(m.kitties(2), Some(Kitty(expected)));
    assert_eq!(m.owned_kitties().read(&4, None), item(Some(2), Some(2)));
}

#[test]
fn transfer_kitty_moves_ownership() {
    let mut m = Module::new();
    m.do_create(1, [1u8; 16]).unwrap();
    m.do_create(1, [2u8; 16]).unwrap();
    assert_eq!(m.transfer_kitty(Origin::Signed(2), 3, 0), Err(KittyError::NotOwner));
    assert_eq!(m.transfer_kitty(Origin::Signed(1), 3, 9), Err(KittyError::NoOwner));
    assert_eq!(m.transfer_kitty(Origin::Unsigned, 3, 0), Err(KittyError::BadOrigin));
    assert_eq!(m.transfer_kitty(Origin::Signed(1), 2, 0), Ok(()));
    assert_eq!(m.kitty_owner(0), Some(2));
    assert_eq!(m.owned_kitties().read(&1, None), item(Some(1), Some(1)));
    assert_eq!(m.owned_kitties().read(&1, Some(1)), item(None, None));
    assert_eq!(m.owned_kitties().get(&(1, Some(0))), None);
    assert_eq!(m.owned_kitties().read(&2, None), item(Some(0), Some(0)));
}

#[test]
fn transfer_to_self_moves_kitty_to_the_end() {
    let mut m = Module::new();
    m.do_create(1, [1u8; 16]).unwrap();
    m.do_create(1, [2u8; 16]).unwrap();
    assert_eq!(m.transfer_kitty(Origin::Signed(1), 1, 0), Ok(()));
    assert_eq!(m.kitty_owner(0), Some(1));
    assert_eq!(m.owned_kitties().read(&1, None), item(Some(0), Some(1)));
    assert_eq!(m.owned_kitties().read(&1, Some(1)), item(None, Some(0)));
    assert_eq!(m.owned_kitties().read(&1, Some(0)), item(Some(1), None));
}

#[test]
fn ask_sets_and_clears_price() {
    let mut m = Module::new();
    m.do_create(1, [1u8; 16]).unwrap();
    assert_eq!(m.ask(Origin::Signed(1), 5, Some(10)), Err(KittyError::KittyNotExist));
    assert_eq!(m.ask(Origin::Signed(2), 0, Some(10)), Err(KittyError::NotOwner));
    assert_eq!(m.ask(Origin::Root, 0, Some(10)), Err(KittyError::BadOrigin));
    assert_eq!(m.ask(Origin::Signed(1), 0, Some(10)), Ok(Event::Ask(1, 0, Some(10))));
    assert_eq!(m.kitty_price(0), Some(10));
    assert_eq!(m.ask(Origin::Signed(1), 0, None), Ok(Event::Ask(1, 0, None)));
    assert_eq!(m.kitty_price(0), None);
}

#[test]
fn buy_checks_and_sells() {
    let mut m = Module::new();
    m.do_create(1, [1u8; 16]).unwrap();
    assert_eq!(m.prepare_buy(Origin::Signed(2), 3, 50), Err(KittyError::KittyNotExist));
    assert_eq!(m.prepare_buy(Origin::Signed(2), 0, 50), Err(KittyError::NotForSale));
    m.ask(Origin::Signed(1), 0, Some(40)).unwrap();
    assert_eq!(m.prepare_buy(Origin::Signed(2), 0, 39), Err(KittyError::PriceTooLow));
    assert_eq!(m.buy(Origin::Signed(2), 0, 39, true), Err(KittyError::PriceTooLow));
    assert_eq!(m.prepare_buy(Origin::Unsigned, 0, 50), Err(KittyError::BadOrigin));
    assert_eq!(m.prepare_buy(Origin::Signed(2), 0, 50), Ok(Payment { from: 2, to: 1, amount: 40 }));
    assert_eq!(m.buy(Origin::Signed(2), 0, 50, false), Err(KittyError::PaymentFailed));
    assert_eq!(m.kitty_owner(0), Some(1));
    assert_eq!(m.kitty_price(0), Some(40));
    assert_eq!(m.buy(Origin::Signed(2), 0, 50, true), Ok(Event::Sold(1, 2, 0, 40)));
    assert_eq!(m.kitty_owner(0), Some(2));
    assert_eq!(m.kitty_price(0), None);
    assert_eq!(m.owned_kitties().read(&1, None), item(None, None));
    assert_eq!(m.owned_kitties().read(&2, None), item(Some(0), Some(0)));
    assert_eq!(m.prepare_buy(Origin::Signed(3), 0, 50), Err(KittyError::NotForSale));
}

#[test]
fn price_stays_after_transfer() {
    let mut m = Module::new();
    m.do_create(1, [1u8; 16]).unwrap();
    m.ask(Origin::Signed(1), 0, Some(5)).unwrap();
    m.transfer_kitty(Origin::Signed(1), 2, 0).unwrap();
    assert_eq!(m.kitty_price(0), Some(5));
    assert_eq!(m.prepare_buy(Origin::Signed(3), 0, 5), Ok(Payment { from: 3, to: 2, amount: 5 }));
}

#[test]
fn breeding_keeps_parents_and_ids_stay_below_count() {
    let mut m = Module::new();
    m.do_create(1, [7u8; 16]).unwrap();
    m.do_create(2, [9u8; 16]).unwrap();
    m.do_breed_with_selector(3, 0, 1, [0x0Fu8; 16]).unwrap();
    assert_eq!(m.kitties(0), Some(Kitty([7u8; 16])));
    assert_eq!(m.kitties(1), Some(Kitty([9u8; 16])));
    assert_eq!(m.kitty_owner(0), Some(1));
    assert_eq!(m.kitty_owner(1), Some(2));
    assert_eq!(m.kitties_count(), 3);
    assert_eq!(m.kitties(3), None);
    assert_eq!(m.next_kitty_id(), Ok(3));
}

#[test]
fn default_kitty_has_zero_dna() {
    assert_eq!(Kitty::default(), Kitty([0u8; 16]));
}
