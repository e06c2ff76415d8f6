use kitties::basic_kitties::Module;
use kitties::kitties::{Kitty, KittyError, Origin};
use kitties::owned_kitties::LinkedItem;
use kitties::randomness::{random_value, BlockContext};

fn ctx(block: u64) -> BlockContext {
    BlockContext { random_seed: [2u8; 32], extrinsic_index: Some(0), block_number: block }
}

fn item(prev: Option<u32>, next: Option<u32>) -> LinkedItem {
    LinkedItem { prev, next }
}

#[test]
fn basic_create_appends_to_creator_list() {
    let mut m = Module::new();
    assert_eq!(m.create(Origin::Signed(1), &ctx(1)), Ok(()));
    assert_eq!(m.create(Origin::Signed(1), &ctx(2)), Ok(()));
    assert_eq!(m.create(Origin::Unsigned, &ctx(3)), Err(KittyError::BadOrigin));
    assert_eq!(m.kitties_count(), 2);
    assert_eq!(m.kitties(1), Some(Kitty(random_value(&1, &ctx(2)))));
    assert_eq!(m.owned_kitties().read(&1, None), item(Some(1), Some(0)));
}

#[test]
fn basic_breed_checks_parents() {
    let mut m = Module::new();
    m.create(Origin::Signed(1), &ctx(1)).unwrap();
    assert_eq!(m.breed(Origin::Signed(1), 0, 0, &ctx(2)), Err(KittyError::NeedDifferentParent));
    assert_eq!(m.breed(Origin::Signed(1), 3, 0, &ctx(2)), Err(KittyError::InvalidKittyId1));
    assert_eq!(m.breed(Origin::Signed(1), 0, 3, &ctx(2)), Err(KittyError::InvalidKittyId2));
    m.create(Origin::Signed(2), &ctx(3)).unwrap();
    assert_eq!(m.do_breed_with_selector(&5, 0, 1, [0xFFu8; 16]), Ok(()));
    assert_eq!(m.kitties(2), m.kitties(0));
    assert_eq!(m.owned_kitties().read(&5, None), item(Some(2), Some(2)));
}

#[test]
fn basic_transfer_needs_a_node_in_sender_list() {
    let mut m = Module::new();
    m.create(Origin::Signed(1), &ctx(1)).unwrap();
    assert_eq!(m.do_transfer(&2, 3, 0), Err(KittyError::NotOwner));
    assert_eq!(m.transfer(Origin::Signed(2), 3, 0), Ok(()));
    assert_eq!(m.owned_kitties().read(&3, None), item(None, None));
    assert_eq!(m.owned_kitties().read(&1, None), item(Some(0), Some(0)));
    assert_eq!(m.transfer(Origin::Signed(1), 3, 0), Ok(()));
    assert_eq!(m.owned_kitties().read(&1, None), item(None, None));
    assert_eq!(m.owned_kitties().read(&3, None), item(Some(0), Some(0)));
    assert_eq!(m.owned_kitties().read(&3, Some(0)), item(None, None));
    assert_eq!(m.transfer(Origin::Root, 1, 0), Err(KittyError::BadOrigin));
}

#[test]
fn basic_self_transfer_of_last_kitty_unlinks_it() {
    let mut m = Module::new();
    m.create(Origin::Signed(1), &ctx(1)).unwrap();
    m.create(Origin::Signed(1), &ctx(2)).unwrap();
    assert_eq!(m.transfer(Origin::Signed(1), 1, 1), Ok(()));
    assert_eq!(m.owned_kitties().read(&1, None), item(Some(1), Some(0)));
    assert_eq!(m.owned_kitties().read(&1, Some(0)), item(None, Some(1)));
    assert_eq!(m.owned_kitties().read(&1, Some(1)), item(None, None));
}
