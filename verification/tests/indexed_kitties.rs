use kitties::indexed_kitties::{Module, SeedEvent};
use kitties::kitties::{Kitty, KittyError, Origin};
use kitties::randomness::BlockContext;

fn ctx() -> BlockContext {
    BlockContext { random_seed: [5u8; 32], extrinsic_index: None, block_number: 9 }
}

#[test]
fn indexed_create_records_next_index() {
    let mut m = Module::new();
    assert_eq!(m.create_kitties(Origin::Signed(1), &ctx()), Ok(SeedEvent::Created(1, [5u8; 32])));
    assert_eq!(m.create_kitties(Origin::Signed(1), &ctx()), Ok(SeedEvent::Created(1, [5u8; 32])));
    assert_eq!(m.owned_kitties_count(1), 2);
    assert_eq!(m.owned_kitties(1, 0), 0);
    assert_eq!(m.owned_kitties(1, 1), 1);
    assert_eq!(m.kitties_count(), 2);
    assert_eq!(m.create_kitties(Origin::Root, &ctx()), Err(KittyError::BadOrigin));
}

#[test]
fn indexed_transfer_moves_entry_and_counts() {
    let mut m = Module::new();
    m.insert_kitty(1, 0, Kitty([1u8; 16]));
    m.insert_kitty(2, 1, Kitty([2u8; 16]));
    assert_eq!(m.transfer_kitty(Origin::Signed(1), 2, 0), Ok(()));
    assert_eq!(m.owned_kitties(2, 0), 0);
    assert_eq!(m.owned_kitties_count(1), 2);
    assert_eq!(m.owned_kitties_count(2), 0);
}

#[test]
fn indexed_transfer_underflow_keeps_moved_entry() {
    let mut m = Module::new();
    m.insert_kitty(1, 0, Kitty([1u8; 16]));
    assert_eq!(m.transfer_kitty(Origin::Signed(1), 3, 0), Err(KittyError::TransferUnderflow));
    assert_eq!(m.owned_kitties(3, 0), 0);
    assert_eq!(m.owned_kitties_count(1), 1);
    assert_eq!(m.owned_kitties_count(3), 0);
}

#[test]
fn indexed_breed_records_child_for_breeder() {
    let mut m = Module::new();
    m.insert_kitty(1, 0, Kitty([0x0Fu8; 16]));
    m.insert_kitty(1, 1, Kitty([0xF0u8; 16]));
    assert_eq!(m.do_breed_with_selector(4, 0, 1, [0x3Cu8; 16]), Ok(()));
    assert_eq!(m.kitties(2), Some(Kitty([0xCCu8; 16])));
    assert_eq!(m.owned_kitties(4, 0), 2);
    assert_eq!(m.owned_kitties_count(4), 1);
    assert_eq!(m.breed_kitty(Origin::Signed(4), 0, 0, &ctx()), Err(KittyError::NeedDifferentParent));
}
