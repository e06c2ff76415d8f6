use kitties::kitties::{KittyError, Origin};
use kitties::kitty_design::{DesignKitty, KittyBook};
use kitties::randomness::{random_value, BlockContext};

#[test]
fn lookup_of_empty_book_gives_default_kitty() {
    let book = KittyBook::new();
    assert_eq!(book.kitty(3), DesignKitty { id: [0u8; 16], dna: [0u8; 16], price: 0, gen: 0 });
    assert_eq!(book.kitties_count(), 0);
}

#[test]
fn breeding_stores_next_generation_after_counter() {
    let mut book = KittyBook::new();
    let random = [3u8, 2, 5, 4, 7, 6, 9, 8, 11, 10, 13, 12, 15, 14, 1, 0];
    assert_eq!(book.breed_with_random(0, 1, random), Ok(()));
    assert_eq!(book.kitties_count(), 1);
    assert_eq!(book.kitty(1), DesignKitty { id: random, dna: [0u8; 16], price: 0, gen: 1 });
    assert_eq!(book.breed_with_random(1, 0, [1u8; 16]), Ok(()));
    assert_eq!(book.kitty(2).gen, 2);
    assert_eq!(book.kitty(2).id, [1u8; 16]);
    assert_eq!(book.kitty(0).gen, 0);
}

#[test]
fn breed_kitty_takes_id_from_random_value() {
    let mut book = KittyBook::new();
    let ctx = BlockContext { random_seed: [4u8; 32], extrinsic_index: None, block_number: 2 };
    assert_eq!(book.breed_kitty(Origin::Root, 0, 1, &ctx), Err(KittyError::BadOrigin));
    assert_eq!(book.kitties_count(), 0);
    assert_eq!(book.breed_kitty(Origin::Signed(8), 0, 1, &ctx), Ok(()));
    assert_eq!(book.kitty(1).id, random_value(&8, &ctx));
    assert_eq!(book.kitty(1).gen, 1);
}
