use kitties::randomness::{random_value, BlockContext};

fn context() -> BlockContext {
    BlockContext { random_seed: [7u8; 32], extrinsic_index: Some(3), block_number: 258 }
}

#[test]
fn random_value_hashes_the_scale_payload() {
    let sender: u64 = 0x0102030405060708;
    let mut payload = vec![7u8; 32];
    payload.extend_from_slice(&[8, 7, 6, 5, 4, 3, 2, 1]);
    payload.extend_from_slice(&[1, 3, 0, 0, 0]);
    payload.extend_from_slice(&[2, 1, 0, 0, 0, 0, 0, 0]);
    assert_eq!(random_value(&sender, &context()), sp_io::hashing::blake2_128(&payload));
}

#[test]
fn random_value_encodes_missing_extrinsic_index_as_zero_byte() {
    let ctx = BlockContext { random_seed: [0u8; 32], extrinsic_index: None, block_number: 1 };
    let mut payload = vec![0u8; 32];
    payload.extend_from_slice(&[5, 0, 0, 0, 0, 0, 0, 0]);
    payload.push(0);
    payload.extend_from_slice(&[1, 0, 0, 0, 0, 0, 0, 0]);
    assert_eq!(random_value(&5, &ctx), sp_io::hashing::blake2_128(&payload));
}

#[test]
fn random_value_depends_on_sender_and_block() {
    let a = random_value(&1, &context());
    let b = random_value(&2, &context());
    let mut later = context();
    later.block_number = 259;
    let c = random_value(&1, &later);
    assert_ne!(a, b);
    assert_ne!(a, c);
    assert_eq!(a, random_value(&1, &context()));
}
