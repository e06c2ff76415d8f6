use kitties::dna::{combine_dna, map_bits};

#[test]
fn combine_dna_documented_example() {
    assert_eq!(combine_dna(0b11110000, 0b11001100, 0b10101010), 0b11100100);
}

#[test]
fn combine_dna_extreme_selectors() {
    assert_eq!(combine_dna(0xAB, 0x12, 0xFF), 0xAB);
    assert_eq!(combine_dna(0xAB, 0x12, 0x00), 0x12);
    assert_eq!(combine_dna(0x0F, 0xF0, 0x0F), 0xFF);
    assert_eq!(combine_dna(0x0F, 0xF0, 0xF0), 0x00);
}

#[test]
fn combine_dna_matches_bitwise_formula() {
    for d1 in [0u8, 1, 0x5A, 0xC3, 0xFF] {
        for d2 in [0u8, 0x81, 0x3C, 0xFE] {
            for s in [0u8, 0x01, 0x80, 0x55, 0xAA, 0xFF] {
                assert_eq!(combine_dna(d1, d2, s), (s & d1) | (!s & d2));
            }
        }
    }
}

#[test]
fn map_bits_reads_one_bit() {
    assert_eq!(map_bits(0b10101010, 0), 0);
    assert_eq!(map_bits(0b10101010, 1), 1);
    assert_eq!(map_bits(0b10101010, 7), 1);
    assert_eq!(map_bits(0b00000001, 0), 1);
}

#[test]
fn combine_dna_of_same_parents_is_that_dna() {
    for d in [0u8, 0x5A, 0xFF] {
        for s in [0u8, 0x33, 0xFF] {
            assert_eq!(combine_dna(d, d, s), d);
        }
    }
}

#[test]
fn combine_dna_takes_each_bit_from_the_selected_parent() {
    let (d1, d2, s) = (0b11110000u8, 0b11001100u8, 0b10101010u8);
    let r = combine_dna(d1, d2, s);
    for i in 0..8 {
        let expected = if map_bits(s, i) == 1 { d1 & (1 << i) } else { d2 & (1 << i) };
        assert_eq!(r & (1 << i), expected);
    }
}
