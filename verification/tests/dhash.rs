use pipeline_core::{dhash_9x8, dhash_9x8_js, hash_hex};

#[test]
fn a_tile_rising_everywhere_sets_every_bit() {
    let mut data = vec![0u8; 72];
    for y in 0..8 {
        for x in 0..9 {
            data[y * 9 + x] = (x * 16) as u8;
        }
    }
    assert_eq!(dhash_9x8(&data), u64::MAX);
    assert_eq!(dhash_9x8_js(&data), "ffffffffffffffff");
}

#[test]
fn a_flat_or_falling_tile_hashes_to_zero() {
    assert_eq!(dhash_9x8(&vec![100u8; 72]), 0);
    let mut falling = vec![0u8; 72];
    for y in 0..8 {
        for x in 0..9 {
            falling[y * 9 + x] = (200 - x * 16) as u8;
        }
    }
    assert_eq!(dhash_9x8(&falling), 0);
    assert_eq!(dhash_9x8_js(&falling), "0000000000000000");
}

#[test]
fn anything_but_a_tile_hashes_to_zero() {
    let mut rising = vec![0u8; 80];
    for (i, v) in rising.iter_mut().enumerate() {
        *v = (i % 9 * 16) as u8;
    }
    assert_eq!(dhash_9x8(&rising[..71]), 0);
    assert_eq!(dhash_9x8(&rising[..73]), 0);
    assert_eq!(dhash_9x8(&rising), 0);
    assert_eq!(dhash_9x8(&[]), 0);
    assert_ne!(dhash_9x8(&rising[..72]), 0);
    assert_eq!(dhash_9x8_js(&rising[..71]), "0000000000000000");
    assert_eq!(dhash_9x8_js(&rising), "0000000000000000");
    assert_eq!(dhash_9x8_js(&[]), "0000000000000000");
}

#[test]
fn each_pair_sets_its_own_bit() {
    for y in 0..8usize {
        for x in 0..8usize {
            let mut data = vec![50u8; 72];
            for k in 0..=x {
                data[y * 9 + k] = 49;
            }
            assert_eq!(dhash_9x8(&data), 1u64 << (8 * y + x));
        }
    }
}

#[test]
fn equal_neighbours_do_not_rise() {
    let mut data = vec![0u8; 72];
    data[1] = 1;
    data[2] = 1;
    assert_eq!(dhash_9x8(&data), 1);
    data[71] = 9;
    assert_eq!(dhash_9x8(&data), 1 | (1u64 << 63));
}

#[test]
fn a_hash_is_rendered_as_sixteen_digits() {
    assert_eq!(hash_hex(0), "0000000000000000");
    assert_eq!(hash_hex(1), "0000000000000001");
    assert_eq!(hash_hex(0x1234_abcd), "000000001234abcd");
    assert_eq!(hash_hex(0x0123_4567_89ab_cdef), "0123456789abcdef");
    assert_eq!(hash_hex(0xfedc_ba98_7654_3210), "fedcba9876543210");
    assert_eq!(hash_hex(u64::MAX), "ffffffffffffffff");
    assert_eq!(hash_hex(0x8000_0000_0000_0000), "8000000000000000");
}
