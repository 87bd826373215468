use xx_hash::xxhash32::{avalanche32, get_32bits, rotate_left32, round32};
use xx_hash::xxhash64::{
    avalanche64, converge_pass64, get_64bits, merge_round64, rotate_left64, round64, tail_pass64,
};

#[test]
fn lane_of_four_bytes_is_little_endian() {
    let bytes = [0x01u8, 0x02, 0x03, 0x04, 0x05, 0xff];
    assert_eq!(get_32bits(&bytes, 0), 0x04030201);
    assert_eq!(get_32bits(&bytes, 1), 0x05040302);
    assert_eq!(get_32bits(&bytes, 2), 0xff050403);
    assert_eq!(get_32bits(&[0xff, 0xff, 0xff, 0xff], 0), u32::MAX);
    assert_eq!(get_32bits(&[0, 0, 0, 0x80], 0), 0x8000_0000);
}

#[test]
fn lane_of_eight_bytes_is_little_endian() {
    let bytes = [0x01u8, 0x02, 0x03, 0x04, 0x05, 0x06, 0x07, 0x08, 0x09];
    assert_eq!(get_64bits(&bytes, 0), 0x0807060504030201);
    assert_eq!(get_64bits(&bytes, 1), 0x0908070605040302);
    assert_eq!(get_64bits(&[0xff; 8], 0), u64::MAX);
    assert_eq!(get_64bits(&[0, 0, 0, 0, 0, 0, 0, 0x80], 0), 0x8000_0000_0000_0000);
    assert_eq!(get_64bits(&[1, 0, 0, 0, 0, 0, 0, 0], 0), 1);
}

#[test]
fn rotation_brings_the_high_bits_back_in() {
    assert_eq!(rotate_left32(0x8000_0001, 1), 0x3);
    assert_eq!(rotate_left32(0x1234_5678, 13), 0x8acf_0246);
    assert_eq!(rotate_left32(0x1234_5678, 13), 0x1234_5678u32.rotate_left(13));
    assert_eq!(rotate_left32(1, 31), 0x8000_0000);
    assert_eq!(rotate_left64(0x8000_0000_0000_0001, 1), 0x3);
    assert_eq!(rotate_left64(0x0123_4567_89ab_cdef, 31), 0xc4d5_e6f7_8091_a2b3);
    assert_eq!(rotate_left64(0x0123_4567_89ab_cdef, 27), 0x0123_4567_89ab_cdefu64.rotate_left(27));
    assert_eq!(rotate_left64(1, 63), 0x8000_0000_0000_0000);
}

#[test]
fn round_of_the_narrow_hash() {
    assert_eq!(round32(0, 0), 0);
    assert_eq!(round32(0, 1), 0x8df8c7ad);
    assert_eq!(round32(0x12345678, 0x9abcdef0), 0x940b3397);
}

#[test]
fn round_of_the_wide_hash() {
    assert_eq!(round64(0, 0), 0);
    assert_eq!(round64(0, 1), 0x7f0e345be3649cd2);
    assert_eq!(round64(0x0123456789abcdef, 0xfedcba9876543210), 0x9e9fa3bea5c7bcd2);
}

#[test]
fn merge_round_of_the_wide_hash() {
    assert_eq!(merge_round64(0, 0), 0x85ebca77c2b2ae63);
    assert_eq!(merge_round64(1, 2), 0x3e6ecd4c2fff0489);
}

#[test]
fn avalanche_of_the_narrow_hash() {
    assert_eq!(avalanche32(0), 0);
    assert_eq!(avalanche32(1), 0x606d18a8);
    assert_eq!(avalanche32(0xdeadbeef), 0xa488a732);
}

#[test]
fn avalanche_of_the_wide_hash() {
    assert_eq!(avalanche64(0), 0);
    assert_eq!(avalanche64(1), 0x283a72a5b9ab93d3);
    assert_eq!(avalanche64(0xdeadbeefcafebabe), 0x7fd34f3aadd2ffd1);
}

#[test]
fn four_accumulators_converge() {
    assert_eq!(converge_pass64(1, 2, 3, 4), 0xcbd45f8da9d14190);
}

#[test]
fn tail_takes_eight_then_four_then_single_bytes() {
    let bytes: Vec<u8> = (1..14).collect();
    assert_eq!(tail_pass64(7, &bytes, 0, 13), 0x8ab9de76edffc6a7);
    assert_eq!(tail_pass64(7, &bytes, 1, 5), 0xca1b91d43d5400a3);
    assert_eq!(tail_pass64(7, &bytes, 13, 0), 7);
    assert_eq!(tail_pass64(7, &bytes, 0, 0), 7);
}
