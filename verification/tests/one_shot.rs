use xx_hash::{xx_hash32, xx_hash32_seed, xx_hash64, xx_hash64_seed};

/// The bytes 0, 1, 2, ... wrapping at 256, `n` of them.
fn counting(n: usize) -> Vec<u8> {
    (0..n).map(|i| i as u8).collect()
}

#[test]
fn empty_input_gives_the_documented_constants() {
    assert_eq!(xx_hash32(b""), 0x02cc5d05);
    assert_eq!(xx_hash64(b""), 0xef46db3751d8e999);
}

#[test]
fn empty_input_depends_on_the_seed() {
    assert_eq!(xx_hash32_seed(b"", 0x9e3779b1), 0x36b78ae7);
    assert_eq!(xx_hash64_seed(b"", 0x9e3779b1), 0xac75fda2929b17ef);
    assert_eq!(xx_hash64_seed(b"", 0x9e3779b185ebca8d), 0x0b303d920ec349df);
    assert_ne!(xx_hash32_seed(b"", 1), xx_hash32_seed(b"", 0));
    assert_ne!(xx_hash64_seed(b"", 1), xx_hash64_seed(b"", 0));
}

#[test]
fn seed_zero_is_the_default() {
    for n in [0usize, 1, 5, 16, 31, 32, 33, 100] {
        let input = counting(n);
        assert_eq!(xx_hash32(&input), xx_hash32_seed(&input, 0));
        assert_eq!(xx_hash64(&input), xx_hash64_seed(&input, 0));
    }
}

#[test]
fn short_text_vectors() {
    assert_eq!(xx_hash32(b"a"), 0x550d7456);
    assert_eq!(xx_hash32(b"abc"), 0x32d153ff);
    assert_eq!(xx_hash64(b"a"), 0xd24ec4f1a98c6e5b);
    assert_eq!(xx_hash64(b"abc"), 0x44bc2cf5ad770999);
}

#[test]
fn hash32_at_every_kind_of_length() {
    let expected: [(usize, u32, u32); 19] = [
        (0, 0x02cc5d05, 0x36b78ae7),
        (1, 0xcf65b03e, 0xb4545aa4),
        (3, 0x663e9a55, 0x24302793),
        (4, 0x80691e66, 0x968ee649),
        (7, 0xa74336dc, 0x26a2915a),
        (8, 0xa3ad90b9, 0x1d1ac494),
        (15, 0x57c01ece, 0x987c1d76),
        (16, 0xb72837f4, 0x2fbdeaf3),
        (17, 0x7c77adc2, 0x5efdea16),
        (31, 0xef24f709, 0xc17a6cae),
        (32, 0x830741c1, 0x8535b112),
        (33, 0xf1e6a545, 0xe93771da),
        (63, 0x4c80747b, 0x3a00b92a),
        (64, 0x31120435, 0xd22dae28),
        (65, 0xa4da78a4, 0xcce5a94a),
        (100, 0x7f89ba44, 0xfa996f24),
        (255, 0xb4d58730, 0x17901848),
        (256, 0x59441253, 0x2f6efc73),
        (512, 0xf319d2c7, 0xae57a38a),
    ];
    for (n, plain, seeded) in expected {
        let input = counting(n);
        assert_eq!(xx_hash32(&input), plain, "length {}", n);
        assert_eq!(xx_hash32_seed(&input, 0x9e3779b1), seeded, "length {}", n);
    }
}

#[test]
fn hash64_at_every_kind_of_length() {
    let expected: [(usize, u64, u64); 19] = [
        (0, 0xef46db3751d8e999, 0x0b303d920ec349df),
        (1, 0xe934a84adb052768, 0x9c6678669fcd2e6d),
        (3, 0xe5c7bb4533bc65dd, 0xf465322e2768434f),
        (4, 0xffced8604453cc1e, 0x6105c2e67219dec8),
        (7, 0x14cc643f630c72d2, 0x625acc63365064bd),
        (8, 0x884a173614b81b8d, 0xb55f66affcc24e70),
        (15, 0xa948f5f0f6abac2d, 0x5f7cb106fe5e7cb6),
        (16, 0x44b6ef2fb84169f7, 0x21e52d46a74045eb),
        (17, 0x5603e60c527599b6, 0xeb5e58dc671ee52d),
        (31, 0xc346d2b59b4d8ee1, 0xf6a0359cac5381ba),
        (32, 0xcbf59c5116ff32b4, 0xbc9b546ab584abd0),
        (33, 0x0c535d1acafb8ead, 0xa11bd47ef728da75),
        (63, 0xe26aa9e2a95f8e4f, 0x550d67cdceb02f14),
        (64, 0xf7c67301db6713f0, 0x6517f78c897ad8fe),
        (65, 0xc31eb63b2ae4465b, 0xcd74b96651a657aa),
        (100, 0x6ac1e58032166597, 0x76c675eca518bb3c),
        (255, 0x0f7d97507caad693, 0x2ef0f5e93d8ead43),
        (256, 0x1facbe8406cd904b, 0x47088f71bebd771a),
        (512, 0x7b3bfcaac0348ac0, 0x0e538456738c9dec),
    ];
    for (n, plain, seeded) in expected {
        let input = counting(n);
        assert_eq!(xx_hash64(&input), plain, "length {}", n);
        assert_eq!(xx_hash64_seed(&input, 0x9e3779b185ebca8d), seeded, "length {}", n);
    }
}

#[test]
fn one_shot_is_deterministic() {
    let input = counting(77);
    assert_eq!(xx_hash32_seed(&input, 9), xx_hash32_seed(&input, 9));
    assert_eq!(xx_hash64_seed(&input, 9), xx_hash64_seed(&input, 9));
    let copy = input.clone();
    assert_eq!(xx_hash32_seed(&input, 9), xx_hash32_seed(&copy, 9));
    assert_eq!(xx_hash64_seed(&input, 9), xx_hash64_seed(&copy, 9));
}

#[test]
fn different_seeds_give_different_hashes() {
    let input = b"The quick brown fox jumps over the lazy dog";
    assert_ne!(xx_hash32_seed(input, 0), xx_hash32_seed(input, 1));
    assert_ne!(xx_hash32_seed(input, 0x1234), xx_hash32_seed(input, 0xffff_ffff));
    assert_ne!(xx_hash64_seed(input, 0), xx_hash64_seed(input, 1));
    assert_ne!(xx_hash64_seed(input, 0x1234), xx_hash64_seed(input, 0xffff_ffff_ffff_ffff));
    let short = b"x";
    assert_ne!(xx_hash32_seed(short, 2), xx_hash32_seed(short, 3));
    assert_ne!(xx_hash64_seed(short, 2), xx_hash64_seed(short, 3));
}

#[test]
fn lanes_are_read_little_endian() {
    // Swapping two bytes inside one lane changes the hash.
    let a: Vec<u8> = counting(40);
    let mut b = a.clone();
    b.swap(0, 3);
    assert_ne!(xx_hash32(&a), xx_hash32(&b));
    assert_ne!(xx_hash64(&a), xx_hash64(&b));
}

#[test]
fn one_flipped_bit_changes_many_output_bits() {
    let mut changed32: u32 = 0;
    let mut changed64: u32 = 0;
    let mut trials: u32 = 0;
    for n in [1usize, 4, 13, 16, 32, 47, 64, 200] {
        let input = counting(n);
        for bit in 0..(8 * n) {
            let mut flipped = input.clone();
            flipped[bit / 8] ^= 1 << (bit % 8);
            let d32 = (xx_hash32(&input) ^ xx_hash32(&flipped)).count_ones();
            let d64 = (xx_hash64(&input) ^ xx_hash64(&flipped)).count_ones();
            assert!(d32 >= 4, "length {} bit {}: {} of 32 bits changed", n, bit, d32);
            assert!(d64 >= 12, "length {} bit {}: {} of 64 bits changed", n, bit, d64);
            changed32 += d32;
            changed64 += d64;
            trials += 1;
        }
    }
    // On average close to half of the output bits change.
    assert!(changed32 >= 14 * trials && changed32 <= 18 * trials);
    assert!(changed64 >= 30 * trials && changed64 <= 34 * trials);
}
