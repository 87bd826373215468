//! The 32-bit xxHash of a byte slice.

use vstd::prelude::*;

verus! {

/// The five primes of the 32-bit hash.
pub const PRIME32_1: u32 = 2654435761;

pub const PRIME32_2: u32 = 2246822519;

pub const PRIME32_3: u32 = 3266489917;

pub const PRIME32_4: u32 = 668265263;

pub const PRIME32_5: u32 = 374761393;

/// Bytes in one stripe: four lanes of four bytes.
pub const CHUNK_SIZE: usize = 16;

/// The value of the 4 bytes of `s` that start at `at`, the first byte being
/// the least significant.
#[verifier::opaque]
pub open spec fn lane32(s: Seq<u8>, at: int) -> u32
    recommends
        0 <= at,
        at + 4 <= s.len(),
{
    (s[at] as int + 0x100 * (s[at + 1] as int) + 0x1_0000 * (s[at + 2] as int) + 0x100_0000 * (s[at
        + 3] as int)) as u32
}

/// `x` with its bits moved `r` places towards the most significant end, the
/// bits that fall off coming back in at the other end.
pub open spec fn rotl32(x: u32, r: u32) -> u32
    recommends
        0 < r < 32,
{
    (x << r) | (x >> ((32 - r) as u32))
}

/// One mixing step of an accumulator with a lane.
#[verifier::opaque]
pub open spec fn mix32(acc: u32, lane: u32) -> u32 {
    rotl32(acc.wrapping_add(lane.wrapping_mul(PRIME32_2)), 13).wrapping_mul(PRIME32_1)
}

/// The final diffusion of a hash value.
pub open spec fn diffuse32(h: u32) -> u32 {
    let a = (h ^ (h >> 15)).wrapping_mul(PRIME32_2);
    let b = (a ^ (a >> 13)).wrapping_mul(PRIME32_3);
    b ^ (b >> 16)
}

/// The four running accumulators of the striped pass.
pub struct Lanes32 {
    pub v1: u32,
    pub v2: u32,
    pub v3: u32,
    pub v4: u32,
}

/// The accumulators before any stripe has been taken in.
pub open spec fn seeded32(seed: u32) -> Lanes32 {
    Lanes32 {
        v1: seed.wrapping_add(PRIME32_1).wrapping_add(PRIME32_2),
        v2: seed.wrapping_add(PRIME32_2),
        v3: seed,
        v4: seed.wrapping_sub(PRIME32_1),
    }
}

/// The accumulators after the stripe of `s` that starts at `at`: each takes
/// in one of its four lanes.
pub open spec fn stripe32(acc: Lanes32, s: Seq<u8>, at: int) -> Lanes32
    recommends
        0 <= at,
        at + 16 <= s.len(),
{
    Lanes32 {
        v1: mix32(acc.v1, lane32(s, at)),
        v2: mix32(acc.v2, lane32(s, at + 4)),
        v3: mix32(acc.v3, lane32(s, at + 8)),
        v4: mix32(acc.v4, lane32(s, at + 12)),
    }
}

/// The accumulators after the first `n` stripes of `s`.
pub open spec fn stripes32(seed: u32, s: Seq<u8>, n: nat) -> Lanes32
    recommends
        16 * n <= s.len(),
    decreases n,
{
    if n == 0 {
        seeded32(seed)
    } else {
        stripe32(stripes32(seed, s, (n - 1) as nat), s, 16 * (n - 1))
    }
}

/// The four accumulators folded into one value.
pub open spec fn converge32(acc: Lanes32) -> u32 {
    rotl32(acc.v1, 1).wrapping_add(
        rotl32(acc.v2, 7).wrapping_add(rotl32(acc.v3, 12).wrapping_add(rotl32(acc.v4, 18))),
    )
}

/// `h` after a whole lane of the tail has been taken in.
#[verifier::opaque]
pub open spec fn tail_lane32(h: u32, lane: u32) -> u32 {
    rotl32(h.wrapping_add(lane.wrapping_mul(PRIME32_3)), 17).wrapping_mul(PRIME32_4)
}

/// `h` after a single byte of the tail has been taken in.
#[verifier::opaque]
pub open spec fn tail_byte32(h: u32, byte: u8) -> u32 {
    rotl32(h.wrapping_add((byte as u32).wrapping_mul(PRIME32_5)), 11).wrapping_mul(PRIME32_1)
}

/// `h` after the bytes of `s` from `at` to its end have been taken in: whole
/// lanes as long as four bytes are left, then single bytes.
pub open spec fn tail32(h: u32, s: Seq<u8>, at: int) -> u32
    recommends
        0 <= at <= s.len(),
    decreases s.len() - at,
{
    if at + 4 <= s.len() {
        tail32(tail_lane32(h, lane32(s, at)), s, at + 4)
    } else if at < s.len() {
        tail32(tail_byte32(h, s[at]), s, at + 1)
    } else {
        h
    }
}

/// The 32-bit xxHash of the bytes `s` under `seed`.
pub open spec fn xxh32(s: Seq<u8>, seed: u32) -> u32 {
    let n = s.len() / 16;
    let entry = if s.len() >= 16 {
        converge32(stripes32(seed, s, n))
    } else {
        seed.wrapping_add(PRIME32_5)
    };
    diffuse32(tail32((s.len() as u32).wrapping_add(entry), s, 16 * (n as int)))
}

/// Rotation by `r` moves the bit at place `i` to place `i + r`, counted
/// round the word.
pub proof fn lemma_rotl32_moves_bits(x: u32, r: u32, i: u32)
    requires
        0 < r < 32,
        i < 32,
    ensures
        (rotl32(x, r) >> (((i + r) % 32) as u32)) & 1 == (x >> i) & 1,
{
    assert(((((x << r) | (x >> ((32 - r) as u32))) >> (((i + r) % 32) as u32)) & 1) == ((x >> i)
        & 1)) by (bit_vector)
        requires
            0 < r < 32,
            i < 32,
    ;
}

/// A lane is made of its four bytes and of nothing else.
pub proof fn lemma_lane32_of_bytes(a: Seq<u8>, i: int, b: Seq<u8>, j: int)
    requires
        0 <= i,
        i + 4 <= a.len(),
        0 <= j,
        j + 4 <= b.len(),
        a.subrange(i, i + 4) == b.subrange(j, j + 4),
    ensures
        lane32(a, i) == lane32(b, j),
{
    reveal(lane32);
    let x = a.subrange(i, i + 4);
    let y = b.subrange(j, j + 4);
    assert(a[i] == x[0] && a[i + 1] == x[1] && a[i + 2] == x[2] && a[i + 3] == x[3]);
    assert(b[j] == y[0] && b[j + 1] == y[1] && b[j + 2] == y[2] && b[j + 3] == y[3]);
}

/// A length that is `whole` stripes and `rest` bytes more holds exactly
/// `whole` stripes.
proof fn lemma_whole_stripes32(len: int, whole: int, rest: int)
    requires
        len == 16 * whole + rest,
        0 <= rest < 16,
    ensures
        whole == len / 16,
        rest == len % 16,
{
}

/// The hash of no bytes is the diffused sum of the seed and the fifth
/// prime: no stripe and no tail come into it.
pub proof fn lemma_xxh32_of_nothing(seed: u32)
    ensures
        xxh32(Seq::<u8>::empty(), seed) == diffuse32(seed.wrapping_add(PRIME32_5)),
{
}

/// Reads the 32-bit little-endian lane of `input` that starts at `cursor`.
#[inline(always)]
pub fn get_32bits(input: &[u8], cursor: usize) -> (lane: u32)
    requires
        cursor + 4 <= input@.len(),
    ensures
        lane == lane32(input@, cursor as int),
{
    let b0: u8 = input[cursor];
    let b1: u8 = input[cursor + 1];
    let b2: u8 = input[cursor + 2];
    let b3: u8 = input[cursor + 3];
    reveal(lane32);
    assert((b0 as u32 | (b1 as u32) << 8 | (b2 as u32) << 16 | (b3 as u32) << 24) == (b0 as int
        + 0x100 * (b1 as int) + 0x1_0000 * (b2 as int) + 0x100_0000 * (b3 as int)) as u32)
        by (bit_vector);
    b0 as u32 | (b1 as u32) << 8 | (b2 as u32) << 16 | (b3 as u32) << 24
}

/// Rotates `x` left by `r` bits.
#[inline(always)]
pub fn rotate_left32(x: u32, r: u32) -> (y: u32)
    requires
        0 < r < 32,
    ensures
        y == rotl32(x, r),
{
    (x << r) | (x >> (32 - r))
}

/// Mixes the lane `input` into the accumulator `acc`.
#[inline(always)]
pub fn round32(acc: u32, input: u32) -> (mixed: u32)
    ensures
        mixed == mix32(acc, input),
{
    reveal(mix32);
    rotate_left32(acc.wrapping_add(input.wrapping_mul(PRIME32_2)), 13).wrapping_mul(PRIME32_1)
}

/// Diffuses `input`, so that every bit of the result depends on many of its
/// bits.
#[inline(always)]
pub fn avalanche32(input: u32) -> (out: u32)
    ensures
        out == diffuse32(input),
{
    let mut h: u32 = input;
    h ^= h >> 15;
    h = h.wrapping_mul(PRIME32_2);
    h ^= h >> 13;
    h = h.wrapping_mul(PRIME32_3);
    h ^= h >> 16;
    h
}

/// The four accumulators folded into one value.
#[inline(always)]
pub fn converge_pass32(v1: u32, v2: u32, v3: u32, v4: u32) -> (h: u32)
    ensures
        h == converge32(Lanes32 { v1, v2, v3, v4 }),
{
    rotate_left32(v1, 1).wrapping_add(
        rotate_left32(v2, 7).wrapping_add(
            rotate_left32(v3, 12).wrapping_add(rotate_left32(v4, 18)),
        ),
    )
}

/// Takes the `len` bytes of `data` that start at `cursor` into `result` as
/// the tail of the input.
#[inline(always)]
pub fn tail_pass32(result: u32, data: &[u8], cursor: usize, len: usize) -> (h: u32)
    requires
        cursor + len <= data.len(),
    ensures
        h == tail32(result, data@.take(cursor + len), cursor as int),
{
    let ghost s = data@.take(cursor + len);
    let ghost start: nat = cursor as nat;
    let mut result: u32 = result;
    let ghost entry = result;
    let mut cursor: usize = cursor;
    let mut len: usize = len;

    while len >= 4
        invariant
            start <= cursor,
            cursor + len == s.len() <= data@.len() <= usize::MAX,
            s == data@.take(s.len() as int),
            tail32(result, s, cursor as int) == tail32(entry, s, start as int),
        decreases len,
    {
        proof {
            reveal(tail_lane32);
            assert(data@.subrange(cursor as int, cursor + 4) =~= s.subrange(
                cursor as int,
                cursor + 4,
            ));
            lemma_lane32_of_bytes(data@, cursor as int, s, cursor as int);
        }
        result = result.wrapping_add(get_32bits(data, cursor).wrapping_mul(PRIME32_3));
        cursor += 4;
        len -= 4;
        result = rotate_left32(result, 17).wrapping_mul(PRIME32_4);
    }

    while len > 0
        invariant
            len < 4,
            start <= cursor,
            cursor + len == s.len() <= data@.len() <= usize::MAX,
            s == data@.take(s.len() as int),
            tail32(result, s, cursor as int) == tail32(entry, s, start as int),
        decreases len,
    {
        proof {
            reveal(tail_byte32);
        }
        result = result.wrapping_add((data[cursor] as u32).wrapping_mul(PRIME32_5));
        cursor += 1;
        len -= 1;
        result = rotate_left32(result, 11).wrapping_mul(PRIME32_1);
    }

    result
}

/// The 32-bit xxHash of `input` under the seed 0.
#[inline(always)]
pub fn xx_hash32(input: &[u8]) -> (hash: u32)
    ensures
        hash == xxh32(input@, 0),
{
    xx_hash32_seed(input, 0)
}

/// The 32-bit xxHash of `input` under `seed`.
pub fn xx_hash32_seed(input: &[u8], seed: u32) -> (hash: u32)
    ensures
        hash == xxh32(input@, seed),
{
    let mut result: u32 = #[verifier::truncate] (input.len() as u32);
    let mut cursor: usize = 0;
    let ghost mut done: nat = 0;

    if input.len() >= CHUNK_SIZE {
        let mut v1: u32 = seed.wrapping_add(PRIME32_1).wrapping_add(PRIME32_2);
        let mut v2: u32 = seed.wrapping_add(PRIME32_2);
        let mut v3: u32 = seed;
        let mut v4: u32 = seed.wrapping_sub(PRIME32_1);

        while input.len() - cursor >= CHUNK_SIZE
            invariant
                cursor == 16 * done,
                cursor <= input@.len(),
                (Lanes32 { v1, v2, v3, v4 }) == stripes32(seed, input@, done),
            decreases input@.len() - cursor,
        {
            v1 = round32(v1, get_32bits(input, cursor));
            cursor += 4;
            v2 = round32(v2, get_32bits(input, cursor));
            cursor += 4;
            v3 = round32(v3, get_32bits(input, cursor));
            cursor += 4;
            v4 = round32(v4, get_32bits(input, cursor));
            cursor += 4;
            proof {
                done = done + 1;
            }
        }

        result = result.wrapping_add(converge_pass32(v1, v2, v3, v4));
    } else {
        result = result.wrapping_add(seed.wrapping_add(PRIME32_5));
    }

    let len: usize = input.len() - cursor;
    proof {
        lemma_whole_stripes32(input@.len() as int, done as int, len as int);
        assert(input@.take(cursor + len) =~= input@);
    }

    avalanche32(tail_pass32(result, input, cursor, len))
}

} // verus!
