//! The 64-bit xxHash: of a byte slice at once, and of bytes that arrive in
//! chunks.

use crate::const_buffer::Buffer;
use crate::xxhash32::get_32bits;
use crate::xxhash32::lane32;
use crate::xxhash32::lemma_lane32_of_bytes;
use vstd::prelude::*;

verus! {

/// The five primes of the 64-bit hash.
pub const XXH_PRIME64_1: u64 = 0x9E3779B185EBCA87;

pub const XXH_PRIME64_2: u64 = 0xC2B2AE3D27D4EB4F;

pub const XXH_PRIME64_3: u64 = 0x165667B19E3779F9;

pub const XXH_PRIME64_4: u64 = 0x85EBCA77C2B2AE63;

pub const XXH_PRIME64_5: u64 = 0x27D4EB2F165667C5;

/// Bytes in one stripe: four lanes of eight bytes.
pub const CHUNK_SIZE64: usize = 32;

/// The value of the 8 bytes of `s` that start at `at`, the first byte being
/// the least significant.
#[verifier::opaque]
pub open spec fn lane64(s: Seq<u8>, at: int) -> u64
    recommends
        0 <= at,
        at + 8 <= s.len(),
{
    (s[at] as int + 0x100 * (s[at + 1] as int) + 0x1_0000 * (s[at + 2] as int) + 0x100_0000 * (s[at
        + 3] as int) + 0x1_0000_0000 * (s[at + 4] as int) + 0x100_0000_0000 * (s[at + 5] as int)
        + 0x1_0000_0000_0000 * (s[at + 6] as int) + 0x100_0000_0000_0000 * (s[at + 7] as int)) as u64
}

/// `x` with its bits moved `r` places towards the most significant end, the
/// bits that fall off coming back in at the other end.
pub open spec fn rotl64(x: u64, r: u32) -> u64
    recommends
        0 < r < 64,
{
    (x << r) | (x >> ((64 - r) as u32))
}

/// One mixing step of an accumulator with a lane.
#[verifier::opaque]
pub open spec fn mix64(acc: u64, lane: u64) -> u64 {
    rotl64(acc.wrapping_add(lane.wrapping_mul(XXH_PRIME64_2)), 31).wrapping_mul(XXH_PRIME64_1)
}

/// Folds the accumulator `val` into the running value `acc`.
pub open spec fn merge64(acc: u64, val: u64) -> u64 {
    (acc ^ mix64(0, val)).wrapping_mul(XXH_PRIME64_1).wrapping_add(XXH_PRIME64_4)
}

/// The final diffusion of a hash value.
pub open spec fn diffuse64(h: u64) -> u64 {
    let a = (h ^ (h >> 33)).wrapping_mul(XXH_PRIME64_2);
    let b = (a ^ (a >> 29)).wrapping_mul(XXH_PRIME64_3);
    b ^ (b >> 32)
}

/// The four running accumulators of the striped pass.
pub struct Lanes64 {
    pub v1: u64,
    pub v2: u64,
    pub v3: u64,
    pub v4: u64,
}

/// The accumulators before any stripe has been taken in.
pub open spec fn seeded64(seed: u64) -> Lanes64 {
    Lanes64 {
        v1: seed.wrapping_add(XXH_PRIME64_1).wrapping_add(XXH_PRIME64_2),
        v2: seed.wrapping_add(XXH_PRIME64_2),
        v3: seed,
        v4: seed.wrapping_sub(XXH_PRIME64_1),
    }
}

/// The accumulators after the stripe of `s` that starts at `at`: each takes
/// in one of its four lanes.
pub open spec fn stripe64(acc: Lanes64, s: Seq<u8>, at: int) -> Lanes64
    recommends
        0 <= at,
        at + 32 <= s.len(),
{
    Lanes64 {
        v1: mix64(acc.v1, lane64(s, at)),
        v2: mix64(acc.v2, lane64(s, at + 8)),
        v3: mix64(acc.v3, lane64(s, at + 16)),
        v4: mix64(acc.v4, lane64(s, at + 24)),
    }
}

/// The accumulators after the first `n` stripes of `s`.
pub open spec fn stripes64(seed: u64, s: Seq<u8>, n: nat) -> Lanes64
    recommends
        32 * n <= s.len(),
    decreases n,
{
    if n == 0 {
        seeded64(seed)
    } else {
        stripe64(stripes64(seed, s, (n - 1) as nat), s, 32 * (n - 1))
    }
}

/// The four accumulators folded into one value, each of them then merged
/// into it once more.
pub open spec fn converge64(acc: Lanes64) -> u64 {
    let sum = rotl64(acc.v1, 1).wrapping_add(
        rotl64(acc.v2, 7).wrapping_add(rotl64(acc.v3, 12).wrapping_add(rotl64(acc.v4, 18))),
    );
    merge64(merge64(merge64(merge64(sum, acc.v1), acc.v2), acc.v3), acc.v4)
}

/// `h` after an 8-byte lane of the tail has been taken in.
#[verifier::opaque]
pub open spec fn tail_lane64(h: u64, lane: u64) -> u64 {
    rotl64(h ^ mix64(0, lane), 27).wrapping_mul(XXH_PRIME64_1).wrapping_add(XXH_PRIME64_4)
}

/// `h` after a 4-byte lane of the tail has been taken in.
#[verifier::opaque]
pub open spec fn tail_half64(h: u64, lane: u32) -> u64 {
    rotl64(h ^ (lane as u64).wrapping_mul(XXH_PRIME64_1), 23).wrapping_mul(
        XXH_PRIME64_2,
    ).wrapping_add(XXH_PRIME64_3)
}

/// `h` after a single byte of the tail has been taken in.
#[verifier::opaque]
pub open spec fn tail_byte64(h: u64, byte: u8) -> u64 {
    rotl64(h ^ (byte as u64).wrapping_mul(XXH_PRIME64_5), 11).wrapping_mul(XXH_PRIME64_1)
}

/// `h` after the bytes of `s` from `at` to its end have been taken in:
/// 8-byte lanes as long as eight bytes are left, then a 4-byte lane if four
/// are left, then single bytes.
pub open spec fn tail64(h: u64, s: Seq<u8>, at: int) -> u64
    recommends
        0 <= at <= s.len(),
    decreases s.len() - at,
{
    if at + 8 <= s.len() {
        tail64(tail_lane64(h, lane64(s, at)), s, at + 8)
    } else if at + 4 <= s.len() {
        tail64(tail_half64(h, lane32(s, at)), s, at + 4)
    } else if at < s.len() {
        tail64(tail_byte64(h, s[at]), s, at + 1)
    } else {
        h
    }
}

/// The 64-bit xxHash of the bytes `s` under `seed`.
pub open spec fn xxh64(s: Seq<u8>, seed: u64) -> u64 {
    let n = s.len() / 32;
    let entry = if s.len() >= 32 {
        converge64(stripes64(seed, s, n))
    } else {
        seed.wrapping_add(XXH_PRIME64_5)
    };
    diffuse64(tail64(entry.wrapping_add(s.len() as u64), s, 32 * (n as int)))
}

/// Rotation by `r` moves the bit at place `i` to place `i + r`, counted
/// round the word.
pub proof fn lemma_rotl64_moves_bits(x: u64, r: u32, i: u32)
    requires
        0 < r < 64,
        i < 64,
    ensures
        (rotl64(x, r) >> (((i + r) % 64) as u32)) & 1 == (x >> i) & 1,
{
    assert(((((x << r) | (x >> ((64 - r) as u32))) >> (((i + r) % 64) as u32)) & 1) == ((x >> i)
        & 1)) by (bit_vector)
        requires
            0 < r < 64,
            i < 64,
    ;
}

/// A lane is made of its eight bytes and of nothing else.
pub proof fn lemma_lane64_of_bytes(a: Seq<u8>, i: int, b: Seq<u8>, j: int)
    requires
        0 <= i,
        i + 8 <= a.len(),
        0 <= j,
        j + 8 <= b.len(),
        a.subrange(i, i + 8) == b.subrange(j, j + 8),
    ensures
        lane64(a, i) == lane64(b, j),
{
    reveal(lane64);
    let x = a.subrange(i, i + 8);
    let y = b.subrange(j, j + 8);
    assert(a[i] == x[0] && a[i + 1] == x[1] && a[i + 2] == x[2] && a[i + 3] == x[3]);
    assert(a[i + 4] == x[4] && a[i + 5] == x[5] && a[i + 6] == x[6] && a[i + 7] == x[7]);
    assert(b[j] == y[0] && b[j + 1] == y[1] && b[j + 2] == y[2] && b[j + 3] == y[3]);
    assert(b[j + 4] == y[4] && b[j + 5] == y[5] && b[j + 6] == y[6] && b[j + 7] == y[7]);
}

/// A stripe is made of its 32 bytes and of nothing else.
pub proof fn lemma_stripe64_of_bytes(acc: Lanes64, a: Seq<u8>, i: int, b: Seq<u8>, j: int)
    requires
        0 <= i,
        i + 32 <= a.len(),
        0 <= j,
        j + 32 <= b.len(),
        a.subrange(i, i + 32) == b.subrange(j, j + 32),
    ensures
        stripe64(acc, a, i) == stripe64(acc, b, j),
{
    let x = a.subrange(i, i + 32);
    assert(a.subrange(i, i + 8) =~= x.subrange(0, 8));
    assert(b.subrange(j, j + 8) =~= x.subrange(0, 8));
    assert(a.subrange(i + 8, i + 16) =~= x.subrange(8, 16));
    assert(b.subrange(j + 8, j + 16) =~= x.subrange(8, 16));
    assert(a.subrange(i + 16, i + 24) =~= x.subrange(16, 24));
    assert(b.subrange(j + 16, j + 24) =~= x.subrange(16, 24));
    assert(a.subrange(i + 24, i + 32) =~= x.subrange(24, 32));
    assert(b.subrange(j + 24, j + 32) =~= x.subrange(24, 32));
    lemma_lane64_of_bytes(a, i, b, j);
    lemma_lane64_of_bytes(a, i + 8, b, j + 8);
    lemma_lane64_of_bytes(a, i + 16, b, j + 16);
    lemma_lane64_of_bytes(a, i + 24, b, j + 24);
}

/// The accumulators after `n` stripes are made of the first `32 * n` bytes
/// and of nothing behind them.
pub proof fn lemma_stripes64_of_prefix(seed: u64, a: Seq<u8>, b: Seq<u8>, n: nat)
    requires
        32 * n <= a.len(),
        32 * n <= b.len(),
        a.take(32 * (n as int)) == b.take(32 * (n as int)),
    ensures
        stripes64(seed, a, n) == stripes64(seed, b, n),
    decreases n,
{
    if n > 0 {
        let m = (n - 1) as nat;
        let head = a.take(32 * (n as int));
        let at: int = 32 * (m as int);
        assert(a.take(at) =~= head.take(at));
        assert(b.take(at) =~= head.take(at));
        lemma_stripes64_of_prefix(seed, a, b, m);
        assert(a.subrange(at, at + 32) =~= head.subrange(at, at + 32));
        assert(b.subrange(at, at + 32) =~= head.subrange(at, at + 32));
        lemma_stripe64_of_bytes(stripes64(seed, a, m), a, at, b, at);
    }
}

/// The tail is made of the bytes from its start on and of nothing before
/// them.
pub proof fn lemma_tail64_of_suffix(h: u64, a: Seq<u8>, i: int, b: Seq<u8>, j: int)
    requires
        0 <= i <= a.len(),
        0 <= j <= b.len(),
        a.skip(i) == b.skip(j),
    ensures
        tail64(h, a, i) == tail64(h, b, j),
    decreases a.len() - i,
{
    assert(a.skip(i).len() == a.len() - i);
    assert(b.skip(j).len() == b.len() - j);
    let rest = a.skip(i);
    if i + 8 <= a.len() {
        assert(a.subrange(i, i + 8) =~= rest.take(8));
        assert(b.subrange(j, j + 8) =~= rest.take(8));
        lemma_lane64_of_bytes(a, i, b, j);
        assert(a.skip(i + 8) =~= rest.skip(8));
        assert(b.skip(j + 8) =~= rest.skip(8));
        lemma_tail64_of_suffix(tail_lane64(h, lane64(a, i)), a, i + 8, b, j + 8);
    } else if i + 4 <= a.len() {
        assert(a.subrange(i, i + 4) =~= rest.take(4));
        assert(b.subrange(j, j + 4) =~= rest.take(4));
        lemma_lane32_of_bytes(a, i, b, j);
        assert(a.skip(i + 4) =~= rest.skip(4));
        assert(b.skip(j + 4) =~= rest.skip(4));
        lemma_tail64_of_suffix(tail_half64(h, lane32(a, i)), a, i + 4, b, j + 4);
    } else if i < a.len() {
        assert(a[i] == rest[0]);
        assert(b[j] == rest[0]);
        assert(a.skip(i + 1) =~= rest.skip(1));
        assert(b.skip(j + 1) =~= rest.skip(1));
        lemma_tail64_of_suffix(tail_byte64(h, a[i]), a, i + 1, b, j + 1);
    }
}

/// A length that is `whole` stripes and `rest` bytes more holds exactly
/// `whole` stripes.
proof fn lemma_whole_stripes(len: int, whole: int, rest: int)
    requires
        len == 32 * whole + rest,
        0 <= rest < 32,
    ensures
        whole == len / 32,
        rest == len % 32,
{
}

/// The hash of no bytes is the diffused sum of the seed and the fifth
/// prime: no stripe and no tail come into it.
pub proof fn lemma_xxh64_of_nothing(seed: u64)
    ensures
        xxh64(Seq::<u8>::empty(), seed) == diffuse64(seed.wrapping_add(XXH_PRIME64_5)),
{
}

/// Reads the 64-bit little-endian lane of `input` that starts at `cursor`.
#[inline(always)]
pub fn get_64bits(input: &[u8], cursor: usize) -> (lane: u64)
    requires
        cursor + 8 <= input@.len(),
    ensures
        lane == lane64(input@, cursor as int),
{
    let b0: u8 = input[cursor];
    let b1: u8 = input[cursor + 1];
    let b2: u8 = input[cursor + 2];
    let b3: u8 = input[cursor + 3];
    let b4: u8 = input[cursor + 4];
    let b5: u8 = input[cursor + 5];
    let b6: u8 = input[cursor + 6];
    let b7: u8 = input[cursor + 7];
    reveal(lane64);
    assert((b0 as u64 | (b1 as u64) << 8 | (b2 as u64) << 16 | (b3 as u64) << 24 | (b4 as u64) << 32
        | (b5 as u64) << 40 | (b6 as u64) << 48 | (b7 as u64) << 56) == (b0 as int + 0x100 * (
    b1 as int) + 0x1_0000 * (b2 as int) + 0x100_0000 * (b3 as int) + 0x1_0000_0000 * (b4 as int)
        + 0x100_0000_0000 * (b5 as int) + 0x1_0000_0000_0000 * (b6 as int) + 0x100_0000_0000_0000
        * (b7 as int)) as u64) by (bit_vector);
    b0 as u64 | (b1 as u64) << 8 | (b2 as u64) << 16 | (b3 as u64) << 24 | (b4 as u64) << 32 | (
    b5 as u64) << 40 | (b6 as u64) << 48 | (b7 as u64) << 56
}

/// Rotates `x` left by `r` bits.
#[inline(always)]
pub fn rotate_left64(x: u64, r: u32) -> (y: u64)
    requires
        0 < r < 64,
    ensures
        y == rotl64(x, r),
{
    (x << r) | (x >> (64 - r))
}

/// Mixes the lane `input` into the accumulator `acc`.
#[inline(always)]
pub fn round64(acc: u64, input: u64) -> (mixed: u64)
    ensures
        mixed == mix64(acc, input),
{
    reveal(mix64);
    rotate_left64(acc.wrapping_add(input.wrapping_mul(XXH_PRIME64_2)), 31).wrapping_mul(
        XXH_PRIME64_1,
    )
}

/// Folds the accumulator `val` into the running value `acc`.
#[inline(always)]
pub fn merge_round64(acc: u64, val: u64) -> (merged: u64)
    ensures
        merged == merge64(acc, val),
{
    let val: u64 = round64(0, val);
    let acc: u64 = acc ^ val;
    acc.wrapping_mul(XXH_PRIME64_1).wrapping_add(XXH_PRIME64_4)
}

/// Diffuses `input`, so that every bit of the result depends on many of its
/// bits.
#[inline(always)]
pub fn avalanche64(input: u64) -> (out: u64)
    ensures
        out == diffuse64(input),
{
    let mut h: u64 = input;
    h ^= h >> 33;
    h = h.wrapping_mul(XXH_PRIME64_2);
    h ^= h >> 29;
    h = h.wrapping_mul(XXH_PRIME64_3);
    h ^= h >> 32;
    h
}

/// The four accumulators folded into one value and merged into it.
#[inline(always)]
pub fn converge_pass64(v1: u64, v2: u64, v3: u64, v4: u64) -> (h: u64)
    ensures
        h == converge64(Lanes64 { v1, v2, v3, v4 }),
{
    let mut result: u64 = rotate_left64(v1, 1).wrapping_add(
        rotate_left64(v2, 7).wrapping_add(
            rotate_left64(v3, 12).wrapping_add(rotate_left64(v4, 18)),
        ),
    );

    result = merge_round64(result, v1);
    result = merge_round64(result, v2);
    result = merge_round64(result, v3);
    result = merge_round64(result, v4);
    result
}

/// Takes the `len` bytes of `data` that start at `cursor` into `result` as
/// the tail of the input.
#[inline(always)]
pub fn tail_pass64(result: u64, data: &[u8], cursor: usize, len: usize) -> (h: u64)
    requires
        cursor + len <= data.len(),
    ensures
        h == tail64(result, data@.take(cursor + len), cursor as int),
{
    let ghost s = data@.take(cursor + len);
    let ghost start: nat = cursor as nat;
    let mut result: u64 = result;
    let ghost entry = result;
    let mut cursor: usize = cursor;
    let mut len: usize = len;

    while len >= 8
        invariant
            start <= cursor,
            cursor + len == s.len() <= data@.len() <= usize::MAX,
            s == data@.take(s.len() as int),
            tail64(result, s, cursor as int) == tail64(entry, s, start as int),
        decreases len,
    {
        proof {
            reveal(tail_lane64);
            assert(data@.subrange(cursor as int, cursor + 8) =~= s.subrange(
                cursor as int,
                cursor + 8,
            ));
            lemma_lane64_of_bytes(data@, cursor as int, s, cursor as int);
        }
        result = rotate_left64(result ^ round64(0, get_64bits(data, cursor)), 27).wrapping_mul(
            XXH_PRIME64_1,
        ).wrapping_add(XXH_PRIME64_4);
        cursor += 8;
        len -= 8;
    }

    while len >= 4
        invariant
            len < 8,
            start <= cursor,
            cursor + len == s.len() <= data@.len() <= usize::MAX,
            s == data@.take(s.len() as int),
            tail64(result, s, cursor as int) == tail64(entry, s, start as int),
        decreases len,
    {
        proof {
            reveal(tail_half64);
            assert(data@.subrange(cursor as int, cursor + 4) =~= s.subrange(
                cursor as int,
                cursor + 4,
            ));
            lemma_lane32_of_bytes(data@, cursor as int, s, cursor as int);
        }
        result = rotate_left64(
            result ^ (get_32bits(data, cursor) as u64).wrapping_mul(XXH_PRIME64_1),
            23,
        ).wrapping_mul(XXH_PRIME64_2).wrapping_add(XXH_PRIME64_3);
        cursor += 4;
        len -= 4;
    }

    while len > 0
        invariant
            len < 4,
            start <= cursor,
            cursor + len == s.len() <= data@.len() <= usize::MAX,
            s == data@.take(s.len() as int),
            tail64(result, s, cursor as int) == tail64(entry, s, start as int),
        decreases len,
    {
        proof {
            reveal(tail_byte64);
        }
        result = rotate_left64(
            result ^ (data[cursor] as u64).wrapping_mul(XXH_PRIME64_5),
            11,
        ).wrapping_mul(XXH_PRIME64_1);
        cursor += 1;
        len -= 1;
    }

    result
}

/// The 64-bit xxHash of `input` under the seed 0.
#[inline(always)]
pub fn xx_hash64(input: &[u8]) -> (hash: u64)
    ensures
        hash == xxh64(input@, 0),
{
    xx_hash64_seed(input, 0)
}

/// The 64-bit xxHash of `input` under `seed`.
pub fn xx_hash64_seed(input: &[u8], seed: u64) -> (hash: u64)
    ensures
        hash == xxh64(input@, seed),
{
    let mut result: u64;
    let mut cursor: usize = 0;
    let ghost mut done: nat = 0;

    if input.len() >= CHUNK_SIZE64 {
        let mut v1: u64 = seed.wrapping_add(XXH_PRIME64_1).wrapping_add(XXH_PRIME64_2);
        let mut v2: u64 = seed.wrapping_add(XXH_PRIME64_2);
        let mut v3: u64 = seed;
        let mut v4: u64 = seed.wrapping_sub(XXH_PRIME64_1);

        while input.len() - cursor >= CHUNK_SIZE64
            invariant
                cursor == 32 * done,
                cursor <= input@.len(),
                (Lanes64 { v1, v2, v3, v4 }) == stripes64(seed, input@, done),
            decreases input@.len() - cursor,
        {
            v1 = round64(v1, get_64bits(input, cursor));
            cursor += 8;
            v2 = round64(v2, get_64bits(input, cursor));
            cursor += 8;
            v3 = round64(v3, get_64bits(input, cursor));
            cursor += 8;
            v4 = round64(v4, get_64bits(input, cursor));
            cursor += 8;
            proof {
                done = done + 1;
            }
        }

        result = converge_pass64(v1, v2, v3, v4);
    } else {
        result = seed.wrapping_add(XXH_PRIME64_5);
    }

    result = result.wrapping_add(input.len() as u64);

    let total: usize = input.len();
    let len: usize = total & 31;
    proof {
        assert(len == total % 32) by (bit_vector)
            requires
                len == total & 31,
        ;
        lemma_whole_stripes(total as int, done as int, total - cursor);
        assert(input@.take(cursor + len) =~= input@);
    }

    avalanche64(tail_pass64(result, input, cursor, len))
}

pub type Buffer64 = Buffer<CHUNK_SIZE64>;

/// The 64-bit xxHash of bytes that arrive in chunks. Its view is the bytes
/// taken in so far, in the order in which they came.
pub struct Xx64 {
    seed: u64,
    v1: u64,
    v2: u64,
    v3: u64,
    v4: u64,
    buffer: Buffer64,
    total_len: u64,
    absorbed: Ghost<Seq<u8>>,
}

impl View for Xx64 {
    type V = Seq<u8>;

    closed spec fn view(&self) -> Seq<u8> {
        self.absorbed@
    }
}

impl Xx64 {
    /// The seed that the accumulator was made with.
    pub closed spec fn seed(&self) -> u64 {
        self.seed
    }

    /// The state stands for the bytes taken in: the accumulators have seen
    /// every whole stripe of them, the buffer holds the bytes behind the last
    /// whole stripe, and the length counts them all.
    pub closed spec fn wf(&self) -> bool {
        let whole = self@.len() / 32;
        &&& self.buffer.wf()
        &&& self.total_len == self@.len()
        &&& self.buffer@ == self@.skip(32 * (whole as int))
        &&& (Lanes64 { v1: self.v1, v2: self.v2, v3: self.v3, v4: self.v4 }) == stripes64(
            self.seed,
            self@,
            whole,
        )
    }

    /// An accumulator under `seed` that has taken in nothing.
    pub fn new_with_seed(seed: u64) -> (hasher: Self)
        ensures
            hasher.wf(),
            hasher.seed() == seed,
            hasher@ == Seq::<u8>::empty(),
    {
        let hasher = Self {
            seed,
            v1: seed.wrapping_add(XXH_PRIME64_1).wrapping_add(XXH_PRIME64_2),
            v2: seed.wrapping_add(XXH_PRIME64_2),
            v3: seed,
            v4: seed.wrapping_sub(XXH_PRIME64_1),
            buffer: Buffer64::default(),
            total_len: 0,
            absorbed: Ghost(Seq::empty()),
        };
        assert(hasher.buffer@ =~= hasher@.skip(0));
        hasher
    }

    /// An accumulator under the seed 0 that has taken in nothing.
    pub fn new() -> (hasher: Self)
        ensures
            hasher.wf(),
            hasher.seed() == 0,
            hasher@ == Seq::<u8>::empty(),
    {
        Self::default()
    }

    /// Takes in the bytes of `input`, behind those taken in before.
    #[inline(always)]
    pub fn read_chunk(&mut self, input: &[u8])
        requires
            old(self).wf(),
            old(self)@.len() + input.len() <= u64::MAX,
        ensures
            final(self).wf(),
            final(self).seed() == old(self).seed(),
            final(self)@ == old(self)@ + input@,
    {
        let mut remaining = input;
        while remaining.len() > 0
            invariant
                self.wf(),
                self.seed == old(self).seed,
                self@.len() + remaining@.len() <= u64::MAX,
                self@ + remaining@ == old(self)@ + input@,
            decreases remaining@.len(),
        {
            let ghost before = self@;
            let ghost whole: int = (before.len() / 32) as int;
            let ghost offered = remaining@;
            let held: usize = self.buffer.len;
            remaining = self.buffer.consume(remaining);
            let taken: usize = self.buffer.len - held;
            self.total_len += taken as u64;
            let ghost piece = offered.take(taken as int);
            let ghost after = before + piece;
            proof {
                self.absorbed@ = after;
                assert(after + remaining@ =~= before + offered);
                assert(self.buffer@ =~= after.skip(32 * whole));
                assert(before.take(32 * whole) =~= after.take(32 * whole));
                lemma_stripes64_of_prefix(self.seed, before, after, whole as nat);
            }
            if self.buffer.is_full() {
                let mut cursor: usize = 0;
                let data = self.buffer.data();
                proof {
                    lemma_whole_stripes(after.len() as int, whole + 1, 0);
                    assert(data@.subrange(0, 32) =~= after.subrange(
                        32 * whole,
                        32 * whole + 32,
                    ));
                    lemma_stripe64_of_bytes(
                        stripes64(self.seed, after, whole as nat),
                        data@,
                        0,
                        after,
                        32 * whole,
                    );
                }
                self.v1 = round64(self.v1, get_64bits(data, cursor));
                cursor += 8;
                self.v2 = round64(self.v2, get_64bits(data, cursor));
                cursor += 8;
                self.v3 = round64(self.v3, get_64bits(data, cursor));
                cursor += 8;
                self.v4 = round64(self.v4, get_64bits(data, cursor));
                self.buffer.len = 0;
                proof {
                    assert(self.buffer@ =~= after.skip(32 * (whole + 1)));
                }
            } else {
                proof {
                    lemma_whole_stripes(after.len() as int, whole, held + taken);
                }
            }
        }
    }

    /// The hash of the bytes taken in so far.
    pub fn finalize(&self) -> (hash: u64)
        requires
            self.wf(),
        ensures
            hash == xxh64(self@, self.seed()),
    {
        let mut result: u64;
        if self.total_len >= (CHUNK_SIZE64 as u64) {
            result = converge_pass64(self.v1, self.v2, self.v3, self.v4);
        } else {
            result = self.seed.wrapping_add(XXH_PRIME64_5);
        }

        result = result.wrapping_add(self.total_len);

        let held: usize = self.buffer.len;
        let len: usize = held & 31;
        let data = self.buffer.data();
        proof {
            assert(len == held % 32) by (bit_vector)
                requires
                    len == held & 31,
            ;
            let whole = self@.len() / 32;
            assert(self.buffer@.skip(0) =~= self.buffer@);
            lemma_tail64_of_suffix(result, self.buffer@, 0, self@, 32 * (whole as int));
            assert(data@.take(0 + len) =~= self.buffer@);
        }

        avalanche64(tail_pass64(result, data, 0, len))
    }
}

impl Default for Xx64 {
    fn default() -> (hasher: Self)
        ensures
            hasher.wf(),
            hasher.seed() == 0,
            hasher@ == Seq::<u8>::empty(),
    {
        Self::new_with_seed(0)
    }
}

/// Two accumulators under one seed that have taken in the same bytes give
/// the same hash, whatever else their states hold.
pub proof fn lemma_same_bytes_same_hash(a: Xx64, b: Xx64)
    requires
        a@ == b@,
        a.seed() == b.seed(),
    ensures
        xxh64(a@, a.seed()) == xxh64(b@, b.seed()),
{
}

/// What an accumulator has taken in after the first `k` of `chunks`, when
/// `states` are its states before the first chunk and after each one.
proof fn lemma_fed_so_far(seed: u64, chunks: Seq<Seq<u8>>, states: Seq<Xx64>, k: int)
    requires
        states.len() == chunks.len() + 1,
        states[0]@ == Seq::<u8>::empty(),
        states[0].seed() == seed,
        forall|i: int|
            1 <= i <= chunks.len() ==> (#[trigger] states[i])@ == states[i - 1]@ + chunks[i - 1]
                && states[i].seed() == states[i - 1].seed(),
        0 <= k <= chunks.len(),
    ensures
        states[k]@ == chunks.take(k).flatten_alt(),
        states[k].seed() == seed,
    decreases k,
{
    if k > 0 {
        lemma_fed_so_far(seed, chunks, states, k - 1);
        assert(chunks.take(k).drop_last() =~= chunks.take(k - 1));
    }
}

/// However a byte sequence is cut into chunks, the accumulator that is made
/// under a seed and takes in the chunks one after another holds at the end
/// the hash that the one-shot function gives for the whole sequence under
/// that seed. `states` are the accumulator's states: as `new_with_seed`
/// leaves it, then as each `read_chunk` leaves it; the hash on the left is
/// what `finalize` returns in the last of them.
pub proof fn lemma_chunking_does_not_matter(seed: u64, chunks: Seq<Seq<u8>>, states: Seq<Xx64>)
    requires
        states.len() == chunks.len() + 1,
        states[0]@ == Seq::<u8>::empty(),
        states[0].seed() == seed,
        forall|i: int|
            1 <= i <= chunks.len() ==> (#[trigger] states[i])@ == states[i - 1]@ + chunks[i - 1]
                && states[i].seed() == states[i - 1].seed(),
    ensures
        xxh64(states.last()@, states.last().seed()) == xxh64(chunks.flatten(), seed),
{
    lemma_fed_so_far(seed, chunks, states, chunks.len() as int);
    assert(chunks.take(chunks.len() as int) =~= chunks);
    chunks.lemma_flatten_and_flatten_alt_are_equivalent();
}

} // verus!
