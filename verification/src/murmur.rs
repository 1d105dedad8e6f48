//! The two hashes that the tagger needs. `thinc_hash` bears the name of a 128-bit hash where
//! it comes from and is none: it has no blocks, no tail, and 64-bit constants.

use vstd::arithmetic::div_mod::*;
use vstd::prelude::*;

verus! {

pub const MURMUR_M: u64 = 0xc6a4a793_5bd1e995;

/// The number that up to eight bytes write, the lowest byte first.
pub open spec fn le_value(b: Seq<u8>) -> nat
    decreases b.len(),
{
    if b.len() == 0 {
        0
    } else {
        b[0] as nat + 256 * le_value(b.skip(1))
    }
}

/// One block of eight bytes mixed into the state.
pub open spec fn murmur_step(h: u64, k: u64) -> u64 {
    let k1 = k.wrapping_mul(MURMUR_M);
    let k2 = k1 ^ (k1 >> 47u64);
    (h ^ k2.wrapping_mul(MURMUR_M)).wrapping_mul(MURMUR_M)
}

/// The state after the first `n` blocks.
pub open spec fn murmur_blocks(data: Seq<u8>, seed: u64, n: int) -> u64
    decreases n,
{
    if n <= 0 {
        seed ^ (data.len() as u64).wrapping_mul(MURMUR_M)
    } else {
        murmur_step(
            murmur_blocks(data, seed, n - 1),
            le_value(data.subrange(8 * (n - 1), 8 * n)) as u64,
        )
    }
}

/// MurmurHash64A: whole blocks first, then the bytes that are left, then the final mix.
#[verifier::opaque]
pub open spec fn murmur(data: Seq<u8>, seed: u64) -> u64 {
    let n = data.len() as int / 8;
    let blocks = murmur_blocks(data, seed, n);
    let tail = data.skip(8 * n);
    let h1 = if tail.len() == 0 {
        blocks
    } else {
        (blocks ^ (le_value(tail) as u64)).wrapping_mul(MURMUR_M)
    };
    let h2 = (h1 ^ (h1 >> 47u64)).wrapping_mul(MURMUR_M);
    h2 ^ (h2 >> 47u64)
}

spec fn byte_power(n: nat) -> nat
    decreases n,
{
    if n == 0 {
        1
    } else {
        256 * byte_power((n - 1) as nat)
    }
}

proof fn le_value_fits(b: Seq<u8>)
    ensures
        le_value(b) < byte_power(b.len()),
    decreases b.len(),
{
    if b.len() > 0 {
        le_value_fits(b.skip(1));
    }
}

proof fn byte_power_grows(n: nat)
    requires
        n <= 8,
    ensures
        byte_power(n) <= 0x1_0000_0000_0000_0000,
{
    reveal_with_fuel(byte_power, 9);
}

/// The number that the bytes from `from` up to `to` write, the lowest byte first.
fn le_bytes(data: &[u8], from: usize, to: usize) -> (r: u64)
    requires
        from <= to <= data@.len(),
        to - from <= 8,
    ensures
        r == le_value(data@.subrange(from as int, to as int)),
{
    let mut v: u64 = 0;
    let mut i: usize = to;
    while i > from
        invariant
            from <= i <= to <= data@.len(),
            to - from <= 8,
            v == le_value(data@.subrange(i as int, to as int)),
        decreases i,
    {
        let ghost next = data@.subrange(i - 1, to as int);
        proof {
            assert(next.skip(1) =~= data@.subrange(i as int, to as int));
            le_value_fits(next);
            byte_power_grows(next.len());
        }
        v = v * 256 + data[i - 1] as u64;
        i = i - 1;
    }
    v
}

/// MurmurHash64A, which turns a string into the key of a string store.
pub fn murmur64a(data: &[u8], seed: u64) -> (r: u64)
    ensures
        r == murmur(data@, seed),
{
    proof {
        reveal(murmur);
    }
    let len: usize = data.len();
    let mut h: u64 = seed ^ (len as u64).wrapping_mul(MURMUR_M);
    let chunks: usize = len / 8;
    let mut i: usize = 0;
    while i < chunks
        invariant
            i <= chunks,
            chunks == data@.len() / 8,
            data@.len() <= usize::MAX,
            h == murmur_blocks(data@, seed, i as int),
        decreases chunks - i,
    {
        let mut k: u64 = le_bytes(data, i * 8, i * 8 + 8);
        k = k.wrapping_mul(MURMUR_M);
        k = k ^ (k >> 47u64);
        k = k.wrapping_mul(MURMUR_M);
        h = h ^ k;
        h = h.wrapping_mul(MURMUR_M);
        i = i + 1;
    }
    assert(data@.skip(8 * chunks as int) =~= data@.subrange(8 * chunks as int, len as int));
    if chunks * 8 < len {
        h = h ^ le_bytes(data, chunks * 8, len);
        h = h.wrapping_mul(MURMUR_M);
    }
    h = h ^ (h >> 47u64);
    h = h.wrapping_mul(MURMUR_M);
    h ^ (h >> 47u64)
}

/// The 64-bit finaliser of the Murmur family.
pub open spec fn finalized(h: u64) -> u64 {
    let a = (h ^ (h >> 33u64)).wrapping_mul(0xff51afd7_ed558ccd);
    let b = (a ^ (a >> 33u64)).wrapping_mul(0xc4ceb9fe_1a85ec53);
    b ^ (b >> 33u64)
}

/// The bits of `x` turned left by 31 places.
pub open spec fn turned_31(x: u64) -> u64 {
    (x << 31u64) | (x >> 33u64)
}

/// The two 64-bit halves of the hash.
pub open spec fn thinc_halves(key: u64, seed: u32) -> (u64, u64) {
    let s = seed as u64;
    let a = turned_31(key.wrapping_mul(0x87c37b91_114253d5)).wrapping_mul(0x4cf5ad43_2745937f) ^ s
        ^ 8u64;
    let b = s ^ 8u64;
    let a1 = a.wrapping_add(b);
    let b1 = b.wrapping_add(a1);
    let a2 = finalized(a1).wrapping_add(finalized(b1));
    (a2, finalized(b1).wrapping_add(a2))
}

/// The four buckets of a key: the low and high word of each half.
#[verifier::opaque]
pub open spec fn thinc_buckets(key: u64, seed: u32) -> Seq<u32> {
    let (a, b) = thinc_halves(key, seed);
    seq![
        #[verifier::truncate] (a as u32),
        #[verifier::truncate] ((a >> 32u64) as u32),
        #[verifier::truncate] (b as u32),
        #[verifier::truncate] ((b >> 32u64) as u32),
    ]
}

fn fmix64(h: u64) -> (r: u64)
    ensures
        r == finalized(h),
{
    let mut x: u64 = h;
    x = x ^ (x >> 33u64);
    x = x.wrapping_mul(0xff51afd7_ed558ccd);
    x = x ^ (x >> 33u64);
    x = x.wrapping_mul(0xc4ceb9fe_1a85ec53);
    x ^ (x >> 33u64)
}

/// One 64-bit key to the four buckets that a hashed embedding table sums.
pub fn thinc_hash(key: u64, seed: u32) -> (r: [u32; 4])
    ensures
        r@ == thinc_buckets(key, seed),
{
    let mut h1: u64 = key.wrapping_mul(0x87c37b91_114253d5);
    h1 = (h1 << 31u64) | (h1 >> 33u64);
    h1 = h1.wrapping_mul(0x4cf5ad43_2745937f);
    h1 = h1 ^ seed as u64;
    h1 = h1 ^ 8u64;
    let mut h2: u64 = (seed as u64) ^ 8u64;
    h1 = h1.wrapping_add(h2);
    h2 = h2.wrapping_add(h1);
    h1 = fmix64(h1);
    h2 = fmix64(h2);
    h1 = h1.wrapping_add(h2);
    h2 = h2.wrapping_add(h1);
    let r: [u32; 4] = [
        #[verifier::truncate] (h1 as u32),
        #[verifier::truncate] ((h1 >> 32u64) as u32),
        #[verifier::truncate] (h2 as u32),
        #[verifier::truncate] ((h2 >> 32u64) as u32),
    ];
    proof {
        reveal(thinc_buckets);
    }
    assert(r@ =~= thinc_buckets(key, seed));
    r
}

/// Multiplying by a factor that has an inverse keeps different numbers apart.
proof fn factor_keeps_apart(a: u64, b: u64, c: u64, inverse: u64)
    requires
        (c * inverse) % 0x1_0000_0000_0000_0000 == 1,
        a.wrapping_mul(c) == b.wrapping_mul(c),
    ensures
        a == b,
{
    factor_is_undone(a, c, inverse);
    factor_is_undone(b, c, inverse);
}

proof fn factor_is_undone(a: u64, c: u64, inverse: u64)
    requires
        (c * inverse) % 0x1_0000_0000_0000_0000 == 1,
    ensures
        (a.wrapping_mul(c) * inverse) % 0x1_0000_0000_0000_0000 == a,
{
    let m: int = 0x1_0000_0000_0000_0000;
    lemma_mul_mod_noop_left(a * c, inverse as int, m);
    assert((a * c) * inverse == a * (c * inverse)) by (nonlinear_arith);
    lemma_mul_mod_noop_right(a as int, c * inverse, m);
    lemma_small_mod(a as nat, m as nat);
}

proof fn shift_keeps_apart(a: u64, b: u64)
    requires
        a ^ (a >> 33u64) == b ^ (b >> 33u64),
    ensures
        a == b,
{
    assert(a ^ (a >> 33u64) == b ^ (b >> 33u64) ==> a == b) by (bit_vector);
}

proof fn finalized_keeps_apart(a: u64, b: u64)
    requires
        finalized(a) == finalized(b),
    ensures
        a == b,
{
    let a1 = (a ^ (a >> 33u64)).wrapping_mul(0xff51afd7_ed558ccd);
    let b1 = (b ^ (b >> 33u64)).wrapping_mul(0xff51afd7_ed558ccd);
    let a2 = (a1 ^ (a1 >> 33u64)).wrapping_mul(0xc4ceb9fe_1a85ec53);
    let b2 = (b1 ^ (b1 >> 33u64)).wrapping_mul(0xc4ceb9fe_1a85ec53);
    shift_keeps_apart(a2, b2);
    factor_keeps_apart(a1 ^ (a1 >> 33u64), b1 ^ (b1 >> 33u64), 0xc4ceb9fe_1a85ec53, 0x9cb4b2f8_129337db);
    shift_keeps_apart(a1, b1);
    factor_keeps_apart(a ^ (a >> 33u64), b ^ (b >> 33u64), 0xff51afd7_ed558ccd, 0x4f74430c_22a54005);
    shift_keeps_apart(a, b);
}

proof fn turned_keeps_apart(a: u64, b: u64)
    requires
        turned_31(a) == turned_31(b),
    ensures
        a == b,
{
    assert((a << 31u64) | (a >> 33u64) == (b << 31u64) | (b >> 33u64) ==> a == b) by (bit_vector);
}

proof fn words_keep_apart(a: u64, b: u64)
    requires
        (#[verifier::truncate] (a as u32)) == (#[verifier::truncate] (b as u32)),
        (#[verifier::truncate] ((a >> 32u64) as u32)) == (#[verifier::truncate] ((b >> 32u64)
            as u32)),
    ensures
        a == b,
{
    assert(a as u32 == b as u32 && (a >> 32u64) as u32 == (b >> 32u64) as u32 ==> a == b)
        by (bit_vector);
}

proof fn halves_keep_apart(a: u64, b: u64, seed: u32)
    requires
        thinc_halves(a, seed) == thinc_halves(b, seed),
    ensures
        a == b,
{
    let s = seed as u64;
    let x = turned_31(a.wrapping_mul(0x87c37b91_114253d5)).wrapping_mul(0x4cf5ad43_2745937f);
    let y = turned_31(b.wrapping_mul(0x87c37b91_114253d5)).wrapping_mul(0x4cf5ad43_2745937f);
    let low = s ^ 8u64;
    let x1 = (x ^ s ^ 8u64).wrapping_add(low);
    let y1 = (y ^ s ^ 8u64).wrapping_add(low);
    assert(finalized(low.wrapping_add(x1)) == finalized(low.wrapping_add(y1)));
    assert(finalized(x1) == finalized(y1));
    finalized_keeps_apart(x1, y1);
    assert(x ^ s ^ 8u64 == y ^ s ^ 8u64);
    assert(x ^ s ^ 8u64 == y ^ s ^ 8u64 ==> x == y) by (bit_vector);
    factor_keeps_apart(turned_31(a.wrapping_mul(0x87c37b91_114253d5)), turned_31(b.wrapping_mul(0x87c37b91_114253d5)), 0x4cf5ad43_2745937f, 0xa81e14ed_d9de2c7f);
    turned_keeps_apart(a.wrapping_mul(0x87c37b91_114253d5), b.wrapping_mul(0x87c37b91_114253d5));
    factor_keeps_apart(a, b, 0x87c37b91_114253d5, 0xa98409e8_82ce4d7d);
}

/// For one seed the four buckets together determine the key.
pub proof fn buckets_determine_the_key(a: u64, b: u64, seed: u32)
    requires
        a != b,
    ensures
        thinc_buckets(a, seed) != thinc_buckets(b, seed),
{
    reveal(thinc_buckets);
    let p = thinc_buckets(a, seed);
    let q = thinc_buckets(b, seed);
    if p == q {
        assert(p[0] == q[0] && p[1] == q[1] && p[2] == q[2] && p[3] == q[3]);
        words_keep_apart(thinc_halves(a, seed).0, thinc_halves(b, seed).0);
        words_keep_apart(thinc_halves(a, seed).1, thinc_halves(b, seed).1);
        halves_keep_apart(a, b, seed);
    }
}

} // verus!
