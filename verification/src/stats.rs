//! Counted matrix products: how many operations they take and how many bytes they move.
//!
//! How fast a render went says nothing of what its matrix products did on the way. Every
//! dense product reports its exact count here, and the totals are taken around a synthesis.

use vstd::prelude::*;

verus! {

/// Totals since they were last taken.
pub struct Stats {
    pub flops: u64,
    pub bytes: u64,
}

impl Default for Stats {
    fn default() -> (r: Stats)
        ensures
            r == (Stats { flops: 0, bytes: 0 }),
    {
        Stats { flops: 0, bytes: 0 }
    }
}

/// A sum that stops at the largest 64-bit number.
pub open spec fn capped_sum(a: int, b: int) -> int {
    if a + b <= u64::MAX {
        a + b
    } else {
        u64::MAX as int
    }
}

/// Adds one product of `[m, k]` and `[k, n]`, with the bytes that its three tensors move.
pub fn record(stats: &mut Stats, m: usize, k: usize, n: usize, bytes: u64)
    requires
        2 * m * k * n <= u64::MAX,
    ensures
        final(stats).flops == capped_sum(old(stats).flops as int, 2 * m * k * n),
        final(stats).bytes == capped_sum(old(stats).bytes as int, bytes as int),
{
    let flops: u64 = if m == 0 || k == 0 || n == 0 {
        assert(2 * m * k * n == 0) by (nonlinear_arith)
            requires
                m == 0 || k == 0 || n == 0,
        ;
        0
    } else {
        assert(2 * m <= 2 * m * k && 2 * m * k <= 2 * m * k * n) by (nonlinear_arith)
            requires
                m >= 1,
                k >= 1,
                n >= 1,
        ;
        let two: u64 = 2 * (m as u64);
        let three: u64 = two * (k as u64);
        three * (n as u64)
    };
    stats.flops = if flops <= u64::MAX - stats.flops {
        stats.flops + flops
    } else {
        u64::MAX
    };
    stats.bytes = if bytes <= u64::MAX - stats.bytes {
        stats.bytes + bytes
    } else {
        u64::MAX
    };
}

/// The bytes that a product of `[m, k]` and `[k, n]` moves: both operands and the result, each
/// with elements of its own size.
pub open spec fn bytes_of_product(m: int, k: int, n: int, x: int, w: int, y: int) -> int {
    m * k * x + k * n * w + m * n * y
}

/// The bytes that a product moves, or nothing where they are no 64-bit number.
pub fn product_bytes(
    m: usize,
    k: usize,
    n: usize,
    x_size: usize,
    w_size: usize,
    y_size: usize,
) -> (r: Option<u64>)
    ensures
        ({
            let bytes = bytes_of_product(
                m as int,
                k as int,
                n as int,
                x_size as int,
                w_size as int,
                y_size as int,
            );
            match r {
                Some(b) => b == bytes,
                None => bytes > u64::MAX,
            }
        }),
{
    let a = times3(m, k, x_size);
    let b = times3(k, n, w_size);
    let c = times3(m, n, y_size);
    match (a, b, c) {
        (Some(a), Some(b), Some(c)) => match a.checked_add(b) {
            Some(ab) => ab.checked_add(c),
            None => None,
        },
        _ => None,
    }
}

fn times3(a: usize, b: usize, c: usize) -> (r: Option<u64>)
    ensures
        match r {
            Some(p) => p == a * b * c,
            None => a * b * c > u64::MAX,
        },
        a * b * c >= 0,
{
    assert(a * b * c >= 0) by (nonlinear_arith)
        requires
            a >= 0,
            b >= 0,
            c >= 0,
    ;
    if c == 0 {
        assert(a * b * c == 0) by (nonlinear_arith)
            requires
                c == 0,
        ;
        return Some(0);
    }
    match (a as u64).checked_mul(b as u64) {
        Some(p) => p.checked_mul(c as u64),
        None => {
            assert(a * b * c > u64::MAX) by (nonlinear_arith)
                requires
                    a * b > u64::MAX,
                    c >= 1,
            ;
            None
        },
    }
}

/// Takes the totals and sets them back to zero.
pub fn take(stats: &mut Stats) -> (r: (u64, u64))
    ensures
        r == (old(stats).flops, old(stats).bytes),
        *final(stats) == (Stats { flops: 0, bytes: 0 }),
{
    let out = (stats.flops, stats.bytes);
    stats.flops = 0;
    stats.bytes = 0;
    out
}

} // verus!
