//! A matrix product for the shapes that one step of a decoder has: few rows, many columns.

use crate::api::{decimal_text, number_text};
use crate::text::cat3;
use vstd::prelude::*;
use vstd::string::*;

verus! {

/// Past this many rows the tile stops being the right shape.
pub const MAX_M: usize = 48;

/// Whether `[m, k]` and `[k, n]` are made of the tiles of the kernel for few rows, and their rows
/// are few.
pub open spec fn few_rows(m: int, k: int, n: int) -> bool {
    m <= 48 && m % 8 == 0 && k % 32 == 0 && n % 64 == 0
}

/// Whether the product of `[m, k]` and `[k, n]` takes the kernel for few rows.
pub fn eligible(m: usize, k: usize, n: usize) -> (r: bool)
    ensures
        r == few_rows(m as int, k as int, n as int),
{
    m <= MAX_M && m % 8 == 0 && k % 32 == 0 && n % 64 == 0
}

/// Whether `[m, k]` and `[k2, n]` can be multiplied: their inner dimensions must be equal.
pub fn check_inner(k: usize, k2: usize) -> (r: Result<(), String>)
    ensures
        match r {
            Ok(_) => k == k2,
            Err(e) => k != k2 && e@ == "gemm_skinny: "@ + decimal_text(k as nat) + " != "@
                + decimal_text(k2 as nat),
        },
{
    if k != k2 {
        let mut detail = cat3("gemm_skinny: ", number_text(k).as_str(), " != ");
        detail.append(number_text(k2).as_str());
        return Err(detail);
    }
    Ok(())
}

} // verus!
