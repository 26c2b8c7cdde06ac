//! Saturating arithmetic on machine integers.

use vstd::prelude::*;

verus! {

/// A sum that stays at the largest `usize` where it would be larger.
pub open spec fn sat_add(a: usize, b: usize) -> usize {
    if a + b > usize::MAX {
        usize::MAX
    } else {
        (a + b) as usize
    }
}

/// A difference that stays at zero where it would be negative.
pub open spec fn sat_sub(a: usize, b: usize) -> usize {
    if a < b {
        0
    } else {
        (a - b) as usize
    }
}

/// A product that stays at the largest `usize` where it would be larger.
pub open spec fn sat_mul(a: usize, b: usize) -> usize {
    if a * b > usize::MAX {
        usize::MAX
    } else {
        (a * b) as usize
    }
}

/// The smaller of two numbers.
pub open spec fn lesser(a: usize, b: usize) -> usize {
    if a <= b {
        a
    } else {
        b
    }
}

/// The larger of two numbers.
pub open spec fn greater(a: usize, b: usize) -> usize {
    if a <= b {
        b
    } else {
        a
    }
}

/// A `u16` sum that stays at the largest `u16`.
pub open spec fn sat_add16(a: u16, b: u16) -> u16 {
    if a + b > u16::MAX {
        u16::MAX
    } else {
        (a + b) as u16
    }
}

/// A `u16` difference that stays at zero.
pub open spec fn sat_sub16(a: u16, b: u16) -> u16 {
    if a < b {
        0
    } else {
        (a - b) as u16
    }
}

/// A `u64` counter that stops at the largest `u64`.
pub open spec fn next_of(n: u64) -> u64 {
    if n == u64::MAX {
        n
    } else {
        (n + 1) as u64
    }
}

/// A sum with a signed step that stays within the range of `usize`.
pub open spec fn stepped(n: usize, delta: int) -> usize {
    if n + delta < 0 {
        0
    } else if n + delta > usize::MAX {
        usize::MAX
    } else {
        (n + delta) as usize
    }
}

/// A number as `u16`, cut to the largest `u16`.
pub open spec fn clipped16(value: usize) -> u16 {
    if value > u16::MAX {
        u16::MAX
    } else {
        value as u16
    }
}

/// Multiplies, staying at the largest `usize`.
pub fn saturating_product(a: usize, b: usize) -> (r: usize)
    ensures
        r == sat_mul(a, b),
{
    match a.checked_mul(b) {
        Some(product) => product,
        None => usize::MAX,
    }
}

/// Adds a signed step, staying within the range of `usize`.
pub fn saturating_step(n: usize, delta: isize) -> (r: usize)
    ensures
        r == stepped(n, delta as int),
{
    if delta >= 0 {
        n.saturating_add(delta as usize)
    } else {
        let room: isize = delta + 1;
        let back: usize = (0 - room) as usize;
        n.saturating_sub(back).saturating_sub(1)
    }
}

/// Cuts a number to the largest `u16`.
pub fn saturating_u16(value: usize) -> (r: u16)
    ensures
        r == clipped16(value),
{
    if value > 65535 {
        65535
    } else {
        value as u16
    }
}

/// The smaller of two numbers.
pub fn min_of(a: usize, b: usize) -> (r: usize)
    ensures
        r == lesser(a, b),
{
    if a <= b {
        a
    } else {
        b
    }
}

/// The larger of two numbers.
pub fn max_of(a: usize, b: usize) -> (r: usize)
    ensures
        r == greater(a, b),
{
    if a <= b {
        b
    } else {
        a
    }
}

} // verus!
