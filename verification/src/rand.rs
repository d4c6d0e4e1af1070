//! The deterministic xorshift stream that drives the magic-number search.

use vstd::prelude::*;

verus! {

/// One xorshift step of the 32-bit state.
pub open spec fn xorshift32(state: u32) -> u32 {
    let a = state ^ (state << 13u32);
    let b = a ^ (a >> 15u32);
    b ^ (b << 5u32)
}

/// The 64-bit draw built from four xorshift steps: the low 16 bits of each
/// step fill one 16-bit lane.
pub open spec fn rand64_value(state: u32) -> u64 {
    let r1 = xorshift32(state);
    let r2 = xorshift32(r1);
    let r3 = xorshift32(r2);
    let r4 = xorshift32(r3);
    (r1 as u64 & 0xFFFF) | ((r2 as u64 & 0xFFFF) << 16u64) | ((r3 as u64 & 0xFFFF) << 32u64) | ((
    r4 as u64 & 0xFFFF) << 48u64)
}

/// The state after one 64-bit draw.
pub open spec fn rand64_state(state: u32) -> u32 {
    xorshift32(xorshift32(xorshift32(xorshift32(state))))
}

/// The candidate a state yields: the AND of three 64-bit draws.
pub open spec fn magic_candidate_value(state: u32) -> u64 {
    rand64_value(state) & rand64_value(rand64_state(state)) & rand64_value(
        rand64_state(rand64_state(state)),
    )
}

/// The state after one candidate draw.
pub open spec fn magic_candidate_state(state: u32) -> u32 {
    rand64_state(rand64_state(rand64_state(state)))
}

fn get_random_u32_number(random_state: u32) -> (r: u32)
    ensures
        r == xorshift32(random_state),
{
    let mut number = random_state;
    number ^= number << 13u32;
    number ^= number >> 15u32;
    number ^= number << 5u32;
    number
}

fn get_random_u64_number(random_state: u32) -> (r: (u64, u32))
    ensures
        r.0 == rand64_value(random_state),
        r.1 == rand64_state(random_state),
{
    let r1 = get_random_u32_number(random_state);
    let r2 = get_random_u32_number(r1);
    let r3 = get_random_u32_number(r2);
    let r4 = get_random_u32_number(r3);

    let n1 = r1 as u64 & 0xFFFFu64;
    let n2 = r2 as u64 & 0xFFFFu64;
    let n3 = r3 as u64 & 0xFFFFu64;
    let n4 = r4 as u64 & 0xFFFFu64;

    let number = n1 | (n2 << 16u64) | (n3 << 32u64) | (n4 << 48u64);

    (number, r4)
}

/// Draws the next magic-multiplier candidate: the AND of three 64-bit draws,
/// which favours sparse multipliers. Returns the candidate and the new state.
pub fn next_magic_candidate(random_state: u32) -> (r: (u64, u32))
    ensures
        r.0 == magic_candidate_value(random_state),
        r.1 == magic_candidate_state(random_state),
{
    let (n1, r1) = get_random_u64_number(random_state);
    let (n2, r2) = get_random_u64_number(r1);
    let (n3, r3) = get_random_u64_number(r2);

    (n1 & n2 & n3, r3)
}

} // verus!

verus! {

/// The state of the candidate stream after `n` draws from `start`.
pub open spec fn candidate_state_at(start: u32, n: nat) -> u32
    decreases n,
{
    if n == 0 {
        start
    } else {
        magic_candidate_state(candidate_state_at(start, (n - 1) as nat))
    }
}

} // verus!
