//! The types of which random numbers can be drawn: integers, characters and time spans.

use rand::distr::Distribution;
use rand::distr::Uniform;
use rand::RngExt;
use rand_xoshiro::rand_core::SeedableRng;
use rand_xoshiro::Xoshiro256PlusPlus;
use std::time::Duration;
use vstd::prelude::*;

verus! {

/// The integer from `low` to `last`, of the type with the given width and sign, that
/// `RngExt::random_range` draws from a generator in a state, and the state that the generator is in
/// afterwards.
pub uninterp spec fn ranged(state: Seq<u8>, width: nat, signed: bool, low: int, last: int) -> (
    int,
    Seq<u8>,
);

/// The integer from `low` to `last`, of the type with the given width and sign, that
/// `Distribution::sample` of `Uniform::new_inclusive` draws from a generator in a state, and the
/// state that the generator is in afterwards.
pub uninterp spec fn sampled(state: Seq<u8>, width: nat, signed: bool, low: int, last: int) -> (
    int,
    Seq<u8>,
);

/// The width of the integers that are drawn for a `usize`, given the upper bound that was asked
/// for: the same on every machine.
pub open spec fn usize_width(bound: int) -> nat {
    if bound > u32::MAX {
        64
    } else {
        32
    }
}

/// Draws a number under `high` with `RngExt::random_range`, which draws as it does for the range
/// that ends with, and holds, the number before.
#[verifier::external_body]
fn draw_range_u8(state: [u8; 32], low: u8, high: u8) -> (r: (u8, [u8; 32]))
    requires
        low < high,
    ensures
        (r.0 as int, r.1@) == ranged(state@, 8, false, low as int, high - 1),
        low <= r.0 < high,
{
    let mut rng = Xoshiro256PlusPlus::from_seed(state);
    (rng.random_range(low..high), rng.state())
}

/// Draws a number up to `high` with `RngExt::random_range`.
#[verifier::external_body]
fn draw_range_inclusive_u8(state: [u8; 32], low: u8, high: u8) -> (r: (u8, [u8; 32]))
    requires
        low <= high,
    ensures
        (r.0 as int, r.1@) == ranged(state@, 8, false, low as int, high as int),
        low <= r.0 <= high,
{
    let mut rng = Xoshiro256PlusPlus::from_seed(state);
    (rng.random_range(low..=high), rng.state())
}

/// Draws a number up to `high` with `Distribution::sample` of `Uniform::new_inclusive`.
#[verifier::external_body]
fn sample_u8(state: [u8; 32], low: u8, high: u8) -> (r: (u8, [u8; 32]))
    requires
        low <= high,
    ensures
        (r.0 as int, r.1@) == sampled(state@, 8, false, low as int, high as int),
        low <= r.0 <= high,
{
    let mut rng = Xoshiro256PlusPlus::from_seed(state);
    (Uniform::new_inclusive(low, high).unwrap().sample(&mut rng), rng.state())
}

/// Draws a number under `high` with `RngExt::random_range`, which draws as it does for the range
/// that ends with, and holds, the number before.
#[verifier::external_body]
fn draw_range_u16(state: [u8; 32], low: u16, high: u16) -> (r: (u16, [u8; 32]))
    requires
        low < high,
    ensures
        (r.0 as int, r.1@) == ranged(state@, 16, false, low as int, high - 1),
        low <= r.0 < high,
{
    let mut rng = Xoshiro256PlusPlus::from_seed(state);
    (rng.random_range(low..high), rng.state())
}

/// Draws a number up to `high` with `RngExt::random_range`.
#[verifier::external_body]
fn draw_range_inclusive_u16(state: [u8; 32], low: u16, high: u16) -> (r: (u16, [u8; 32]))
    requires
        low <= high,
    ensures
        (r.0 as int, r.1@) == ranged(state@, 16, false, low as int, high as int),
        low <= r.0 <= high,
{
    let mut rng = Xoshiro256PlusPlus::from_seed(state);
    (rng.random_range(low..=high), rng.state())
}

/// Draws a number up to `high` with `Distribution::sample` of `Uniform::new_inclusive`.
#[verifier::external_body]
fn sample_u16(state: [u8; 32], low: u16, high: u16) -> (r: (u16, [u8; 32]))
    requires
        low <= high,
    ensures
        (r.0 as int, r.1@) == sampled(state@, 16, false, low as int, high as int),
        low <= r.0 <= high,
{
    let mut rng = Xoshiro256PlusPlus::from_seed(state);
    (Uniform::new_inclusive(low, high).unwrap().sample(&mut rng), rng.state())
}

/// Draws a number under `high` with `RngExt::random_range`, which draws as it does for the range
/// that ends with, and holds, the number before.
#[verifier::external_body]
fn draw_range_u32(state: [u8; 32], low: u32, high: u32) -> (r: (u32, [u8; 32]))
    requires
        low < high,
    ensures
        (r.0 as int, r.1@) == ranged(state@, 32, false, low as int, high - 1),
        low <= r.0 < high,
{
    let mut rng = Xoshiro256PlusPlus::from_seed(state);
    (rng.random_range(low..high), rng.state())
}

/// Draws a number up to `high` with `RngExt::random_range`.
#[verifier::external_body]
fn draw_range_inclusive_u32(state: [u8; 32], low: u32, high: u32) -> (r: (u32, [u8; 32]))
    requires
        low <= high,
    ensures
        (r.0 as int, r.1@) == ranged(state@, 32, false, low as int, high as int),
        low <= r.0 <= high,
{
    let mut rng = Xoshiro256PlusPlus::from_seed(state);
    (rng.random_range(low..=high), rng.state())
}

/// Draws a number up to `high` with `Distribution::sample` of `Uniform::new_inclusive`.
#[verifier::external_body]
fn sample_u32(state: [u8; 32], low: u32, high: u32) -> (r: (u32, [u8; 32]))
    requires
        low <= high,
    ensures
        (r.0 as int, r.1@) == sampled(state@, 32, false, low as int, high as int),
        low <= r.0 <= high,
{
    let mut rng = Xoshiro256PlusPlus::from_seed(state);
    (Uniform::new_inclusive(low, high).unwrap().sample(&mut rng), rng.state())
}

/// Draws a number under `high` with `RngExt::random_range`, which draws as it does for the range
/// that ends with, and holds, the number before.
#[verifier::external_body]
fn draw_range_u64(state: [u8; 32], low: u64, high: u64) -> (r: (u64, [u8; 32]))
    requires
        low < high,
    ensures
        (r.0 as int, r.1@) == ranged(state@, 64, false, low as int, high - 1),
        low <= r.0 < high,
{
    let mut rng = Xoshiro256PlusPlus::from_seed(state);
    (rng.random_range(low..high), rng.state())
}

/// Draws a number up to `high` with `RngExt::random_range`.
#[verifier::external_body]
fn draw_range_inclusive_u64(state: [u8; 32], low: u64, high: u64) -> (r: (u64, [u8; 32]))
    requires
        low <= high,
    ensures
        (r.0 as int, r.1@) == ranged(state@, 64, false, low as int, high as int),
        low <= r.0 <= high,
{
    let mut rng = Xoshiro256PlusPlus::from_seed(state);
    (rng.random_range(low..=high), rng.state())
}

/// Draws a number up to `high` with `Distribution::sample` of `Uniform::new_inclusive`.
#[verifier::external_body]
fn sample_u64(state: [u8; 32], low: u64, high: u64) -> (r: (u64, [u8; 32]))
    requires
        low <= high,
    ensures
        (r.0 as int, r.1@) == sampled(state@, 64, false, low as int, high as int),
        low <= r.0 <= high,
{
    let mut rng = Xoshiro256PlusPlus::from_seed(state);
    (Uniform::new_inclusive(low, high).unwrap().sample(&mut rng), rng.state())
}

/// Draws a number under `high` with `RngExt::random_range`, which draws as it does for the range
/// that ends with, and holds, the number before.
#[verifier::external_body]
fn draw_range_u128(state: [u8; 32], low: u128, high: u128) -> (r: (u128, [u8; 32]))
    requires
        low < high,
    ensures
        (r.0 as int, r.1@) == ranged(state@, 128, false, low as int, high - 1),
        low <= r.0 < high,
{
    let mut rng = Xoshiro256PlusPlus::from_seed(state);
    (rng.random_range(low..high), rng.state())
}

/// Draws a number up to `high` with `RngExt::random_range`.
#[verifier::external_body]
fn draw_range_inclusive_u128(state: [u8; 32], low: u128, high: u128) -> (r: (u128, [u8; 32]))
    requires
        low <= high,
    ensures
        (r.0 as int, r.1@) == ranged(state@, 128, false, low as int, high as int),
        low <= r.0 <= high,
{
    let mut rng = Xoshiro256PlusPlus::from_seed(state);
    (rng.random_range(low..=high), rng.state())
}

/// Draws a number up to `high` with `Distribution::sample` of `Uniform::new_inclusive`.
#[verifier::external_body]
fn sample_u128(state: [u8; 32], low: u128, high: u128) -> (r: (u128, [u8; 32]))
    requires
        low <= high,
    ensures
        (r.0 as int, r.1@) == sampled(state@, 128, false, low as int, high as int),
        low <= r.0 <= high,
{
    let mut rng = Xoshiro256PlusPlus::from_seed(state);
    (Uniform::new_inclusive(low, high).unwrap().sample(&mut rng), rng.state())
}

/// Draws a number under `high` with `RngExt::random_range`, which draws as it does for the range
/// that ends with, and holds, the number before.
/// It draws a `u64` where the bound exceeds `u32`, and a `u32` otherwise.
#[verifier::external_body]
fn draw_range_usize(state: [u8; 32], low: usize, high: usize) -> (r: (usize, [u8; 32]))
    requires
        low < high,
    ensures
        (r.0 as int, r.1@) == ranged(state@, usize_width(high as int), false, low as int, high - 1),
        low <= r.0 < high,
{
    let mut rng = Xoshiro256PlusPlus::from_seed(state);
    (rng.random_range(low..high), rng.state())
}

/// Draws a number up to `high` with `RngExt::random_range`.
/// It draws a `u64` where the bound exceeds `u32`, and a `u32` otherwise.
#[verifier::external_body]
fn draw_range_inclusive_usize(state: [u8; 32], low: usize, high: usize) -> (r: (usize, [u8; 32]))
    requires
        low <= high,
    ensures
        (r.0 as int, r.1@) == ranged(state@, usize_width(high as int), false, low as int, high as int),
        low <= r.0 <= high,
{
    let mut rng = Xoshiro256PlusPlus::from_seed(state);
    (rng.random_range(low..=high), rng.state())
}

/// Draws a number up to `high` with `Distribution::sample` of `Uniform::new_inclusive`.
/// It draws a `u64` where the bound exceeds `u32`, and a `u32` otherwise.
#[verifier::external_body]
fn sample_usize(state: [u8; 32], low: usize, high: usize) -> (r: (usize, [u8; 32]))
    requires
        low <= high,
    ensures
        (r.0 as int, r.1@) == sampled(state@, usize_width(high as int), false, low as int, high as int),
        low <= r.0 <= high,
{
    let mut rng = Xoshiro256PlusPlus::from_seed(state);
    (Uniform::new_inclusive(low, high).unwrap().sample(&mut rng), rng.state())
}

/// Draws a number under `high` with `RngExt::random_range`, which draws as it does for the range
/// that ends with, and holds, the number before.
#[verifier::external_body]
fn draw_range_i8(state: [u8; 32], low: i8, high: i8) -> (r: (i8, [u8; 32]))
    requires
        low < high,
    ensures
        (r.0 as int, r.1@) == ranged(state@, 8, true, low as int, high - 1),
        low <= r.0 < high,
{
    let mut rng = Xoshiro256PlusPlus::from_seed(state);
    (rng.random_range(low..high), rng.state())
}

/// Draws a number up to `high` with `RngExt::random_range`.
#[verifier::external_body]
fn draw_range_inclusive_i8(state: [u8; 32], low: i8, high: i8) -> (r: (i8, [u8; 32]))
    requires
        low <= high,
    ensures
        (r.0 as int, r.1@) == ranged(state@, 8, true, low as int, high as int),
        low <= r.0 <= high,
{
    let mut rng = Xoshiro256PlusPlus::from_seed(state);
    (rng.random_range(low..=high), rng.state())
}

/// Draws a number up to `high` with `Distribution::sample` of `Uniform::new_inclusive`.
#[verifier::external_body]
fn sample_i8(state: [u8; 32], low: i8, high: i8) -> (r: (i8, [u8; 32]))
    requires
        low <= high,
    ensures
        (r.0 as int, r.1@) == sampled(state@, 8, true, low as int, high as int),
        low <= r.0 <= high,
{
    let mut rng = Xoshiro256PlusPlus::from_seed(state);
    (Uniform::new_inclusive(low, high).unwrap().sample(&mut rng), rng.state())
}

/// Draws a number under `high` with `RngExt::random_range`, which draws as it does for the range
/// that ends with, and holds, the number before.
#[verifier::external_body]
fn draw_range_i16(state: [u8; 32], low: i16, high: i16) -> (r: (i16, [u8; 32]))
    requires
        low < high,
    ensures
        (r.0 as int, r.1@) == ranged(state@, 16, true, low as int, high - 1),
        low <= r.0 < high,
{
    let mut rng = Xoshiro256PlusPlus::from_seed(state);
    (rng.random_range(low..high), rng.state())
}

/// Draws a number up to `high` with `RngExt::random_range`.
#[verifier::external_body]
fn draw_range_inclusive_i16(state: [u8; 32], low: i16, high: i16) -> (r: (i16, [u8; 32]))
    requires
        low <= high,
    ensures
        (r.0 as int, r.1@) == ranged(state@, 16, true, low as int, high as int),
        low <= r.0 <= high,
{
    let mut rng = Xoshiro256PlusPlus::from_seed(state);
    (rng.random_range(low..=high), rng.state())
}

/// Draws a number up to `high` with `Distribution::sample` of `Uniform::new_inclusive`.
#[verifier::external_body]
fn sample_i16(state: [u8; 32], low: i16, high: i16) -> (r: (i16, [u8; 32]))
    requires
        low <= high,
    ensures
        (r.0 as int, r.1@) == sampled(state@, 16, true, low as int, high as int),
        low <= r.0 <= high,
{
    let mut rng = Xoshiro256PlusPlus::from_seed(state);
    (Uniform::new_inclusive(low, high).unwrap().sample(&mut rng), rng.state())
}

/// Draws a number under `high` with `RngExt::random_range`, which draws as it does for the range
/// that ends with, and holds, the number before.
#[verifier::external_body]
fn draw_range_i32(state: [u8; 32], low: i32, high: i32) -> (r: (i32, [u8; 32]))
    requires
        low < high,
    ensures
        (r.0 as int, r.1@) == ranged(state@, 32, true, low as int, high - 1),
        low <= r.0 < high,
{
    let mut rng = Xoshiro256PlusPlus::from_seed(state);
    (rng.random_range(low..high), rng.state())
}

/// Draws a number up to `high` with `RngExt::random_range`.
#[verifier::external_body]
fn draw_range_inclusive_i32(state: [u8; 32], low: i32, high: i32) -> (r: (i32, [u8; 32]))
    requires
        low <= high,
    ensures
        (r.0 as int, r.1@) == ranged(state@, 32, true, low as int, high as int),
        low <= r.0 <= high,
{
    let mut rng = Xoshiro256PlusPlus::from_seed(state);
    (rng.random_range(low..=high), rng.state())
}

/// Draws a number up to `high` with `Distribution::sample` of `Uniform::new_inclusive`.
#[verifier::external_body]
fn sample_i32(state: [u8; 32], low: i32, high: i32) -> (r: (i32, [u8; 32]))
    requires
        low <= high,
    ensures
        (r.0 as int, r.1@) == sampled(state@, 32, true, low as int, high as int),
        low <= r.0 <= high,
{
    let mut rng = Xoshiro256PlusPlus::from_seed(state);
    (Uniform::new_inclusive(low, high).unwrap().sample(&mut rng), rng.state())
}

/// Draws a number under `high` with `RngExt::random_range`, which draws as it does for the range
/// that ends with, and holds, the number before.
#[verifier::external_body]
fn draw_range_i64(state: [u8; 32], low: i64, high: i64) -> (r: (i64, [u8; 32]))
    requires
        low < high,
    ensures
        (r.0 as int, r.1@) == ranged(state@, 64, true, low as int, high - 1),
        low <= r.0 < high,
{
    let mut rng = Xoshiro256PlusPlus::from_seed(state);
    (rng.random_range(low..high), rng.state())
}

/// Draws a number up to `high` with `RngExt::random_range`.
#[verifier::external_body]
fn draw_range_inclusive_i64(state: [u8; 32], low: i64, high: i64) -> (r: (i64, [u8; 32]))
    requires
        low <= high,
    ensures
        (r.0 as int, r.1@) == ranged(state@, 64, true, low as int, high as int),
        low <= r.0 <= high,
{
    let mut rng = Xoshiro256PlusPlus::from_seed(state);
    (rng.random_range(low..=high), rng.state())
}

/// Draws a number up to `high` with `Distribution::sample` of `Uniform::new_inclusive`.
#[verifier::external_body]
fn sample_i64(state: [u8; 32], low: i64, high: i64) -> (r: (i64, [u8; 32]))
    requires
        low <= high,
    ensures
        (r.0 as int, r.1@) == sampled(state@, 64, true, low as int, high as int),
        low <= r.0 <= high,
{
    let mut rng = Xoshiro256PlusPlus::from_seed(state);
    (Uniform::new_inclusive(low, high).unwrap().sample(&mut rng), rng.state())
}

/// Draws a number under `high` with `RngExt::random_range`, which draws as it does for the range
/// that ends with, and holds, the number before.
#[verifier::external_body]
fn draw_range_i128(state: [u8; 32], low: i128, high: i128) -> (r: (i128, [u8; 32]))
    requires
        low < high,
    ensures
        (r.0 as int, r.1@) == ranged(state@, 128, true, low as int, high - 1),
        low <= r.0 < high,
{
    let mut rng = Xoshiro256PlusPlus::from_seed(state);
    (rng.random_range(low..high), rng.state())
}

/// Draws a number up to `high` with `RngExt::random_range`.
#[verifier::external_body]
fn draw_range_inclusive_i128(state: [u8; 32], low: i128, high: i128) -> (r: (i128, [u8; 32]))
    requires
        low <= high,
    ensures
        (r.0 as int, r.1@) == ranged(state@, 128, true, low as int, high as int),
        low <= r.0 <= high,
{
    let mut rng = Xoshiro256PlusPlus::from_seed(state);
    (rng.random_range(low..=high), rng.state())
}

/// Draws a number up to `high` with `Distribution::sample` of `Uniform::new_inclusive`.
#[verifier::external_body]
fn sample_i128(state: [u8; 32], low: i128, high: i128) -> (r: (i128, [u8; 32]))
    requires
        low <= high,
    ensures
        (r.0 as int, r.1@) == sampled(state@, 128, true, low as int, high as int),
        low <= r.0 <= high,
{
    let mut rng = Xoshiro256PlusPlus::from_seed(state);
    (Uniform::new_inclusive(low, high).unwrap().sample(&mut rng), rng.state())
}

/// The number of a character when the characters are counted in order. There are none from
/// `0xD800` up to `0xDFFF`.
pub open spec fn char_number(c: char) -> int {
    if c as int >= 0xE000 {
        c as int - 0x800
    } else {
        c as int
    }
}

/// Whether a character is at least another.
fn char_at_least(a: char, b: char) -> (r: bool)
    ensures
        r == (char_number(a) >= char_number(b)),
{
    assert(a as int <= 0xD7FF || 0xE000 <= a as int);
    assert(b as int <= 0xD7FF || 0xE000 <= b as int);
    a >= b
}

/// Draws a character under `high` with `RngExt::random_range`. It samples a uniform distribution
/// of `u32` over the numbers of the characters, up to the one before `high`.
#[verifier::external_body]
fn draw_range_char(state: [u8; 32], low: char, high: char) -> (r: (char, [u8; 32]))
    requires
        char_number(low) < char_number(high),
    ensures
        (char_number(r.0), r.1@) == sampled(
            state@,
            32,
            false,
            char_number(low),
            char_number(high) - 1,
        ),
        char_number(low) <= char_number(r.0) < char_number(high),
{
    let mut rng = Xoshiro256PlusPlus::from_seed(state);
    (rng.random_range(low..high), rng.state())
}

/// Draws a character up to `high` with `RngExt::random_range`. It samples a uniform distribution of
/// `u32` over the numbers of the characters.
#[verifier::external_body]
fn draw_range_inclusive_char(state: [u8; 32], low: char, high: char) -> (r: (char, [u8; 32]))
    requires
        char_number(low) <= char_number(high),
    ensures
        (char_number(r.0), r.1@) == sampled(state@, 32, false, char_number(low), char_number(high)),
        char_number(low) <= char_number(r.0) <= char_number(high),
{
    let mut rng = Xoshiro256PlusPlus::from_seed(state);
    (rng.random_range(low..=high), rng.state())
}

/// Draws a character up to `high` with `Distribution::sample` of `Uniform::new_inclusive`. It
/// samples a uniform distribution of `u32` over the numbers of the characters.
#[verifier::external_body]
fn sample_char(state: [u8; 32], low: char, high: char) -> (r: (char, [u8; 32]))
    requires
        char_number(low) <= char_number(high),
    ensures
        (char_number(r.0), r.1@) == sampled(state@, 32, false, char_number(low), char_number(high)),
        char_number(low) <= char_number(r.0) <= char_number(high),
{
    let mut rng = Xoshiro256PlusPlus::from_seed(state);
    (Uniform::new_inclusive(low, high).unwrap().sample(&mut rng), rng.state())
}

/// The length of a time span in nanoseconds, as [`Duration::as_nanos`] has it.
pub uninterp spec fn nanos_of(span: Duration) -> u128;

/// Calls [`Duration::as_nanos`], which is claimed to be a function of the span alone.
#[verifier::external_body]
fn nanos(span: Duration) -> (n: u128)
    ensures
        n == nanos_of(span),
{
    span.as_nanos()
}

/// The length of the time span from `low` to `last` nanoseconds that `Distribution::sample` of
/// `Uniform::new_inclusive` draws from a generator in a state, and the state that the generator is
/// in afterwards.
pub uninterp spec fn span_sampled(state: Seq<u8>, low: int, last: int) -> (int, Seq<u8>);

/// Draws a time span under `high` with `RngExt::random_range`, which samples a uniform distribution
/// up to the span that is a nanosecond shorter.
#[verifier::external_body]
fn draw_range_span(state: [u8; 32], low: Duration, high: Duration) -> (r: (Duration, [u8; 32]))
    requires
        nanos_of(low) < nanos_of(high),
    ensures
        (nanos_of(r.0) as int, r.1@) == span_sampled(
            state@,
            nanos_of(low) as int,
            nanos_of(high) - 1,
        ),
        nanos_of(low) <= nanos_of(r.0) < nanos_of(high),
{
    let mut rng = Xoshiro256PlusPlus::from_seed(state);
    (rng.random_range(low..high), rng.state())
}

/// Draws a time span up to `high` with `RngExt::random_range`, which samples a uniform
/// distribution.
#[verifier::external_body]
fn draw_range_inclusive_span(state: [u8; 32], low: Duration, high: Duration) -> (r: (
    Duration,
    [u8; 32],
))
    requires
        nanos_of(low) <= nanos_of(high),
    ensures
        (nanos_of(r.0) as int, r.1@) == span_sampled(
            state@,
            nanos_of(low) as int,
            nanos_of(high) as int,
        ),
        nanos_of(low) <= nanos_of(r.0) <= nanos_of(high),
{
    let mut rng = Xoshiro256PlusPlus::from_seed(state);
    (rng.random_range(low..=high), rng.state())
}

/// Draws a time span up to `high` with `Distribution::sample` of `Uniform::new_inclusive`.
#[verifier::external_body]
fn sample_span(state: [u8; 32], low: Duration, high: Duration) -> (r: (Duration, [u8; 32]))
    requires
        nanos_of(low) <= nanos_of(high),
    ensures
        (nanos_of(r.0) as int, r.1@) == span_sampled(
            state@,
            nanos_of(low) as int,
            nanos_of(high) as int,
        ),
        nanos_of(low) <= nanos_of(r.0) <= nanos_of(high),
{
    let mut rng = Xoshiro256PlusPlus::from_seed(state);
    (Uniform::new_inclusive(low, high).unwrap().sample(&mut rng), rng.state())
}

/// A type that can be drawn.
pub trait Number: Copy {
    /// The integer that stands for a value. It grows with the value.
    spec fn value(self) -> int;

    /// The draw from `low` to `last`, given the upper bound that was asked for.
    spec fn ranged_in(state: Seq<u8>, low: int, last: int, bound: int) -> (int, Seq<u8>);

    /// The draw of a uniform distribution from `low` to `last`.
    spec fn sampled_in(state: Seq<u8>, low: int, last: int) -> (int, Seq<u8>);

    /// Whether a value is at least another.
    fn at_least(self, other: Self) -> (r: bool)
        ensures
            r == (self.value() >= other.value()),
    ;

    /// Draws a value under `high`.
    fn draw_range(state: [u8; 32], low: Self, high: Self) -> (r: (Self, [u8; 32]))
        requires
            low.value() < high.value(),
        ensures
            (r.0.value(), r.1@) == Self::ranged_in(
                state@,
                low.value(),
                high.value() - 1,
                high.value(),
            ),
            low.value() <= r.0.value() < high.value(),
    ;

    /// Draws a value up to `high`.
    fn draw_range_inclusive(state: [u8; 32], low: Self, high: Self) -> (r: (Self, [u8; 32]))
        requires
            low.value() <= high.value(),
        ensures
            (r.0.value(), r.1@) == Self::ranged_in(
                state@,
                low.value(),
                high.value(),
                high.value(),
            ),
            low.value() <= r.0.value() <= high.value(),
    ;

    /// Draws a value up to `high` from a uniform distribution.
    fn sample(state: [u8; 32], low: Self, high: Self) -> (r: (Self, [u8; 32]))
        requires
            low.value() <= high.value(),
        ensures
            (r.0.value(), r.1@) == Self::sampled_in(state@, low.value(), high.value()),
            low.value() <= r.0.value() <= high.value(),
    ;
}

impl Number for u8 {
    open spec fn value(self) -> int {
        self as int
    }

    open spec fn ranged_in(state: Seq<u8>, low: int, last: int, bound: int) -> (int, Seq<u8>) {
        ranged(state, 8, false, low, last)
    }

    open spec fn sampled_in(state: Seq<u8>, low: int, last: int) -> (int, Seq<u8>) {
        sampled(state, 8, false, low, last)
    }

    fn at_least(self, other: u8) -> (r: bool) {
        self >= other
    }

    fn draw_range(state: [u8; 32], low: u8, high: u8) -> (r: (u8, [u8; 32])) {
        draw_range_u8(state, low, high)
    }

    fn draw_range_inclusive(state: [u8; 32], low: u8, high: u8) -> (r: (u8, [u8; 32])) {
        draw_range_inclusive_u8(state, low, high)
    }

    fn sample(state: [u8; 32], low: u8, high: u8) -> (r: (u8, [u8; 32])) {
        sample_u8(state, low, high)
    }
}

impl Number for u16 {
    open spec fn value(self) -> int {
        self as int
    }

    open spec fn ranged_in(state: Seq<u8>, low: int, last: int, bound: int) -> (int, Seq<u8>) {
        ranged(state, 16, false, low, last)
    }

    open spec fn sampled_in(state: Seq<u8>, low: int, last: int) -> (int, Seq<u8>) {
        sampled(state, 16, false, low, last)
    }

    fn at_least(self, other: u16) -> (r: bool) {
        self >= other
    }

    fn draw_range(state: [u8; 32], low: u16, high: u16) -> (r: (u16, [u8; 32])) {
        draw_range_u16(state, low, high)
    }

    fn draw_range_inclusive(state: [u8; 32], low: u16, high: u16) -> (r: (u16, [u8; 32])) {
        draw_range_inclusive_u16(state, low, high)
    }

    fn sample(state: [u8; 32], low: u16, high: u16) -> (r: (u16, [u8; 32])) {
        sample_u16(state, low, high)
    }
}

impl Number for u32 {
    open spec fn value(self) -> int {
        self as int
    }

    open spec fn ranged_in(state: Seq<u8>, low: int, last: int, bound: int) -> (int, Seq<u8>) {
        ranged(state, 32, false, low, last)
    }

    open spec fn sampled_in(state: Seq<u8>, low: int, last: int) -> (int, Seq<u8>) {
        sampled(state, 32, false, low, last)
    }

    fn at_least(self, other: u32) -> (r: bool) {
        self >= other
    }

    fn draw_range(state: [u8; 32], low: u32, high: u32) -> (r: (u32, [u8; 32])) {
        draw_range_u32(state, low, high)
    }

    fn draw_range_inclusive(state: [u8; 32], low: u32, high: u32) -> (r: (u32, [u8; 32])) {
        draw_range_inclusive_u32(state, low, high)
    }

    fn sample(state: [u8; 32], low: u32, high: u32) -> (r: (u32, [u8; 32])) {
        sample_u32(state, low, high)
    }
}

impl Number for u64 {
    open spec fn value(self) -> int {
        self as int
    }

    open spec fn ranged_in(state: Seq<u8>, low: int, last: int, bound: int) -> (int, Seq<u8>) {
        ranged(state, 64, false, low, last)
    }

    open spec fn sampled_in(state: Seq<u8>, low: int, last: int) -> (int, Seq<u8>) {
        sampled(state, 64, false, low, last)
    }

    fn at_least(self, other: u64) -> (r: bool) {
        self >= other
    }

    fn draw_range(state: [u8; 32], low: u64, high: u64) -> (r: (u64, [u8; 32])) {
        draw_range_u64(state, low, high)
    }

    fn draw_range_inclusive(state: [u8; 32], low: u64, high: u64) -> (r: (u64, [u8; 32])) {
        draw_range_inclusive_u64(state, low, high)
    }

    fn sample(state: [u8; 32], low: u64, high: u64) -> (r: (u64, [u8; 32])) {
        sample_u64(state, low, high)
    }
}

impl Number for u128 {
    open spec fn value(self) -> int {
        self as int
    }

    open spec fn ranged_in(state: Seq<u8>, low: int, last: int, bound: int) -> (int, Seq<u8>) {
        ranged(state, 128, false, low, last)
    }

    open spec fn sampled_in(state: Seq<u8>, low: int, last: int) -> (int, Seq<u8>) {
        sampled(state, 128, false, low, last)
    }

    fn at_least(self, other: u128) -> (r: bool) {
        self >= other
    }

    fn draw_range(state: [u8; 32], low: u128, high: u128) -> (r: (u128, [u8; 32])) {
        draw_range_u128(state, low, high)
    }

    fn draw_range_inclusive(state: [u8; 32], low: u128, high: u128) -> (r: (u128, [u8; 32])) {
        draw_range_inclusive_u128(state, low, high)
    }

    fn sample(state: [u8; 32], low: u128, high: u128) -> (r: (u128, [u8; 32])) {
        sample_u128(state, low, high)
    }
}

impl Number for usize {
    open spec fn value(self) -> int {
        self as int
    }

    open spec fn ranged_in(state: Seq<u8>, low: int, last: int, bound: int) -> (int, Seq<u8>) {
        ranged(state, usize_width(bound), false, low, last)
    }

    open spec fn sampled_in(state: Seq<u8>, low: int, last: int) -> (int, Seq<u8>) {
        sampled(state, usize_width(last), false, low, last)
    }

    fn at_least(self, other: usize) -> (r: bool) {
        self >= other
    }

    fn draw_range(state: [u8; 32], low: usize, high: usize) -> (r: (usize, [u8; 32])) {
        draw_range_usize(state, low, high)
    }

    fn draw_range_inclusive(state: [u8; 32], low: usize, high: usize) -> (r: (usize, [u8; 32])) {
        draw_range_inclusive_usize(state, low, high)
    }

    fn sample(state: [u8; 32], low: usize, high: usize) -> (r: (usize, [u8; 32])) {
        sample_usize(state, low, high)
    }
}

impl Number for i8 {
    open spec fn value(self) -> int {
        self as int
    }

    open spec fn ranged_in(state: Seq<u8>, low: int, last: int, bound: int) -> (int, Seq<u8>) {
        ranged(state, 8, true, low, last)
    }

    open spec fn sampled_in(state: Seq<u8>, low: int, last: int) -> (int, Seq<u8>) {
        sampled(state, 8, true, low, last)
    }

    fn at_least(self, other: i8) -> (r: bool) {
        self >= other
    }

    fn draw_range(state: [u8; 32], low: i8, high: i8) -> (r: (i8, [u8; 32])) {
        draw_range_i8(state, low, high)
    }

    fn draw_range_inclusive(state: [u8; 32], low: i8, high: i8) -> (r: (i8, [u8; 32])) {
        draw_range_inclusive_i8(state, low, high)
    }

    fn sample(state: [u8; 32], low: i8, high: i8) -> (r: (i8, [u8; 32])) {
        sample_i8(state, low, high)
    }
}

impl Number for i16 {
    open spec fn value(self) -> int {
        self as int
    }

    open spec fn ranged_in(state: Seq<u8>, low: int, last: int, bound: int) -> (int, Seq<u8>) {
        ranged(state, 16, true, low, last)
    }

    open spec fn sampled_in(state: Seq<u8>, low: int, last: int) -> (int, Seq<u8>) {
        sampled(state, 16, true, low, last)
    }

    fn at_least(self, other: i16) -> (r: bool) {
        self >= other
    }

    fn draw_range(state: [u8; 32], low: i16, high: i16) -> (r: (i16, [u8; 32])) {
        draw_range_i16(state, low, high)
    }

    fn draw_range_inclusive(state: [u8; 32], low: i16, high: i16) -> (r: (i16, [u8; 32])) {
        draw_range_inclusive_i16(state, low, high)
    }

    fn sample(state: [u8; 32], low: i16, high: i16) -> (r: (i16, [u8; 32])) {
        sample_i16(state, low, high)
    }
}

impl Number for i32 {
    open spec fn value(self) -> int {
        self as int
    }

    open spec fn ranged_in(state: Seq<u8>, low: int, last: int, bound: int) -> (int, Seq<u8>) {
        ranged(state, 32, true, low, last)
    }

    open spec fn sampled_in(state: Seq<u8>, low: int, last: int) -> (int, Seq<u8>) {
        sampled(state, 32, true, low, last)
    }

    fn at_least(self, other: i32) -> (r: bool) {
        self >= other
    }

    fn draw_range(state: [u8; 32], low: i32, high: i32) -> (r: (i32, [u8; 32])) {
        draw_range_i32(state, low, high)
    }

    fn draw_range_inclusive(state: [u8; 32], low: i32, high: i32) -> (r: (i32, [u8; 32])) {
        draw_range_inclusive_i32(state, low, high)
    }

    fn sample(state: [u8; 32], low: i32, high: i32) -> (r: (i32, [u8; 32])) {
        sample_i32(state, low, high)
    }
}

impl Number for i64 {
    open spec fn value(self) -> int {
        self as int
    }

    open spec fn ranged_in(state: Seq<u8>, low: int, last: int, bound: int) -> (int, Seq<u8>) {
        ranged(state, 64, true, low, last)
    }

    open spec fn sampled_in(state: Seq<u8>, low: int, last: int) -> (int, Seq<u8>) {
        sampled(state, 64, true, low, last)
    }

    fn at_least(self, other: i64) -> (r: bool) {
        self >= other
    }

    fn draw_range(state: [u8; 32], low: i64, high: i64) -> (r: (i64, [u8; 32])) {
        draw_range_i64(state, low, high)
    }

    fn draw_range_inclusive(state: [u8; 32], low: i64, high: i64) -> (r: (i64, [u8; 32])) {
        draw_range_inclusive_i64(state, low, high)
    }

    fn sample(state: [u8; 32], low: i64, high: i64) -> (r: (i64, [u8; 32])) {
        sample_i64(state, low, high)
    }
}

impl Number for i128 {
    open spec fn value(self) -> int {
        self as int
    }

    open spec fn ranged_in(state: Seq<u8>, low: int, last: int, bound: int) -> (int, Seq<u8>) {
        ranged(state, 128, true, low, last)
    }

    open spec fn sampled_in(state: Seq<u8>, low: int, last: int) -> (int, Seq<u8>) {
        sampled(state, 128, true, low, last)
    }

    fn at_least(self, other: i128) -> (r: bool) {
        self >= other
    }

    fn draw_range(state: [u8; 32], low: i128, high: i128) -> (r: (i128, [u8; 32])) {
        draw_range_i128(state, low, high)
    }

    fn draw_range_inclusive(state: [u8; 32], low: i128, high: i128) -> (r: (i128, [u8; 32])) {
        draw_range_inclusive_i128(state, low, high)
    }

    fn sample(state: [u8; 32], low: i128, high: i128) -> (r: (i128, [u8; 32])) {
        sample_i128(state, low, high)
    }
}

impl Number for char {
    open spec fn value(self) -> int {
        char_number(self)
    }

    open spec fn ranged_in(state: Seq<u8>, low: int, last: int, bound: int) -> (int, Seq<u8>) {
        sampled(state, 32, false, low, last)
    }

    open spec fn sampled_in(state: Seq<u8>, low: int, last: int) -> (int, Seq<u8>) {
        sampled(state, 32, false, low, last)
    }

    fn at_least(self, other: char) -> (r: bool) {
        char_at_least(self, other)
    }

    fn draw_range(state: [u8; 32], low: char, high: char) -> (r: (char, [u8; 32])) {
        draw_range_char(state, low, high)
    }

    fn draw_range_inclusive(state: [u8; 32], low: char, high: char) -> (r: (char, [u8; 32])) {
        draw_range_inclusive_char(state, low, high)
    }

    fn sample(state: [u8; 32], low: char, high: char) -> (r: (char, [u8; 32])) {
        sample_char(state, low, high)
    }
}

impl Number for Duration {
    open spec fn value(self) -> int {
        nanos_of(self) as int
    }

    open spec fn ranged_in(state: Seq<u8>, low: int, last: int, bound: int) -> (int, Seq<u8>) {
        span_sampled(state, low, last)
    }

    open spec fn sampled_in(state: Seq<u8>, low: int, last: int) -> (int, Seq<u8>) {
        span_sampled(state, low, last)
    }

    fn at_least(self, other: Duration) -> (r: bool) {
        nanos(self) >= nanos(other)
    }

    fn draw_range(state: [u8; 32], low: Duration, high: Duration) -> (r: (Duration, [u8; 32])) {
        draw_range_span(state, low, high)
    }

    fn draw_range_inclusive(state: [u8; 32], low: Duration, high: Duration) -> (r: (Duration, [u8; 32])) {
        draw_range_inclusive_span(state, low, high)
    }

    fn sample(state: [u8; 32], low: Duration, high: Duration) -> (r: (Duration, [u8; 32])) {
        sample_span(state, low, high)
    }
}

/// An integer stands for itself.
pub proof fn law_integers_stand_for_themselves(
    x_u8: u8,
    x_u16: u16,
    x_u32: u32,
    x_u64: u64,
    x_u128: u128,
    x_i8: i8,
    x_i16: i16,
    x_i32: i32,
    x_i64: i64,
    x_i128: i128,
    x_usize: usize,
)
    ensures
        x_u8.value() == x_u8,
        x_u16.value() == x_u16,
        x_u32.value() == x_u32,
        x_u64.value() == x_u64,
        x_u128.value() == x_u128,
        x_i8.value() == x_i8,
        x_i16.value() == x_i16,
        x_i32.value() == x_i32,
        x_i64.value() == x_i64,
        x_i128.value() == x_i128,
        x_usize.value() == x_usize,
{
}

/// A draw of an integer type is the draw of its width and sign between the bounds that were asked
/// for. A `usize` is drawn as a `u64` where the bound does not fit in a `u32`, and as a `u32`
/// otherwise.
pub proof fn law_draws_have_their_width(state: Seq<u8>, low: int, last: int, bound: int)
    ensures
        <u8>::ranged_in(state, low, last, bound) == ranged(state, 8, false, low, last),
        <u16>::ranged_in(state, low, last, bound) == ranged(state, 16, false, low, last),
        <u32>::ranged_in(state, low, last, bound) == ranged(state, 32, false, low, last),
        <u64>::ranged_in(state, low, last, bound) == ranged(state, 64, false, low, last),
        <u128>::ranged_in(state, low, last, bound) == ranged(state, 128, false, low, last),
        <i8>::ranged_in(state, low, last, bound) == ranged(state, 8, true, low, last),
        <i16>::ranged_in(state, low, last, bound) == ranged(state, 16, true, low, last),
        <i32>::ranged_in(state, low, last, bound) == ranged(state, 32, true, low, last),
        <i64>::ranged_in(state, low, last, bound) == ranged(state, 64, true, low, last),
        <i128>::ranged_in(state, low, last, bound) == ranged(state, 128, true, low, last),
        bound <= u32::MAX ==> <usize>::ranged_in(state, low, last, bound) == ranged(
            state,
            32,
            false,
            low,
            last,
        ),
        bound > u32::MAX ==> <usize>::ranged_in(state, low, last, bound) == ranged(
            state,
            64,
            false,
            low,
            last,
        ),
        <char>::ranged_in(state, low, last, bound) == sampled(state, 32, false, low, last),
        <Duration>::ranged_in(state, low, last, bound) == span_sampled(state, low, last),
{
}

/// A draw of a uniform distribution over an integer type is that of its width and sign between the
/// bounds that were asked for.
pub proof fn law_samples_have_their_width(state: Seq<u8>, low: int, last: int)
    ensures
        <u8>::sampled_in(state, low, last) == sampled(state, 8, false, low, last),
        <u16>::sampled_in(state, low, last) == sampled(state, 16, false, low, last),
        <u32>::sampled_in(state, low, last) == sampled(state, 32, false, low, last),
        <u64>::sampled_in(state, low, last) == sampled(state, 64, false, low, last),
        <u128>::sampled_in(state, low, last) == sampled(state, 128, false, low, last),
        <i8>::sampled_in(state, low, last) == sampled(state, 8, true, low, last),
        <i16>::sampled_in(state, low, last) == sampled(state, 16, true, low, last),
        <i32>::sampled_in(state, low, last) == sampled(state, 32, true, low, last),
        <i64>::sampled_in(state, low, last) == sampled(state, 64, true, low, last),
        <i128>::sampled_in(state, low, last) == sampled(state, 128, true, low, last),
        last <= u32::MAX ==> <usize>::sampled_in(state, low, last) == sampled(
            state,
            32,
            false,
            low,
            last,
        ),
        last > u32::MAX ==> <usize>::sampled_in(state, low, last) == sampled(
            state,
            64,
            false,
            low,
            last,
        ),
        <char>::sampled_in(state, low, last) == sampled(state, 32, false, low, last),
        <Duration>::sampled_in(state, low, last) == span_sampled(state, low, last),
{
}

/// Characters are numbered in their order, without a gap where no character is.
pub proof fn law_characters_are_numbered(a: char, b: char)
    ensures
        a.value() < b.value() <==> (a as int) < (b as int),
        a.value() == b.value() <==> a == b,
        (a as int) < 0xd800 ==> a.value() == a as int,
        (a as int) >= 0xe000 ==> a.value() == a as int - 0x800,
{
    assert(a as int <= 0xD7FF || 0xE000 <= a as int);
    assert(b as int <= 0xD7FF || 0xE000 <= b as int);
}

} // verus!
