//! Random draws used by the game rules.
//!
//! The generator itself lives in `rand`; the functions here only state what
//! every draw is guaranteed to satisfy.

use rand::seq::SliceRandom;
use rand::Rng;
use vstd::prelude::*;

verus! {

/// Draws from `rand::Rng::gen_range` on the closed range `low..=high` of the
/// thread-local generator. The crate's source asserts the range is not empty
/// and returns a value inside it; which value is left to chance.
#[verifier::external_body]
fn gen_range_inclusive(low: i32, high: i32) -> (r: i32)
    requires
        low <= high,
    ensures
        low <= r <= high,
{
    rand::thread_rng().gen_range(low..=high)
}

/// Draws from `rand::Rng::gen_range` on the half-open range `low..high` of the
/// thread-local generator; the range must not be empty, and the value lies in it.
#[verifier::external_body]
fn gen_range_exclusive(low: i32, high: i32) -> (r: i32)
    requires
        low < high,
    ensures
        low <= r < high,
{
    rand::thread_rng().gen_range(low..high)
}

/// Draws from `rand::Rng::gen_range` on the half-open index range `0..len`
/// of the thread-local generator; the range must not be empty.
#[verifier::external_body]
pub(crate) fn gen_index(len: usize) -> (r: usize)
    requires
        0 < len,
    ensures
        r < len,
{
    rand::thread_rng().gen_range(0..len)
}

/// Calls `rand::seq::SliceRandom::choose` on the items with the thread-local
/// generator and copies the chosen item out. The crate's source returns
/// `None` exactly for an empty slice, and otherwise one of its items; which
/// one is left to chance.
#[verifier::external_body]
fn choose_copied<T: Copy>(items: &Vec<T>) -> (r: Option<T>)
    ensures
        r is None <==> items@.len() == 0,
        r matches Some(v) ==> items@.contains(v),
{
    items.as_slice().choose(&mut rand::thread_rng()).copied()
}

/// The characters that `rand::distributions::Alphanumeric` produces:
/// ASCII letters of either case and decimal digits.
pub open spec fn is_alphanumeric(c: char) -> bool {
    ('A' <= c && c <= 'Z') || ('a' <= c && c <= 'z') || ('0' <= c && c <= '9')
}

/// Takes `len` samples of `rand::distributions::Alphanumeric` from the
/// thread-local generator and collects them as characters. Each sample is
/// one of the crate's 62 ASCII letters and digits; which ones is left to chance.
#[verifier::external_body]
fn alphanumeric_string(len: usize) -> (r: String)
    ensures
        r@.len() == len,
        forall|i: int| 0 <= i < r@.len() ==> is_alphanumeric(#[trigger] r@[i]),
{
    rand::thread_rng().sample_iter(&rand::distributions::Alphanumeric).take(len).map(char::from).collect()
}

/// A uniformly chosen integer between `min` and `max`, both included.
pub fn random(min: i32, max: i32) -> (r: i32)
    requires
        min <= max,
    ensures
        min <= r <= max,
{
    gen_range_inclusive(min, max)
}

/// True with probability `molecule / denominator`: a draw from
/// `0..denominator` is compared with `molecule`. A non-positive `molecule`
/// never succeeds and one at or above `denominator` always does.
pub fn percentage(molecule: i32, denominator: i32) -> (r: bool)
    requires
        0 < denominator,
    ensures
        molecule <= 0 ==> !r,
        molecule >= denominator ==> r,
{
    let roll = roll_die(denominator);
    roll_hits(roll, molecule)
}

/// A uniformly drawn roll among `0..sides`.
pub fn roll_die(sides: i32) -> (r: i32)
    requires
        0 < sides,
    ensures
        0 <= r < sides,
{
    gen_range_exclusive(0, sides)
}

/// Whether a roll drawn from `0..denominator` succeeds for `percentage`:
/// it must fall below `molecule`.
pub fn roll_hits(roll: i32, molecule: i32) -> (r: bool)
    ensures
        r == (roll < molecule),
{
    roll < molecule
}

} // verus!

verus! {

/// One of the items, chosen at random, or `None` when there are none.
pub fn pick<T: Copy>(items: Vec<T>) -> (r: Option<T>)
    ensures
        r is None <==> items@.len() == 0,
        r matches Some(v) ==> items@.contains(v),
{
    choose_copied(&items)
}

/// A random identifier of `length` ASCII letters and digits.
pub fn generate_random_id(length: u32) -> (r: String)
    ensures
        r@.len() == length,
        forall|i: int| 0 <= i < r@.len() ==> is_alphanumeric(#[trigger] r@[i]),
{
    alphanumeric_string(length as usize)
}

/// `num!`, the product of the integers from 1 to `num`.
pub open spec fn spec_factorial(num: nat) -> nat
    decreases num,
{
    if num <= 1 {
        1
    } else {
        num * spec_factorial((num - 1) as nat)
    }
}

/// `num!`, computed by recursion; the result must fit in a `u128`.
pub fn factorial(num: u128) -> (r: u128)
    requires
        spec_factorial(num as nat) <= u128::MAX,
    ensures
        r == spec_factorial(num as nat),
    decreases num,
{
    if num == 0 || num == 1 {
        1
    } else {
        proof {
            lemma_factorial_positive((num - 1) as nat);
            assert(spec_factorial((num - 1) as nat) <= spec_factorial(num as nat)) by (nonlinear_arith)
                requires
                    spec_factorial(num as nat) == num * spec_factorial((num - 1) as nat),
                    num >= 2,
                    spec_factorial((num - 1) as nat) >= 1,
            ;
        }
        num * factorial(num - 1)
    }
}

/// Every factorial is at least 1.
pub proof fn lemma_factorial_positive(num: nat)
    ensures
        spec_factorial(num) >= 1,
    decreases num,
{
    if num > 1 {
        lemma_factorial_positive((num - 1) as nat);
        assert(num * spec_factorial((num - 1) as nat) >= 1) by (nonlinear_arith)
            requires
                num >= 2,
                spec_factorial((num - 1) as nat) >= 1,
        ;
    }
}

} // verus!
