//! The decision core of a number-guessing game: a secret between 1 and
//! 100, and the verdict for each guess. Reading guesses and printing
//! verdicts is the caller's business.

use vstd::prelude::*;

verus! {

/// The verdict on one guess.
#[derive(Clone, Copy, Debug, PartialEq, Eq, Structural)]
pub enum Verdict {
    TooLow,
    TooHigh,
    Correct,
}

/// The verdict `compare_guess` returns for a guess against a secret.
pub open spec fn verdict_of(guess: u32, secret: u32) -> Verdict {
    if guess < secret {
        Verdict::TooLow
    } else if guess > secret {
        Verdict::TooHigh
    } else {
        Verdict::Correct
    }
}

/// Relies on `rand::random_range`: the sample lies within the given
/// (non-empty) range.
#[verifier::external_body]
fn random_in_hundred() -> (n: u32)
    ensures
        1 <= n <= 100,
{
    rand::random_range(1..=100u32)
}

/// Draws a fresh secret between 1 and 100, both inclusive.
pub fn secret_number() -> (n: u32)
    ensures
        1 <= n <= 100,
{
    random_in_hundred()
}

/// Compares a guess with the secret: too low, too high, or correct.
pub fn compare_guess(guess: u32, secret: u32) -> (v: Verdict)
    ensures
        v == verdict_of(guess, secret),
        v == Verdict::Correct <==> guess == secret,
{
    if guess < secret {
        Verdict::TooLow
    } else if guess > secret {
        Verdict::TooHigh
    } else {
        Verdict::Correct
    }
}

} // verus!
