//! Verified pattern-matching demonstrations: coin values, a coin whose
//! quarter variant carries a state, and adding one inside an `Option`.

use vstd::prelude::*;

verus! {

/// A United States coin.
#[derive(Clone, Copy, Debug, PartialEq, Eq, Structural)]
pub enum Coin {
    Penny,
    Nickel,
    Dime,
    Quarter,
}

/// The value of `coin` in cents.
pub open spec fn cents(coin: Coin) -> u8 {
    match coin {
        Coin::Penny => 1,
        Coin::Nickel => 5,
        Coin::Dime => 10,
        Coin::Quarter => 25,
    }
}

/// Returns the coin's value in cents.
pub fn value_in_cents(coin: Coin) -> (v: u8)
    ensures
        v == cents(coin),
{
    match coin {
        Coin::Penny => 1,
        Coin::Nickel => 5,
        Coin::Dime => 10,
        Coin::Quarter => 25,
    }
}

/// A state a quarter may commemorate.
#[derive(Clone, Copy, Debug, PartialEq, Eq, Structural)]
pub enum UsState {
    Alabama,
    Alaska,
}

/// A coin whose quarter variant binds the state it shows.
#[derive(Clone, Copy, Debug, PartialEq, Eq, Structural)]
pub enum Coins {
    Penny,
    Nickel,
    Dime,
    Quarter(UsState),
}

/// The value of `coin` in cents; every quarter is worth 25 whatever
/// state it shows.
pub open spec fn cents_of_coins(coin: Coins) -> u8 {
    match coin {
        Coins::Penny => 1,
        Coins::Nickel => 5,
        Coins::Dime => 10,
        Coins::Quarter(_) => 25,
    }
}

/// Returns the coin's value in cents, binding the quarter's state.
pub fn value_in_centss(coin: Coins) -> (v: u8)
    ensures
        v == cents_of_coins(coin),
{
    match coin {
        Coins::Penny => 1,
        Coins::Nickel => 5,
        Coins::Dime => 10,
        Coins::Quarter(state) => {
            let _ = state;
            25
        },
    }
}

/// Adds one inside an `Option`: `None` stays `None`.
pub fn plus_one(x: Option<i32>) -> (r: Option<i32>)
    requires
        x matches Some(i) ==> i < i32::MAX,
    ensures
        r == (match x {
            None => None::<i32>,
            Some(i) => Some((i + 1) as i32),
        }),
{
    match x {
        None => None,
        Some(i) => Some(i + 1),
    }
}

} // verus!
