use ownership_tracker::borrowing;
use ownership_tracker::collections;
use ownership_tracker::functions;
use ownership_tracker::guessing::{self, Verdict};
use ownership_tracker::matching::{self, Coin, Coins, UsState};
use ownership_tracker::ownership;
use ownership_tracker::slicing;
use ownership_tracker::structs::{self, Rectangle, Rectanglo};

#[test]
fn five_and_plus_one() {
    assert_eq!(functions::five(), 555);
    assert_eq!(functions::plus_one(5), 6);
    assert_eq!(functions::plus_one(-1), 0);
}

#[test]
fn ownership_demos_run() {
    ownership::mover();
    ownership::foo();
    ownership::bar();
    assert_eq!(ownership::gives_ownership(), "hello");
    assert_eq!(ownership::takes_and_gives_back(String::from("hello")), "hello");
}

#[test]
fn calculate_length_returns_string_and_length() {
    let (s, len) = ownership::calculate_length(String::from("hello"));
    assert_eq!(s, "hello");
    assert_eq!(len, 5);
}

#[test]
fn borrowing_demos() {
    assert_eq!(borrowing::calculate_length2(&String::from("hello")), 5);
    let mut s = String::from("hello");
    borrowing::change2(&mut s);
    assert_eq!(s, "hello, world");
    borrowing::borrow2();
    borrowing::works();
    assert_eq!(borrowing::no_dangle(), "hello");
}

#[test]
fn first_word_finds_first_space() {
    assert_eq!(slicing::first_word(&String::from("I've have a lot of apples")), 4);
    assert_eq!(slicing::first_word(&String::from("hello world")), 5);
    assert_eq!(slicing::first_word(&String::from("hello")), 5);
    assert_eq!(slicing::first_word(&String::from("")), 0);
    assert_eq!(slicing::first_word(&String::from(" lead")), 0);
}

#[test]
fn slices_split_hello_world() {
    let (hello, world) = slicing::slices();
    assert_eq!(hello, "hello");
    assert_eq!(world, "world");
}

#[test]
fn first_word2_returns_the_word() {
    assert_eq!(slicing::first_word2(&String::from("hello world")), "hello");
    assert_eq!(slicing::first_word2(&String::from("hello")), "hello");
    assert_eq!(slicing::first_word2(&String::from("")), "");
}

#[test]
fn build_user_fills_every_field() {
    let u = structs::build_user(
        String::from("someone@example.com"),
        String::from("someusername123"),
    );
    assert_eq!(u.email, "someone@example.com");
    assert_eq!(u.username, "someusername123");
    assert!(u.active);
    assert_eq!(u.sign_in_count, 1);
}

#[test]
fn rectangle_areas() {
    assert_eq!(structs::area(30, 50), 1500);
    assert_eq!(structs::area2((30, 50)), 1500);
    assert_eq!(structs::area3(&Rectangle { width: 30, height: 50 }), 1500);
}

#[test]
fn rectanglo_methods() {
    let rect1 = Rectanglo { width: 30, height: 50 };
    let rect2 = Rectanglo { width: 10, height: 40 };
    let rect3 = Rectanglo { width: 60, height: 45 };
    assert_eq!(rect1.area(), 1500);
    assert_eq!(rect1.border(), 160);
    assert!(rect1.can_hold(&rect2));
    assert!(!rect1.can_hold(&rect3));
    let sq = Rectanglo::square(3);
    assert_eq!(sq.width, 3);
    assert_eq!(sq.height, 3);
}

#[test]
fn coin_values() {
    assert_eq!(matching::value_in_cents(Coin::Penny), 1);
    assert_eq!(matching::value_in_cents(Coin::Nickel), 5);
    assert_eq!(matching::value_in_cents(Coin::Dime), 10);
    assert_eq!(matching::value_in_cents(Coin::Quarter), 25);
    assert_eq!(matching::value_in_centss(Coins::Quarter(UsState::Alaska)), 25);
    assert_eq!(matching::value_in_centss(Coins::Quarter(UsState::Alabama)), 25);
    assert_eq!(matching::value_in_centss(Coins::Penny), 1);
}

#[test]
fn plus_one_in_option() {
    assert_eq!(matching::plus_one(Some(5)), Some(6));
    assert_eq!(matching::plus_one(None), None);
}

#[test]
fn vector_lookups() {
    let (third, within, past_end) = collections::aux();
    assert_eq!(third, 3);
    assert_eq!(within, Some(5));
    assert_eq!(past_end, None);
    let v = vec![7, 8];
    assert_eq!(collections::get_element(&v, 0), Some(7));
    assert_eq!(collections::get_element(&v, 2), None);
}

#[test]
fn add_fifty_to_each() {
    let mut v = vec![100, 32, 57];
    collections::add_fifty(&mut v);
    assert_eq!(v, vec![150, 82, 107]);
    assert_eq!(collections::tertiary(), vec![150, 82, 107]);
}

#[test]
fn guess_verdicts() {
    assert_eq!(guessing::compare_guess(10, 42), Verdict::TooLow);
    assert_eq!(guessing::compare_guess(90, 42), Verdict::TooHigh);
    assert_eq!(guessing::compare_guess(42, 42), Verdict::Correct);
}

#[test]
fn secret_is_in_range() {
    for _ in 0..50 {
        let n = guessing::secret_number();
        assert!((1..=100).contains(&n));
    }
}
