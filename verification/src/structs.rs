//! Verified struct demonstrations: a user record built from its parts,
//! and rectangle areas computed from loose values, a tuple, a struct
//! field pair, and methods.

use vstd::prelude::*;

verus! {

/// A basic account record.
#[derive(Debug)]
pub struct User {
    pub username: String,
    pub email: String,
    pub sign_in_count: u64,
    pub active: bool,
}

/// Builds an active user with a single sign-in from the given email and
/// username.
pub fn build_user(email: String, username: String) -> (u: User)
    ensures
        u.email == email,
        u.username == username,
        u.active,
        u.sign_in_count == 1,
{
    User { email, username, active: true, sign_in_count: 1 }
}

/// Area of a rectangle given as two loose values.
pub fn area(width: u32, height: u32) -> (a: u32)
    requires
        width * height <= u32::MAX,
    ensures
        a == width * height,
{
    width * height
}

/// Area of a rectangle given as a tuple.
pub fn area2(dimensions: (u32, u32)) -> (a: u32)
    requires
        dimensions.0 * dimensions.1 <= u32::MAX,
    ensures
        a == dimensions.0 * dimensions.1,
{
    dimensions.0 * dimensions.1
}

/// A rectangle with named dimensions.
#[derive(Debug)]
pub struct Rectangle {
    pub width: u32,
    pub height: u32,
}

/// Area of a rectangle taken by shared reference.
pub fn area3(rectangle: &Rectangle) -> (a: u32)
    requires
        rectangle.width * rectangle.height <= u32::MAX,
    ensures
        a == rectangle.width * rectangle.height,
{
    rectangle.width * rectangle.height
}

/// The same rectangle, with the computations as methods.
#[derive(Debug)]
pub struct Rectanglo {
    pub width: u32,
    pub height: u32,
}

impl Rectanglo {
    /// The rectangle's area.
    pub fn area(&self) -> (a: u32)
        requires
            self.width * self.height <= u32::MAX,
        ensures
            a == self.width * self.height,
    {
        self.width * self.height
    }

    /// The length of the rectangle's border.
    pub fn border(&self) -> (b: u32)
        requires
            (self.width + self.height) * 2 <= u32::MAX,
        ensures
            b == (self.width + self.height) * 2,
    {
        (self.width + self.height) * 2
    }

    /// Whether `other` fits strictly inside this rectangle.
    pub fn can_hold(&self, other: &Rectanglo) -> (r: bool)
        ensures
            r == (self.width > other.width && self.height > other.height),
    {
        self.width > other.width && self.height > other.height
    }

    /// A square with the given side length.
    pub fn square(size: u32) -> (r: Rectanglo)
        ensures
            r.width == size,
            r.height == size,
    {
        Rectanglo { width: size, height: size }
    }
}

} // verus!
