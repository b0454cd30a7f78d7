//! A three-star rating.

use vstd::prelude::*;

verus! {

#[derive(Clone, Copy, Debug, PartialEq, Eq, Structural)]
pub enum Rating {
    One,
    Two,
    Three,
}

impl Rating {
    /// The number of stars.
    pub fn as_int(&self) -> (r: u8)
        ensures
            r == match *self {
                Rating::One => 1u8,
                Rating::Two => 2u8,
                Rating::Three => 3u8,
            },
    {
        match self {
            Rating::One => 1,
            Rating::Two => 2,
            Rating::Three => 3,
        }
    }
}

/// Whether the rating has between one and three stars, which every rating has.
pub fn check_rating(rating: Rating) -> (r: bool)
    ensures
        r,
{
    let n = rating.as_int();
    1 <= n && n <= 3
}

/// The rating chosen by `choice`: 0 is one star, 1 two, anything else three.
pub fn any_rating(choice: u32) -> (r: Rating)
    ensures
        choice == 0 ==> r == Rating::One,
        choice == 1 ==> r == Rating::Two,
        choice > 1 ==> r == Rating::Three,
{
    match choice {
        0 => Rating::One,
        1 => Rating::Two,
        _ => Rating::Three,
    }
}

} // verus!
