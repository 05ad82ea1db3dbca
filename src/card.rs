use vstd::prelude::*;

verus! {

/// One of the four suits. Jesters carry a placeholder suit.
#[derive(Clone, Copy, Debug, PartialEq, Eq, Structural, Hash)]
pub enum Suit {
    Hearts,
    Diamonds,
    Clubs,
    Spades,
}

#[derive(Clone, Copy, Debug, PartialEq, Eq, Structural, Hash)]
pub enum Rank {
    Two,
    Three,
    Four,
    Five,
    Six,
    Seven,
    Eight,
    Nine,
    Ten,
    Jack,
    Queen,
    King,
    Ace,
    Jester,
}

/// A playing card; two cards are equal when suit and rank agree.
#[derive(Clone, Copy, Debug, PartialEq, Eq, Structural, Hash)]
pub struct Card {
    pub suit: Suit,
    pub rank: Rank,
}

/// The point value of a rank: pips for 2..10, 1 for an Ace (animal companion),
/// 10, 15, 20 for Jack, Queen, King, and 0 for a Jester.
pub open spec fn rank_value(r: Rank) -> nat {
    match r {
        Rank::Two => 2,
        Rank::Three => 3,
        Rank::Four => 4,
        Rank::Five => 5,
        Rank::Six => 6,
        Rank::Seven => 7,
        Rank::Eight => 8,
        Rank::Nine => 9,
        Rank::Ten => 10,
        Rank::Jack => 10,
        Rank::Queen => 15,
        Rank::King => 20,
        Rank::Ace => 1,
        Rank::Jester => 0,
    }
}

/// The point value of a card.
pub open spec fn card_value(c: Card) -> nat {
    rank_value(c.rank)
}

/// Position of a suit in the order Hearts, Diamonds, Clubs, Spades.
pub open spec fn suit_index(s: Suit) -> int {
    match s {
        Suit::Hearts => 0,
        Suit::Diamonds => 1,
        Suit::Clubs => 2,
        Suit::Spades => 3,
    }
}

/// The suit at position `i` of the order Hearts, Diamonds, Clubs, Spades.
pub open spec fn suit_at(i: int) -> Suit {
    if i <= 0 {
        Suit::Hearts
    } else if i == 1 {
        Suit::Diamonds
    } else if i == 2 {
        Suit::Clubs
    } else {
        Suit::Spades
    }
}

/// Whether a rank is one of the numbered ranks 2..10.
pub open spec fn is_numbered(r: Rank) -> bool {
    match r {
        Rank::Two | Rank::Three | Rank::Four | Rank::Five | Rank::Six | Rank::Seven
        | Rank::Eight | Rank::Nine | Rank::Ten => true,
        _ => false,
    }
}

/// Position of a numbered rank among 2..10 (Two is 0, Ten is 8).
pub open spec fn number_index(r: Rank) -> int {
    rank_value(r) - 2
}

/// The numbered rank at position `i` among 2..10.
pub open spec fn number_at(i: int) -> Rank {
    if i <= 0 {
        Rank::Two
    } else if i == 1 {
        Rank::Three
    } else if i == 2 {
        Rank::Four
    } else if i == 3 {
        Rank::Five
    } else if i == 4 {
        Rank::Six
    } else if i == 5 {
        Rank::Seven
    } else if i == 6 {
        Rank::Eight
    } else if i == 7 {
        Rank::Nine
    } else {
        Rank::Ten
    }
}

impl Card {
    pub fn new(suit: Suit, rank: Rank) -> (r: Card)
        ensures
            r == (Card { suit, rank }),
    {
        Card { suit, rank }
    }

    /// The card's point value, used for damage and survival arithmetic.
    pub fn value(&self) -> (r: u8)
        ensures
            r as nat == card_value(*self),
    {
        match self.rank {
            Rank::Two => 2,
            Rank::Three => 3,
            Rank::Four => 4,
            Rank::Five => 5,
            Rank::Six => 6,
            Rank::Seven => 7,
            Rank::Eight => 8,
            Rank::Nine => 9,
            Rank::Ten => 10,
            Rank::Jack => 10,
            Rank::Queen => 15,
            Rank::King => 20,
            Rank::Ace => 1,
            Rank::Jester => 0,
        }
    }
}

/// The suit at position `i` of the order Hearts, Diamonds, Clubs, Spades.
pub fn suit_from_index(i: usize) -> (r: Suit)
    requires
        i < 4,
    ensures
        r == suit_at(i as int),
        suit_index(r) == i,
{
    if i == 0 {
        Suit::Hearts
    } else if i == 1 {
        Suit::Diamonds
    } else if i == 2 {
        Suit::Clubs
    } else {
        Suit::Spades
    }
}

/// The numbered rank at position `i` among 2..10.
pub fn number_from_index(i: usize) -> (r: Rank)
    requires
        i < 9,
    ensures
        r == number_at(i as int),
        is_numbered(r),
        number_index(r) == i,
{
    if i == 0 {
        Rank::Two
    } else if i == 1 {
        Rank::Three
    } else if i == 2 {
        Rank::Four
    } else if i == 3 {
        Rank::Five
    } else if i == 4 {
        Rank::Six
    } else if i == 5 {
        Rank::Seven
    } else if i == 6 {
        Rank::Eight
    } else if i == 7 {
        Rank::Nine
    } else {
        Rank::Ten
    }
}

} // verus!
