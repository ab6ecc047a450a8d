use vstd::prelude::*;

verus! {

/// The thirteen ranks, in the order of a card's identity modulo 13.
#[derive(PartialEq, Eq, Structural, Clone, Copy, Debug)]
pub enum Rank {
    Ace,
    Two,
    Three,
    Four,
    Five,
    Six,
    Seven,
    Eight,
    Nine,
    Ten,
    Jack,
    Queen,
    King,
}

/// The four suits, in the order of a card's identity divided by 13.
#[derive(PartialEq, Eq, Structural, Clone, Copy, Debug)]
pub enum Suit {
    Clubs,
    Diamonds,
    Hearts,
    Spades,
}

/// A card, identified by an integer; identities in `0..52` are valid.
#[derive(PartialEq, Eq, Structural, Clone, Copy, Debug)]
pub struct Card(pub u8);

/// Number of distinct cards in a deck.
pub const DECK_SIZE: usize = 52;

impl Rank {
    /// Position of the rank in `Ace, Two, ..., King`, from 0.
    pub open spec fn index(self) -> nat {
        match self {
            Rank::Ace => 0,
            Rank::Two => 1,
            Rank::Three => 2,
            Rank::Four => 3,
            Rank::Five => 4,
            Rank::Six => 5,
            Rank::Seven => 6,
            Rank::Eight => 7,
            Rank::Nine => 8,
            Rank::Ten => 9,
            Rank::Jack => 10,
            Rank::Queen => 11,
            Rank::King => 12,
        }
    }

    /// The short text shown for a rank.
    pub open spec fn text(self) -> Seq<char> {
        match self {
            Rank::Ace => seq!['A'],
            Rank::Two => seq!['2'],
            Rank::Three => seq!['3'],
            Rank::Four => seq!['4'],
            Rank::Five => seq!['5'],
            Rank::Six => seq!['6'],
            Rank::Seven => seq!['7'],
            Rank::Eight => seq!['8'],
            Rank::Nine => seq!['9'],
            Rank::Ten => seq!['1', '0'],
            Rank::Jack => seq!['J'],
            Rank::Queen => seq!['Q'],
            Rank::King => seq!['K'],
        }
    }

    pub fn single_char(self) -> (r: &'static str)
        ensures
            r@ == self.text(),
    {
        proof {
            reveal_strlit("A");
            reveal_strlit("2");
            reveal_strlit("3");
            reveal_strlit("4");
            reveal_strlit("5");
            reveal_strlit("6");
            reveal_strlit("7");
            reveal_strlit("8");
            reveal_strlit("9");
            reveal_strlit("10");
            reveal_strlit("J");
            reveal_strlit("Q");
            reveal_strlit("K");
        }
        match self {
            Rank::Ace => "A",
            Rank::Jack => "J",
            Rank::Queen => "Q",
            Rank::King => "K",
            Rank::Two => "2",
            Rank::Three => "3",
            Rank::Four => "4",
            Rank::Five => "5",
            Rank::Six => "6",
            Rank::Seven => "7",
            Rank::Eight => "8",
            Rank::Nine => "9",
            Rank::Ten => "10",
        }
    }
}

impl Suit {
    /// Position of the suit in `Clubs, Diamonds, Hearts, Spades`, from 0.
    pub open spec fn index(self) -> nat {
        match self {
            Suit::Clubs => 0,
            Suit::Diamonds => 1,
            Suit::Hearts => 2,
            Suit::Spades => 3,
        }
    }

    /// The symbol shown for a suit.
    pub open spec fn text(self) -> Seq<char> {
        match self {
            Suit::Clubs => seq!['\u{2663}'],
            Suit::Diamonds => seq!['\u{2666}'],
            Suit::Hearts => seq!['\u{2665}'],
            Suit::Spades => seq!['\u{2660}'],
        }
    }

    pub fn single_char(self) -> (r: &'static str)
        ensures
            r@ == self.text(),
    {
        proof {
            reveal_strlit("\u{2663}");
            reveal_strlit("\u{2666}");
            reveal_strlit("\u{2665}");
            reveal_strlit("\u{2660}");
        }
        match self {
            Suit::Clubs => "\u{2663}",
            Suit::Diamonds => "\u{2666}",
            Suit::Hearts => "\u{2665}",
            Suit::Spades => "\u{2660}",
        }
    }
}

/// The rank with the given position, from 0 (positions past 12 give a King).
pub open spec fn rank_at(i: nat) -> Rank {
    if i == 0 { Rank::Ace }
    else if i == 1 { Rank::Two }
    else if i == 2 { Rank::Three }
    else if i == 3 { Rank::Four }
    else if i == 4 { Rank::Five }
    else if i == 5 { Rank::Six }
    else if i == 6 { Rank::Seven }
    else if i == 7 { Rank::Eight }
    else if i == 8 { Rank::Nine }
    else if i == 9 { Rank::Ten }
    else if i == 10 { Rank::Jack }
    else if i == 11 { Rank::Queen }
    else { Rank::King }
}

/// The suit with the given position, from 0 (positions past 3 give Spades).
pub open spec fn suit_at(i: nat) -> Suit {
    if i == 0 { Suit::Clubs }
    else if i == 1 { Suit::Diamonds }
    else if i == 2 { Suit::Hearts }
    else { Suit::Spades }
}

/// The identity of the card of a given rank and suit.
pub open spec fn card_id(r: Rank, s: Suit) -> nat {
    s.index() * 13 + r.index()
}

impl Card {
    /// The card's identity is a valid one.
    pub open spec fn valid(self) -> bool {
        self.0 < 52
    }

    pub open spec fn rank_spec(self) -> Rank {
        rank_at((self.0 % 13) as nat)
    }

    pub open spec fn suit_spec(self) -> Suit {
        suit_at((self.0 / 13) as nat)
    }

    pub fn rank(&self) -> (r: Rank)
        requires
            self.valid(),
        ensures
            r == self.rank_spec(),
            r.index() == self.0 % 13,
    {
        match self.0 % 13 {
            0 => Rank::Ace,
            1 => Rank::Two,
            2 => Rank::Three,
            3 => Rank::Four,
            4 => Rank::Five,
            5 => Rank::Six,
            6 => Rank::Seven,
            7 => Rank::Eight,
            8 => Rank::Nine,
            9 => Rank::Ten,
            10 => Rank::Jack,
            11 => Rank::Queen,
            _ => Rank::King,
        }
    }

    pub fn suit(&self) -> (r: Suit)
        requires
            self.valid(),
        ensures
            r == self.suit_spec(),
            r.index() == self.0 / 13,
    {
        match self.0 / 13 {
            0 => Suit::Clubs,
            1 => Suit::Diamonds,
            2 => Suit::Hearts,
            _ => Suit::Spades,
        }
    }
}

/// Decoding a valid identity into its rank and suit and encoding them again
/// gives back the identity; and every rank and suit pair decodes from its own
/// encoding, so the two maps are inverse bijections.
pub proof fn lemma_card_round_trip(c: Card, r: Rank, s: Suit)
    ensures
        c.valid() ==> card_id(c.rank_spec(), c.suit_spec()) == c.0,
        card_id(r, s) < 52,
        Card(card_id(r, s) as u8).rank_spec() == r,
        Card(card_id(r, s) as u8).suit_spec() == s,
{
    let id = card_id(r, s);
    assert(id as u8 == id);
    assert((id as u8) % 13 == r.index());
    assert((id as u8) / 13 == s.index());
}

} // verus!
