use vstd::prelude::*;

verus! {

/// Lowest rank of a card.
pub const RANK_MIN: u8 = 1;

/// Highest rank of a card.
pub const RANK_MAX: u8 = 9;

/// Number of suits.
pub const NUM_SUITS: usize = 4;

/// Number of cards in a full deck: every rank of every suit once.
pub const DECK_SIZE: usize = 36;

/// Cards of this rank or higher are animals; lower ones are hunters.
pub const ANIMAL_RANK_START: u8 = 6;

/// Number of animal cards of one kind (one suit).
pub const ANIMAL_COPIES: usize = 4;

/// Number of hunter ranks (a complete hunter stack has this many cards).
pub const NUM_HUNTER_RANKS: usize = 5;

/// The four suits. For an animal card the suit is its kind.
#[derive(Clone, Copy, Debug, PartialEq, Eq, Structural, Hash)]
pub enum Suit {
    Clubs,
    Diamonds,
    Hearts,
    Spades,
}

/// The colour of a suit: hunters stack by alternating colour.
#[derive(Clone, Copy, Debug, PartialEq, Eq, Structural, Hash)]
pub enum SuitColor {
    Black,
    Red,
}

/// The colour of each suit.
pub open spec fn suit_color(s: Suit) -> SuitColor {
    match s {
        Suit::Clubs => SuitColor::Black,
        Suit::Spades => SuitColor::Black,
        Suit::Diamonds => SuitColor::Red,
        Suit::Hearts => SuitColor::Red,
    }
}

/// The suit at a position of the order Clubs, Diamonds, Hearts, Spades.
pub open spec fn suit_at(i: int) -> Suit {
    if i == 0 {
        Suit::Clubs
    } else if i == 1 {
        Suit::Diamonds
    } else if i == 2 {
        Suit::Hearts
    } else {
        Suit::Spades
    }
}

impl Suit {
    /// The colour of this suit.
    pub fn color(self) -> (c: SuitColor)
        ensures
            c == suit_color(self),
    {
        match self {
            Suit::Clubs => SuitColor::Black,
            Suit::Diamonds => SuitColor::Red,
            Suit::Hearts => SuitColor::Red,
            Suit::Spades => SuitColor::Black,
        }
    }

    /// All suits, in the order Clubs, Diamonds, Hearts, Spades.
    pub fn all() -> (v: Vec<Suit>)
        ensures
            v@.len() == NUM_SUITS,
            forall|i: int| 0 <= i < NUM_SUITS ==> #[trigger] v@[i] == suit_at(i),
    {
        vec![Suit::Clubs, Suit::Diamonds, Suit::Hearts, Suit::Spades]
    }
}

/// A card: a rank and a suit.
#[derive(Clone, Copy, Debug, PartialEq, Eq, Structural, Hash)]
pub struct Card {
    pub rank: u8,
    pub suit: Suit,
}

/// Whether a card is an animal (its rank is at least `ANIMAL_RANK_START`).
pub open spec fn is_animal_card(c: Card) -> bool {
    c.rank >= ANIMAL_RANK_START
}

/// The full deck in order: ranks ascending, within a rank the suits in the order
/// Clubs, Diamonds, Hearts, Spades.
pub open spec fn full_deck() -> Seq<Card> {
    Seq::new(
        DECK_SIZE as nat,
        |i: int| Card { rank: (RANK_MIN + i / (NUM_SUITS as int)) as u8, suit: suit_at(i % (NUM_SUITS as int)) },
    )
}

impl Card {
    /// Whether this card is an animal.
    pub fn is_animal(self) -> (b: bool)
        ensures
            b == is_animal_card(self),
    {
        self.rank >= ANIMAL_RANK_START
    }

    /// Whether this card is a hunter, that is not an animal.
    pub fn is_hunter(self) -> (b: bool)
        ensures
            b == !is_animal_card(self),
    {
        !self.is_animal()
    }
}

/// What a card's face shows: a hunter its rank and the colour of its suit, an animal
/// its kind.
#[derive(Clone, Copy, Debug, PartialEq, Eq, Structural, Hash)]
pub enum CardFace {
    Number(u8, SuitColor),
    Animal(Suit),
}

/// The face of a card.
pub open spec fn face_of(card: Card) -> CardFace {
    if is_animal_card(card) {
        CardFace::Animal(card.suit)
    } else {
        CardFace::Number(card.rank, suit_color(card.suit))
    }
}

/// The face of a card: the rank and suit colour of a hunter, the kind of an animal.
pub fn card_face(card: Card) -> (f: CardFace)
    ensures
        f == face_of(card),
{
    if card.is_hunter() {
        CardFace::Number(card.rank, card.suit.color())
    } else {
        CardFace::Animal(card.suit)
    }
}

} // verus!
