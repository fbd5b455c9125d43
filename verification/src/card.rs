//! Cards and the covering rule that every move of the game is built on.

use vstd::prelude::*;

verus! {

/// The colour a suit is mapped to; only the colour, never the suit itself,
/// matters for descending (tableau) placement.
#[derive(Clone, Copy, PartialEq, Eq, Structural)]
enum Color {
    Black,
    Red,
}

#[derive(Debug, Clone, Copy, PartialEq, Eq, Structural)]
pub enum Suit {
    Clubs,
    Diamonds,
    Spades,
    Hearts,
}

#[derive(Debug, Clone, Copy, PartialEq, Eq, Structural)]
pub enum Value {
    Two,
    Three,
    Four,
    Five,
    Six,
    Seven,
    Eight,
    Nine,
    Ten,
    Jack,
    Queen,
    King,
    Ace,
}

#[derive(Debug, Clone, Copy, PartialEq, Eq, Structural)]
pub struct Card {
    pub value: Value,
    pub suit: Suit,
    pub hidden: bool,
}

/// The direction in which a newly placed card covers a target: foundations
/// grow `Ascending` (same suit, one rank up), tableaux grow `Descending`
/// (opposite colour, one rank down).
#[derive(Debug, Clone, Copy, PartialEq, Eq, Structural)]
pub enum CoveringOrder {
    Ascending,
    Descending,
}

impl Suit {
    /// Hearts and diamonds are red; spades and clubs are black.
    pub open spec fn is_red(self) -> bool {
        self == Suit::Hearts || self == Suit::Diamonds
    }

    pub open spec fn same_color_spec(self, another: Suit) -> bool {
        self.is_red() == another.is_red()
    }

    /// The glyph a front end prints for this suit.
    pub open spec fn symbol_spec(self) -> Seq<char> {
        match self {
            Suit::Clubs => "♣"@,
            Suit::Diamonds => "♦"@,
            Suit::Spades => "♠"@,
            Suit::Hearts => "♥"@,
        }
    }

    pub fn symbol(&self) -> (r: &'static str)
        ensures
            r@ == self.symbol_spec(),
    {
        match self {
            Suit::Clubs => "♣",
            Suit::Diamonds => "♦",
            Suit::Spades => "♠",
            Suit::Hearts => "♥",
        }
    }

    fn color(&self) -> (c: Color)
        ensures
            c == Color::Red <==> self.is_red(),
    {
        match self {
            Suit::Hearts | Suit::Diamonds => Color::Red,
            Suit::Spades | Suit::Clubs => Color::Black,
        }
    }

    fn has_same_color_with(&self, another: &Suit) -> (r: bool)
        ensures
            r == self.same_color_spec(*another),
    {
        self.color() == another.color()
    }
}

impl Value {
    /// The numeric rank: aces are low (1), kings high (13).
    pub open spec fn rank_spec(self) -> int {
        match self {
            Value::Two => 2,
            Value::Three => 3,
            Value::Four => 4,
            Value::Five => 5,
            Value::Six => 6,
            Value::Seven => 7,
            Value::Eight => 8,
            Value::Nine => 9,
            Value::Ten => 10,
            Value::Jack => 11,
            Value::Queen => 12,
            Value::King => 13,
            Value::Ace => 1,
        }
    }

    pub fn rank(&self) -> (r: u8)
        ensures
            r == self.rank_spec(),
    {
        match self {
            Value::Two => 2,
            Value::Three => 3,
            Value::Four => 4,
            Value::Five => 5,
            Value::Six => 6,
            Value::Seven => 7,
            Value::Eight => 8,
            Value::Nine => 9,
            Value::Ten => 10,
            Value::Jack => 11,
            Value::Queen => 12,
            Value::King => 13,
            Value::Ace => 1,
        }
    }

    /// The glyph a front end prints for this value.
    pub open spec fn symbol_spec(self) -> Seq<char> {
        match self {
            Value::Two => "2"@,
            Value::Three => "3"@,
            Value::Four => "4"@,
            Value::Five => "5"@,
            Value::Six => "6"@,
            Value::Seven => "7"@,
            Value::Eight => "8"@,
            Value::Nine => "9"@,
            Value::Ten => "10"@,
            Value::Jack => "J"@,
            Value::Queen => "Q"@,
            Value::King => "K"@,
            Value::Ace => "A"@,
        }
    }

    pub fn symbol(&self) -> (r: &'static str)
        ensures
            r@ == self.symbol_spec(),
    {
        match self {
            Value::Two => "2",
            Value::Three => "3",
            Value::Four => "4",
            Value::Five => "5",
            Value::Six => "6",
            Value::Seven => "7",
            Value::Eight => "8",
            Value::Nine => "9",
            Value::Ten => "10",
            Value::Jack => "J",
            Value::Queen => "Q",
            Value::King => "K",
            Value::Ace => "A",
        }
    }

    pub open spec fn is_next_after_spec(self, value: Value) -> bool {
        self.rank_spec() == value.rank_spec() + 1
    }

    fn is_next_after(&self, value: &Value) -> (r: bool)
        ensures
            r == self.is_next_after_spec(*value),
    {
        self.rank() == value.rank() + 1
    }
}

/// The covering rule over optional tops: what `Card::can_one_be_covered_with_another`
/// returns for every combination of target top, offered card and order.
pub open spec fn can_cover_spec(
    card_to_cover: Option<Card>,
    covering_card: Option<Card>,
    order: CoveringOrder,
) -> bool {
    match (card_to_cover, covering_card) {
        (Some(target), Some(covering)) => match order {
            CoveringOrder::Ascending => target.suit == covering.suit
                && covering.value.is_next_after_spec(target.value),
            CoveringOrder::Descending => !target.suit.same_color_spec(covering.suit)
                && target.value.is_next_after_spec(covering.value),
        },
        (None, Some(covering)) => match order {
            CoveringOrder::Ascending => covering.value == Value::Ace,
            CoveringOrder::Descending => covering.value == Value::King,
        },
        _ => false,
    }
}

/// Drops the references from an optional borrowed card, for use in contracts.
pub open spec fn copy_opt_card(card: Option<&Card>) -> Option<Card> {
    match card {
        Some(c) => Some(*c),
        None => None,
    }
}

impl Card {
    /// A new card is dealt face down.
    pub fn new(value: Value, suit: Suit) -> (c: Card)
        ensures
            c == (Card { value, suit, hidden: true }),
    {
        Card { value, suit, hidden: true }
    }

    pub fn can_one_be_covered_with_another(
        card_to_cover: Option<&Card>,
        covering_card: Option<&Card>,
        order: CoveringOrder,
    ) -> (r: bool)
        ensures
            r == can_cover_spec(copy_opt_card(card_to_cover), copy_opt_card(covering_card), order),
    {
        match (card_to_cover, covering_card) {
            (Some(card_to_cover), Some(covering_card)) => {
                card_to_cover.can_be_covered_with(covering_card, order)
            },
            (None, Some(covering_card)) => match order {
                CoveringOrder::Ascending => covering_card.value == Value::Ace,
                CoveringOrder::Descending => covering_card.value == Value::King,
            },
            _ => false,
        }
    }

    fn can_be_covered_with(&self, card: &Card, order: CoveringOrder) -> (r: bool)
        ensures
            r == can_cover_spec(Some(*self), Some(*card), order),
    {
        match order {
            CoveringOrder::Ascending => {
                self.suit == card.suit && card.value.is_next_after(&self.value)
            },
            CoveringOrder::Descending => {
                !self.suit.has_same_color_with(&card.suit) && self.value.is_next_after(&card.value)
            },
        }
    }

    pub fn turn_face_up(&mut self)
        ensures
            *final(self) == old(self).revealed(),
    {
        self.hidden = false;
    }

    /// The same card, face up.
    pub open spec fn revealed(self) -> Card {
        Card { value: self.value, suit: self.suit, hidden: false }
    }

    /// The identity of a card: the pair that exists exactly once in a full deck.
    pub open spec fn id(self) -> (Value, Suit) {
        (self.value, self.suit)
    }
}

} // verus!
