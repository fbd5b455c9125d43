//! The covering rule on concrete cards.

use klondike::card::{Card, CoveringOrder, Suit, Value};
use klondike::shared::GameObject;

fn up(value: Value, suit: Suit) -> Card {
    Card { value, suit, hidden: false }
}

#[test]
fn empty_target_accepts_only_an_ace_ascending() {
    let ace = up(Value::Ace, Suit::Spades);
    assert!(Card::can_one_be_covered_with_another(None, Some(&ace), CoveringOrder::Ascending));
    let two = up(Value::Two, Suit::Spades);
    assert!(!Card::can_one_be_covered_with_another(None, Some(&two), CoveringOrder::Ascending));
}

#[test]
fn empty_target_accepts_only_a_king_descending() {
    let king = up(Value::King, Suit::Hearts);
    assert!(Card::can_one_be_covered_with_another(None, Some(&king), CoveringOrder::Descending));
    let queen = up(Value::Queen, Suit::Hearts);
    assert!(!Card::can_one_be_covered_with_another(
        None,
        Some(&queen),
        CoveringOrder::Descending
    ));
}

#[test]
fn no_card_offered_is_never_accepted() {
    let seven = up(Value::Seven, Suit::Spades);
    assert!(!Card::can_one_be_covered_with_another(
        Some(&seven),
        None,
        CoveringOrder::Descending
    ));
    assert!(!Card::can_one_be_covered_with_another(
        Some(&seven),
        None,
        CoveringOrder::Ascending
    ));
    assert!(!Card::can_one_be_covered_with_another(None, None, CoveringOrder::Ascending));
    assert!(!Card::can_one_be_covered_with_another(None, None, CoveringOrder::Descending));
}

#[test]
fn descending_needs_opposite_color_one_rank_lower() {
    let seven_spades = up(Value::Seven, Suit::Spades);
    let six_hearts = up(Value::Six, Suit::Hearts);
    assert!(Card::can_one_be_covered_with_another(
        Some(&seven_spades),
        Some(&six_hearts),
        CoveringOrder::Descending
    ));
    let six_clubs = up(Value::Six, Suit::Clubs);
    assert!(!Card::can_one_be_covered_with_another(
        Some(&seven_spades),
        Some(&six_clubs),
        CoveringOrder::Descending
    ));
    let five_hearts = up(Value::Five, Suit::Hearts);
    assert!(!Card::can_one_be_covered_with_another(
        Some(&seven_spades),
        Some(&five_hearts),
        CoveringOrder::Descending
    ));
}

#[test]
fn ascending_needs_same_suit_one_rank_higher() {
    let seven_spades = up(Value::Seven, Suit::Spades);
    let eight_spades = up(Value::Eight, Suit::Spades);
    assert!(Card::can_one_be_covered_with_another(
        Some(&seven_spades),
        Some(&eight_spades),
        CoveringOrder::Ascending
    ));
    let eight_hearts = up(Value::Eight, Suit::Hearts);
    assert!(!Card::can_one_be_covered_with_another(
        Some(&seven_spades),
        Some(&eight_hearts),
        CoveringOrder::Ascending
    ));
    let six_spades = up(Value::Six, Suit::Spades);
    assert!(!Card::can_one_be_covered_with_another(
        Some(&seven_spades),
        Some(&six_spades),
        CoveringOrder::Ascending
    ));
}

#[test]
fn ace_is_low_king_is_high() {
    // An ace on a two descending: the two is next after the ace.
    let two_hearts = up(Value::Two, Suit::Hearts);
    let ace_spades = up(Value::Ace, Suit::Spades);
    assert!(Card::can_one_be_covered_with_another(
        Some(&two_hearts),
        Some(&ace_spades),
        CoveringOrder::Descending
    ));
    // Nothing ascends past a king onto an ace.
    let king_spades = up(Value::King, Suit::Spades);
    assert!(!Card::can_one_be_covered_with_another(
        Some(&ace_spades),
        Some(&king_spades),
        CoveringOrder::Ascending
    ));
    // A queen ascends onto a jack's successor chain, not the other way.
    let queen_spades = up(Value::Queen, Suit::Spades);
    assert!(Card::can_one_be_covered_with_another(
        Some(&queen_spades),
        Some(&king_spades),
        CoveringOrder::Ascending
    ));
}

#[test]
fn hidden_flag_does_not_change_the_rule() {
    let seven_spades = Card::new(Value::Seven, Suit::Spades);
    assert!(seven_spades.hidden);
    let six_hearts = Card::new(Value::Six, Suit::Hearts);
    assert!(Card::can_one_be_covered_with_another(
        Some(&seven_spades),
        Some(&six_hearts),
        CoveringOrder::Descending
    ));
}

#[test]
fn new_cards_are_dealt_face_down_and_reveal() {
    let mut c = Card::new(Value::Jack, Suit::Diamonds);
    assert!(c.hidden);
    c.turn_face_up();
    assert!(!c.hidden);
    assert_eq!(c.value, Value::Jack);
    assert_eq!(c.suit, Suit::Diamonds);
}

#[test]
fn value_and_suit_symbols() {
    assert_eq!(Value::Ace.symbol(), "A");
    assert_eq!(Value::Two.symbol(), "2");
    assert_eq!(Value::Ten.symbol(), "10");
    assert_eq!(Value::Jack.symbol(), "J");
    assert_eq!(Value::Queen.symbol(), "Q");
    assert_eq!(Value::King.symbol(), "K");
    assert_eq!(Suit::Spades.symbol(), "♠");
    assert_eq!(Suit::Hearts.symbol(), "♥");
    assert_eq!(Suit::Diamonds.symbol(), "♦");
    assert_eq!(Suit::Clubs.symbol(), "♣");
}

#[test]
fn game_object_is_none() {
    assert!(GameObject::Nothing.is_none());
    assert!(!GameObject::Deck.is_none());
    assert!(!GameObject::Pile.is_none());
    assert!(!GameObject::SuitStack(0).is_none());
    assert!(!GameObject::LastCardOfStack(3).is_none());
    assert!(!GameObject::CardOfStack { stack_i: 1, card_i: 2 }.is_none());
}
