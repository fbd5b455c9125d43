//! The game: dealing, the move operations, and the card-set census.

use klondike::card::{Card, Suit, Value};
use klondike::card_collections::{Deck, Pile, Stack};
use klondike::game::Game;

const VALUES: [Value; 13] = [
    Value::Ace,
    Value::Two,
    Value::Three,
    Value::Four,
    Value::Five,
    Value::Six,
    Value::Seven,
    Value::Eight,
    Value::Nine,
    Value::Ten,
    Value::Jack,
    Value::Queen,
    Value::King,
];

fn up(value: Value, suit: Suit) -> Card {
    Card { value, suit, hidden: false }
}

fn id(c: &Card) -> (u8, u8) {
    let v = c.value.rank();
    let s = match c.suit {
        Suit::Clubs => 0,
        Suit::Hearts => 1,
        Suit::Spades => 2,
        Suit::Diamonds => 3,
    };
    (v, s)
}

fn empty_suit_stacks() -> Vec<Stack> {
    (0..4).map(|_| Stack::with_capacity(13)).collect()
}

fn empty_stacks(n: usize) -> Vec<Stack> {
    (0..n).map(|_| Stack::with_capacity(13)).collect()
}

/// Every (rank, suit) pair found across all containers, sorted.
fn census(g: &Game) -> Vec<(u8, u8, bool)> {
    let mut all: Vec<(u8, u8, bool)> = Vec::new();
    for c in g.deck().get_all() {
        all.push((id(c).0, id(c).1, c.hidden));
    }
    for c in g.pile().get_all() {
        all.push((id(c).0, id(c).1, c.hidden));
    }
    for i in 0..g.suit_stacks_count() {
        for c in g.suit_stack(i).get_all() {
            all.push((id(c).0, id(c).1, c.hidden));
        }
    }
    for i in 0..g.stacks_count() {
        for c in g.stack(i).get_all() {
            all.push((id(c).0, id(c).1, c.hidden));
        }
    }
    all
}

fn card_set(g: &Game) -> Vec<(u8, u8)> {
    let mut ids: Vec<(u8, u8)> = census(g).iter().map(|&(v, s, _)| (v, s)).collect();
    ids.sort();
    ids
}

fn full_set() -> Vec<(u8, u8)> {
    let mut ids = Vec::new();
    for v in VALUES {
        for s in 0..4u8 {
            ids.push((v.rank(), s));
        }
    }
    ids.sort();
    ids
}

/// The exact state of every container, for unchanged-on-failure checks.
fn snapshot(g: &Game) -> Vec<Vec<(u8, u8, bool)>> {
    let mut shot: Vec<Vec<(u8, u8, bool)>> = Vec::new();
    shot.push(g.deck().get_all().iter().map(|c| (id(c).0, id(c).1, c.hidden)).collect());
    shot.push(g.pile().get_all().iter().map(|c| (id(c).0, id(c).1, c.hidden)).collect());
    for i in 0..g.suit_stacks_count() {
        shot.push(g.suit_stack(i).get_all().iter().map(|c| (id(c).0, id(c).1, c.hidden)).collect());
    }
    for i in 0..g.stacks_count() {
        shot.push(g.stack(i).get_all().iter().map(|c| (id(c).0, id(c).1, c.hidden)).collect());
    }
    shot
}

#[test]
fn deal_shapes_the_triangle() {
    let g = Game::new(7, 3);
    assert_eq!(g.stacks_count(), 7);
    assert_eq!(g.suit_stacks_count(), 4);
    assert_eq!(g.pile().len(), 0);
    for i in 0..4 {
        assert_eq!(g.suit_stack(i).len(), 0);
    }
    for i in 0..7 {
        let st = g.stack(i);
        assert_eq!(st.len(), i + 1);
        let cards = st.get_all();
        for (k, c) in cards.iter().enumerate() {
            assert_eq!(c.hidden, k != st.len() - 1);
        }
    }
    assert_eq!(g.deck().len(), 24);
    assert!(g.deck().get_all().iter().all(|c| c.hidden));
}

#[test]
fn deal_spreads_the_full_card_set() {
    let g = Game::new(7, 3);
    assert_eq!(card_set(&g), full_set());
}

#[test]
fn card_set_is_preserved_by_play() {
    let mut g = Game::new(7, 3);
    g.move_cards_from_deck_to_pile();
    g.move_cards_from_deck_to_pile();
    for i in 0..7 {
        for j in 0..7 {
            g.move_card_from_stack_to_stack(i, j);
            g.move_card_from_pile_to_stack(j);
        }
        g.move_card_from_stack_to_suit_stack(i, 0);
        g.move_card_from_pile_to_suit_stack(0);
    }
    assert_eq!(card_set(&g), full_set());
}

#[test]
fn restart_deals_afresh() {
    let mut g = Game::new(7, 3);
    g.move_cards_from_deck_to_pile();
    g.restart();
    assert_eq!(g.pile().len(), 0);
    assert_eq!(g.deck().len(), 24);
    for i in 0..7 {
        assert_eq!(g.stack(i).len(), i + 1);
    }
    for i in 0..4 {
        assert_eq!(g.suit_stack(i).len(), 0);
    }
    assert_eq!(card_set(&g), full_set());
}

#[test]
fn default_game_is_the_customary_deal() {
    let g = Game::default();
    assert_eq!(g.stacks_count(), 7);
    assert_eq!(g.deck().len(), 24);
}

#[test]
fn smaller_deals_follow_the_same_triangle() {
    let g = Game::new(3, 3);
    assert_eq!(g.stacks_count(), 3);
    for i in 0..3 {
        assert_eq!(g.stack(i).len(), i + 1);
    }
    assert_eq!(g.deck().len(), 52 - 6);
    assert_eq!(card_set(&g), full_set());
}

#[test]
fn failed_moves_change_nothing() {
    let mut g = Game::new(7, 3);
    let before = snapshot(&g);

    // Same source and destination.
    assert!(!g.move_card_from_stack_to_stack(2, 2));
    // Indices out of range.
    assert!(!g.move_card_from_stack_to_stack(0, 99));
    assert!(!g.move_card_from_stack_to_stack(99, 0));
    assert!(!g.move_card_from_pile_to_stack(99));
    assert!(!g.move_card_from_pile_to_suit_stack(99));
    assert!(!g.move_card_from_stack_to_suit_stack(99, 0));
    assert!(!g.move_card_from_suit_stack_to_stack(99, 0));
    assert!(!g.move_cards_from_stack_to_stack(1, 1, 0));
    assert!(!g.move_cards_from_stack_to_stack(0, 1, 99));
    // The pile is empty, so nothing can leave it.
    assert!(!g.move_card_from_pile_to_stack(0));
    assert!(!g.move_card_from_pile_to_suit_stack(0));
    // The foundations are empty, so nothing can leave them.
    assert!(!g.move_card_from_suit_stack_to_stack(0, 0));

    assert_eq!(snapshot(&g), before);
}

#[test]
fn failed_rule_checks_change_nothing() {
    // Tableau 0: 7♠ face up; tableau 1: 9♣ face up: no descending fit.
    let mut stacks = empty_stacks(7);
    stacks[0].push(up(Value::Seven, Suit::Spades));
    stacks[1].push(up(Value::Nine, Suit::Clubs));
    let mut g = Game::from_parts(
        Deck::from_stack(Stack::with_capacity(0)),
        empty_suit_stacks(),
        stacks,
        Pile::new(3, 52),
    );
    let before = snapshot(&g);
    assert!(!g.move_card_from_stack_to_stack(0, 1));
    assert!(!g.move_cards_from_stack_to_stack(0, 1, 0));
    // A seven cannot open a foundation either.
    assert!(!g.move_card_from_stack_to_suit_stack(0, 0));
    assert_eq!(snapshot(&g), before);
}

#[test]
fn single_card_moves_follow_the_covering_rule() {
    // Tableau 0 holds 6♥ on 7♠ after the move; foundation grows by suit.
    let mut stacks = empty_stacks(7);
    stacks[0].push(up(Value::Seven, Suit::Spades));
    stacks[1].push(up(Value::Six, Suit::Hearts));
    stacks[2].push(up(Value::Ace, Suit::Diamonds));
    let mut g = Game::from_parts(
        Deck::from_stack(Stack::with_capacity(0)),
        empty_suit_stacks(),
        stacks,
        Pile::new(3, 52),
    );

    // 6♥ onto 7♠ descending.
    assert!(g.move_card_from_stack_to_stack(1, 0));
    assert_eq!(g.stack(0).len(), 2);
    assert_eq!(g.stack(1).len(), 0);
    assert_eq!(g.stack(0).last().unwrap().value, Value::Six);

    // A♦ opens a foundation; 2♦ would follow, 2♥ would not.
    assert!(g.move_card_from_stack_to_suit_stack(2, 3));
    assert_eq!(g.suit_stack(3).len(), 1);
    assert_eq!(g.suit_stack(3).last().unwrap().value, Value::Ace);

    // A foundation top may come back down: A♦ lands on 2♠ descending
    // (opposite color, one rank lower).
    let mut stacks = empty_stacks(7);
    stacks[0].push(up(Value::Two, Suit::Spades));
    let mut suits = empty_suit_stacks();
    suits[0].push(up(Value::Ace, Suit::Diamonds));
    let mut g = Game::from_parts(
        Deck::from_stack(Stack::with_capacity(0)),
        suits,
        stacks,
        Pile::new(3, 52),
    );
    assert!(g.move_card_from_suit_stack_to_stack(0, 0));
    assert_eq!(g.suit_stack(0).len(), 0);
    assert_eq!(g.stack(0).len(), 2);
    assert_eq!(g.stack(0).last().unwrap().value, Value::Ace);
}

#[test]
fn pile_moves_take_the_pile_top() {
    // Pile (drawn) holds A♣ then 6♦ on top; tableau 0 shows 7♠.
    let mut base = Stack::with_capacity(2);
    base.push(Card::new(Value::Six, Suit::Diamonds));
    base.push(Card::new(Value::Ace, Suit::Clubs));
    let mut deck = Deck::from_stack(base);
    let mut pile = Pile::new(3, 52);
    pile.pull_from(&mut deck);
    assert_eq!(pile.len(), 2);

    let mut stacks = empty_stacks(7);
    stacks[0].push(up(Value::Seven, Suit::Spades));
    let mut g = Game::from_parts(deck, empty_suit_stacks(), stacks, pile);

    // Pile top is 6♦ (drawn last): it fits on 7♠.
    assert!(g.move_card_from_pile_to_stack(0));
    assert_eq!(g.pile().len(), 1);
    assert_eq!(g.stack(0).len(), 2);
    assert_eq!(g.stack(0).last().unwrap().value, Value::Six);

    // Now the pile top is A♣: it opens a foundation.
    assert!(g.move_card_from_pile_to_suit_stack(2));
    assert_eq!(g.pile().len(), 0);
    assert_eq!(g.suit_stack(2).last().unwrap().value, Value::Ace);
}

#[test]
fn moving_a_card_reveals_the_one_beneath() {
    // Tableau 0: a hidden 9♥ under a face-up 6♥; tableau 1: 7♠.
    let mut stacks = empty_stacks(7);
    stacks[0].push(Card::new(Value::Nine, Suit::Hearts));
    stacks[0].push(up(Value::Six, Suit::Hearts));
    stacks[1].push(up(Value::Seven, Suit::Spades));
    let mut g = Game::from_parts(
        Deck::from_stack(Stack::with_capacity(0)),
        empty_suit_stacks(),
        stacks,
        Pile::new(3, 52),
    );
    assert!(g.stack(0).get_all()[0].hidden);
    assert!(g.move_card_from_stack_to_stack(0, 1));
    assert!(!g.stack(0).get_all()[0].hidden);
    assert_eq!(g.stack(0).len(), 1);
}

#[test]
fn run_move_carries_the_run_in_order() {
    // Source tableau: hidden cards, then the face-up run 8♦ 7♠ 6♦.
    let mut stacks = empty_stacks(7);
    stacks[0].push(Card::new(Value::King, Suit::Hearts));
    stacks[0].push(up(Value::Eight, Suit::Diamonds));
    stacks[0].push(up(Value::Seven, Suit::Spades));
    stacks[0].push(up(Value::Six, Suit::Diamonds));
    stacks[1].push(up(Value::Nine, Suit::Clubs));
    let mut g = Game::from_parts(
        Deck::from_stack(Stack::with_capacity(0)),
        empty_suit_stacks(),
        stacks,
        Pile::new(3, 52),
    );

    assert!(g.move_cards_from_stack_to_stack(0, 1, 1));

    // The run landed on the 9♣ in its original order.
    let dest = g.stack(1).get_all();
    assert_eq!(dest.len(), 4);
    assert_eq!(dest[0].value, Value::Nine);
    assert_eq!(dest[1].value, Value::Eight);
    assert_eq!(dest[1].suit, Suit::Diamonds);
    assert_eq!(dest[2].value, Value::Seven);
    assert_eq!(dest[2].suit, Suit::Spades);
    assert_eq!(dest[3].value, Value::Six);
    assert_eq!(dest[3].suit, Suit::Diamonds);

    // The source's new top was forced face up.
    assert_eq!(g.stack(0).len(), 1);
    let left = g.stack(0).last().unwrap();
    assert_eq!(left.value, Value::King);
    assert!(!left.hidden);
}

#[test]
fn run_move_refuses_a_hidden_start() {
    let mut stacks = empty_stacks(7);
    stacks[0].push(Card::new(Value::Eight, Suit::Diamonds));
    stacks[0].push(up(Value::Seven, Suit::Spades));
    stacks[1].push(up(Value::Nine, Suit::Clubs));
    let mut g = Game::from_parts(
        Deck::from_stack(Stack::with_capacity(0)),
        empty_suit_stacks(),
        stacks,
        Pile::new(3, 52),
    );
    let before = snapshot(&g);
    // Index 0 is the hidden 8♦: the move must fail even though the rank fits.
    assert!(!g.move_cards_from_stack_to_stack(0, 1, 0));
    assert_eq!(snapshot(&g), before);
}

#[test]
fn a_king_run_may_open_an_empty_tableau() {
    let mut stacks = empty_stacks(7);
    stacks[0].push(up(Value::King, Suit::Hearts));
    stacks[0].push(up(Value::Queen, Suit::Spades));
    let mut g = Game::from_parts(
        Deck::from_stack(Stack::with_capacity(0)),
        empty_suit_stacks(),
        stacks,
        Pile::new(3, 52),
    );
    assert!(g.move_cards_from_stack_to_stack(0, 3, 0));
    assert_eq!(g.stack(0).len(), 0);
    assert_eq!(g.stack(3).len(), 2);
    // A queen-led run cannot open an empty column.
    let before = snapshot(&g);
    assert!(!g.move_cards_from_stack_to_stack(3, 0, 1));
    assert_eq!(snapshot(&g), before);
}

#[test]
fn click_deck_draws_up_to_the_window() {
    let mut g = Game::new(7, 3);
    g.move_cards_from_deck_to_pile();
    assert_eq!(g.deck().len(), 21);
    assert_eq!(g.pile().len(), 3);
    let visible = g.pile().get_visible_cards();
    assert_eq!(visible.len(), 3);
    assert!(visible.iter().all(|c| !c.hidden));
}

#[test]
fn click_deck_recycles_and_repeats_the_draw_order() {
    // Deck drawn in order A,B,C,D,E,F over two clicks.
    let draws = [
        (Value::Ace, Suit::Clubs),
        (Value::Two, Suit::Hearts),
        (Value::Three, Suit::Spades),
        (Value::Four, Suit::Diamonds),
        (Value::Five, Suit::Clubs),
        (Value::Six, Suit::Hearts),
    ];
    let mut base = Stack::with_capacity(6);
    for (v, s) in draws.iter().rev() {
        base.push(Card::new(*v, *s));
    }
    let mut g = Game::from_parts(
        Deck::from_stack(base),
        empty_suit_stacks(),
        empty_stacks(7),
        Pile::new(3, 52),
    );
    let first: Vec<(u8, u8)> = {
        g.move_cards_from_deck_to_pile();
        let mut seen: Vec<(u8, u8)> = g.pile().get_visible_cards().iter().map(id).collect();
        g.move_cards_from_deck_to_pile();
        seen.extend(g.pile().get_visible_cards().iter().map(id));
        seen
    };
    assert_eq!(g.deck().len(), 0);
    assert_eq!(g.pile().len(), 6);

    // The deck is empty: this click recycles the whole pile.
    g.move_cards_from_deck_to_pile();
    assert_eq!(g.deck().len(), 6);
    assert_eq!(g.pile().len(), 0);

    // Drawing again repeats the exact same sequence.
    let second: Vec<(u8, u8)> = {
        g.move_cards_from_deck_to_pile();
        let mut seen: Vec<(u8, u8)> = g.pile().get_visible_cards().iter().map(id).collect();
        g.move_cards_from_deck_to_pile();
        seen.extend(g.pile().get_visible_cards().iter().map(id));
        seen
    };
    assert_eq!(first, second);
    assert_eq!(
        first,
        draws.iter().map(|(v, s)| id(&Card::new(*v, *s))).collect::<Vec<_>>()
    );
}

#[test]
fn a_foundation_builds_ace_to_king_and_no_further() {
    // Tableau 0 holds spades from the king down to the ace on top.
    let mut stacks = empty_stacks(7);
    for v in VALUES.iter().rev() {
        stacks[0].push(up(*v, Suit::Spades));
    }
    stacks[1].push(up(Value::Two, Suit::Hearts));
    let mut g = Game::from_parts(
        Deck::from_stack(Stack::with_capacity(0)),
        empty_suit_stacks(),
        stacks,
        Pile::new(3, 52),
    );
    for moved in 0..13 {
        assert!(g.move_card_from_stack_to_suit_stack(0, 0));
        assert_eq!(g.suit_stack(0).len(), moved + 1);
    }
    assert_eq!(g.suit_stack(0).len(), 13);
    assert_eq!(g.suit_stack(0).last().unwrap().value, Value::King);
    // Nothing goes on top of a king, and certainly not a heart.
    assert!(!g.move_card_from_stack_to_suit_stack(1, 0));
    // The ascending order was strict: ranks read 1..=13 from the bottom.
    for (k, c) in g.suit_stack(0).get_all().iter().enumerate() {
        assert_eq!(c.value.rank() as usize, k + 1);
        assert_eq!(c.suit, Suit::Spades);
    }
}
