//! The spatial model of the table: where each object is drawn, the inverse
//! hit-test from a screen point back to the logical object, and the transient
//! selection a pointer gesture carries.
//!
//! Everything here is pure geometry over the game's abstract state; the
//! actual drawing lives with the front-end drivers.

use vstd::prelude::*;
use crate::card::Card;
use crate::card_collections::Stack;
use crate::game::{Game, GameView};
use crate::shared::{GameObject, PADDING_X, PADDING_Y, TABLE_COLS, TABLE_ROWS};

verus! {

pub const CARD_COLS: u16 = 7;

pub const CARD_ROWS: u16 = 5;

pub const GAP_BETWEEN_STACK_CARDS: u16 = 3;

pub const GAP_BETWEEN_PILE_AND_DECK: u16 = 6;

pub const EMPTY_DECK_X: u16 = TABLE_COLS - CARD_COLS;

pub const EMPTY_DECK_Y: u16 = 0;

pub const PILE_LAST_CARD_X: u16 = EMPTY_DECK_X - 1 - GAP_BETWEEN_PILE_AND_DECK - CARD_COLS;

pub const PILE_LAST_CARD_Y: u16 = 0;

pub const FIRST_SUIT_STACK_X: u16 = 0;

pub const FIRST_SUIT_STACK_Y: u16 = 0;

pub const FIRST_STACK_X: u16 = FIRST_SUIT_STACK_X;

pub const FIRST_STACK_Y: u16 = FIRST_SUIT_STACK_Y + CARD_ROWS + 1;

pub const STACK_CARD_X_OFFSET: u16 = 1;

pub const STACK_CARD_Y_OFFSET: u16 = 2;

/// Subtraction that bottoms out at zero, as the fan layout does at the
/// table's left edge.
pub open spec fn sub_or_zero(a: int, b: int) -> int {
    if a >= b {
        a - b
    } else {
        0
    }
}

/// Whether a point lies within the card-sized rectangle anchored at
/// `(cx, cy)`.
pub open spec fn point_in_card_spec(px: int, py: int, cx: int, cy: int) -> bool {
    cx <= px < cx + CARD_COLS as int && cy <= py < cy + CARD_ROWS as int
}

/// Whether a raw screen point falls outside the padded table area.
pub open spec fn outside_table_spec(x: int, y: int) -> bool {
    x < PADDING_X as int || y < PADDING_Y as int || x >= PADDING_X as int + TABLE_COLS as int || y
        >= PADDING_Y as int + TABLE_ROWS as int
}

/// The deck's rectangle: one cell further left once it is thick enough to
/// show a second edge.
pub open spec fn deck_pos_spec(deck_cards_count: nat) -> (int, int) {
    if deck_cards_count <= 1 {
        (EMPTY_DECK_X as int, EMPTY_DECK_Y as int)
    } else {
        (EMPTY_DECK_X as int - 1, EMPTY_DECK_Y as int)
    }
}

/// Where the pile's fan starts: the visible cards walk backward from the
/// reference position, with one more cell for the face-down placeholder when
/// cards exist below the window.
pub open spec fn pile_pos_spec(all_cards_count: nat, visible_cards_count: nat) -> (int, int) {
    let x1 = sub_or_zero(
        PILE_LAST_CARD_X as int,
        sub_or_zero(visible_cards_count as int, 1) * (CARD_COLS as int / 2),
    );
    let x2 = if visible_cards_count < all_cards_count {
        sub_or_zero(x1, 1)
    } else {
        x1
    };
    (x2, PILE_LAST_CARD_Y as int)
}

pub open spec fn suit_stack_pos_spec(i: int) -> (int, int) {
    (
        FIRST_SUIT_STACK_X as int + i * (CARD_COLS as int + GAP_BETWEEN_STACK_CARDS as int),
        FIRST_SUIT_STACK_Y as int,
    )
}

pub open spec fn stack_pos_spec(i: int) -> (int, int) {
    (
        FIRST_STACK_X as int + i * (CARD_COLS as int + GAP_BETWEEN_STACK_CARDS as int),
        FIRST_STACK_Y as int,
    )
}

/// The rectangle of a tableau's topmost card, cascading down-right from the
/// column origin.
pub open spec fn stack_last_card_pos_spec(cards_count: nat, i: int) -> (int, int) {
    let off = sub_or_zero(cards_count as int, 1);
    (
        stack_pos_spec(i).0 + off * (STACK_CARD_X_OFFSET as int),
        stack_pos_spec(i).1 + off * (STACK_CARD_Y_OFFSET as int),
    )
}

/// Scans a tableau's cards from index `i` downward for one containing the
/// point; the scan stops at the first face-down card.
pub open spec fn card_scan_spec(cards: Seq<Card>, x0: int, y0: int, x: int, y: int, i: int)
    -> Option<int>
    decreases i + 1,
{
    if i < 0 || i >= cards.len() {
        None
    } else if cards[i].hidden {
        None
    } else if point_in_card_spec(
        x,
        y,
        x0 + i * (STACK_CARD_X_OFFSET as int),
        y0 + i * (STACK_CARD_Y_OFFSET as int),
    ) {
        Some(i)
    } else {
        card_scan_spec(cards, x0, y0, x, y, i - 1)
    }
}

/// The first foundation rectangle (from `i` up) containing the point.
pub open spec fn suits_hit_spec(n: int, x: int, y: int, i: int) -> Option<int>
    decreases n - i,
{
    if i < 0 || i >= n {
        None
    } else if point_in_card_spec(x, y, suit_stack_pos_spec(i).0, suit_stack_pos_spec(i).1) {
        Some(i)
    } else {
        suits_hit_spec(n, x, y, i + 1)
    }
}

/// The first tableau (from `i` up) that the point resolves to: its topmost
/// card's rectangle first, else a visible interior card.
pub open spec fn stacks_hit_spec(stacks: Seq<Seq<Card>>, x: int, y: int, i: int) -> GameObject
    decreases stacks.len() - i,
{
    if i < 0 || i >= stacks.len() {
        GameObject::Nothing
    } else {
        let last_pos = stack_last_card_pos_spec(stacks[i].len(), i);
        if point_in_card_spec(x, y, last_pos.0, last_pos.1) {
            GameObject::LastCardOfStack(i as u16)
        } else {
            let scan = card_scan_spec(
                stacks[i],
                stack_pos_spec(i).0,
                stack_pos_spec(i).1,
                x,
                y,
                stacks[i].len() - 1,
            );
            if scan is Some {
                GameObject::CardOfStack { stack_i: i as u16, card_i: scan.unwrap() as u16 }
            } else {
                stacks_hit_spec(stacks, x, y, i + 1)
            }
        }
    }
}

/// The hit-test: which object a raw screen point resolves to, tried in the
/// fixed priority order deck, pile, foundations, tableaux.
pub open spec fn object_at_spec(g: GameView, row: int, column: int) -> GameObject {
    if outside_table_spec(column, row) {
        GameObject::Nothing
    } else {
        let x = column - PADDING_X as int;
        let y = row - PADDING_Y as int;
        let dp = deck_pos_spec(g.deck.len());
        if point_in_card_spec(x, y, dp.0, dp.1) {
            GameObject::Deck
        } else if point_in_card_spec(x, y, PILE_LAST_CARD_X as int, PILE_LAST_CARD_Y as int) {
            GameObject::Pile
        } else if suits_hit_spec(g.suits.len() as int, x, y, 0) is Some {
            GameObject::SuitStack(suits_hit_spec(g.suits.len() as int, x, y, 0).unwrap() as u16)
        } else {
            stacks_hit_spec(g.stacks, x, y, 0)
        }
    }
}

/// Which objects a gesture may pick up: never the deck, never an empty
/// container; nothing and interior (run) cards always.
pub open spec fn can_select_spec(g: GameView, o: GameObject) -> bool {
    match o {
        GameObject::Pile => g.pile.cards.len() > 0,
        GameObject::SuitStack(i) => g.suits[i as int].len() > 0,
        GameObject::LastCardOfStack(i) => g.stacks[i as int].len() > 0,
        GameObject::Nothing | GameObject::CardOfStack { .. } => true,
        GameObject::Deck => false,
    }
}

/// The indices an object carries stay within the game it was resolved
/// against.
pub open spec fn object_indices_valid(g: GameView, o: GameObject) -> bool {
    match o {
        GameObject::SuitStack(i) => (i as int) < g.suits.len(),
        GameObject::LastCardOfStack(i) => (i as int) < g.stacks.len(),
        _ => true,
    }
}

fn is_point_outside_of_table(x: u16, y: u16) -> (r: bool)
    ensures
        r == outside_table_spec(x as int, y as int),
{
    x < PADDING_X || y < PADDING_Y || x >= PADDING_X + TABLE_COLS || y >= PADDING_Y + TABLE_ROWS
}

fn is_point_inside_card(px: u16, py: u16, cx: u16, cy: u16) -> (r: bool)
    requires
        cx + CARD_COLS <= u16::MAX,
        cy + CARD_ROWS <= u16::MAX,
    ensures
        r == point_in_card_spec(px as int, py as int, cx as int, cy as int),
{
    px >= cx && px < cx + CARD_COLS && py >= cy && py < cy + CARD_ROWS
}

pub fn get_deck_position(deck_cards_count: usize) -> (p: (u16, u16))
    ensures
        p.0 as int == deck_pos_spec(deck_cards_count as nat).0,
        p.1 as int == deck_pos_spec(deck_cards_count as nat).1,
{
    if deck_cards_count <= 1 {
        (EMPTY_DECK_X, EMPTY_DECK_Y)
    } else {
        (EMPTY_DECK_X - 1, EMPTY_DECK_Y)
    }
}

pub fn get_pile_position(all_cards_count: usize, visible_cards_count: usize) -> (p: (u16, u16))
    requires
        visible_cards_count <= 52,
    ensures
        p.0 as int == pile_pos_spec(all_cards_count as nat, visible_cards_count as nat).0,
        p.1 as int == pile_pos_spec(all_cards_count as nat, visible_cards_count as nat).1,
{
    let spread = (if visible_cards_count >= 1 {
        (visible_cards_count - 1) as u16
    } else {
        0
    }) * (CARD_COLS / 2);
    let mut x = if PILE_LAST_CARD_X >= spread {
        PILE_LAST_CARD_X - spread
    } else {
        0
    };
    if visible_cards_count < all_cards_count {
        x = if x >= 1 {
            x - 1
        } else {
            0
        };
    }
    (x, PILE_LAST_CARD_Y)
}

pub fn get_suit_stack_position(i: u16) -> (p: (u16, u16))
    requires
        i <= 9,
    ensures
        p.0 as int == suit_stack_pos_spec(i as int).0,
        p.1 as int == suit_stack_pos_spec(i as int).1,
{
    proof {
        assert(i as int * (CARD_COLS as int + GAP_BETWEEN_STACK_CARDS as int) <= 90)
            by (nonlinear_arith)
            requires i <= 9,
        ;
    }
    (FIRST_SUIT_STACK_X + i * (CARD_COLS + GAP_BETWEEN_STACK_CARDS), FIRST_SUIT_STACK_Y)
}

pub fn get_stack_position(i: u16) -> (p: (u16, u16))
    requires
        i <= 9,
    ensures
        p.0 as int == stack_pos_spec(i as int).0,
        p.1 as int == stack_pos_spec(i as int).1,
{
    proof {
        assert(i as int * (CARD_COLS as int + GAP_BETWEEN_STACK_CARDS as int) <= 90)
            by (nonlinear_arith)
            requires i <= 9,
        ;
    }
    (FIRST_STACK_X + i * (CARD_COLS + GAP_BETWEEN_STACK_CARDS), FIRST_STACK_Y)
}

pub fn get_stack_last_card_position(cards_count: usize, i: u16) -> (p: (u16, u16))
    requires
        i <= 9,
        cards_count <= 52,
    ensures
        p.0 as int == stack_last_card_pos_spec(cards_count as nat, i as int).0,
        p.1 as int == stack_last_card_pos_spec(cards_count as nat, i as int).1,
{
    let (x, y) = get_stack_position(i);
    let off = if cards_count >= 1 {
        (cards_count - 1) as u16
    } else {
        0
    };
    (x + off * STACK_CARD_X_OFFSET, y + off * STACK_CARD_Y_OFFSET)
}

/// Scans the visible top run of a tableau for a card containing the point.
fn get_index_of_card_in_stack_at(stack: &Stack, i: u16, x: u16, y: u16) -> (r: Option<u16>)
    requires
        i <= 9,
        stack@.len() <= 52,
    ensures
        ({
            let scan = card_scan_spec(
                stack@,
                stack_pos_spec(i as int).0,
                stack_pos_spec(i as int).1,
                x as int,
                y as int,
                stack@.len() - 1,
            );
            match r {
                Some(ci) => scan == Some(ci as int) && (ci as int) < stack@.len(),
                None => scan is None,
            }
        }),
{
    let (x0, y0) = get_stack_position(i);
    let cards = stack.get_all();
    let len = cards.len();
    let mut idx = len;
    while idx > 0
        invariant
            idx <= len,
            len == stack@.len() <= 52,
            i <= 9,
            cards@ == stack@,
            x0 as int == stack_pos_spec(i as int).0,
            y0 as int == stack_pos_spec(i as int).1,
            card_scan_spec(stack@, x0 as int, y0 as int, x as int, y as int, len - 1)
                == card_scan_spec(stack@, x0 as int, y0 as int, x as int, y as int, idx - 1),
        decreases idx,
    {
        let k = idx - 1;
        let card = &cards[k];
        if card.hidden {
            return None;
        }
        let cx = x0 + (k as u16) * STACK_CARD_X_OFFSET;
        let cy = y0 + (k as u16) * STACK_CARD_Y_OFFSET;
        if is_point_inside_card(x, y, cx, cy) {
            return Some(k as u16);
        }
        idx -= 1;
    }
    None
}

/// The transient interaction state: the object currently picked up by a
/// gesture and the pointer position dragging it.
#[derive(Debug)]
pub struct GameRenderer {
    selected_object: GameObject,
    selected_object_row: u16,
    selected_object_column: u16,
}

impl GameRenderer {
    pub closed spec fn selected(self) -> GameObject {
        self.selected_object
    }

    pub closed spec fn position(self) -> (u16, u16) {
        (self.selected_object_row, self.selected_object_column)
    }

    pub fn new() -> (r: GameRenderer)
        ensures
            r.selected() is Nothing,
            r.position() == (0u16, 0u16),
    {
        GameRenderer {
            selected_object: GameObject::Nothing,
            selected_object_row: 0,
            selected_object_column: 0,
        }
    }

    /// Resolves a raw screen point to the logical object under it.
    pub fn get_object_at(&self, game: &Game, row: u16, column: u16) -> (o: GameObject)
        requires
            game@.suits.len() == 4,
            game@.stacks.len() <= 9,
            forall|t: int| 0 <= t < game@.stacks.len() ==> (#[trigger] game@.stacks[t]).len()
                <= 52,
        ensures
            o == object_at_spec(game@, row as int, column as int),
            object_indices_valid(game@, o),
            o matches GameObject::CardOfStack { stack_i, card_i } ==> (stack_i as int)
                < game@.stacks.len() && (card_i as int) < game@.stacks[stack_i as int].len(),
    {
        if is_point_outside_of_table(column, row) {
            return GameObject::Nothing;
        }
        let x = column - PADDING_X;
        let y = row - PADDING_Y;
        let deck_len = game.deck().len();
        let (dx, dy) = get_deck_position(deck_len);
        if is_point_inside_card(x, y, dx, dy) {
            return GameObject::Deck;
        }
        if is_point_inside_card(x, y, PILE_LAST_CARD_X, PILE_LAST_CARD_Y) {
            return GameObject::Pile;
        }
        let suits_n = game.suit_stacks_count();
        let mut si: usize = 0;
        while si < suits_n
            invariant
                si <= suits_n,
                suits_n == game@.suits.len() == 4,
                x as int == column - PADDING_X as int,
                y as int == row - PADDING_Y as int,
                suits_hit_spec(4, x as int, y as int, 0) == suits_hit_spec(
                    4,
                    x as int,
                    y as int,
                    si as int,
                ),
            decreases suits_n - si,
        {
            let (sx, sy) = get_suit_stack_position(si as u16);
            if is_point_inside_card(x, y, sx, sy) {
                proof {
                    assert(suits_hit_spec(4, x as int, y as int, si as int) == Some(si as int));
                }
                return GameObject::SuitStack(si as u16);
            }
            si += 1;
        }
        let stacks_n = game.stacks_count();
        let mut ti: usize = 0;
        while ti < stacks_n
            invariant
                ti <= stacks_n,
                game@.suits.len() == 4,
                stacks_n == game@.stacks.len() <= 9,
                forall|t: int|
                    0 <= t < game@.stacks.len() ==> (#[trigger] game@.stacks[t]).len() <= 52,
                x as int == column - PADDING_X as int,
                y as int == row - PADDING_Y as int,
                !outside_table_spec(column as int, row as int),
                !point_in_card_spec(
                    x as int,
                    y as int,
                    deck_pos_spec(game@.deck.len()).0,
                    deck_pos_spec(game@.deck.len()).1,
                ),
                !point_in_card_spec(
                    x as int,
                    y as int,
                    PILE_LAST_CARD_X as int,
                    PILE_LAST_CARD_Y as int,
                ),
                suits_hit_spec(game@.suits.len() as int, x as int, y as int, 0) is None,
                stacks_hit_spec(game@.stacks, x as int, y as int, 0) == stacks_hit_spec(
                    game@.stacks,
                    x as int,
                    y as int,
                    ti as int,
                ),
            decreases stacks_n - ti,
        {
            let st = game.stack(ti);
            let (lx, ly) = get_stack_last_card_position(st.len(), ti as u16);
            if is_point_inside_card(x, y, lx, ly) {
                return GameObject::LastCardOfStack(ti as u16);
            }
            if let Some(ci) = get_index_of_card_in_stack_at(st, ti as u16, x, y) {
                return GameObject::CardOfStack { stack_i: ti as u16, card_i: ci };
            }
            ti += 1;
        }
        GameObject::Nothing
    }

    pub fn get_selected_object(&self) -> (o: GameObject)
        ensures
            o == self.selected(),
    {
        self.selected_object
    }

    /// Picks an object up, refusing a dangling selection over an empty
    /// container.
    pub fn select_object(&mut self, game: &Game, object: GameObject)
        requires
            object_indices_valid(game@, object),
        ensures
            final(self).selected() == if can_select_spec(game@, object) {
                object
            } else {
                old(self).selected()
            },
            final(self).position() == old(self).position(),
    {
        let can_set = match object {
            GameObject::Pile => !game.pile().is_empty(),
            GameObject::SuitStack(i) => !game.suit_stack(i as usize).is_empty(),
            GameObject::LastCardOfStack(i) => !game.stack(i as usize).is_empty(),
            GameObject::Nothing | GameObject::CardOfStack { .. } => true,
            GameObject::Deck => false,
        };

        if can_set {
            self.selected_object = object;
        }
    }

    pub fn set_selected_object_position(&mut self, row: u16, column: u16)
        ensures
            final(self).selected() == old(self).selected(),
            final(self).position() == (row, column),
    {
        self.selected_object_row = row;
        self.selected_object_column = column;
    }

    pub fn get_selected_object_position(&self) -> (p: (u16, u16))
        ensures
            p == self.position(),
    {
        (self.selected_object_row, self.selected_object_column)
    }
}

} // verus!
