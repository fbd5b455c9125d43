//! The interaction state machine: one pointer-down / drag / pointer-up
//! gesture resolved against the game.
//!
//! The engine owns the transient selection and decides, from the objects the
//! hit-test resolves, which move to attempt. A front-end driver feeds it raw
//! pointer events and repaints afterwards; the engine itself never performs
//! I/O.

use vstd::prelude::*;
use crate::game::{Game, lemma_wf_container_bounds, click_deck_post, pile_to_stack_ok, pile_to_stack_post, pile_to_suit_ok,
    pile_to_suit_post, stack_to_stack_ok, stack_to_stack_post, stack_to_suit_ok,
    stack_to_suit_post, suit_to_stack_ok, suit_to_stack_post, triangle};
use crate::renderer::{GameRenderer, can_select_spec, object_at_spec};
use crate::shared::GameObject;

verus! {

/// Runs gestures against a game; owns the selection between pointer-down and
/// pointer-up.
#[derive(Debug)]
pub struct GameEngine {
    renderer: GameRenderer,
}

impl GameEngine {
    pub closed spec fn selected(self) -> GameObject {
        self.renderer.selected()
    }

    pub closed spec fn position(self) -> (u16, u16) {
        self.renderer.position()
    }

    pub fn new() -> (e: GameEngine)
        ensures
            e.selected() is Nothing,
    {
        GameEngine { renderer: GameRenderer::new() }
    }

    /// The selection state, for a driver that draws the held object.
    pub fn renderer(&self) -> (r: &GameRenderer)
        ensures
            r.selected() == self.selected(),
            r.position() == self.position(),
    {
        &self.renderer
    }

    /// Resolves a screen point against the game, for a driver's own use.
    pub fn object_at(&self, game: &Game, row: u16, column: u16) -> (o: GameObject)
        requires
            game.wf(),
        ensures
            o == object_at_spec(game@, row as int, column as int),
    {
        proof {
            lemma_wf_container_bounds(game@);
        }
        self.renderer.get_object_at(game, row, column)
    }

    /// Deals the game afresh; the selection is untouched.
    pub fn restart(&mut self, game: &mut Game)
        requires
            old(game).wf(),
        ensures
            final(game).wf(),
            final(game)@.stacks.len() == old(game)@.stacks.len(),
            final(game)@.pile.window == old(game)@.pile.window,
            final(game)@.pile.cards.len() == 0,
            final(game)@.deck.len() == 52 - triangle(final(game)@.stacks.len() as int),
            *final(self) == *old(self),
    {
        game.restart();
    }

    /// The deck click: recycle or draw; never fails.
    pub fn on_click_on_deck(&mut self, game: &mut Game)
        requires
            old(game).wf(),
        ensures
            final(game).wf(),
            click_deck_post(old(game)@, final(game)@),
            *final(self) == *old(self),
    {
        game.move_cards_from_deck_to_pile();
    }

    /// Pointer down: a deck hit draws immediately; a pile, foundation or
    /// tableau-top hit starts a pick-up gesture. Returns whether the table
    /// needs repainting.
    pub fn on_mouse_down(&mut self, game: &mut Game, row: u16, column: u16) -> (r: bool)
        requires
            old(game).wf(),
        ensures
            final(game).wf(),
            ({
                let o = object_at_spec(old(game)@, row as int, column as int);
                &&& r == (o is Deck)
                &&& (o is Deck ==> click_deck_post(old(game)@, final(game)@) && *final(self)
                    == *old(self))
                &&& (!(o is Deck) ==> final(game)@ == old(game)@)
                &&& (match o {
                    GameObject::Pile | GameObject::LastCardOfStack(_) | GameObject::SuitStack(_) => {
                        &&& final(self).selected() == (if can_select_spec(old(game)@, o) {
                            o
                        } else {
                            old(self).selected()
                        })
                        &&& final(self).position() == (row, column)
                    },
                    GameObject::Deck => true,
                    _ => *final(self) == *old(self),
                })
            }),
    {
        proof {
            lemma_wf_container_bounds(game@);
        }
        let object = self.renderer.get_object_at(game, row, column);
        match object {
            GameObject::Deck => {
                self.on_click_on_deck(game);
            },
            GameObject::Pile | GameObject::LastCardOfStack(_) | GameObject::SuitStack(_) => {
                self.renderer.select_object(game, object);
                self.renderer.set_selected_object_position(row, column);
            },
            _ => {},
        }

        match object {
            GameObject::Deck => true,
            _ => false,
        }
    }

    /// Pointer up: resolves the held object against the drop target into a
    /// move attempt, then clears the selection whatever the outcome. Returns
    /// whether the table needs repainting.
    pub fn on_mouse_up(&mut self, game: &mut Game, row: u16, column: u16) -> (r: bool)
        requires
            old(game).wf(),
        ensures
            final(game).wf(),
            final(self).selected() is Nothing,
            final(self).position() == old(self).position(),
            r == !(old(self).selected() is Nothing),
            ({
                let sel = old(self).selected();
                let target = object_at_spec(old(game)@, row as int, column as int);
                match (sel, target) {
                    (GameObject::Pile, GameObject::SuitStack(j)) => if pile_to_suit_ok(
                        old(game)@,
                        j as int,
                    ) {
                        pile_to_suit_post(old(game)@, final(game)@, j as int)
                    } else {
                        final(game)@ == old(game)@
                    },
                    (GameObject::Pile, GameObject::LastCardOfStack(j)) => if pile_to_stack_ok(
                        old(game)@,
                        j as int,
                    ) {
                        pile_to_stack_post(old(game)@, final(game)@, j as int)
                    } else {
                        final(game)@ == old(game)@
                    },
                    (GameObject::SuitStack(i), GameObject::LastCardOfStack(j)) => if suit_to_stack_ok(
                        old(game)@,
                        i as int,
                        j as int,
                    ) {
                        suit_to_stack_post(old(game)@, final(game)@, i as int, j as int)
                    } else {
                        final(game)@ == old(game)@
                    },
                    (GameObject::LastCardOfStack(i), GameObject::SuitStack(j)) => if stack_to_suit_ok(
                        old(game)@,
                        i as int,
                        j as int,
                    ) {
                        stack_to_suit_post(old(game)@, final(game)@, i as int, j as int)
                    } else {
                        final(game)@ == old(game)@
                    },
                    (
                        GameObject::LastCardOfStack(i),
                        GameObject::LastCardOfStack(j),
                    ) => if stack_to_stack_ok(old(game)@, i as int, j as int) {
                        stack_to_stack_post(old(game)@, final(game)@, i as int, j as int)
                    } else {
                        final(game)@ == old(game)@
                    },
                    _ => final(game)@ == old(game)@,
                }
            }),
    {
        let selected_object = self.renderer.get_selected_object();
        if selected_object.is_none() {
            return false;
        }

        let target_object = {
            proof {
                lemma_wf_container_bounds(game@);
            }
            self.renderer.get_object_at(game, row, column)
        };

        match (selected_object, target_object) {
            (GameObject::Pile, GameObject::SuitStack(j)) => {
                game.move_card_from_pile_to_suit_stack(j as usize);
            },
            (GameObject::Pile, GameObject::LastCardOfStack(j)) => {
                game.move_card_from_pile_to_stack(j as usize);
            },
            (GameObject::SuitStack(i), GameObject::LastCardOfStack(j)) => {
                game.move_card_from_suit_stack_to_stack(i as usize, j as usize);
            },
            (GameObject::LastCardOfStack(i), GameObject::SuitStack(j)) => {
                game.move_card_from_stack_to_suit_stack(i as usize, j as usize);
            },
            (GameObject::LastCardOfStack(i), GameObject::LastCardOfStack(j)) => {
                game.move_card_from_stack_to_stack(i as usize, j as usize);
            },
            _ => {},
        }

        self.renderer.select_object(game, GameObject::Nothing);

        true
    }

    /// Pointer drag: repositions the held image only; the game is untouched.
    /// Returns whether the table needs repainting.
    pub fn on_mouse_drag(&mut self, row: u16, column: u16) -> (r: bool)
        ensures
            final(self).selected() == old(self).selected(),
            final(self).position() == (row, column),
            r == !(old(self).selected() is Nothing),
    {
        self.renderer.set_selected_object_position(row, column);

        !self.renderer.get_selected_object().is_none()
    }
}

} // verus!
