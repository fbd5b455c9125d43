//! The logical objects a screen point can resolve to, and the fixed bounds
//! of the table both front ends share.

use vstd::prelude::*;

verus! {

pub const PADDING_X: u16 = 2;

pub const PADDING_Y: u16 = 1;

pub const TABLE_COLS: u16 = 78;

pub const TABLE_ROWS: u16 = 35;

/// A logical object on the table: the deck, the waste, a foundation, a
/// tableau's accessible top, an interior (run) card of a tableau, or nothing.
#[derive(Debug, Clone, Copy, PartialEq, Eq, Structural)]
pub enum GameObject {
    Deck,
    Pile,
    CardOfStack { stack_i: u16, card_i: u16 },
    LastCardOfStack(u16),
    SuitStack(u16),
    Nothing,
}

impl GameObject {
    pub fn is_none(&self) -> (r: bool)
        ensures
            r == (*self is Nothing),
    {
        match self {
            GameObject::Nothing => true,
            _ => false,
        }
    }
}

} // verus!
