//! The card containers: the plain `Stack`, the drawing `Deck`, and the
//! windowed waste `Pile`.

use vstd::prelude::*;
use rand::seq::SliceRandom;
use crate::card::{Card, Value, Suit};
use crate::card_set::{ids, standard_ids, standard_deck, standard_card, value_of_index,
    suit_of_index, reveal_top, lemma_ids_respects_multiset};

verus! {

/// An ordered pile of cards; the last element is the accessible top.
#[derive(Debug)]
pub struct Stack(Vec<Card>);

/// The waste: wraps a stack and exposes only the trailing window of up to
/// `size` cards as visible.
#[derive(Debug)]
pub struct Pile {
    cards: Stack,
    size: usize,
}

/// The drawing deck: a stack seeded with the full shuffled card set.
#[derive(Debug)]
pub struct Deck {
    cards: Stack,
}

impl View for Stack {
    type V = Seq<Card>;

    closed spec fn view(&self) -> Seq<Card> {
        self.0@
    }
}

/// The abstract state of a `Pile`: its cards and the width of its visible
/// window.
#[verifier::ext_equal]
pub struct PileView {
    pub cards: Seq<Card>,
    pub window: nat,
}

impl PileView {
    /// The trailing window of cards the pile shows.
    pub open spec fn visible(self) -> Seq<Card> {
        if self.cards.len() >= self.window {
            self.cards.skip(self.cards.len() - self.window)
        } else {
            self.cards
        }
    }
}

impl View for Pile {
    type V = PileView;

    closed spec fn view(&self) -> PileView {
        PileView { cards: self.cards@, window: self.size as nat }
    }
}

impl View for Deck {
    type V = Seq<Card>;

    closed spec fn view(&self) -> Seq<Card> {
        self.cards@
    }
}

impl Stack {
    pub fn with_capacity(capacity: usize) -> (s: Stack)
        ensures
            s@ == Seq::<Card>::empty(),
    {
        Stack(Vec::with_capacity(capacity))
    }

    pub fn push(&mut self, card: Card)
        ensures
            final(self)@ == old(self)@.push(card),
    {
        self.0.push(card);
    }

    pub fn pop(&mut self) -> (r: Option<Card>)
        ensures
            old(self)@.len() > 0 ==> r == Some(old(self)@.last()) && final(self)@ == old(
                self,
            )@.drop_last(),
            old(self)@.len() == 0 ==> r is None && final(self)@ == old(self)@,
    {
        self.0.pop()
    }

    pub fn last(&self) -> (r: Option<&Card>)
        ensures
            match r {
                Some(c) => self@.len() > 0 && *c == self@.last(),
                None => self@.len() == 0,
            },
    {
        if self.0.len() == 0 {
            None
        } else {
            Some(&self.0[self.0.len() - 1])
        }
    }

    /// The card just under the top, if there are at least two.
    pub fn prelast(&self) -> (r: Option<&Card>)
        ensures
            match r {
                Some(c) => self@.len() >= 2 && *c == self@[self@.len() - 2],
                None => self@.len() < 2,
            },
    {
        if self.0.len() < 2 {
            None
        } else {
            Some(&self.0[self.0.len() - 2])
        }
    }

    /// Moves the top card, if any, onto `stack`.
    pub fn pop_into(&mut self, stack: &mut Stack)
        ensures
            old(self)@.len() > 0 ==> final(self)@ == old(self)@.drop_last() && final(stack)@ == old(
                stack,
            )@.push(old(self)@.last()),
            old(self)@.len() == 0 ==> final(self)@ == old(self)@ && final(stack)@ == old(stack)@,
    {
        if let Some(card) = self.0.pop() {
            stack.push(card);
        }
    }

    /// Moves the last `n` cards (or all, if fewer) onto `stack`, one at a
    /// time, so their order reverses.
    pub fn pop_n_last_into(&mut self, n: usize, stack: &mut Stack)
        ensures
            ({
                let k = if n <= old(self)@.len() {
                    n as int
                } else {
                    old(self)@.len() as int
                };
                &&& final(self)@ == old(self)@.take(old(self)@.len() - k)
                &&& final(stack)@ == old(stack)@ + old(self)@.skip(old(self)@.len() - k).reverse()
            }),
    {
        let ghost src0 = self@;
        let ghost dst0 = stack@;
        let ghost k: int = if n <= src0.len() { n as int } else { src0.len() as int };
        let mut i: usize = 0;
        while i < n
            invariant_except_break
                i <= n,
                i <= src0.len(),
                i <= k,
                k == if n <= src0.len() { n as int } else { src0.len() as int },
                self@ == src0.take(src0.len() - i),
                stack@ == dst0 + src0.skip(src0.len() - i).reverse(),
            ensures
                self@ == src0.take(src0.len() - k),
                stack@ == dst0 + src0.skip(src0.len() - k).reverse(),
            decreases n - i,
        {
            if let Some(card) = self.0.pop() {
                stack.push(card);
                proof {
                    assert(src0.take(src0.len() - i).len() > 0);
                    assert(card == src0[src0.len() - i - 1]);
                    assert(self@ =~= src0.take(src0.len() - (i + 1)));
                    assert(stack@ =~= dst0 + src0.skip(src0.len() - (i + 1)).reverse());
                }
            } else {
                proof {
                    assert(src0.take(src0.len() - i).len() == 0);
                    assert(i >= src0.len());
                    assert(i == src0.len() && k == src0.len());
                }
                break;
            }
            i += 1;
        }
    }

    pub fn is_empty(&self) -> (r: bool)
        ensures
            r == (self@.len() == 0),
    {
        self.0.is_empty()
    }

    pub fn len(&self) -> (r: usize)
        ensures
            r == self@.len(),
    {
        self.0.len()
    }

    /// Turns every card face up.
    pub fn reveal_all(&mut self)
        ensures
            final(self)@.len() == old(self)@.len(),
            forall|i: int| 0 <= i < old(self)@.len() ==> final(self)@[i] == old(
                self,
            )@[i].revealed(),
    {
        let n = self.0.len();
        let mut i: usize = 0;
        while i < n
            invariant
                i <= n,
                n == self@.len(),
                self@.len() == old(self)@.len(),
                forall|j: int| 0 <= j < i ==> self@[j] == old(self)@[j].revealed(),
                forall|j: int| i <= j < n ==> self@[j] == old(self)@[j],
            decreases n - i,
        {
            self.0[i].turn_face_up();
            i += 1;
        }
    }

    /// Turns the top card, if any, face up.
    pub fn reveal_last(&mut self)
        ensures
            final(self)@ == reveal_top(old(self)@),
    {
        let n = self.0.len();
        if n > 0 {
            self.0[n - 1].turn_face_up();
            proof {
                assert(final(self)@ =~= reveal_top(old(self)@));
            }
        }
    }

    pub fn get_all(&self) -> (r: &[Card])
        ensures
            r@ == self@,
    {
        self.0.as_slice()
    }

    pub fn clear(&mut self)
        ensures
            final(self)@ == Seq::<Card>::empty(),
    {
        self.0.clear();
    }
}

impl Pile {
    pub fn new(size: usize, capacity: usize) -> (p: Pile)
        ensures
            p@.cards == Seq::<Card>::empty(),
            p@.window == size,
    {
        Pile { cards: Stack::with_capacity(capacity), size }
    }

    /// Draws up to `window` cards, one at a time, from the top of `deck`;
    /// each drawn card lands on top of the pile face up.
    pub fn pull_from(&mut self, deck: &mut Deck)
        ensures
            ({
                let pre = old(self)@.cards;
                let predeck = old(deck)@;
                let n = if old(self)@.window <= predeck.len() {
                    old(self)@.window as int
                } else {
                    predeck.len() as int
                };
                &&& final(self)@.window == old(self)@.window
                &&& final(deck)@ == predeck.take(predeck.len() - n)
                &&& final(self)@.cards.len() == pre.len() + n
                &&& forall|j: int|
                    #![trigger final(self)@.cards[j]]
                    0 <= j < pre.len() ==> final(self)@.cards[j] == pre[j]
                &&& forall|j: int|
                    #![trigger final(self)@.cards[j]]
                    pre.len() <= j < pre.len() + n ==> final(self)@.cards[j] == predeck[predeck.len()
                        - 1 - (j - pre.len())].revealed()
            }),
    {
        let ghost deck0 = deck@;
        let ghost cards0 = self@.cards;
        let ghost w0 = self@.window;
        let ghost n: int = if self.size as int <= deck0.len() {
            self.size as int
        } else {
            deck0.len() as int
        };
        let mut i: usize = 0;
        while i < self.size
            invariant
                i <= self.size,
                self@.window == w0,
                w0 == self.size as nat,
                n == if w0 <= deck0.len() {
                    w0 as int
                } else {
                    deck0.len() as int
                },
                deck@ == deck0.take(deck0.len() - (if i <= deck0.len() {
                    i as int
                } else {
                    deck0.len() as int
                })),
                self@.cards.len() == cards0.len() + (if i <= deck0.len() {
                    i as int
                } else {
                    deck0.len() as int
                }),
                forall|j: int| 0 <= j < cards0.len() ==> self@.cards[j] == cards0[j],
                forall|j: int|
                    #![trigger self@.cards[j]]
                    cards0.len() <= j < self@.cards.len() ==> self@.cards[j] == deck0[deck0.len()
                        - 1 - (j - cards0.len())].revealed(),
            decreases self.size - i,
        {
            if let Some(card) = deck.pop() {
                let ghost drawn: int = i as int;
                proof {
                    assert(deck@.len() == deck0.len() - drawn - 1);
                    assert(card == deck0[deck0.len() - 1 - drawn]);
                    assert(deck@ =~= deck0.take(deck0.len() - (drawn + 1)));
                }
                let mut c = card;
                c.turn_face_up();
                self.cards.push(c);
                proof {
                    assert(c == deck0[deck0.len() - 1 - drawn].revealed());
                    assert(self@.cards[cards0.len() + drawn] == deck0[deck0.len() - 1
                        - drawn].revealed());
                }
            }
            i += 1;
        }
    }

    /// Empties the pile back into the deck in pop order: the pile's top
    /// becomes the deck's bottom-most returned card, so the next draw
    /// sequence repeats the one most recently seen.
    pub fn pop_all_into(&mut self, deck: &mut Deck)
        ensures
            final(self)@.cards == Seq::<Card>::empty(),
            final(self)@.window == old(self)@.window,
            final(deck)@ == old(deck)@ + old(self)@.cards.reverse(),
    {
        let ghost cards0 = self@.cards;
        let ghost deck0 = deck@;
        proof {
            assert(cards0.take(cards0.len() as int) =~= cards0);
            assert(deck0 + cards0.skip(cards0.len() as int).reverse() =~= deck0);
        }
        loop
            invariant
                self@.window == old(self)@.window,
                exists|m: int|
                    #![trigger cards0.take(m)]
                    0 <= m <= cards0.len() && self@.cards == cards0.take(m) && deck@ == deck0
                        + cards0.skip(m).reverse(),
            ensures
                self@.cards.len() == 0,
                deck@ == deck0 + cards0.reverse(),
            decreases self@.cards.len(),
        {
            let ghost m = choose|m: int|
                #![trigger cards0.take(m)]
                0 <= m <= cards0.len() && self@.cards == cards0.take(m) && deck@ == deck0
                    + cards0.skip(m).reverse();
            match self.cards.pop() {
                Some(card) => {
                    deck.push(card);
                    proof {
                        assert(card == cards0[m - 1]);
                        assert(self@.cards =~= cards0.take(m - 1));
                        assert(deck@ =~= deck0 + cards0.skip(m - 1).reverse());
                    }
                },
                None => {
                    proof {
                        assert(m == 0);
                        assert(cards0.skip(0) =~= cards0);
                    }
                    break;
                },
            }
        }
        proof {
            assert(self@.cards =~= Seq::<Card>::empty());
        }
    }

    pub fn len(&self) -> (r: usize)
        ensures
            r == self@.cards.len(),
    {
        self.cards.len()
    }

    /// A copy of the visible trailing window, bottom first.
    pub fn get_visible_cards(&self) -> (v: Vec<Card>)
        ensures
            v@ == self@.visible(),
    {
        let len = self.cards.len();
        let start = if len >= self.size {
            len - self.size
        } else {
            0
        };
        let all = self.cards.get_all();
        let mut v: Vec<Card> = Vec::with_capacity(len - start);
        let mut i = start;
        while i < len
            invariant
                start <= i <= len,
                len == self@.cards.len(),
                all@ == self@.cards,
                v@.len() == i - start,
                forall|j: int| 0 <= j < v@.len() ==> v@[j] == self@.cards[start + j],
            decreases len - i,
        {
            v.push(all[i]);
            i += 1;
        }
        proof {
            assert(v@ =~= self@.visible());
        }
        v
    }

    /// A read view of every card of the pile, bottom first.
    pub fn get_all(&self) -> (r: &[Card])
        ensures
            r@ == self@.cards,
    {
        self.cards.get_all()
    }

    /// The wrapped stack; the single legal move source is its top card.
    pub fn get_cards_mut(&mut self) -> (r: &mut Stack)
        ensures
            (*r)@ == old(self)@.cards,
            final(self)@.cards == (*final(r))@,
            final(self)@.window == old(self)@.window,
    {
        &mut self.cards
    }

    pub fn clear(&mut self)
        ensures
            final(self)@.cards == Seq::<Card>::empty(),
            final(self)@.window == old(self)@.window,
    {
        self.cards.clear();
    }

    pub fn is_empty(&self) -> (r: bool)
        ensures
            r == (self@.cards.len() == 0),
    {
        self.cards.is_empty()
    }
}

/// Relies on `rand::seq::SliceRandom::shuffle` with the generator from
/// `rand::rng()`: it permutes the slice in place, so the multiset of cards
/// is unchanged, and nothing more is promised of the outcome.
#[verifier::external_body]
fn shuffle_cards(cards: &mut Vec<Card>)
    ensures
        final(cards)@.to_multiset() == old(cards)@.to_multiset(),
{
    cards.shuffle(&mut rand::rng());
}

fn value_from_index(i: u8) -> (v: Value)
    requires
        i < 13,
    ensures
        v == value_of_index(i as int),
{
    if i == 0 {
        Value::Two
    } else if i == 1 {
        Value::Three
    } else if i == 2 {
        Value::Four
    } else if i == 3 {
        Value::Five
    } else if i == 4 {
        Value::Six
    } else if i == 5 {
        Value::Seven
    } else if i == 6 {
        Value::Eight
    } else if i == 7 {
        Value::Nine
    } else if i == 8 {
        Value::Ten
    } else if i == 9 {
        Value::Jack
    } else if i == 10 {
        Value::Queen
    } else if i == 11 {
        Value::King
    } else {
        Value::Ace
    }
}

fn suit_from_index(i: u8) -> (s: Suit)
    requires
        i < 4,
    ensures
        s == suit_of_index(i as int),
{
    if i == 0 {
        Suit::Clubs
    } else if i == 1 {
        Suit::Hearts
    } else if i == 2 {
        Suit::Spades
    } else {
        Suit::Diamonds
    }
}

impl Deck {
    /// The full 52-card set, face down, in a uniformly shuffled order.
    pub fn random() -> (d: Deck)
        ensures
            d@.len() == 52,
            ids(d@) == standard_ids(),
            forall|i: int| 0 <= i < d@.len() ==> d@[i].hidden,
    {
        let mut cards: Vec<Card> = Vec::with_capacity(52);
        let mut i: usize = 0;
        while i < 52
            invariant
                i <= 52,
                cards@ == standard_deck().take(i as int),
            decreases 52 - i,
        {
            let value = value_from_index((i / 4) as u8);
            let suit = suit_from_index((i % 4) as u8);
            cards.push(Card::new(value, suit));
            proof {
                assert(standard_deck()[i as int] == standard_card(i as int));
                assert(cards@ =~= standard_deck().take(i + 1));
            }
            i += 1;
        }
        proof {
            assert(cards@ =~= standard_deck());
        }
        let ghost generated = cards@;
        shuffle_cards(&mut cards);
        proof {
            broadcast use vstd::seq_lib::group_to_multiset_ensures;

            lemma_ids_respects_multiset(cards@, standard_deck());
            assert(cards@.to_multiset().len() == cards@.len());
            assert(generated.to_multiset().len() == generated.len());
            assert forall|i: int| 0 <= i < cards@.len() implies cards@[i].hidden by {
                assert(cards@.contains(cards@[i]));
                assert(standard_deck().to_multiset().count(cards@[i]) > 0);
                assert(standard_deck().contains(cards@[i]));
                let j = choose|j: int|
                    0 <= j < standard_deck().len() && standard_deck()[j] == cards@[i];
                assert(standard_card(j).hidden);
            }
        }
        Deck { cards: Stack(cards) }
    }

    /// A deck holding exactly the given cards; supports deterministic deals.
    pub fn from_stack(cards: Stack) -> (d: Deck)
        ensures
            d@ == cards@,
    {
        Deck { cards }
    }

    pub fn push(&mut self, card: Card)
        ensures
            final(self)@ == old(self)@.push(card),
    {
        self.cards.push(card);
    }

    pub fn pop(&mut self) -> (r: Option<Card>)
        ensures
            old(self)@.len() > 0 ==> r == Some(old(self)@.last()) && final(self)@ == old(
                self,
            )@.drop_last(),
            old(self)@.len() == 0 ==> r is None && final(self)@ == old(self)@,
    {
        self.cards.pop()
    }

    pub fn pop_into(&mut self, stack: &mut Stack)
        ensures
            old(self)@.len() > 0 ==> final(self)@ == old(self)@.drop_last() && final(stack)@ == old(
                stack,
            )@.push(old(self)@.last()),
            old(self)@.len() == 0 ==> final(self)@ == old(self)@ && final(stack)@ == old(stack)@,
    {
        self.cards.pop_into(stack);
    }

    pub fn is_empty(&self) -> (r: bool)
        ensures
            r == (self@.len() == 0),
    {
        self.cards.is_empty()
    }

    pub fn len(&self) -> (r: usize)
        ensures
            r == self@.len(),
    {
        self.cards.len()
    }

    /// A read view of every card of the deck, bottom first.
    pub fn get_all(&self) -> (r: &[Card])
        ensures
            r@ == self@,
    {
        self.cards.get_all()
    }

    /// Turns every card of the deck face up.
    pub fn reveal_all(&mut self)
        ensures
            final(self)@.len() == old(self)@.len(),
            forall|i: int| 0 <= i < old(self)@.len() ==> final(self)@[i] == old(
                self,
            )@[i].revealed(),
    {
        self.cards.reveal_all();
    }
}

} // verus!
