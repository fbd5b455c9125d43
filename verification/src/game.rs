//! The game itself: one deck, four foundations, a row of tableaux and the
//! waste, together with every move operation and the deal.
//!
//! Every move checks its indices and the covering rule before touching any
//! container; a failed move leaves the game exactly as it was. All moves
//! preserve the card-set invariant: the identities spread over the containers
//! always form the standard 52-card set.

use vstd::prelude::*;
use vstd::multiset::Multiset;
use crate::card::{Card, CoveringOrder, Suit, Value, can_cover_spec};
use crate::card_collections::{Deck, Pile, PileView, Stack};
use crate::card_set::{ids, lemma_ids_concat, lemma_ids_drop_last, lemma_ids_push,
    lemma_ids_reveal_top, lemma_ids_reverse, lemma_ids_same_ids, lemma_stacks_ids_all_empty,
    lemma_stacks_ids_member_len, lemma_stacks_ids_update, lemma_ids_len,
    lemma_standard_ids_exactly_once, lemma_standard_ids_len, reveal_top, stacks_ids, standard_ids};

verus! {

pub const CARDS_IN_SUIT: usize = 13;

pub const CARDS_IN_DECK: usize = CARDS_IN_SUIT * 4;

/// The number of cards a deal of `n` tableaux consumes: tableau `i` receives
/// `i + 1` cards.
pub open spec fn triangle(n: int) -> int
    decreases n,
{
    if n <= 0 {
        0
    } else {
        triangle(n - 1) + n
    }
}

pub proof fn lemma_triangle_mono(a: int, b: int)
    requires
        a <= b,
    ensures
        triangle(a) <= triangle(b),
    decreases b - a,
{
    if a < b {
        lemma_triangle_mono(a, b - 1);
    }
}

/// The views of a family of stacks.
pub open spec fn stack_views(ss: Seq<Stack>) -> Seq<Seq<Card>> {
    ss.map_values(|s: Stack| s@)
}

/// The card on top of a stack, if any: the only card a single-card move may
/// take or cover.
pub open spec fn top_of(s: Seq<Card>) -> Option<Card> {
    if s.len() == 0 {
        None
    } else {
        Some(s.last())
    }
}

/// The waste after its top card has been taken: the top is gone and the new
/// top, if any, is face up.
pub open spec fn popped_pile(pre: GameView) -> PileView {
    PileView { cards: reveal_top(pre.pile.cards.drop_last()), window: pre.pile.window }
}

/// When a pile-to-tableau move succeeds, and the state it leaves.
pub open spec fn pile_to_stack_ok(pre: GameView, i: int) -> bool {
    0 <= i < pre.stacks.len() && can_cover_spec(
        top_of(pre.stacks[i]),
        top_of(pre.pile.cards),
        CoveringOrder::Descending,
    )
}

pub open spec fn pile_to_stack_post(pre: GameView, post: GameView, i: int) -> bool {
    post == (GameView {
        pile: popped_pile(pre),
        stacks: pre.stacks.update(i, pre.stacks[i].push(pre.pile.cards.last())),
        ..pre
    })
}

/// When a pile-to-foundation move succeeds, and the state it leaves.
pub open spec fn pile_to_suit_ok(pre: GameView, i: int) -> bool {
    0 <= i < pre.suits.len() && can_cover_spec(
        top_of(pre.suits[i]),
        top_of(pre.pile.cards),
        CoveringOrder::Ascending,
    )
}

pub open spec fn pile_to_suit_post(pre: GameView, post: GameView, i: int) -> bool {
    post == (GameView {
        pile: popped_pile(pre),
        suits: pre.suits.update(i, pre.suits[i].push(pre.pile.cards.last())),
        ..pre
    })
}

/// When a tableau-to-tableau single-card move succeeds, and the state it
/// leaves.
pub open spec fn stack_to_stack_ok(pre: GameView, i: int, j: int) -> bool {
    i != j && 0 <= i < pre.stacks.len() && 0 <= j < pre.stacks.len() && can_cover_spec(
        top_of(pre.stacks[j]),
        top_of(pre.stacks[i]),
        CoveringOrder::Descending,
    )
}

pub open spec fn stack_to_stack_post(pre: GameView, post: GameView, i: int, j: int) -> bool {
    post == (GameView {
        stacks: pre.stacks.update(i, reveal_top(pre.stacks[i].drop_last())).update(
            j,
            pre.stacks[j].push(pre.stacks[i].last()),
        ),
        ..pre
    })
}

/// When a tableau-to-foundation move succeeds, and the state it leaves.
pub open spec fn stack_to_suit_ok(pre: GameView, i: int, j: int) -> bool {
    0 <= i < pre.stacks.len() && 0 <= j < pre.suits.len() && can_cover_spec(
        top_of(pre.suits[j]),
        top_of(pre.stacks[i]),
        CoveringOrder::Ascending,
    )
}

pub open spec fn stack_to_suit_post(pre: GameView, post: GameView, i: int, j: int) -> bool {
    post == (GameView {
        stacks: pre.stacks.update(i, reveal_top(pre.stacks[i].drop_last())),
        suits: pre.suits.update(j, pre.suits[j].push(pre.stacks[i].last())),
        ..pre
    })
}

/// When a foundation-to-tableau move succeeds, and the state it leaves.
pub open spec fn suit_to_stack_ok(pre: GameView, i: int, j: int) -> bool {
    0 <= i < pre.suits.len() && 0 <= j < pre.stacks.len() && can_cover_spec(
        top_of(pre.stacks[j]),
        top_of(pre.suits[i]),
        CoveringOrder::Descending,
    )
}

pub open spec fn suit_to_stack_post(pre: GameView, post: GameView, i: int, j: int) -> bool {
    post == (GameView {
        suits: pre.suits.update(i, reveal_top(pre.suits[i].drop_last())),
        stacks: pre.stacks.update(j, pre.stacks[j].push(pre.suits[i].last())),
        ..pre
    })
}

/// What the deck click leaves behind: the whole pile recycled into the deck
/// when the deck is empty, a drawn window otherwise.
pub open spec fn click_deck_post(pre: GameView, post: GameView) -> bool {
    if pre.deck.len() == 0 {
        post == (GameView {
            deck: pre.pile.cards.reverse(),
            pile: PileView { cards: Seq::<Card>::empty(), window: pre.pile.window },
            ..pre
        })
    } else {
        let predeck = pre.deck;
        let prepile = pre.pile.cards;
        let n = if pre.pile.window <= predeck.len() {
            pre.pile.window as int
        } else {
            predeck.len() as int
        };
        &&& post.deck == predeck.take(predeck.len() - n)
        &&& post.pile.window == pre.pile.window
        &&& post.pile.cards.len() == prepile.len() + n
        &&& (forall|c: int|
            #![trigger post.pile.cards[c]]
            0 <= c < prepile.len() ==> post.pile.cards[c] == prepile[c])
        &&& (forall|c: int|
            #![trigger post.pile.cards[c]]
            prepile.len() <= c < prepile.len() + n ==> post.pile.cards[c] == predeck[predeck.len()
                - 1 - (c - prepile.len())].revealed())
        &&& post.suits == pre.suits
        &&& post.stacks == pre.stacks
    }
}

/// The abstract state of a game.
#[verifier::ext_equal]
pub struct GameView {
    pub deck: Seq<Card>,
    pub pile: PileView,
    pub suits: Seq<Seq<Card>>,
    pub stacks: Seq<Seq<Card>>,
}

/// The identities spread over every container of the game.
pub open spec fn game_ids(v: GameView) -> Multiset<(Value, Suit)> {
    ids(v.deck).add(ids(v.pile.cards)).add(stacks_ids(v.suits)).add(stacks_ids(v.stacks))
}

/// A foundation holds one suit in ascending rank order from the ace up.
pub open spec fn foundation_wf(s: Seq<Card>) -> bool {
    forall|k: int|
        0 <= k < s.len() ==> (#[trigger] s[k]).value.rank_spec() == k + 1 && s[k].suit
            == s[0].suit
}

impl GameView {
    /// Well-formedness: four foundations, each ascending by suit from the
    /// ace, a tableau row the deal can fill, and the full card set spread
    /// over the containers.
    pub open spec fn wf(self) -> bool {
        &&& self.suits.len() == 4
        &&& 1 <= self.stacks.len() <= 9
        &&& triangle(self.stacks.len() as int) <= 52
        &&& game_ids(self) == standard_ids()
        &&& forall|f: int| 0 <= f < self.suits.len() ==> foundation_wf(#[trigger] self.suits[f])
    }
}

#[derive(Debug)]
pub struct Game {
    deck: Deck,
    suit_stacks: Vec<Stack>,
    stacks: Vec<Stack>,
    pile: Pile,
}

impl View for Game {
    type V = GameView;

    closed spec fn view(&self) -> GameView {
        GameView {
            deck: self.deck@,
            pile: self.pile@,
            suits: stack_views(self.suit_stacks@),
            stacks: stack_views(self.stacks@),
        }
    }
}

/// Pushing a card onto member `j` inserts exactly its identity.
proof fn lemma_update_push_ids(ss: Seq<Seq<Card>>, j: int, c: Card)
    requires
        0 <= j < ss.len(),
    ensures
        stacks_ids(ss.update(j, ss[j].push(c))) == stacks_ids(ss).insert(c.id()),
{
    broadcast use vstd::multiset::group_multiset_axioms;

    lemma_stacks_ids_update(ss, j, ss[j].push(c));
    lemma_ids_push(ss[j], c);
    let lhs = stacks_ids(ss.update(j, ss[j].push(c)));
    let rhs = stacks_ids(ss).insert(c.id());
    assert forall|v: (Value, Suit)| lhs.count(v) == rhs.count(v) by {
        assert(lhs.add(ids(ss[j])).count(v) == stacks_ids(ss).add(
            ids(ss[j]).insert(c.id()),
        ).count(v));
    }
    assert(lhs =~= rhs);
}

/// A run move from member `i` at index `k` onto member `j` moves identities
/// without gain or loss.
proof fn lemma_run_move_ids(ss: Seq<Seq<Card>>, i: int, j: int, k: int)
    requires
        0 <= i < ss.len(),
        0 <= j < ss.len(),
        i != j,
        0 <= k < ss[i].len(),
    ensures
        stacks_ids(ss.update(i, reveal_top(ss[i].take(k))).update(j, ss[j] + ss[i].skip(k)))
            == stacks_ids(ss),
{
    broadcast use vstd::multiset::group_multiset_axioms;

    let seg = ss[i].skip(k);
    let s1 = ss.update(i, reveal_top(ss[i].take(k)));
    let s2 = s1.update(j, ss[j] + seg);
    lemma_stacks_ids_update(ss, i, reveal_top(ss[i].take(k)));
    lemma_ids_reveal_top(ss[i].take(k));
    assert(ss[i] =~= ss[i].take(k) + seg);
    lemma_ids_concat(ss[i].take(k), seg);
    lemma_stacks_ids_update(s1, j, ss[j] + seg);
    assert(s1[j] == ss[j]);
    lemma_ids_concat(ss[j], seg);
    assert forall|v: (Value, Suit)| stacks_ids(s2).count(v) == stacks_ids(ss).count(v) by {
        assert(stacks_ids(s2).add(ids(s1[j])).count(v) == stacks_ids(s1).add(
            ids(ss[j] + seg),
        ).count(v));
        assert(stacks_ids(s1).add(ids(ss[i])).count(v) == stacks_ids(ss).add(
            ids(reveal_top(ss[i].take(k))),
        ).count(v));
        assert(ids(ss[i]).count(v) == ids(ss[i].take(k)).count(v) + ids(seg).count(v));
        assert(ids(ss[j] + seg).count(v) == ids(ss[j]).count(v) + ids(seg).count(v));
    }
    assert(stacks_ids(s2) =~= stacks_ids(ss));
}

/// Popping member `i`'s top (and revealing the next) removes exactly its
/// identity.
proof fn lemma_update_pop_ids(ss: Seq<Seq<Card>>, i: int)
    requires
        0 <= i < ss.len(),
        ss[i].len() > 0,
    ensures
        stacks_ids(ss.update(i, reveal_top(ss[i].drop_last()))).insert(ss[i].last().id())
            == stacks_ids(ss),
{
    broadcast use vstd::multiset::group_multiset_axioms;

    lemma_stacks_ids_update(ss, i, reveal_top(ss[i].drop_last()));
    lemma_ids_reveal_top(ss[i].drop_last());
    lemma_ids_drop_last(ss[i]);
    let lhs = stacks_ids(ss.update(i, reveal_top(ss[i].drop_last()))).insert(ss[i].last().id());
    let rhs = stacks_ids(ss);
    assert forall|v: (Value, Suit)| lhs.count(v) == rhs.count(v) by {
        assert(stacks_ids(ss.update(i, reveal_top(ss[i].drop_last()))).add(ids(ss[i])).count(v)
            == rhs.add(ids(reveal_top(ss[i].drop_last()))).count(v));
        assert(ids(ss[i]).count(v) == ids(reveal_top(ss[i].drop_last())).insert(
            ss[i].last().id(),
        ).count(v));
    }
    assert(lhs =~= rhs);
}

/// The covering rule keeps a foundation well formed when it admits a card.
proof fn lemma_foundation_push(s: Seq<Card>, c: Card)
    requires
        foundation_wf(s),
        can_cover_spec(top_of(s), Some(c), CoveringOrder::Ascending),
    ensures
        foundation_wf(s.push(c)),
{
    let s2 = s.push(c);
    assert forall|k: int|
        0 <= k < s2.len() implies (#[trigger] s2[k]).value.rank_spec() == k + 1 && s2[k].suit
        == s2[0].suit by {
        if k < s.len() {
            assert(s2[k] == s[k]);
        } else {
            assert(s2[k] == c);
            if s.len() > 0 {
                assert(s[s.len() - 1].value.rank_spec() == s.len());
            }
        }
    }
}

/// Taking a foundation's top card keeps it well formed.
proof fn lemma_foundation_pop(s: Seq<Card>)
    requires
        foundation_wf(s),
        s.len() > 0,
    ensures
        foundation_wf(reveal_top(s.drop_last())),
{
    let s2 = reveal_top(s.drop_last());
    assert forall|k: int|
        0 <= k < s2.len() implies (#[trigger] s2[k]).value.rank_spec() == k + 1 && s2[k].suit
        == s2[0].suit by {
        assert(s2[k].value == s[k].value && s2[k].suit == s[k].suit);
        assert(s2[0].value == s[0].value && s2[0].suit == s[0].suit);
    }
}

impl Game {
    pub open spec fn wf(self) -> bool {
        self@.wf()
    }

    /// A game assembled from explicit containers; supports deterministic
    /// set-ups.
    pub fn from_parts(deck: Deck, suit_stacks: Vec<Stack>, stacks: Vec<Stack>, pile: Pile) -> (g:
        Game)
        ensures
            g@.deck == deck@,
            g@.pile == pile@,
            g@.suits == stack_views(suit_stacks@),
            g@.stacks == stack_views(stacks@),
    {
        Game { deck, suit_stacks, stacks, pile }
    }

    pub fn deck(&self) -> (r: &Deck)
        ensures
            r@ == self@.deck,
    {
        &self.deck
    }

    pub fn pile(&self) -> (r: &Pile)
        ensures
            r@ == self@.pile,
    {
        &self.pile
    }

    pub fn stacks_count(&self) -> (r: usize)
        ensures
            r == self@.stacks.len(),
    {
        self.stacks.len()
    }

    pub fn suit_stacks_count(&self) -> (r: usize)
        ensures
            r == self@.suits.len(),
    {
        self.suit_stacks.len()
    }

    pub fn stack(&self, i: usize) -> (r: &Stack)
        requires
            i < self@.stacks.len(),
        ensures
            r@ == self@.stacks[i as int],
    {
        &self.stacks[i]
    }

    pub fn suit_stack(&self, i: usize) -> (r: &Stack)
        requires
            i < self@.suits.len(),
        ensures
            r@ == self@.suits[i as int],
    {
        &self.suit_stacks[i]
    }

    /// The shared kernel of every single-card move: if the covering rule
    /// admits `from`'s top onto `into`'s top under `order`, the top moves and
    /// `from`'s new top is turned face up; otherwise nothing changes.
    pub fn pop_card_from_stack_into_stack(from: &mut Stack, into: &mut Stack, order: CoveringOrder)
        -> (r: bool)
        ensures
            r == can_cover_spec(top_of(old(into)@), top_of(old(from)@), order),
            r ==> final(from)@ == reveal_top(old(from)@.drop_last()) && final(into)@ == old(
                into,
            )@.push(old(from)@.last()),
            !r ==> final(from)@ == old(from)@ && final(into)@ == old(into)@,
    {
        let covering_card = from.last();
        let card_to_cover = into.last();

        if Card::can_one_be_covered_with_another(card_to_cover, covering_card, order) {
            from.pop_into(into);
            from.reveal_last();
            true
        } else {
            false
        }
    }

    /// Moves the pile's top card onto tableau `i` (descending order).
    pub fn move_card_from_pile_to_stack(&mut self, i: usize) -> (r: bool)
        ensures
            r == pile_to_stack_ok(old(self)@, i as int),
            r ==> pile_to_stack_post(old(self)@, final(self)@, i as int),
            !r ==> final(self)@ == old(self)@,
            old(self).wf() ==> final(self).wf(),
    {
        let ghost pre = self@;
        if i >= self.stacks.len() {
            return false;
        }
        let from = self.pile.get_cards_mut();
        let into = &mut self.stacks[i];
        let r = Self::pop_card_from_stack_into_stack(from, into, CoveringOrder::Descending);
        proof {
            broadcast use vstd::multiset::group_multiset_axioms;

            if r {
                assert(self@ =~~= (GameView {
                    pile: PileView {
                        cards: reveal_top(pre.pile.cards.drop_last()),
                        window: pre.pile.window,
                    },
                    stacks: pre.stacks.update(
                        i as int,
                        pre.stacks[i as int].push(pre.pile.cards.last()),
                    ),
                    ..pre
                }));
                if pre.wf() {
                    let c = pre.pile.cards.last();
                    lemma_ids_reveal_top(pre.pile.cards.drop_last());
                    lemma_ids_drop_last(pre.pile.cards);
                    lemma_update_push_ids(pre.stacks, i as int, c);
                    assert(game_ids(self@) =~= game_ids(pre));
                }
            } else {
                assert(self@ =~~= pre);
            }
        }
        r
    }

    /// Moves the pile's top card onto foundation `i` (ascending order).
    pub fn move_card_from_pile_to_suit_stack(&mut self, i: usize) -> (r: bool)
        ensures
            r == pile_to_suit_ok(old(self)@, i as int),
            r ==> pile_to_suit_post(old(self)@, final(self)@, i as int),
            !r ==> final(self)@ == old(self)@,
            old(self).wf() ==> final(self).wf(),
    {
        let ghost pre = self@;
        if i >= self.suit_stacks.len() {
            return false;
        }
        let from = self.pile.get_cards_mut();
        let into = &mut self.suit_stacks[i];
        let r = Self::pop_card_from_stack_into_stack(from, into, CoveringOrder::Ascending);
        proof {
            broadcast use vstd::multiset::group_multiset_axioms;

            if r {
                assert(self@ =~~= (GameView {
                    pile: PileView {
                        cards: reveal_top(pre.pile.cards.drop_last()),
                        window: pre.pile.window,
                    },
                    suits: pre.suits.update(
                        i as int,
                        pre.suits[i as int].push(pre.pile.cards.last()),
                    ),
                    ..pre
                }));
                if pre.wf() {
                    let c = pre.pile.cards.last();
                    lemma_ids_reveal_top(pre.pile.cards.drop_last());
                    lemma_ids_drop_last(pre.pile.cards);
                    lemma_update_push_ids(pre.suits, i as int, c);
                    assert(game_ids(self@) =~= game_ids(pre));
                    lemma_foundation_push(pre.suits[i as int], c);
                    assert forall|f: int|
                        0 <= f < self@.suits.len() implies foundation_wf(
                        #[trigger] self@.suits[f],
                    ) by {
                        if f != i as int {
                            assert(self@.suits[f] == pre.suits[f]);
                        }
                    }
                }
            } else {
                assert(self@ =~~= pre);
            }
        }
        r
    }

    /// Moves tableau `i`'s top card onto tableau `j` (descending order).
    pub fn move_card_from_stack_to_stack(&mut self, i: usize, j: usize) -> (r: bool)
        ensures
            r == stack_to_stack_ok(old(self)@, i as int, j as int),
            r ==> stack_to_stack_post(old(self)@, final(self)@, i as int, j as int),
            !r ==> final(self)@ == old(self)@,
            old(self).wf() ==> final(self).wf(),
    {
        let ghost pre = self@;
        if i == j || i >= self.stacks.len() || j >= self.stacks.len() {
            return false;
        }
        let ok = Card::can_one_be_covered_with_another(
            self.stacks[j].last(),
            self.stacks[i].last(),
            CoveringOrder::Descending,
        );
        if ok {
            let card = self.stacks[i].pop().unwrap();
            self.stacks[i].reveal_last();
            self.stacks[j].push(card);
            proof {
                broadcast use vstd::multiset::group_multiset_axioms;

                assert(self@ =~~= (GameView {
                    stacks: pre.stacks.update(
                        i as int,
                        reveal_top(pre.stacks[i as int].drop_last()),
                    ).update(
                        j as int,
                        pre.stacks[j as int].push(pre.stacks[i as int].last()),
                    ),
                    ..pre
                }));
                if pre.wf() {
                    let c = pre.stacks[i as int].last();
                    let s1 = pre.stacks.update(
                        i as int,
                        reveal_top(pre.stacks[i as int].drop_last()),
                    );
                    lemma_update_pop_ids(pre.stacks, i as int);
                    assert(s1[j as int] == pre.stacks[j as int]);
                    lemma_update_push_ids(s1, j as int, c);
                    assert(game_ids(self@) =~= game_ids(pre));
                }
            }
            true
        } else {
            false
        }
    }

    /// Moves tableau `i`'s top card onto foundation `j` (ascending order).
    pub fn move_card_from_stack_to_suit_stack(&mut self, i: usize, j: usize) -> (r: bool)
        ensures
            r == stack_to_suit_ok(old(self)@, i as int, j as int),
            r ==> stack_to_suit_post(old(self)@, final(self)@, i as int, j as int),
            !r ==> final(self)@ == old(self)@,
            old(self).wf() ==> final(self).wf(),
    {
        let ghost pre = self@;
        if i >= self.stacks.len() || j >= self.suit_stacks.len() {
            return false;
        }
        let r = Self::pop_card_from_stack_into_stack(
            &mut self.stacks[i],
            &mut self.suit_stacks[j],
            CoveringOrder::Ascending,
        );
        proof {
            broadcast use vstd::multiset::group_multiset_axioms;

            if r {
                assert(self@ =~~= (GameView {
                    stacks: pre.stacks.update(
                        i as int,
                        reveal_top(pre.stacks[i as int].drop_last()),
                    ),
                    suits: pre.suits.update(
                        j as int,
                        pre.suits[j as int].push(pre.stacks[i as int].last()),
                    ),
                    ..pre
                }));
                if pre.wf() {
                    let c = pre.stacks[i as int].last();
                    lemma_update_pop_ids(pre.stacks, i as int);
                    lemma_update_push_ids(pre.suits, j as int, c);
                    assert(game_ids(self@) =~= game_ids(pre));
                    lemma_foundation_push(pre.suits[j as int], c);
                    assert forall|f: int|
                        0 <= f < self@.suits.len() implies foundation_wf(
                        #[trigger] self@.suits[f],
                    ) by {
                        if f != j as int {
                            assert(self@.suits[f] == pre.suits[f]);
                        }
                    }
                }
            } else {
                assert(self@ =~~= pre);
            }
        }
        r
    }

    /// Moves foundation `i`'s top card back onto tableau `j` (descending
    /// order).
    pub fn move_card_from_suit_stack_to_stack(&mut self, i: usize, j: usize) -> (r: bool)
        ensures
            r == suit_to_stack_ok(old(self)@, i as int, j as int),
            r ==> suit_to_stack_post(old(self)@, final(self)@, i as int, j as int),
            !r ==> final(self)@ == old(self)@,
            old(self).wf() ==> final(self).wf(),
    {
        let ghost pre = self@;
        if i >= self.suit_stacks.len() || j >= self.stacks.len() {
            return false;
        }
        let r = Self::pop_card_from_stack_into_stack(
            &mut self.suit_stacks[i],
            &mut self.stacks[j],
            CoveringOrder::Descending,
        );
        proof {
            broadcast use vstd::multiset::group_multiset_axioms;

            if r {
                assert(self@ =~~= (GameView {
                    suits: pre.suits.update(
                        i as int,
                        reveal_top(pre.suits[i as int].drop_last()),
                    ),
                    stacks: pre.stacks.update(
                        j as int,
                        pre.stacks[j as int].push(pre.suits[i as int].last()),
                    ),
                    ..pre
                }));
                if pre.wf() {
                    let c = pre.suits[i as int].last();
                    lemma_update_pop_ids(pre.suits, i as int);
                    lemma_update_push_ids(pre.stacks, j as int, c);
                    assert(game_ids(self@) =~= game_ids(pre));
                    lemma_foundation_pop(pre.suits[i as int]);
                    assert forall|f: int|
                        0 <= f < self@.suits.len() implies foundation_wf(
                        #[trigger] self@.suits[f],
                    ) by {
                        if f != i as int {
                            assert(self@.suits[f] == pre.suits[f]);
                        }
                    }
                }
            } else {
                assert(self@ =~~= pre);
            }
        }
        r
    }

    /// Moves the run of tableau `i` starting at index `k` (which must be a
    /// face-up card) onto tableau `j`, preserving the run's internal order;
    /// the source's new top is turned face up.
    pub fn move_cards_from_stack_to_stack(&mut self, i: usize, j: usize, starting_from_card_i:
        usize) -> (r: bool)
        ensures
            r == (i != j && i < old(self)@.stacks.len() && j < old(self)@.stacks.len()
                && starting_from_card_i < old(self)@.stacks[i as int].len() && !old(
                self,
            )@.stacks[i as int][starting_from_card_i as int].hidden && can_cover_spec(
                top_of(old(self)@.stacks[j as int]),
                Some(old(self)@.stacks[i as int][starting_from_card_i as int]),
                CoveringOrder::Descending,
            )),
            r ==> final(self)@ == (GameView {
                stacks: old(self)@.stacks.update(
                    i as int,
                    reveal_top(old(self)@.stacks[i as int].take(starting_from_card_i as int)),
                ).update(
                    j as int,
                    old(self)@.stacks[j as int] + old(self)@.stacks[i as int].skip(
                        starting_from_card_i as int,
                    ),
                ),
                ..old(self)@
            }),
            !r ==> final(self)@ == old(self)@,
            old(self).wf() ==> final(self).wf(),
    {
        let ghost pre = self@;
        let ghost k = starting_from_card_i as int;
        if i == j || i >= self.stacks.len() || j >= self.stacks.len() || starting_from_card_i
            >= self.stacks[i].len() {
            return false;
        }
        let ok = {
            let all = self.stacks[i].get_all();
            let covering_card = &all[starting_from_card_i];
            if covering_card.hidden {
                false
            } else {
                Card::can_one_be_covered_with_another(
                    self.stacks[j].last(),
                    Some(covering_card),
                    CoveringOrder::Descending,
                )
            }
        };
        if ok {
            let cards_to_move = self.stacks[i].len() - starting_from_card_i;
            let mut temp_stack = Stack::with_capacity(cards_to_move);
            self.stacks[i].pop_n_last_into(cards_to_move, &mut temp_stack);
            self.stacks[i].reveal_last();
            temp_stack.pop_n_last_into(cards_to_move, &mut self.stacks[j]);
            proof {
                broadcast use vstd::multiset::group_multiset_axioms;

                let src = pre.stacks[i as int];
                let seg = src.skip(k);
                assert(temp_stack@.len() == 0);
                assert(src.skip(src.len() - (src.len() - k)) == seg);
                let rev = seg.reverse();
                assert(rev.skip(rev.len() - (src.len() - k)) == rev.skip(0));
                assert(rev.skip(0) =~= rev);
                assert(rev.reverse() =~= seg);
                assert(rev.take(rev.len() - (src.len() - k)) =~= Seq::<Card>::empty());
                assert(self@ =~~= (GameView {
                    stacks: pre.stacks.update(i as int, reveal_top(src.take(k))).update(
                        j as int,
                        pre.stacks[j as int] + seg,
                    ),
                    ..pre
                }));
                if pre.wf() {
                    lemma_run_move_ids(pre.stacks, i as int, j as int, k);
                    assert(game_ids(self@) =~= game_ids(pre));
                }
            }
            true
        } else {
            false
        }
    }

    /// The deck click: recycles the whole pile back into the deck when the
    /// deck is empty, and draws a window of cards into the pile otherwise.
    /// Never fails.
    pub fn move_cards_from_deck_to_pile(&mut self)
        ensures
            click_deck_post(old(self)@, final(self)@),
            old(self).wf() ==> final(self).wf(),
    {
        let ghost pre = self@;
        if self.deck.is_empty() {
            self.pile.pop_all_into(&mut self.deck);
            proof {
                broadcast use vstd::multiset::group_multiset_axioms;

                assert(self@.deck =~= pre.pile.cards.reverse());
                assert(self@ =~~= (GameView {
                    deck: pre.pile.cards.reverse(),
                    pile: PileView { cards: Seq::<Card>::empty(), window: pre.pile.window },
                    ..pre
                }));
                if pre.wf() {
                    lemma_ids_reverse(pre.pile.cards);
                    assert(game_ids(self@) =~= game_ids(pre));
                }
            }
        } else {
            self.pile.pull_from(&mut self.deck);
            proof {
                broadcast use vstd::multiset::group_multiset_axioms;

                if pre.wf() {
                    let predeck = pre.deck;
                    let n = if pre.pile.window <= predeck.len() {
                        pre.pile.window as int
                    } else {
                        predeck.len() as int
                    };
                    let app = Seq::new(n as nat, |t: int| predeck[predeck.len() - 1 - t].revealed());
                    assert(self@.pile.cards =~= pre.pile.cards + app);
                    lemma_ids_concat(pre.pile.cards, app);
                    let seg = predeck.skip(predeck.len() - n);
                    assert(app.len() == seg.reverse().len());
                    assert(forall|t: int|
                        0 <= t < n ==> (#[trigger] seg.reverse()[t]) == predeck[predeck.len() - 1
                            - t]);
                    lemma_ids_same_ids(app, seg.reverse());
                    lemma_ids_reverse(seg);
                    assert(predeck =~= predeck.take(predeck.len() - n) + seg);
                    lemma_ids_concat(predeck.take(predeck.len() - n), seg);
                    assert(game_ids(self@) =~= game_ids(pre));
                }
            }
        }
    }

    fn generate_deck() -> (d: Deck)
        ensures
            d@.len() == 52,
            ids(d@) == standard_ids(),
            forall|i: int| 0 <= i < d@.len() ==> d@[i].hidden,
    {
        Deck::random()
    }

    /// The deal: tableau `t` receives `t + 1` cards off the top of the deck,
    /// and each tableau's top card is then turned face up.
    fn rearange_cards(deck: &mut Deck, stacks: &mut Vec<Stack>)
        requires
            forall|t: int| 0 <= t < old(stacks)@.len() ==> (#[trigger] old(stacks)@[t])@.len()
                == 0,
            old(deck)@.len() >= triangle(old(stacks)@.len() as int),
            forall|d: int| 0 <= d < old(deck)@.len() ==> old(deck)@[d].hidden,
        ensures
            final(stacks)@.len() == old(stacks)@.len(),
            final(deck)@ == old(deck)@.take(
                old(deck)@.len() - triangle(old(stacks)@.len() as int),
            ),
            forall|t: int| 0 <= t < final(stacks)@.len() ==> (#[trigger] final(stacks)@[t])@.len()
                == t + 1,
            forall|t: int, c: int|
                0 <= t < final(stacks)@.len() && 0 <= c < t
                    ==> (#[trigger] final(stacks)@[t]@[c]).hidden,
            forall|t: int|
                0 <= t < final(stacks)@.len() ==> !(#[trigger] final(stacks)@[t])@[t].hidden,
            ids(final(deck)@).add(stacks_ids(stack_views(final(stacks)@))) == ids(old(deck)@),
    {
        broadcast use vstd::multiset::group_multiset_axioms;

        let ghost deck0 = deck@;
        let count = stacks.len();
        proof {
            lemma_stacks_ids_all_empty(stack_views(stacks@));
            assert(ids(deck@).add(stacks_ids(stack_views(stacks@))) =~= ids(deck0));
            assert(deck0.take(deck0.len() as int) =~= deck0);
        }
        let mut i: usize = 0;
        while i < count
            invariant
                i <= count,
                stacks@.len() == count,
                deck0.len() >= triangle(count as int),
                forall|d: int| 0 <= d < deck0.len() ==> deck0[d].hidden,
                deck@ == deck0.take(deck0.len() - triangle(i as int)),
                forall|t: int| 0 <= t < i ==> (#[trigger] stacks@[t])@.len() == t + 1,
                forall|t: int| i <= t < count ==> (#[trigger] stacks@[t])@.len() == 0,
                forall|t: int, c: int|
                    0 <= t < i && 0 <= c < t + 1 ==> (#[trigger] stacks@[t]@[c]).hidden,
                ids(deck@).add(stacks_ids(stack_views(stacks@))) == ids(deck0),
            decreases count - i,
        {
            proof {
                lemma_triangle_mono(i + 1 as int, count as int);
            }
            let mut t: usize = 0;
            while t < i + 1
                invariant
                    t <= i + 1,
                    i < count,
                    stacks@.len() == count,
                    deck0.len() >= triangle(count as int),
                    triangle(i + 1 as int) <= triangle(count as int),
                    forall|d: int| 0 <= d < deck0.len() ==> deck0[d].hidden,
                    deck@ == deck0.take(deck0.len() - triangle(i as int) - t),
                    forall|u: int| 0 <= u < i ==> (#[trigger] stacks@[u])@.len() == u + 1,
                    stacks@[i as int]@.len() == t,
                    forall|u: int| i < u < count ==> (#[trigger] stacks@[u])@.len() == 0,
                    forall|u: int, c: int|
                        0 <= u < i && 0 <= c < u + 1 ==> (#[trigger] stacks@[u]@[c]).hidden,
                    forall|c: int| 0 <= c < t ==> (#[trigger] stacks@[i as int]@[c]).hidden,
                    ids(deck@).add(stacks_ids(stack_views(stacks@))) == ids(deck0),
                decreases i + 1 - t,
            {
                let ghost predeck = deck@;
                let ghost previews = stack_views(stacks@);
                proof {
                    lemma_triangle_mono(0, i as int);
                    assert(triangle(i as int) + t < triangle(i + 1 as int));
                    assert(deck@.len() == deck0.len() - triangle(i as int) - t);
                    assert(deck@.len() > 0);
                }
                deck.pop_into(&mut stacks[i]);
                proof {
                    let c = predeck.last();
                    assert(c == deck0[deck0.len() - triangle(i as int) - t - 1]);
                    assert(c.hidden);
                    assert(deck@ =~= deck0.take(deck0.len() - triangle(i as int) - (t + 1)));
                    assert(stack_views(stacks@) =~~= previews.update(
                        i as int,
                        previews[i as int].push(c),
                    ));
                    lemma_update_push_ids(previews, i as int, c);
                    lemma_ids_drop_last(predeck);
                    assert(ids(deck@).add(stacks_ids(stack_views(stacks@))) =~= ids(
                        predeck,
                    ).add(stacks_ids(previews)));
                }
                t += 1;
            }
            i += 1;
        }
        let mut i: usize = 0;
        while i < count
            invariant
                i <= count,
                stacks@.len() == count,
                deck@ == deck0.take(deck0.len() - triangle(count as int)),
                forall|t: int| 0 <= t < count ==> (#[trigger] stacks@[t])@.len() == t + 1,
                forall|t: int, c: int|
                    0 <= t < count && 0 <= c < t ==> (#[trigger] stacks@[t]@[c]).hidden,
                forall|t: int, c: int|
                    i <= t < count && 0 <= c < t + 1 ==> (#[trigger] stacks@[t]@[c]).hidden,
                forall|t: int| 0 <= t < i ==> !(#[trigger] stacks@[t])@[t].hidden,
                ids(deck@).add(stacks_ids(stack_views(stacks@))) == ids(deck0),
            decreases count - i,
        {
            let ghost previews = stack_views(stacks@);
            reveal_stack_top_at(stacks, i);
            proof {
                let rt = reveal_top(previews[i as int]);
                assert(stack_views(stacks@) =~~= previews.update(i as int, rt));
                lemma_stacks_ids_update(previews, i as int, rt);
                lemma_ids_reveal_top(previews[i as int]);
                assert forall|v: (Value, Suit)|
                    stacks_ids(stack_views(stacks@)).count(v) == stacks_ids(previews).count(
                        v,
                    ) by {
                    assert(stacks_ids(previews.update(i as int, rt)).add(
                        ids(previews[i as int]),
                    ).count(v) == stacks_ids(previews).add(ids(rt)).count(v));
                }
                assert(stacks_ids(stack_views(stacks@)) =~= stacks_ids(previews));
            }
            i += 1;
        }
    }

    /// Constructs a fresh deal: a shuffled deck, `stacks_count` tableaux in
    /// the triangle shape, empty foundations, and an empty waste with window
    /// `pile_size`.
    pub fn new(stacks_count: usize, pile_size: usize) -> (g: Game)
        requires
            1 <= stacks_count,
            triangle(stacks_count as int) <= 52,
        ensures
            g.wf(),
            g@.stacks.len() == stacks_count,
            g@.pile.window == pile_size,
            g@.pile.cards.len() == 0,
            forall|t: int| 0 <= t < 4 ==> (#[trigger] g@.suits[t]).len() == 0,
            forall|t: int| 0 <= t < stacks_count ==> (#[trigger] g@.stacks[t]).len() == t + 1,
            forall|t: int, c: int|
                0 <= t < stacks_count && 0 <= c < t ==> (#[trigger] g@.stacks[t][c]).hidden,
            forall|t: int| 0 <= t < stacks_count ==> !(#[trigger] g@.stacks[t])[t].hidden,
            g@.deck.len() == 52 - triangle(stacks_count as int),
            forall|d: int| 0 <= d < g@.deck.len() ==> g@.deck[d].hidden,
    {
        broadcast use vstd::multiset::group_multiset_axioms;

        let pile = Pile::new(pile_size, CARDS_IN_DECK);
        let mut suit_stacks: Vec<Stack> = Vec::with_capacity(4);
        suit_stacks.push(Stack::with_capacity(CARDS_IN_SUIT));
        suit_stacks.push(Stack::with_capacity(CARDS_IN_SUIT));
        suit_stacks.push(Stack::with_capacity(CARDS_IN_SUIT));
        suit_stacks.push(Stack::with_capacity(CARDS_IN_SUIT));

        let mut deck = Self::generate_deck();
        let mut stacks: Vec<Stack> = Vec::with_capacity(stacks_count);
        let mut i: usize = 0;
        while i < stacks_count
            invariant
                stacks@.len() == i <= stacks_count,
                forall|t: int| 0 <= t < i ==> (#[trigger] stacks@[t])@.len() == 0,
            decreases stacks_count - i,
        {
            stacks.push(Stack::with_capacity(CARDS_IN_SUIT));
            i += 1;
        }
        proof {
            if stacks_count > 9 {
                lemma_triangle_mono(10, stacks_count as int);
                reveal_with_fuel(triangle, 12);
                assert(triangle(10) == 55);
            }
        }
        let ghost fresh = deck@;
        Self::rearange_cards(&mut deck, &mut stacks);

        let g = Game { deck, suit_stacks, stacks, pile };
        proof {
            lemma_triangle_mono(0, stacks_count as int);
            assert(g@.suits[0].len() == 0);
            assert(g@.suits[1].len() == 0);
            assert(g@.suits[2].len() == 0);
            assert(g@.suits[3].len() == 0);
            lemma_stacks_ids_all_empty(g@.suits);
            assert(ids(g@.pile.cards) =~= Multiset::<(Value, Suit)>::empty());
            assert forall|t: int|
                0 <= t < stacks_count implies (#[trigger] g@.stacks[t]).len() == t + 1 by {
                assert(g.stacks@[t]@.len() == t + 1);
            }
            assert forall|t: int, c: int|
                0 <= t < stacks_count && 0 <= c < t implies (#[trigger] g@.stacks[t][c]).hidden by {
                assert(g.stacks@[t]@[c].hidden);
            }
            assert forall|t: int|
                0 <= t < stacks_count implies !(#[trigger] g@.stacks[t])[t].hidden by {
                assert(!g.stacks@[t]@[t].hidden);
            }
            assert(g@.deck.len() == 52 - triangle(stacks_count as int));
            assert forall|d: int| 0 <= d < g@.deck.len() implies g@.deck[d].hidden by {
                assert(g@.deck[d] == fresh[d]);
            }
            assert(game_ids(g@) =~= standard_ids());
        }
        g
    }

    /// Discards the current state entirely and deals afresh, keeping the
    /// tableau count and the pile window.
    pub fn restart(&mut self)
        requires
            old(self).wf(),
        ensures
            final(self).wf(),
            final(self)@.stacks.len() == old(self)@.stacks.len(),
            final(self)@.pile.window == old(self)@.pile.window,
            final(self)@.pile.cards.len() == 0,
            forall|t: int| 0 <= t < 4 ==> (#[trigger] final(self)@.suits[t]).len() == 0,
            forall|t: int|
                0 <= t < final(self)@.stacks.len() ==> (#[trigger] final(self)@.stacks[t]).len()
                    == t + 1,
            forall|t: int, c: int|
                0 <= t < final(self)@.stacks.len() && 0 <= c < t
                    ==> (#[trigger] final(self)@.stacks[t][c]).hidden,
            forall|t: int|
                0 <= t < final(self)@.stacks.len()
                    ==> !(#[trigger] final(self)@.stacks[t])[t].hidden,
            final(self)@.deck.len() == 52 - triangle(final(self)@.stacks.len() as int),
            forall|d: int| 0 <= d < final(self)@.deck.len() ==> final(self)@.deck[d].hidden,
    {
        broadcast use vstd::multiset::group_multiset_axioms;

        let count = self.stacks.len();
        let mut i: usize = 0;
        while i < count
            invariant
                i <= count,
                self@.stacks.len() == count,
                self@.suits == old(self)@.suits,
                self@.pile == old(self)@.pile,
                forall|t: int| 0 <= t < i ==> (#[trigger] self@.stacks[t]).len() == 0,
            decreases count - i,
        {
            clear_stack_at(&mut self.stacks, i);
            i += 1;
        }
        let suit_count = self.suit_stacks.len();
        let mut j: usize = 0;
        while j < suit_count
            invariant
                j <= suit_count,
                self@.suits.len() == suit_count,
                self@.stacks.len() == count,
                self@.pile == old(self)@.pile,
                forall|t: int| 0 <= t < count ==> (#[trigger] self@.stacks[t]).len() == 0,
                forall|t: int| 0 <= t < j ==> (#[trigger] self@.suits[t]).len() == 0,
            decreases suit_count - j,
        {
            clear_stack_at(&mut self.suit_stacks, j);
            j += 1;
        }
        self.pile.clear();

        let mut deck = Self::generate_deck();
        proof {
            lemma_triangle_mono(0, count as int);
            assert forall|t: int|
                0 <= t < self.stacks@.len() implies (#[trigger] self.stacks@[t])@.len() == 0 by {
                assert(self@.stacks[t].len() == 0);
            }
        }
        let ghost fresh = deck@;
        Self::rearange_cards(&mut deck, &mut self.stacks);
        self.deck = deck;
        proof {
            assert(self@.suits[0].len() == 0);
            assert(self@.suits[1].len() == 0);
            assert(self@.suits[2].len() == 0);
            assert(self@.suits[3].len() == 0);
            lemma_stacks_ids_all_empty(self@.suits);
            assert(ids(self@.pile.cards) =~= Multiset::<(Value, Suit)>::empty());
            assert forall|t: int|
                0 <= t < count implies (#[trigger] self@.stacks[t]).len() == t + 1 by {
                assert(self.stacks@[t]@.len() == t + 1);
            }
            assert forall|t: int, c: int|
                0 <= t < count && 0 <= c < t implies (#[trigger] self@.stacks[t][c]).hidden by {
                assert(self.stacks@[t]@[c].hidden);
            }
            assert forall|t: int|
                0 <= t < count implies !(#[trigger] self@.stacks[t])[t].hidden by {
                assert(!self.stacks@[t]@[t].hidden);
            }
            assert(self@.deck.len() == 52 - triangle(count as int));
            assert forall|d: int| 0 <= d < self@.deck.len() implies self@.deck[d].hidden by {
                assert(self@.deck[d] == fresh[d]);
            }
            assert(game_ids(self@) =~= standard_ids());
        }
    }
}

/// Clears the stack at `i` in place.
fn clear_stack_at(stacks: &mut Vec<Stack>, i: usize)
    requires
        i < old(stacks)@.len(),
    ensures
        stack_views(final(stacks)@) == stack_views(old(stacks)@).update(
            i as int,
            Seq::<Card>::empty(),
        ),
{
    stacks[i].clear();
    proof {
        assert(stack_views(final(stacks)@) =~~= stack_views(old(stacks)@).update(
            i as int,
            Seq::<Card>::empty(),
        ));
    }
}

/// Turns the top card of the stack at `i` face up.
fn reveal_stack_top_at(stacks: &mut Vec<Stack>, i: usize)
    requires
        i < old(stacks)@.len(),
    ensures
        final(stacks)@.len() == old(stacks)@.len(),
        final(stacks)@[i as int]@ == reveal_top(old(stacks)@[i as int]@),
        forall|t: int|
            0 <= t < old(stacks)@.len() && t != i ==> final(stacks)@[t] == old(stacks)@[t],
{
    stacks[i].reveal_last();
}

impl Default for Game {
    /// The customary deal: seven tableaux and a three-card draw window.
    fn default() -> (g: Game)
        ensures
            g.wf(),
            g@.stacks.len() == 7,
            g@.pile.window == 3,
    {
        proof {
            reveal_with_fuel(triangle, 9);
            assert(triangle(7) == 28);
        }
        Game::new(7, 3)
    }
}

/// Every well-formed game spreads each of the 52 (rank, suit) pairs over its
/// containers exactly once: no card is ever duplicated or lost.
pub proof fn lemma_card_set_exactly_once(v: GameView, value: Value, suit: Suit)
    requires
        v.wf(),
    ensures
        game_ids(v).count((value, suit)) == 1,
{
    lemma_standard_ids_exactly_once(value, suit);
}

/// A foundation can never outgrow its thirteen ranks: in a well-formed game
/// each one holds at most a full suit.
pub proof fn lemma_foundation_capacity(v: GameView, f: int)
    requires
        v.wf(),
        0 <= f < v.suits.len(),
    ensures
        v.suits[f].len() <= 13,
{
    let s = v.suits[f];
    if s.len() > 13 {
        assert(s[13].value.rank_spec() == 14);
    }
}

/// In a well-formed game no container can hold more than the 52 cards that
/// exist.
pub proof fn lemma_wf_container_bounds(v: GameView)
    requires
        v.wf(),
    ensures
        v.deck.len() <= 52,
        v.pile.cards.len() <= 52,
        forall|t: int| 0 <= t < v.suits.len() ==> (#[trigger] v.suits[t]).len() <= 52,
        forall|t: int| 0 <= t < v.stacks.len() ==> (#[trigger] v.stacks[t]).len() <= 52,
{
    broadcast use vstd::multiset::group_multiset_axioms;

    lemma_standard_ids_len();
    lemma_ids_len(v.deck);
    lemma_ids_len(v.pile.cards);
    assert forall|t: int| 0 <= t < v.suits.len() implies (#[trigger] v.suits[t]).len() <= 52 by {
        lemma_stacks_ids_member_len(v.suits, t);
        lemma_ids_len(v.suits[t]);
    }
    assert forall|t: int| 0 <= t < v.stacks.len() implies (#[trigger] v.stacks[t]).len() <= 52 by {
        lemma_stacks_ids_member_len(v.stacks, t);
        lemma_ids_len(v.stacks[t]);
    }
}

} // verus!
