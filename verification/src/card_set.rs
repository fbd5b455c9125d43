//! The card-set model: which (rank, suit) identities a sequence of cards
//! holds, and the standard 52-card deck those identities are drawn from.
//!
//! The game's central invariant is that the identities spread over all of its
//! containers always form the standard deck, each pair exactly once. This
//! module defines that multiset and proves the little algebra the container
//! operations need: pushing, popping, updating, concatenating and reversing
//! sequences of cards, and permuting a whole deck.

use vstd::prelude::*;
use vstd::multiset::Multiset;
use crate::card::{Card, Suit, Value};

verus! {

/// The identity multiset of a sequence of cards: its (rank, suit) pairs,
/// with face flags ignored.
pub open spec fn ids(s: Seq<Card>) -> Multiset<(Value, Suit)>
    decreases s.len(),
{
    if s.len() == 0 {
        Multiset::empty()
    } else {
        ids(s.drop_last()).insert(s.last().id())
    }
}

/// The identity multiset spread over a family of stacks.
pub open spec fn stacks_ids(ss: Seq<Seq<Card>>) -> Multiset<(Value, Suit)>
    decreases ss.len(),
{
    if ss.len() == 0 {
        Multiset::empty()
    } else {
        stacks_ids(ss.drop_last()).add(ids(ss.last()))
    }
}

/// The value generated at position `i` (0-based) within a block of four
/// consecutive cards of the fresh deck.
pub open spec fn value_of_index(i: int) -> Value {
    if i == 0 {
        Value::Two
    } else if i == 1 {
        Value::Three
    } else if i == 2 {
        Value::Four
    } else if i == 3 {
        Value::Five
    } else if i == 4 {
        Value::Six
    } else if i == 5 {
        Value::Seven
    } else if i == 6 {
        Value::Eight
    } else if i == 7 {
        Value::Nine
    } else if i == 8 {
        Value::Ten
    } else if i == 9 {
        Value::Jack
    } else if i == 10 {
        Value::Queen
    } else if i == 11 {
        Value::King
    } else {
        Value::Ace
    }
}

/// The suit generated at position `i` within a block of four.
pub open spec fn suit_of_index(i: int) -> Suit {
    if i == 0 {
        Suit::Clubs
    } else if i == 1 {
        Suit::Hearts
    } else if i == 2 {
        Suit::Spades
    } else {
        Suit::Diamonds
    }
}

/// The position of a value within the generation order; inverse of
/// `value_of_index` on `0..13`.
pub open spec fn value_index(v: Value) -> int {
    match v {
        Value::Two => 0,
        Value::Three => 1,
        Value::Four => 2,
        Value::Five => 3,
        Value::Six => 4,
        Value::Seven => 5,
        Value::Eight => 6,
        Value::Nine => 7,
        Value::Ten => 8,
        Value::Jack => 9,
        Value::Queen => 10,
        Value::King => 11,
        Value::Ace => 12,
    }
}

/// The position of a suit within the generation order; inverse of
/// `suit_of_index` on `0..4`.
pub open spec fn suit_index(s: Suit) -> int {
    match s {
        Suit::Clubs => 0,
        Suit::Hearts => 1,
        Suit::Spades => 2,
        Suit::Diamonds => 3,
    }
}

/// Card `i` of the freshly generated, still unshuffled deck.
pub open spec fn standard_card(i: int) -> Card {
    Card { value: value_of_index(i / 4), suit: suit_of_index(i % 4), hidden: true }
}

/// The freshly generated deck: all 52 cards, face down, values in blocks of
/// four suits each.
pub open spec fn standard_deck() -> Seq<Card> {
    Seq::new(52, |i: int| standard_card(i))
}

/// The identities of the full 52-card set.
pub open spec fn standard_ids() -> Multiset<(Value, Suit)> {
    ids(standard_deck())
}

/// A sequence with its top card turned face up; the sequence itself if empty.
pub open spec fn reveal_top(s: Seq<Card>) -> Seq<Card> {
    if s.len() == 0 {
        s
    } else {
        s.update(s.len() - 1, s.last().revealed())
    }
}

pub proof fn lemma_ids_reveal_top(s: Seq<Card>)
    ensures
        ids(reveal_top(s)) == ids(s),
{
    if s.len() > 0 {
        lemma_ids_update_same_id(s, s.len() - 1, s.last().revealed());
    }
}

pub proof fn lemma_ids_push(s: Seq<Card>, c: Card)
    ensures
        ids(s.push(c)) == ids(s).insert(c.id()),
{
    assert(s.push(c).drop_last() =~= s);
    assert(s.push(c).last() == c);
}

pub proof fn lemma_ids_drop_last(s: Seq<Card>)
    requires
        s.len() > 0,
    ensures
        ids(s) == ids(s.drop_last()).insert(s.last().id()),
{
}

pub proof fn lemma_ids_drop_first(s: Seq<Card>)
    requires
        s.len() > 0,
    ensures
        ids(s) == ids(s.drop_first()).insert(s.first().id()),
    decreases s.len(),
{
    broadcast use vstd::multiset::group_multiset_axioms;

    if s.len() == 1 {
        assert(s.drop_last() =~= Seq::<Card>::empty());
        assert(s.drop_first() =~= Seq::<Card>::empty());
    } else {
        lemma_ids_drop_first(s.drop_last());
        assert(s.drop_last().drop_first() =~= s.drop_first().drop_last());
        assert(s.drop_first().last() == s.last());
        assert(s.drop_last().first() == s.first());
        let a = ids(s.drop_first().drop_last());
        assert(ids(s) == a.insert(s.first().id()).insert(s.last().id()));
        assert(ids(s.drop_first()).insert(s.first().id()) == a.insert(s.last().id()).insert(
            s.first().id(),
        ));
        assert(a.insert(s.first().id()).insert(s.last().id()) =~= a.insert(s.last().id()).insert(
            s.first().id(),
        ));
    }
}

pub proof fn lemma_ids_len(s: Seq<Card>)
    ensures
        ids(s).len() == s.len(),
    decreases s.len(),
{
    broadcast use vstd::multiset::group_multiset_axioms;

    if s.len() > 0 {
        lemma_ids_len(s.drop_last());
    }
}

pub proof fn lemma_ids_contains(s: Seq<Card>, i: int)
    requires
        0 <= i < s.len(),
    ensures
        ids(s).count(s[i].id()) > 0,
    decreases s.len(),
{
    broadcast use vstd::multiset::group_multiset_axioms;

    if i == s.len() - 1 {
        assert(s.last() == s[i]);
    } else {
        lemma_ids_contains(s.drop_last(), i);
        assert(s.drop_last()[i] == s[i]);
    }
}

pub proof fn lemma_ids_update_same_id(s: Seq<Card>, k: int, c: Card)
    requires
        0 <= k < s.len(),
        c.id() == s[k].id(),
    ensures
        ids(s.update(k, c)) == ids(s),
    decreases s.len(),
{
    if k == s.len() - 1 {
        assert(s.update(k, c).drop_last() =~= s.drop_last());
        assert(s.update(k, c).last() == c);
    } else {
        lemma_ids_update_same_id(s.drop_last(), k, c);
        assert(s.update(k, c).drop_last() =~= s.drop_last().update(k, c));
        assert(s.update(k, c).last() == s.last());
    }
}

pub proof fn lemma_ids_remove(s: Seq<Card>, j: int)
    requires
        0 <= j < s.len(),
    ensures
        ids(s.remove(j)) == ids(s).remove(s[j].id()),
    decreases s.len(),
{
    broadcast use vstd::multiset::group_multiset_axioms;

    if j == s.len() - 1 {
        assert(s.remove(j) =~= s.drop_last());
        assert(ids(s).remove(s[j].id()) =~= ids(s.drop_last()));
    } else {
        lemma_ids_remove(s.drop_last(), j);
        assert(s.remove(j).drop_last() =~= s.drop_last().remove(j));
        assert(s.remove(j).last() == s.last());
        assert(s.drop_last()[j] == s[j]);
        lemma_ids_contains(s.drop_last(), j);
        // insert and remove commute because the removed identity is present
        assert(ids(s.drop_last()).remove(s[j].id()).insert(s.last().id()) =~= ids(
            s.drop_last(),
        ).insert(s.last().id()).remove(s[j].id()));
    }
}

pub proof fn lemma_ids_concat(a: Seq<Card>, b: Seq<Card>)
    ensures
        ids(a + b) == ids(a).add(ids(b)),
    decreases b.len(),
{
    broadcast use vstd::multiset::group_multiset_axioms;

    if b.len() == 0 {
        assert(a + b =~= a);
        assert(ids(a).add(ids(b)) =~= ids(a));
    } else {
        lemma_ids_concat(a, b.drop_last());
        assert((a + b).drop_last() =~= a + b.drop_last());
        assert((a + b).last() == b.last());
        assert(ids(a).add(ids(b.drop_last()).insert(b.last().id())) =~= ids(a).add(
            ids(b.drop_last()),
        ).insert(b.last().id()));
    }
}

pub proof fn lemma_ids_reverse(s: Seq<Card>)
    ensures
        ids(s.reverse()) == ids(s),
    decreases s.len(),
{
    if s.len() == 0 {
        assert(s.reverse() =~= s);
    } else {
        lemma_ids_reverse(s.drop_first());
        assert(s.reverse().drop_last() =~= s.drop_first().reverse());
        assert(s.reverse().last() == s.first());
        lemma_ids_drop_first(s);
    }
}

/// Sequences that agree pointwise on identities (face flags may differ) hold
/// the same identity multiset.
pub proof fn lemma_ids_same_ids(a: Seq<Card>, b: Seq<Card>)
    requires
        a.len() == b.len(),
        forall|i: int| 0 <= i < a.len() ==> a[i].id() == b[i].id(),
    ensures
        ids(a) == ids(b),
    decreases a.len(),
{
    if a.len() > 0 {
        lemma_ids_same_ids(a.drop_last(), b.drop_last());
        assert(a.last().id() == b.last().id());
    }
}

/// Two sequences holding the same multiset of cards hold the same identities;
/// this is what carries the card-set invariant across a shuffle.
pub proof fn lemma_ids_respects_multiset(a: Seq<Card>, b: Seq<Card>)
    requires
        a.to_multiset() == b.to_multiset(),
    ensures
        ids(a) == ids(b),
    decreases a.len(),
{
    broadcast use vstd::multiset::group_multiset_axioms;
    broadcast use vstd::seq_lib::group_to_multiset_ensures;

    assert(a.to_multiset().len() == a.len());
    assert(b.to_multiset().len() == b.len());
    if a.len() == 0 {
        assert(b.len() == 0);
    } else {
        let x = a.last();
        assert(a.contains(x));
        assert(b.to_multiset().count(x) > 0);
        assert(b.contains(x));
        let j = choose|i: int| 0 <= i < b.len() && b[i] == x;
        let a1 = a.drop_last();
        let b1 = b.remove(j);
        assert(a.remove(a.len() - 1) =~= a1);
        assert(a1.to_multiset() == a.to_multiset().remove(x));
        assert(b1.to_multiset() == b.to_multiset().remove(x));
        lemma_ids_respects_multiset(a1, b1);
        lemma_ids_remove(b, j);
        lemma_ids_contains(b, j);
        assert(ids(b).remove(x.id()).insert(x.id()) =~= ids(b));
    }
}

pub proof fn lemma_stacks_ids_all_empty(ss: Seq<Seq<Card>>)
    requires
        forall|i: int| 0 <= i < ss.len() ==> ss[i].len() == 0,
    ensures
        stacks_ids(ss) == Multiset::<(Value, Suit)>::empty(),
    decreases ss.len(),
{
    broadcast use vstd::multiset::group_multiset_axioms;

    if ss.len() > 0 {
        lemma_stacks_ids_all_empty(ss.drop_last());
        assert(ss.last().len() == 0);
        assert(stacks_ids(ss) =~= Multiset::<(Value, Suit)>::empty());
    }
}

/// Replacing one member stack exchanges exactly its identities.
pub proof fn lemma_stacks_ids_update(ss: Seq<Seq<Card>>, i: int, t: Seq<Card>)
    requires
        0 <= i < ss.len(),
    ensures
        stacks_ids(ss.update(i, t)).add(ids(ss[i])) == stacks_ids(ss).add(ids(t)),
    decreases ss.len(),
{
    broadcast use vstd::multiset::group_multiset_axioms;

    if i == ss.len() - 1 {
        assert(ss.update(i, t).drop_last() =~= ss.drop_last());
        assert(ss.update(i, t).last() == t);
        assert(stacks_ids(ss.drop_last()).add(ids(t)).add(ids(ss[i])) =~= stacks_ids(
            ss.drop_last(),
        ).add(ids(ss[i])).add(ids(t)));
    } else {
        lemma_stacks_ids_update(ss.drop_last(), i, t);
        assert(ss.update(i, t).drop_last() =~= ss.drop_last().update(i, t));
        assert(ss.update(i, t).last() == ss.last());
        assert(ss.drop_last()[i] == ss[i]);
        let a = stacks_ids(ss.drop_last().update(i, t));
        let b = stacks_ids(ss.drop_last());
        assert(a.add(ids(ss[i])) == b.add(ids(t)));
        assert(a.add(ids(ss.last())).add(ids(ss[i])) =~= a.add(ids(ss[i])).add(ids(ss.last())));
        assert(b.add(ids(t)).add(ids(ss.last())) =~= b.add(ids(ss.last())).add(ids(t)));
    }
}

/// A member stack's identities never outnumber the whole family's.
pub proof fn lemma_stacks_ids_member_len(ss: Seq<Seq<Card>>, i: int)
    requires
        0 <= i < ss.len(),
    ensures
        ids(ss[i]).len() <= stacks_ids(ss).len(),
    decreases ss.len(),
{
    broadcast use vstd::multiset::group_multiset_axioms;

    if i == ss.len() - 1 {
        assert(ss.last() == ss[i]);
    } else {
        lemma_stacks_ids_member_len(ss.drop_last(), i);
        assert(ss.drop_last()[i] == ss[i]);
    }
}

/// Every (rank, suit) pair occurs exactly once among the first `k` cards that
/// its generation position allows, which at `k == 52` pins the full deck.
proof fn lemma_standard_prefix_count(k: int, v: Value, su: Suit)
    requires
        0 <= k <= 52,
    ensures
        ids(standard_deck().take(k)).count((v, su)) == if 4 * value_index(v) + suit_index(su) < k {
            1int
        } else {
            0int
        },
    decreases k,
{
    broadcast use vstd::multiset::group_multiset_axioms;

    if k == 0 {
        assert(standard_deck().take(0) =~= Seq::<Card>::empty());
    } else {
        lemma_standard_prefix_count(k - 1, v, su);
        let d = standard_deck();
        assert(d.take(k).drop_last() =~= d.take(k - 1));
        assert(d.take(k).last() == standard_card(k - 1));
        let c = standard_card(k - 1);
        assert(k - 1 == 4 * ((k - 1) / 4) + ((k - 1) % 4)) by (nonlinear_arith)
            requires 0 < k <= 52,
        ;
        assert(0 <= (k - 1) / 4 < 13) by (nonlinear_arith)
            requires 0 < k <= 52,
        ;
        assert(0 <= (k - 1) % 4 < 4) by (nonlinear_arith)
            requires 0 < k <= 52,
        ;
        if c.id() == (v, su) {
            assert(value_of_index((k - 1) / 4) == v);
            assert(suit_of_index((k - 1) % 4) == su);
            assert(value_index(v) == (k - 1) / 4);
            assert(suit_index(su) == (k - 1) % 4);
        } else {
            if 4 * value_index(v) + suit_index(su) == k - 1 {
                assert(0 <= value_index(v) < 13);
                assert(0 <= suit_index(su) < 4);
                assert((k - 1) / 4 == value_index(v) && (k - 1) % 4 == suit_index(su))
                    by (nonlinear_arith)
                    requires
                        4 * value_index(v) + suit_index(su) == k - 1,
                        0 <= value_index(v) < 13,
                        0 <= suit_index(su) < 4,
                ;
                assert(c.id() == (v, su));
            }
        }
    }
}

/// The standard identity set holds each of the 52 (rank, suit) pairs exactly
/// once.
pub proof fn lemma_standard_ids_exactly_once(v: Value, su: Suit)
    ensures
        standard_ids().count((v, su)) == 1,
{
    lemma_standard_prefix_count(52, v, su);
    assert(standard_deck().take(52) =~= standard_deck());
    assert(0 <= value_index(v) < 13);
    assert(0 <= suit_index(su) < 4);
}

pub proof fn lemma_standard_ids_len()
    ensures
        standard_ids().len() == 52,
{
    lemma_ids_len(standard_deck());
}

} // verus!
