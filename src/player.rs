use crate::card::{card_value, Card};
use vstd::prelude::*;

verus! {

broadcast use vstd::seq_lib::group_to_multiset_ensures;

/// A player: a hand of cards bounded by `max_hand_size`, and a display name.
pub struct Player {
    pub hand: Vec<Card>,
    pub max_hand_size: usize,
    pub name: String,
}

/// The summed point value of a sequence of cards.
pub open spec fn hand_total(s: Seq<Card>) -> nat
    decreases s.len(),
{
    if s.len() == 0 {
        0
    } else {
        hand_total(s.drop_last()) + card_value(s.last())
    }
}

/// The summed value of the cards of `hand` at `indices`, each index counted
/// as often as it occurs; an index past the end adds nothing.
pub open spec fn selected_total(hand: Seq<Card>, indices: Seq<usize>) -> nat
    decreases indices.len(),
{
    if indices.len() == 0 {
        0
    } else {
        selected_total(hand, indices.drop_last()) + if indices.last() < hand.len() {
            card_value(hand[indices.last() as int])
        } else {
            0
        }
    }
}

/// Removes from `hand` the card at each index of `indices` in turn, skipping
/// an index past the current end. Gives the hand that is left and the removed
/// cards in the order of removal.
pub open spec fn remove_in_turn(hand: Seq<Card>, indices: Seq<usize>) -> (Seq<Card>, Seq<Card>)
    decreases indices.len(),
{
    if indices.len() == 0 {
        (hand, Seq::empty())
    } else {
        let (left, out) = remove_in_turn(hand, indices.drop_last());
        let i = indices.last() as int;
        if i < left.len() {
            (left.remove(i), out.push(left[i]))
        } else {
            (left, out)
        }
    }
}

/// Whether a sequence of indices is in ascending order.
pub open spec fn is_ascending(s: Seq<usize>) -> bool {
    forall|a: int, b: int| 0 <= a < b < s.len() ==> s[a] <= s[b]
}

/// The indices of `s` in ascending order.
pub open spec fn ascending_of(s: Seq<usize>) -> Seq<usize> {
    choose|t: Seq<usize>| t.to_multiset() == s.to_multiset() && is_ascending(t)
}

/// Two ascending sequences with the same elements are equal.
proof fn lemma_ascending_unique(a: Seq<usize>, b: Seq<usize>)
    requires
        is_ascending(a),
        is_ascending(b),
        a.to_multiset() == b.to_multiset(),
    ensures
        a == b,
    decreases a.len(),
{
    vstd::seq_lib::to_multiset_len(a);
    vstd::seq_lib::to_multiset_len(b);
    if a.len() == 0 {
        assert(a =~= b);
    } else {
        let x = a.last();
        let y = b.last();
        vstd::seq_lib::to_multiset_contains(a, y);
        vstd::seq_lib::to_multiset_contains(b, x);
        assert(a.to_multiset().count(x) > 0);
        assert(b.contains(x));
        assert(a.contains(y));
        assert(x <= y);
        assert(y <= x);
        vstd::seq_lib::to_multiset_remove(a, a.len() - 1);
        vstd::seq_lib::to_multiset_remove(b, b.len() - 1);
        assert(a.remove(a.len() - 1) =~= a.drop_last());
        assert(b.remove(b.len() - 1) =~= b.drop_last());
        lemma_ascending_unique(a.drop_last(), b.drop_last());
        assert(a =~= b.drop_last().push(y));
        assert(b =~= b.drop_last().push(y));
    }
}

/// How many of `offered` cards a hand of `len` cards with room for `max`
/// takes: as many as fit, in order.
pub open spec fn accepted_count(len: nat, max: nat, offered: nat) -> nat {
    if len >= max {
        0
    } else if offered < max - len {
        offered
    } else {
        (max - len) as nat
    }
}

/// Relies on `slice::sort_unstable`: it reorders the slice in place into
/// ascending order.
#[verifier::external_body]
fn sort_indices(v: &mut Vec<usize>)
    ensures
        final(v)@.to_multiset() == old(v)@.to_multiset(),
        is_ascending(final(v)@),
{
    v.sort_unstable();
}

proof fn lemma_hand_total_prefix(s: Seq<Card>, i: int)
    requires
        0 <= i <= s.len(),
    ensures
        hand_total(s.take(i)) <= hand_total(s),
    decreases s.len(),
{
    if i == s.len() {
        assert(s.take(i) =~= s);
    } else {
        lemma_hand_total_prefix(s.drop_last(), i);
        assert(s.drop_last().take(i) =~= s.take(i));
    }
}

proof fn lemma_selected_total_prefix(hand: Seq<Card>, s: Seq<usize>, i: int)
    requires
        0 <= i <= s.len(),
    ensures
        selected_total(hand, s.take(i)) <= selected_total(hand, s),
    decreases s.len(),
{
    if i == s.len() {
        assert(s.take(i) =~= s);
    } else {
        lemma_selected_total_prefix(hand, s.drop_last(), i);
        assert(s.drop_last().take(i) =~= s.take(i));
    }
}

impl Player {
    /// The hand never holds more cards than its capacity.
    pub open spec fn wf(&self) -> bool {
        self.hand@.len() <= self.max_hand_size
    }

    /// A player with an empty hand.
    pub fn new(name: String, max_hand_size: usize) -> (r: Self)
        ensures
            r.hand@ == Seq::<Card>::empty(),
            r.max_hand_size == max_hand_size,
            r.name == name,
            r.wf(),
    {
        Player { hand: Vec::new(), max_hand_size, name }
    }

    /// Takes `card` into the hand if there is room; returns whether it did.
    /// A rejected card is left with the caller.
    pub fn draw_card(&mut self, card: Card) -> (r: bool)
        ensures
            r == (old(self).hand@.len() < old(self).max_hand_size),
            r ==> final(self).hand@ == old(self).hand@.push(card),
            !r ==> final(self).hand@ == old(self).hand@,
            final(self).max_hand_size == old(self).max_hand_size,
            final(self).name == old(self).name,
            old(self).wf() ==> final(self).wf(),
    {
        if self.hand.len() < self.max_hand_size {
            self.hand.push(card);
            true
        } else {
            false
        }
    }

    /// Offers each card in turn; returns those that did not fit, in order.
    pub fn draw_multiple(&mut self, cards: Vec<Card>) -> (r: Vec<Card>)
        ensures
            ({
                let a = accepted_count(
                    old(self).hand@.len(),
                    old(self).max_hand_size as nat,
                    cards@.len(),
                ) as int;
                &&& final(self).hand@ == old(self).hand@ + cards@.take(a)
                &&& r@ == cards@.skip(a)
            }),
            final(self).max_hand_size == old(self).max_hand_size,
            final(self).name == old(self).name,
            old(self).wf() ==> final(self).wf(),
    {
        let ghost start = self.hand@;
        let mut remaining: Vec<Card> = Vec::new();
        let mut i: usize = 0;
        while i < cards.len()
            invariant
                i <= cards@.len(),
                self.max_hand_size == old(self).max_hand_size,
                self.name == old(self).name,
                ({
                    let a = accepted_count(start.len(), self.max_hand_size as nat, i as nat) as int;
                    &&& self.hand@ == start + cards@.take(a)
                    &&& remaining@ == cards@.subrange(a, i as int)
                }),
            decreases cards@.len() - i,
        {
            let card = cards[i];
            let ghost a = accepted_count(start.len(), self.max_hand_size as nat, i as nat) as int;
            if !self.draw_card(card) {
                remaining.push(card);
            }
            proof {
                let a2 = accepted_count(start.len(), self.max_hand_size as nat, (i + 1) as nat) as int;
                assert(self.hand@ =~= start + cards@.take(a2));
                assert(remaining@ =~= cards@.subrange(a2, i + 1));
            }
            i = i + 1;
        }
        proof {
            assert(cards@.subrange(
                accepted_count(start.len(), self.max_hand_size as nat, cards@.len()) as int,
                cards@.len() as int,
            ) =~= cards@.skip(
                accepted_count(start.len(), self.max_hand_size as nat, cards@.len()) as int,
            ));
        }
        remaining
    }

    /// Removes and returns the card at `index`, or `None` (removing nothing)
    /// when `index` is past the end. Later cards shift down by one.
    pub fn play_card(&mut self, index: usize) -> (r: Option<Card>)
        ensures
            index < old(self).hand@.len() ==> r == Some(old(self).hand@[index as int])
                && final(self).hand@ == old(self).hand@.remove(index as int),
            index >= old(self).hand@.len() ==> r.is_none() && final(self).hand@ == old(
                self,
            ).hand@,
            final(self).max_hand_size == old(self).max_hand_size,
            final(self).name == old(self).name,
            old(self).wf() ==> final(self).wf(),
    {
        if index < self.hand.len() {
            Some(self.hand.remove(index))
        } else {
            None
        }
    }

    /// Removes the cards at `indices`, taking the highest index first so that
    /// no removal shifts an index still to come, and skipping indices past the
    /// end. Returns the removed cards in ascending order of index.
    pub fn play_cards(&mut self, indices: Vec<usize>) -> (r: Vec<Card>)
        ensures
            final(self).hand@ == remove_in_turn(old(self).hand@, ascending_of(indices@).reverse()).0,
            r@ == remove_in_turn(old(self).hand@, ascending_of(indices@).reverse()).1.reverse(),
            final(self).hand@.len() + r@.len() == old(self).hand@.len(),
            final(self).max_hand_size == old(self).max_hand_size,
            final(self).name == old(self).name,
            old(self).wf() ==> final(self).wf(),
    {
        let ghost given = indices@;
        let mut pending = indices;
        sort_indices(&mut pending);
        let count: usize = pending.len();
        let ghost sorted = pending@;
        proof {
            lemma_ascending_unique(ascending_of(given), sorted);
        }
        let ghost desc = sorted.reverse();
        let ghost start = self.hand@;
        let mut cards: Vec<Card> = Vec::new();
        let mut k: usize = 0;
        while pending.len() > 0
            invariant
                k <= sorted.len(),
                sorted.len() == count,
                pending@ == sorted.take(sorted.len() - k),
                desc == sorted.reverse(),
                self.hand@ == remove_in_turn(start, desc.take(k as int)).0,
                cards@ == remove_in_turn(start, desc.take(k as int)).1.reverse(),
                self.hand@.len() + cards@.len() == start.len(),
                self.max_hand_size == old(self).max_hand_size,
                self.name == old(self).name,
                start == old(self).hand@,
            decreases pending@.len(),
        {
            let index = pending.pop().unwrap();
            let ghost before = remove_in_turn(start, desc.take(k as int));
            proof {
                assert(index == desc[k as int]);
                assert(desc.take(k + 1).drop_last() =~= desc.take(k as int));
            }
            match self.play_card(index) {
                Some(card) => {
                    cards.insert(0, card);
                    proof {
                        assert(cards@ =~= before.1.push(card).reverse());
                    }
                },
                None => {},
            }
            k = k + 1;
            proof {
                assert(pending@ =~= sorted.take(sorted.len() - k));
            }
        }
        proof {
            assert(desc.take(k as int) =~= desc);
        }
        cards
    }

    /// The summed value of the cards at `indices`; an index past the end
    /// counts as zero.
    pub fn calculate_value(&self, indices: &[usize]) -> (r: u8)
        requires
            selected_total(self.hand@, indices@) <= u8::MAX,
        ensures
            r == selected_total(self.hand@, indices@),
    {
        let mut total: u8 = 0;
        let mut i: usize = 0;
        while i < indices.len()
            invariant
                i <= indices@.len(),
                selected_total(self.hand@, indices@) <= u8::MAX,
                total == selected_total(self.hand@, indices@.take(i as int)),
            decreases indices@.len() - i,
        {
            let index = indices[i];
            proof {
                assert(indices@.take(i + 1).drop_last() =~= indices@.take(i as int));
                lemma_selected_total_prefix(self.hand@, indices@, i + 1);
            }
            if index < self.hand.len() {
                total = total + self.hand[index].value();
            }
            i = i + 1;
        }
        proof {
            assert(indices@.take(i as int) =~= indices@);
        }
        total
    }

    /// Whether the whole hand is worth at least `damage`.
    pub fn can_survive(&self, damage: u8) -> (r: bool)
        ensures
            r == (hand_total(self.hand@) >= damage),
    {
        let mut total: u16 = 0;
        let mut i: usize = 0;
        while i < self.hand.len() && total < damage as u16
            invariant
                i <= self.hand@.len(),
                total <= damage + 20,
                total == hand_total(self.hand@.take(i as int)),
            decreases self.hand@.len() - i,
        {
            proof {
                assert(self.hand@.take(i + 1).drop_last() =~= self.hand@.take(i as int));
            }
            total = total + self.hand[i].value() as u16;
            i = i + 1;
        }
        proof {
            lemma_hand_total_prefix(self.hand@, i as int);
            if i == self.hand@.len() {
                assert(self.hand@.take(i as int) =~= self.hand@);
            }
        }
        total >= damage as u16
    }

    /// The number of cards in the hand.
    pub fn hand_size(&self) -> (r: usize)
        ensures
            r == self.hand@.len(),
    {
        self.hand.len()
    }

    /// Whether the hand has no room for another card.
    pub fn is_hand_full(&self) -> (r: bool)
        ensures
            r == (self.hand@.len() >= self.max_hand_size),
    {
        self.hand.len() >= self.max_hand_size
    }
}

} // verus!
