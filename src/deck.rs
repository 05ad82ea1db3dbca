use crate::card::{
    is_numbered, number_from_index, number_index, suit_from_index, suit_index, Card,
    Rank, Suit,
};
use rand::seq::SliceRandom;
use vstd::prelude::*;

verus! {

broadcast use vstd::seq_lib::group_to_multiset_ensures;

/// An ordered pile of cards. Position 0 is the bottom; the last position is
/// the top, the next card to be drawn.
pub struct Deck {
    pub cards: Vec<Card>,
}

impl View for Deck {
    type V = Seq<Card>;

    open spec fn view(&self) -> Seq<Card> {
        self.cards@
    }
}

/// The suitless Jester as the tavern deck holds it (its suit is a placeholder).
pub open spec fn jester_card() -> Card {
    Card { suit: Suit::Hearts, rank: Rank::Jester }
}

/// How many copies of `c` a tavern deck with `jesters` Jesters holds: one of
/// each numbered card and each Ace, `jesters` Jesters, nothing else.
pub open spec fn tavern_count(c: Card, jesters: nat) -> nat {
    if is_numbered(c.rank) || c.rank == Rank::Ace {
        1
    } else if c == jester_card() {
        jesters
    } else {
        0
    }
}

/// The cards that `n` successive draws from a pile `s` hand out, in order:
/// the top `n` cards, topmost first.
pub open spec fn drawn_by(s: Seq<Card>, n: nat) -> Seq<Card> {
    s.subrange(s.len() - n, s.len() as int).reverse()
}

/// The four cards of one rank, one per suit.
pub open spec fn layer_cards(rank: Rank) -> Seq<Card> {
    seq![
        Card { suit: Suit::Hearts, rank },
        Card { suit: Suit::Diamonds, rank },
        Card { suit: Suit::Clubs, rank },
        Card { suit: Suit::Spades, rank },
    ]
}

/// The rank that position `i` of a castle deck holds: Kings at the bottom,
/// Queens in the middle, Jacks on top.
pub open spec fn castle_rank(i: int) -> Rank {
    if i < 4 {
        Rank::King
    } else if i < 8 {
        Rank::Queen
    } else {
        Rank::Jack
    }
}

/// A castle deck: twelve cards in three layers of four, each layer holding
/// the four suits of its rank in some order.
pub open spec fn is_castle_layout(s: Seq<Card>) -> bool {
    &&& s.len() == 12
    &&& s.subrange(0, 4).to_multiset() == layer_cards(Rank::King).to_multiset()
    &&& s.subrange(4, 8).to_multiset() == layer_cards(Rank::Queen).to_multiset()
    &&& s.subrange(8, 12).to_multiset() == layer_cards(Rank::Jack).to_multiset()
    &&& forall|i: int| 0 <= i < 12 ==> (#[trigger] s[i]).rank == castle_rank(i)
}

/// Relies on rand's `SliceRandom::shuffle` driven by `thread_rng`: it swaps
/// elements in place, so the result is a permutation of the input.
#[verifier::external_body]
fn shuffle_cards(cards: &mut Vec<Card>)
    ensures
        final(cards)@.len() == old(cards)@.len(),
        final(cards)@.to_multiset() == old(cards)@.to_multiset(),
{
    cards.shuffle(&mut rand::thread_rng());
}

/// The four cards of `rank` in suit order.
fn suit_layer(rank: Rank) -> (r: Vec<Card>)
    ensures
        r@ == layer_cards(rank),
{
    let mut v: Vec<Card> = Vec::new();
    let mut i: usize = 0;
    while i < 4
        invariant
            i <= 4,
            v@ == layer_cards(rank).subrange(0, i as int),
        decreases 4 - i,
    {
        v.push(Card::new(suit_from_index(i), rank));
        proof {
            assert(v@ =~= layer_cards(rank).subrange(0, i + 1));
        }
        i = i + 1;
    }
    proof {
        assert(v@ =~= layer_cards(rank));
    }
    v
}

/// How many copies of `c` the tavern deck holds once the numbered cards of
/// the suits before `s`, and the first `r` of suit `s`, are in.
pub open spec fn numbered_count(c: Card, s: int, r: int) -> nat {
    if is_numbered(c.rank) && (suit_index(c.suit) < s || (suit_index(c.suit) == s
        && number_index(c.rank) < r)) {
        1
    } else {
        0
    }
}

/// How many copies of `c` the tavern deck holds once all numbered cards and
/// the Aces of the first `a` suits are in.
pub open spec fn ace_count(c: Card, a: int) -> nat {
    if is_numbered(c.rank) || (c.rank == Rank::Ace && suit_index(c.suit) < a) {
        1
    } else {
        0
    }
}

/// Appends the nine numbered cards of the suit at position `s`.
fn push_numbered_suit(cards: &mut Vec<Card>, s: usize)
    requires
        s < 4,
        old(cards)@.len() == 9 * s,
        forall|c: Card| #[trigger] old(cards)@.to_multiset().count(c) == numbered_count(c, s as int, 0),
    ensures
        final(cards)@.len() == 9 * s + 9,
        forall|c: Card| #[trigger] final(cards)@.to_multiset().count(c) == numbered_count(c, s + 1, 0),
{
    let suit = suit_from_index(s);
    let mut n: usize = 0;
    while n < 9
        invariant
            s < 4,
            n <= 9,
            suit_index(suit) == s,
            cards@.len() == 9 * s + n,
            forall|c: Card| #[trigger] cards@.to_multiset().count(c) == numbered_count(c, s as int, n as int),
        decreases 9 - n,
    {
        let card = Card::new(suit, number_from_index(n));
        let ghost prev = cards@;
        cards.push(card);
        proof {
            assert(cards@ == prev.push(card));
            assert forall|c: Card| #[trigger] cards@.to_multiset().count(c) == numbered_count(c, s as int, n + 1) by {
                assert(prev.to_multiset().count(c) == numbered_count(c, s as int, n as int));
            }
        }
        n = n + 1;
    }
    proof {
        assert forall|c: Card| #[trigger] cards@.to_multiset().count(c) == numbered_count(c, s + 1, 0) by {
            assert(cards@.to_multiset().count(c) == numbered_count(c, s as int, 9));
        }
    }
}

/// A shuffled layer keeps the rank of its cards.
proof fn lemma_layer_ranks(s: Seq<Card>, rank: Rank)
    requires
        s.to_multiset() == layer_cards(rank).to_multiset(),
    ensures
        s.len() == 4,
        forall|i: int| 0 <= i < s.len() ==> (#[trigger] s[i]).rank == rank,
{
    vstd::seq_lib::to_multiset_len(s);
    vstd::seq_lib::to_multiset_len(layer_cards(rank));
    assert forall|i: int| 0 <= i < s.len() implies (#[trigger] s[i]).rank == rank by {
        assert(s.to_multiset().count(s[i]) > 0);
        assert(layer_cards(rank).contains(s[i]));
    }
}

impl Deck {
    /// An empty deck.
    pub fn new() -> (r: Self)
        ensures
            r@ == Seq::<Card>::empty(),
    {
        Deck { cards: Vec::new() }
    }

    /// The player's draw pile: one card of each rank 2..10 in each suit, one
    /// Ace per suit, and `jester_count` Jesters, uniformly shuffled.
    pub fn create_tavern_deck(jester_count: u8) -> (r: Self)
        ensures
            r@.len() == 40 + jester_count,
            forall|c: Card| #[trigger] r@.to_multiset().count(c) == tavern_count(c, jester_count as nat),
    {
        let mut cards: Vec<Card> = Vec::new();
        let mut s: usize = 0;
        while s < 4
            invariant
                s <= 4,
                cards@.len() == 9 * s,
                forall|c: Card| #[trigger] cards@.to_multiset().count(c) == numbered_count(c, s as int, 0),
            decreases 4 - s,
        {
            push_numbered_suit(&mut cards, s);
            s = s + 1;
        }
        let mut a: usize = 0;
        while a < 4
            invariant
                a <= 4,
                cards@.len() == 36 + a,
                forall|c: Card| #[trigger] cards@.to_multiset().count(c) == ace_count(c, a as int),
            decreases 4 - a,
        {
            let card = Card::new(suit_from_index(a), Rank::Ace);
            let ghost prev = cards@;
            cards.push(card);
            proof {
                assert(cards@ == prev.push(card));
                assert forall|c: Card| #[trigger] cards@.to_multiset().count(c) == ace_count(c, a + 1) by {
                    assert(prev.to_multiset().count(c) == ace_count(c, a as int));
                }
            }
            a = a + 1;
        }
        let mut j: u8 = 0;
        while j < jester_count
            invariant
                j <= jester_count,
                cards@.len() == 40 + j,
                forall|c: Card| #[trigger] cards@.to_multiset().count(c) == tavern_count(c, j as nat),
            decreases jester_count - j,
        {
            let card = Card::new(Suit::Hearts, Rank::Jester);
            let ghost prev = cards@;
            cards.push(card);
            proof {
                assert(cards@ == prev.push(card));
                assert forall|c: Card| #[trigger] cards@.to_multiset().count(c) == tavern_count(c, (j + 1) as nat) by {
                    assert(prev.to_multiset().count(c) == tavern_count(c, j as nat));
                }
            }
            j = j + 1;
        }
        let mut deck = Deck { cards };
        deck.shuffle();
        deck
    }

    /// The enemy pile: the four Kings, then the four Queens, then the four
    /// Jacks, each layer shuffled on its own, so that every Jack is drawn
    /// before any Queen and every Queen before any King.
    pub fn create_castle_deck() -> (r: Self)
        ensures
            is_castle_layout(r@),
    {
        let mut cards: Vec<Card> = Vec::new();
        let mut kings = suit_layer(Rank::King);
        shuffle_cards(&mut kings);
        let ghost k = kings@;
        cards.append(&mut kings);
        let mut queens = suit_layer(Rank::Queen);
        shuffle_cards(&mut queens);
        let ghost q = queens@;
        cards.append(&mut queens);
        let mut jacks = suit_layer(Rank::Jack);
        shuffle_cards(&mut jacks);
        let ghost jk = jacks@;
        cards.append(&mut jacks);
        proof {
            lemma_layer_ranks(k, Rank::King);
            lemma_layer_ranks(q, Rank::Queen);
            lemma_layer_ranks(jk, Rank::Jack);
            assert(cards@ =~= k + q + jk);
            assert(cards@.subrange(0, 4) =~= k);
            assert(cards@.subrange(4, 8) =~= q);
            assert(cards@.subrange(8, 12) =~= jk);
        }
        Deck { cards }
    }

    /// Puts the whole pile in a uniformly random order.
    pub fn shuffle(&mut self)
        ensures
            final(self)@.len() == old(self)@.len(),
            final(self)@.to_multiset() == old(self)@.to_multiset(),
    {
        shuffle_cards(&mut self.cards);
    }

    /// Removes and returns the top card, or `None` when the deck is empty.
    pub fn draw(&mut self) -> (r: Option<Card>)
        ensures
            old(self)@.len() == 0 ==> r.is_none() && final(self)@ == old(self)@,
            old(self)@.len() > 0 ==> r == Some(old(self)@.last()) && final(self)@ == old(
                self,
            )@.drop_last(),
    {
        self.cards.pop()
    }

    /// Draws up to `count` cards, fewer when the deck runs out first.
    pub fn draw_multiple(&mut self, count: usize) -> (r: Vec<Card>)
        ensures
            ({
                let n = if count < old(self)@.len() { count as nat } else { old(self)@.len() };
                &&& r@ == drawn_by(old(self)@, n)
                &&& final(self)@ == old(self)@.subrange(0, old(self)@.len() - n)
            }),
    {
        let ghost orig = self@;
        let mut drawn: Vec<Card> = Vec::new();
        let mut i: usize = 0;
        while i < count && self.cards.len() > 0
            invariant
                i <= count,
                i <= orig.len(),
                self@ == orig.subrange(0, orig.len() - i),
                drawn@ == drawn_by(orig, i as nat),
            decreases count - i,
        {
            match self.draw() {
                Some(card) => {
                    proof {
                        assert(card == orig[orig.len() - i - 1]);
                    }
                    drawn.push(card);
                },
                None => {},
            }
            proof {
                assert(self@ =~= orig.subrange(0, orig.len() - (i + 1)));
                assert(drawn@ =~= drawn_by(orig, (i + 1) as nat));
            }
            i = i + 1;
        }
        drawn
    }

    /// Puts a card on top; it is the next card drawn.
    pub fn add_to_top(&mut self, card: Card)
        ensures
            final(self)@ == old(self)@.push(card),
    {
        self.cards.push(card);
    }

    /// Puts `cards` under the deck in their order: the first of them becomes
    /// the bottom card.
    pub fn add_multiple_to_bottom(&mut self, cards: Vec<Card>)
        ensures
            final(self)@ == cards@ + old(self)@,
    {
        let mut bottom = cards;
        bottom.append(&mut self.cards);
        self.cards = bottom;
    }

    /// The number of cards in the deck.
    pub fn len(&self) -> (r: usize)
        ensures
            r == self@.len(),
    {
        self.cards.len()
    }
}

impl Default for Deck {
    fn default() -> (r: Self)
        ensures
            r@ == Seq::<Card>::empty(),
    {
        Deck::new()
    }
}

/// Draining a castle deck card by card yields the four Jacks first, then the
/// four Queens, then the four Kings, whatever order the shuffles chose within
/// each layer: the `k`-th card drawn is the card at position `11 - k`.
pub proof fn lemma_castle_draw_order(s: Seq<Card>)
    requires
        is_castle_layout(s),
    ensures
        forall|k: int|
            0 <= k < 12 ==> #[trigger] drawn_by(s, 12)[k] == s[11 - k] && drawn_by(s, 12)[k].rank
                == (if k < 4 {
                Rank::Jack
            } else if k < 8 {
                Rank::Queen
            } else {
                Rank::King
            }),
{
    assert forall|k: int| 0 <= k < 12 implies #[trigger] drawn_by(s, 12)[k] == s[11 - k] by {}
    assert forall|k: int| 0 <= k < 12 implies #[trigger] drawn_by(s, 12)[k].rank == castle_rank(11 - k) by {
        assert(s[11 - k].rank == castle_rank(11 - k));
    }
}

/// Cards put under a deck with `add_multiple_to_bottom` come out last when
/// the deck is drained, in reverse order of insertion: the first of them is
/// the very last card drawn.
pub proof fn lemma_bottom_insertion_drain(deck: Seq<Card>, inserted: Seq<Card>)
    ensures
        ({
            let s = inserted + deck;
            drawn_by(s, s.len()).subrange(deck.len() as int, s.len() as int) == inserted.reverse()
        }),
{
    let s = inserted + deck;
    assert(drawn_by(s, s.len()).subrange(deck.len() as int, s.len() as int) =~= inserted.reverse());
}

} // verus!
