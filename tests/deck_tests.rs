use regicide::card::{Card, Rank, Suit};
use regicide::deck::Deck;

const SUITS: [Suit; 4] = [Suit::Hearts, Suit::Diamonds, Suit::Clubs, Suit::Spades];
const NUMBERED: [Rank; 9] = [
    Rank::Two,
    Rank::Three,
    Rank::Four,
    Rank::Five,
    Rank::Six,
    Rank::Seven,
    Rank::Eight,
    Rank::Nine,
    Rank::Ten,
];

fn count(cards: &[Card], card: Card) -> usize {
    cards.iter().filter(|c| **c == card).count()
}

fn rank_count(cards: &[Card], rank: Rank) -> usize {
    cards.iter().filter(|c| c.rank == rank).count()
}

fn check_tavern(jesters: u8) {
    let deck = Deck::create_tavern_deck(jesters);
    assert_eq!(deck.len(), 36 + 4 + jesters as usize);
    for suit in SUITS {
        for rank in NUMBERED {
            assert_eq!(count(&deck.cards, Card::new(suit, rank)), 1);
        }
        assert_eq!(count(&deck.cards, Card::new(suit, Rank::Ace)), 1);
        assert_eq!(count(&deck.cards, Card::new(suit, Rank::Jack)), 0);
        assert_eq!(count(&deck.cards, Card::new(suit, Rank::Queen)), 0);
        assert_eq!(count(&deck.cards, Card::new(suit, Rank::King)), 0);
    }
    assert_eq!(rank_count(&deck.cards, Rank::Ace), 4);
    assert_eq!(rank_count(&deck.cards, Rank::Jester), jesters as usize);
    let numbered = deck.cards.iter().filter(|c| NUMBERED.contains(&c.rank)).count();
    assert_eq!(numbered, 36);
}

#[test]
fn tavern_deck_without_jesters() {
    check_tavern(0);
}

#[test]
fn tavern_deck_with_two_jesters() {
    check_tavern(2);
}

#[test]
fn tavern_deck_with_many_jesters() {
    check_tavern(255);
}

#[test]
fn tavern_deck_is_shuffled() {
    let mut in_order = Vec::new();
    for suit in SUITS {
        for rank in NUMBERED {
            in_order.push(Card::new(suit, rank));
        }
    }
    for suit in SUITS {
        in_order.push(Card::new(suit, Rank::Ace));
    }
    let a = Deck::create_tavern_deck(0);
    let b = Deck::create_tavern_deck(0);
    assert!(a.cards != in_order || b.cards != in_order);
}

#[test]
fn castle_deck_layers_draw_in_rank_order() {
    for _ in 0..20 {
        let mut deck = Deck::create_castle_deck();
        assert_eq!(deck.len(), 12);
        for (layer, rank) in [Rank::Jack, Rank::Queen, Rank::King].into_iter().enumerate() {
            let mut suits_seen = Vec::new();
            for _ in 0..4 {
                let card = deck.draw().unwrap();
                assert_eq!(card.rank, rank, "layer {}", layer);
                suits_seen.push(card.suit);
            }
            for suit in SUITS {
                assert!(suits_seen.contains(&suit));
            }
        }
        assert_eq!(deck.draw(), None);
    }
}

#[test]
fn shuffle_keeps_the_cards() {
    let mut deck = Deck::create_tavern_deck(2);
    let mut before = deck.cards.clone();
    deck.shuffle();
    let mut after = deck.cards.clone();
    before.sort_by_key(|c| (c.suit as u8, c.rank as u8));
    after.sort_by_key(|c| (c.suit as u8, c.rank as u8));
    assert_eq!(before, after);
}

#[test]
fn new_and_default_are_empty() {
    assert_eq!(Deck::new().len(), 0);
    assert_eq!(Deck::default().len(), 0);
}

#[test]
fn draw_takes_the_top_card() {
    let mut deck = Deck::new();
    let a = Card::new(Suit::Clubs, Rank::Two);
    let b = Card::new(Suit::Spades, Rank::King);
    deck.add_to_top(a);
    deck.add_to_top(b);
    assert_eq!(deck.len(), 2);
    assert_eq!(deck.draw(), Some(b));
    assert_eq!(deck.len(), 1);
    assert_eq!(deck.draw(), Some(a));
    assert_eq!(deck.len(), 0);
}

#[test]
fn draw_on_empty_deck_returns_none() {
    let mut deck = Deck::new();
    assert_eq!(deck.draw(), None);
    assert_eq!(deck.len(), 0);
}

#[test]
fn draw_multiple_stops_when_empty() {
    let mut deck = Deck::new();
    let a = Card::new(Suit::Hearts, Rank::Three);
    let b = Card::new(Suit::Hearts, Rank::Four);
    let c = Card::new(Suit::Hearts, Rank::Five);
    deck.add_to_top(a);
    deck.add_to_top(b);
    deck.add_to_top(c);
    assert_eq!(deck.draw_multiple(2), vec![c, b]);
    assert_eq!(deck.len(), 1);
    assert_eq!(deck.draw_multiple(5), vec![a]);
    assert_eq!(deck.len(), 0);
    assert_eq!(deck.draw_multiple(3), Vec::<Card>::new());
}

#[test]
fn draw_multiple_zero_draws_nothing() {
    let mut deck = Deck::create_castle_deck();
    assert!(deck.draw_multiple(0).is_empty());
    assert_eq!(deck.len(), 12);
}

#[test]
fn bottom_insertion_comes_out_last_in_input_order() {
    let mut deck = Deck::new();
    let top = Card::new(Suit::Diamonds, Rank::Nine);
    deck.add_to_top(top);
    let a = Card::new(Suit::Clubs, Rank::Ace);
    let b = Card::new(Suit::Spades, Rank::Seven);
    let c = Card::new(Suit::Hearts, Rank::Jester);
    deck.add_multiple_to_bottom(vec![a, b, c]);
    assert_eq!(deck.cards, vec![a, b, c, top]);
    let mut drained = Vec::new();
    while let Some(card) = deck.draw() {
        drained.push(card);
    }
    assert_eq!(drained, vec![top, c, b, a]);
}

#[test]
fn bottom_insertion_of_nothing_keeps_the_deck() {
    let mut deck = Deck::new();
    let top = Card::new(Suit::Diamonds, Rank::Two);
    deck.add_to_top(top);
    deck.add_multiple_to_bottom(Vec::new());
    assert_eq!(deck.cards, vec![top]);
}
