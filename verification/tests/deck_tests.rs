use deckbuilder_eng::card::{Card, CardType, Deck};

fn card(id: u32, name: &str) -> Card {
    Card::new(id, name.to_string(), format!("card {id}"), 1, CardType::Attack)
}

fn ids(cards: &[Card]) -> Vec<u32> {
    cards.iter().map(|c| c.id).collect()
}

#[test]
fn new_deck_holds_cards_in_draw_pile() {
    let deck = Deck::new(vec![card(1, "Strike"), card(2, "Defend")]);
    assert_eq!(ids(&deck.draw_pile), vec![1, 2]);
    assert!(deck.discard_pile.is_empty());
}

#[test]
fn draw_from_singleton_deck_returns_the_card() {
    let c = card(7, "Strike");
    let mut deck = Deck::new(vec![c.clone()]);
    assert_eq!(deck.draw(), Some(c));
    assert!(deck.draw_pile.is_empty());
    assert!(deck.discard_pile.is_empty());
}

#[test]
fn draw_takes_from_the_top() {
    let mut deck = Deck::new(vec![card(1, "A"), card(2, "B"), card(3, "C")]);
    assert_eq!(deck.draw().map(|c| c.id), Some(3));
    assert_eq!(deck.draw().map(|c| c.id), Some(2));
    assert_eq!(deck.draw().map(|c| c.id), Some(1));
    assert_eq!(deck.draw(), None);
}

#[test]
fn draw_recycles_discard_pile_when_draw_pile_is_empty() {
    // Scenario: draw pile [A, B, C], pop end = C.
    let mut deck = Deck::new(vec![card(1, "A"), card(2, "B"), card(3, "C")]);
    assert_eq!(deck.draw().map(|c| c.id), Some(3)); // C
    let b = deck.draw().unwrap();
    assert_eq!(b.id, 2); // B
    deck.discard(b);
    assert_eq!(deck.draw().map(|c| c.id), Some(1)); // A; draw pile now empty
    // Next draw recycles the discard pile [B] and returns B.
    assert_eq!(deck.draw().map(|c| c.id), Some(2));
    assert!(deck.draw_pile.is_empty());
    assert!(deck.discard_pile.is_empty());
}

#[test]
fn draw_on_empty_deck_returns_none() {
    let mut deck = Deck::new(vec![]);
    assert_eq!(deck.draw(), None);
    assert!(deck.draw_pile.is_empty());
    assert!(deck.discard_pile.is_empty());
}

#[test]
fn repeated_draws_never_lose_cards() {
    // Deck with a non-empty discard pile; drawing more cards than exist
    // returns every card exactly once and loses none.
    let mut deck = Deck::new(vec![card(1, "A"), card(2, "B")]);
    deck.discard(card(3, "C"));
    let mut returned = Vec::new();
    for _ in 0..5 {
        if let Some(c) = deck.draw() {
            returned.push(c);
        }
    }
    let mut seen: Vec<u32> = ids(&returned);
    seen.extend(ids(&deck.draw_pile));
    seen.extend(ids(&deck.discard_pile));
    seen.sort();
    assert_eq!(seen, vec![1, 2, 3]);
    assert_eq!(returned.len(), 3);
}

#[test]
fn shuffle_moves_discard_into_draw_and_reverses() {
    let mut deck = Deck::new(vec![card(1, "A"), card(2, "B")]);
    deck.discard(card(3, "C"));
    deck.discard(card(4, "D"));
    deck.shuffle();
    // [A, B] ++ [C, D], reversed.
    assert_eq!(ids(&deck.draw_pile), vec![4, 3, 2, 1]);
    assert!(deck.discard_pile.is_empty());
}

#[test]
fn shuffle_with_empty_discard_reverses_but_keeps_membership() {
    let mut deck = Deck::new(vec![card(1, "A"), card(2, "B"), card(3, "C")]);
    deck.shuffle();
    assert_eq!(ids(&deck.draw_pile), vec![3, 2, 1]);
    let mut members = ids(&deck.draw_pile);
    members.sort();
    assert_eq!(members, vec![1, 2, 3]);
    assert!(deck.discard_pile.is_empty());
}

#[test]
fn draw_multiple_returns_cards_in_draw_order() {
    let mut deck = Deck::new(vec![card(1, "A"), card(2, "B"), card(3, "C")]);
    let drawn = deck.draw_multiple(2);
    assert_eq!(ids(&drawn), vec![3, 2]);
    assert_eq!(ids(&deck.draw_pile), vec![1]);
}

#[test]
fn draw_multiple_stops_early_when_exhausted() {
    let mut deck = Deck::new(vec![card(1, "A")]);
    deck.discard(card(2, "B"));
    let drawn = deck.draw_multiple(10);
    assert_eq!(ids(&drawn), vec![1, 2]);
    assert!(deck.draw_pile.is_empty());
    assert!(deck.discard_pile.is_empty());
}

#[test]
fn draw_multiple_zero_draws_nothing() {
    let mut deck = Deck::new(vec![card(1, "A")]);
    assert!(deck.draw_multiple(0).is_empty());
    assert_eq!(ids(&deck.draw_pile), vec![1]);
}

#[test]
fn peek_shows_top_cards_without_removing_them() {
    let deck = Deck::new(vec![card(1, "A"), card(2, "B"), card(3, "C")]);
    let top: Vec<u32> = deck.peek(2).iter().map(|c| c.id).collect();
    assert_eq!(top, vec![3, 2]);
    assert_eq!(ids(&deck.draw_pile), vec![1, 2, 3]);
}

#[test]
fn peek_past_end_returns_whole_draw_pile() {
    let deck = Deck::new(vec![card(1, "A"), card(2, "B")]);
    let top: Vec<u32> = deck.peek(9).iter().map(|c| c.id).collect();
    assert_eq!(top, vec![2, 1]);
}

#[test]
fn peek_never_recycles_the_discard_pile() {
    let mut deck = Deck::new(vec![]);
    deck.discard(card(1, "A"));
    assert!(deck.peek(3).is_empty());
    assert!(deck.draw_pile.is_empty());
    assert_eq!(ids(&deck.discard_pile), vec![1]);
}

#[test]
fn mill_moves_top_cards_to_discard_and_returns_them() {
    let mut deck = Deck::new(vec![card(1, "A"), card(2, "B"), card(3, "C")]);
    let milled = deck.mill(2);
    assert_eq!(ids(&milled), vec![3, 2]);
    assert_eq!(ids(&deck.draw_pile), vec![1]);
    assert_eq!(ids(&deck.discard_pile), vec![3, 2]);
}

#[test]
fn mill_past_end_returns_exactly_the_remaining_cards() {
    let mut deck = Deck::new(vec![card(1, "A"), card(2, "B")]);
    deck.discard(card(9, "Old"));
    let milled = deck.mill(5);
    // Fewer than requested, and all of them end up in the discard pile.
    assert_eq!(ids(&milled), vec![2, 1]);
    assert!(deck.draw_pile.is_empty());
    assert_eq!(ids(&deck.discard_pile), vec![9, 2, 1]);
}

#[test]
fn mill_never_recycles_the_discard_pile() {
    let mut deck = Deck::new(vec![]);
    deck.discard(card(1, "A"));
    assert!(deck.mill(3).is_empty());
    assert!(deck.draw_pile.is_empty());
    assert_eq!(ids(&deck.discard_pile), vec![1]);
}

#[test]
fn search_removes_and_returns_first_match_in_pile_order() {
    let mut deck = Deck::new(vec![
        card(1, "Strike"),
        card(2, "Defend"),
        card(3, "Strike"),
    ]);
    let found = deck.search(|c| c.name == "Strike");
    // The first match in pile order is the card at index 0.
    assert_eq!(found.map(|c| c.id), Some(1));
    assert_eq!(ids(&deck.draw_pile), vec![2, 3]);
}

#[test]
fn search_miss_returns_none_and_changes_nothing() {
    let mut deck = Deck::new(vec![card(1, "Strike"), card(2, "Defend")]);
    deck.discard(card(3, "Bash"));
    // The discard pile is never scanned.
    let found = deck.search(|c| c.name == "Bash");
    assert_eq!(found, None);
    assert_eq!(ids(&deck.draw_pile), vec![1, 2]);
    assert_eq!(ids(&deck.discard_pile), vec![3]);
}

#[test]
fn move_to_bottom_inserts_at_position_zero() {
    let mut deck = Deck::new(vec![card(1, "A"), card(2, "B")]);
    deck.move_to_bottom(card(3, "C"));
    assert_eq!(ids(&deck.draw_pile), vec![3, 1, 2]);
    // The top of the deck is unchanged.
    assert_eq!(deck.draw().map(|c| c.id), Some(2));
}

#[test]
fn discard_appends_in_insertion_order() {
    let mut deck = Deck::new(vec![]);
    deck.discard(card(1, "A"));
    deck.discard(card(2, "B"));
    assert_eq!(ids(&deck.discard_pile), vec![1, 2]);
}

#[test]
fn cloned_card_is_an_independent_equal_copy() {
    let original = Card::new(5, "Strike".to_string(), "Deal 6 damage".to_string(), 2, CardType::Attack);
    let copy = original.clone();
    assert_eq!(copy, original);
    assert_eq!(copy.id, 5);
    assert_eq!(copy.name, "Strike");
    assert_eq!(copy.description, "Deal 6 damage");
    assert_eq!(copy.cost, 2);
    assert_eq!(copy.card_type, CardType::Attack);
}
