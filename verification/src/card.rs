//! Card and deck primitives for deckbuilder games.
//!
//! `Card` is an immutable value describing a playable unit; `Deck` moves
//! cards between an ordered draw pile and discard pile; `GameContext` holds
//! the numeric state of one match; the `Playable` trait applies card effects
//! to a `GameContext`.

use vstd::prelude::*;

verus! {

use vstd::multiset::Multiset;

/// Unique identifier for each card.
pub type CardId = u32;

/// Card type/category.
#[derive(Debug, Clone, Copy, PartialEq, Eq, Hash, Structural)]
pub enum CardType {
    Attack,
    Skill,
    Power,
}

/// Basic card data: identity, display text, energy cost and category.
#[derive(Debug, PartialEq, Eq)]
pub struct Card {
    pub id: CardId,
    pub name: String,
    pub description: String,
    pub cost: u32,
    pub card_type: CardType,
}

impl Card {
    /// Creates a new `Card` with the given identity, text, cost and category.
    pub fn new(id: CardId, name: String, description: String, cost: u32, card_type: CardType) -> (card: Card)
        ensures
            card.id == id,
            card.name == name,
            card.description == description,
            card.cost == cost,
            card.card_type == card_type,
    {
        Card { id, name, description, cost, card_type }
    }
}

impl Clone for Card {
    /// Cloning a card yields an independent copy equal to the original.
    fn clone(&self) -> (copy: Card)
        ensures
            copy == *self,
    {
        Card {
            id: self.id,
            name: self.name.clone(),
            description: self.description.clone(),
            cost: self.cost,
            card_type: self.card_type,
        }
    }
}

/// Match-scoped numeric state: both sides' health, the energy budget of the
/// current turn, and the turn counter.
#[derive(Debug, Clone, Copy, PartialEq, Eq, Structural)]
pub struct GameContext {
    pub player_health: i32,
    pub enemy_health: i32,
    pub energy: u32,
    pub turn: u32,
}

impl GameContext {
    /// True when either side's health has reached zero or below.
    pub open spec fn spec_game_over(self) -> bool {
        self.player_health <= 0 || self.enemy_health <= 0
    }

    /// Creates a context with the given starting health values, no energy,
    /// on turn 1.
    pub fn new(player_health: i32, enemy_health: i32) -> (ctx: GameContext)
        ensures
            ctx.player_health == player_health,
            ctx.enemy_health == enemy_health,
            ctx.energy == 0,
            ctx.turn == 1,
    {
        GameContext { player_health, enemy_health, energy: 0, turn: 1 }
    }

    /// Subtracts `amount` from the enemy's health. No clamping: a negative
    /// `amount` heals the enemy, and health may go below zero.
    pub fn deal_damage(&mut self, amount: i32)
        requires
            i32::MIN <= old(self).enemy_health - amount <= i32::MAX,
        ensures
            final(self).enemy_health == old(self).enemy_health - amount,
            final(self).player_health == old(self).player_health,
            final(self).energy == old(self).energy,
            final(self).turn == old(self).turn,
    {
        self.enemy_health = self.enemy_health - amount;
    }

    /// Adds `amount` to the player's health. No clamping: a negative
    /// `amount` hurts the player.
    pub fn heal(&mut self, amount: i32)
        requires
            i32::MIN <= old(self).player_health + amount <= i32::MAX,
        ensures
            final(self).player_health == old(self).player_health + amount,
            final(self).enemy_health == old(self).enemy_health,
            final(self).energy == old(self).energy,
            final(self).turn == old(self).turn,
    {
        self.player_health = self.player_health + amount;
    }

    /// Spends `amount` energy if the budget allows it and reports success;
    /// on an insufficient budget the context is left unchanged.
    pub fn spend_energy(&mut self, amount: u32) -> (success: bool)
        ensures
            success <==> old(self).energy >= amount,
            final(self).energy == if old(self).energy >= amount {
                (old(self).energy - amount) as u32
            } else {
                old(self).energy
            },
            final(self).player_health == old(self).player_health,
            final(self).enemy_health == old(self).enemy_health,
            final(self).turn == old(self).turn,
    {
        if self.energy >= amount {
            self.energy = self.energy - amount;
            true
        } else {
            false
        }
    }

    /// True iff the player or the enemy has zero or negative health.
    pub fn is_game_over(&self) -> (over: bool)
        ensures
            over == self.spec_game_over(),
    {
        self.player_health <= 0 || self.enemy_health <= 0
    }

    /// Starts a new turn: increments the turn counter and resets (not adds)
    /// the energy budget to `max_energy`.
    pub fn new_turn(&mut self, max_energy: u32)
        requires
            old(self).turn < u32::MAX,
        ensures
            final(self).turn == old(self).turn + 1,
            final(self).energy == max_energy,
            final(self).player_health == old(self).player_health,
            final(self).enemy_health == old(self).enemy_health,
    {
        self.turn = self.turn + 1;
        self.energy = max_energy;
    }
}

/// The draw pile that `Deck::shuffle` produces: the discard pile appended to
/// the draw pile, then the whole sequence reversed. Deterministic despite the
/// operation's name; it is the sole recycling mechanism.
pub open spec fn recycled_pile(draw_pile: Seq<Card>, discard_pile: Seq<Card>) -> Seq<Card> {
    (draw_pile + discard_pile).reverse()
}

/// One draw step on a pair of piles: the card drawn, if any, and both piles
/// afterwards. Drawing takes the top (last) card of the draw pile; an empty
/// draw pile is first recycled from the discard pile.
pub open spec fn one_draw(draw_pile: Seq<Card>, discard_pile: Seq<Card>) -> (Option<Card>, Seq<Card>, Seq<Card>) {
    if draw_pile.len() > 0 {
        (Some(draw_pile.last()), draw_pile.drop_last(), discard_pile)
    } else {
        let recycled = recycled_pile(draw_pile, discard_pile);
        if recycled.len() > 0 {
            (Some(recycled.last()), recycled.drop_last(), Seq::<Card>::empty())
        } else {
            (None, recycled, Seq::<Card>::empty())
        }
    }
}

/// `n` draw steps in order: the cards drawn (earliest first) and both piles
/// afterwards. Steps on an exhausted deck draw nothing and change nothing.
pub open spec fn multi_draw(draw_pile: Seq<Card>, discard_pile: Seq<Card>, n: nat) -> (Seq<Card>, Seq<Card>, Seq<Card>)
    decreases n,
{
    if n == 0 {
        (Seq::<Card>::empty(), draw_pile, discard_pile)
    } else {
        let prior = multi_draw(draw_pile, discard_pile, (n - 1) as nat);
        let step = one_draw(prior.1, prior.2);
        match step.0 {
            Some(card) => (prior.0.push(card), step.1, step.2),
            None => (prior.0, step.1, step.2),
        }
    }
}

/// Once a sequence of draw steps has exhausted both piles, further steps
/// draw nothing and leave the piles empty.
proof fn lemma_multi_draw_stalls(draw_pile: Seq<Card>, discard_pile: Seq<Card>, i: nat, n: nat)
    requires
        i <= n,
        multi_draw(draw_pile, discard_pile, i).1.len() == 0,
        multi_draw(draw_pile, discard_pile, i).2.len() == 0,
    ensures
        multi_draw(draw_pile, discard_pile, n).0 == multi_draw(draw_pile, discard_pile, i).0,
        multi_draw(draw_pile, discard_pile, n).1 == multi_draw(draw_pile, discard_pile, i).1,
        multi_draw(draw_pile, discard_pile, n).2 == multi_draw(draw_pile, discard_pile, i).2,
    decreases n - i,
{
    if n > i {
        lemma_multi_draw_stalls(draw_pile, discard_pile, i, (n - 1) as nat);
        let prior = multi_draw(draw_pile, discard_pile, (n - 1) as nat);
        let recycled = recycled_pile(prior.1, prior.2);
        assert(recycled =~= prior.1);
        assert(Seq::<Card>::empty() =~= prior.2);
    }
}

/// `n` mill steps in order: the cards taken off the top of the draw pile
/// (earliest first) and both piles afterwards. Milling moves cards straight
/// from the draw pile to the discard pile and never recycles; steps on an
/// empty draw pile change nothing.
pub open spec fn milled(draw_pile: Seq<Card>, discard_pile: Seq<Card>, n: nat) -> (Seq<Card>, Seq<Card>, Seq<Card>)
    decreases n,
{
    if n == 0 {
        (Seq::<Card>::empty(), draw_pile, discard_pile)
    } else {
        let prior = milled(draw_pile, discard_pile, (n - 1) as nat);
        if prior.1.len() > 0 {
            (prior.0.push(prior.1.last()), prior.1.drop_last(), prior.2.push(prior.1.last()))
        } else {
            prior
        }
    }
}

/// Once mill steps have emptied the draw pile, further steps change nothing.
proof fn lemma_milled_stalls(draw_pile: Seq<Card>, discard_pile: Seq<Card>, i: nat, n: nat)
    requires
        i <= n,
        milled(draw_pile, discard_pile, i).1.len() == 0,
    ensures
        milled(draw_pile, discard_pile, n) == milled(draw_pile, discard_pile, i),
    decreases n - i,
{
    if n > i {
        lemma_milled_stalls(draw_pile, discard_pile, i, (n - 1) as nat);
    }
}

/// The multiset of cards drawn so far: one card for a successful draw,
/// nothing for a draw that found both piles empty.
pub open spec fn drawn_cards(card: Option<Card>) -> Multiset<Card> {
    match card {
        Some(c) => Multiset::<Card>::empty().insert(c),
        None => Multiset::<Card>::empty(),
    }
}

/// The multiset of all cards in a draw outcome: the cards drawn plus the
/// cards remaining in both piles.
pub open spec fn total_cards(outcome: (Seq<Card>, Seq<Card>, Seq<Card>)) -> Multiset<Card> {
    outcome.0.to_multiset().add(outcome.1.to_multiset()).add(outcome.2.to_multiset())
}

/// Law: drawing from a deck that holds exactly one card returns that card
/// and leaves both piles empty.
pub proof fn lemma_draw_from_singleton(card: Card)
    ensures
        one_draw(seq![card], Seq::<Card>::empty()).0 == Some(card),
        one_draw(seq![card], Seq::<Card>::empty()).1 == Seq::<Card>::empty(),
        one_draw(seq![card], Seq::<Card>::empty()).2 == Seq::<Card>::empty(),
{
    assert(seq![card].drop_last() =~= Seq::<Card>::empty());
}

/// Law: one draw step never loses or invents cards. The card drawn (if any)
/// plus the cards remaining in both piles are exactly the cards the two
/// piles held before.
pub proof fn lemma_one_draw_conserves_cards(draw_pile: Seq<Card>, discard_pile: Seq<Card>)
    ensures
        ({
            let step = one_draw(draw_pile, discard_pile);
            drawn_cards(step.0).add(step.1.to_multiset()).add(step.2.to_multiset())
                == draw_pile.to_multiset().add(discard_pile.to_multiset())
        }),
{
    broadcast use vstd::seq_lib::group_to_multiset_ensures;

    let step = one_draw(draw_pile, discard_pile);
    if draw_pile.len() > 0 {
        assert(draw_pile.drop_last().push(draw_pile.last()) =~= draw_pile);
        assert(drawn_cards(step.0).add(step.1.to_multiset()).add(step.2.to_multiset())
            =~= draw_pile.to_multiset().add(discard_pile.to_multiset()));
    } else {
        let recycled = recycled_pile(draw_pile, discard_pile);
        (draw_pile + discard_pile).lemma_reverse_to_multiset();
        vstd::seq_lib::lemma_multiset_commutative(draw_pile, discard_pile);
        if recycled.len() > 0 {
            assert(recycled.drop_last().push(recycled.last()) =~= recycled);
        }
        assert(Seq::<Card>::empty().to_multiset() =~= Multiset::<Card>::empty());
        assert(drawn_cards(step.0).add(step.1.to_multiset()).add(step.2.to_multiset())
            =~= draw_pile.to_multiset().add(discard_pile.to_multiset()));
    }
}

/// Law: repeated draws never lose cards. However many draws are attempted,
/// the cards returned plus the cards remaining in both piles are exactly the
/// cards the deck started with.
pub proof fn lemma_draws_conserve_cards(draw_pile: Seq<Card>, discard_pile: Seq<Card>, n: nat)
    ensures
        total_cards(multi_draw(draw_pile, discard_pile, n))
            == draw_pile.to_multiset().add(discard_pile.to_multiset()),
    decreases n,
{
    broadcast use vstd::seq_lib::group_to_multiset_ensures;
    broadcast use vstd::multiset::group_multiset_axioms;

    if n == 0 {
        assert(Seq::<Card>::empty().to_multiset() =~= Multiset::<Card>::empty());
        assert(total_cards(multi_draw(draw_pile, discard_pile, n))
            =~= draw_pile.to_multiset().add(discard_pile.to_multiset()));
    } else {
        lemma_draws_conserve_cards(draw_pile, discard_pile, (n - 1) as nat);
        let prior = multi_draw(draw_pile, discard_pile, (n - 1) as nat);
        lemma_one_draw_conserves_cards(prior.1, prior.2);
        let step = one_draw(prior.1, prior.2);
        let start = draw_pile.to_multiset().add(discard_pile.to_multiset());
        if step.0 is Some {
            let card = step.0->Some_0;
            assert(multi_draw(draw_pile, discard_pile, n).0 == prior.0.push(card));
            assert(prior.0.push(card).to_multiset() =~= prior.0.to_multiset().insert(card));
        }
        assert forall|v: Card|
            total_cards(multi_draw(draw_pile, discard_pile, n)).count(v) == start.count(v) by {
            assert(drawn_cards(step.0).add(step.1.to_multiset()).add(step.2.to_multiset()).count(v)
                == prior.1.to_multiset().add(prior.2.to_multiset()).count(v));
            assert(total_cards(prior).count(v) == start.count(v));
        };
        assert(total_cards(multi_draw(draw_pile, discard_pile, n)) =~= start);
    }
}

/// Law: shuffling with an empty discard pile reverses the draw pile's order
/// but keeps exactly the same multiset of cards.
pub proof fn lemma_shuffle_empty_discard_keeps_cards(draw_pile: Seq<Card>)
    ensures
        recycled_pile(draw_pile, Seq::<Card>::empty()) == draw_pile.reverse(),
        recycled_pile(draw_pile, Seq::<Card>::empty()).to_multiset() == draw_pile.to_multiset(),
{
    assert(draw_pile + Seq::<Card>::empty() =~= draw_pile);
    draw_pile.lemma_reverse_to_multiset();
}

/// Milling `n` cards from a draw pile that holds at least `n` takes exactly
/// the top `n`, in reverse pile order, into the discard pile.
proof fn lemma_milled_prefix(draw_pile: Seq<Card>, discard_pile: Seq<Card>, n: nat)
    requires
        n <= draw_pile.len(),
    ensures
        milled(draw_pile, discard_pile, n).0 == draw_pile.skip(draw_pile.len() - n).reverse(),
        milled(draw_pile, discard_pile, n).1 == draw_pile.take(draw_pile.len() - n),
        milled(draw_pile, discard_pile, n).2 == discard_pile + draw_pile.skip(draw_pile.len() - n).reverse(),
    decreases n,
{
    let len = draw_pile.len() as int;
    if n == 0 {
        assert(draw_pile.skip(len).reverse() =~= Seq::<Card>::empty());
        assert(draw_pile.take(len) =~= draw_pile);
        assert(discard_pile + draw_pile.skip(len).reverse() =~= discard_pile);
    } else {
        lemma_milled_prefix(draw_pile, discard_pile, (n - 1) as nat);
        let m = len - n;
        assert(draw_pile.take(m + 1).last() == draw_pile[m]);
        assert(draw_pile.take(m + 1).drop_last() =~= draw_pile.take(m));
        assert(draw_pile.skip(m).reverse() =~= draw_pile.skip(m + 1).reverse().push(draw_pile[m]));
        assert((discard_pile + draw_pile.skip(m + 1).reverse()).push(draw_pile[m])
            =~= discard_pile + draw_pile.skip(m).reverse());
    }
}

/// Law: milling `n` cards from a draw pile that holds at most `n` returns
/// exactly the remaining cards, in reverse pile order, and every one of them
/// ends up at the end of the discard pile.
pub proof fn lemma_mill_exhausts_draw_pile(draw_pile: Seq<Card>, discard_pile: Seq<Card>, n: nat)
    requires
        n >= draw_pile.len(),
    ensures
        milled(draw_pile, discard_pile, n).0 == draw_pile.reverse(),
        milled(draw_pile, discard_pile, n).1 == Seq::<Card>::empty(),
        milled(draw_pile, discard_pile, n).2 == discard_pile + draw_pile.reverse(),
{
    lemma_milled_prefix(draw_pile, discard_pile, draw_pile.len());
    assert(draw_pile.skip(0) =~= draw_pile);
    assert(draw_pile.take(0) =~= Seq::<Card>::empty());
    lemma_milled_stalls(draw_pile, discard_pile, draw_pile.len(), n);
}

/// Law: dealing damage that brings the enemy's health to exactly zero makes
/// the game over. The first three premises are what `deal_damage` ensures of
/// the state it produces.
pub proof fn lemma_lethal_damage_ends_game(before: GameContext, after: GameContext, amount: i32)
    requires
        after.enemy_health == before.enemy_health - amount,
        after.player_health == before.player_health,
        before.enemy_health - amount == 0,
    ensures
        after.spec_game_over(),
{
}

/// Law: healing by a non-negative amount never decreases the player's
/// health, and so never by itself causes defeat. The middle premises are
/// what `heal` ensures of the state it produces.
pub proof fn lemma_heal_never_causes_defeat(before: GameContext, after: GameContext, amount: i32)
    requires
        amount >= 0,
        after.player_health == before.player_health + amount,
        after.enemy_health == before.enemy_health,
        !before.spec_game_over(),
    ensures
        after.player_health >= before.player_health,
        !after.spec_game_over(),
{
}

/// Deck holding the draw and discard piles. The top of the draw pile is the
/// end of the sequence; the discard pile is in insertion order.
pub struct Deck {
    pub draw_pile: Vec<Card>,
    pub discard_pile: Vec<Card>,
}

impl Deck {
    /// Creates a deck containing the given cards in the draw pile and an
    /// empty discard pile.
    pub fn new(cards: Vec<Card>) -> (deck: Deck)
        ensures
            deck.draw_pile@ == cards@,
            deck.discard_pile@ == Seq::<Card>::empty(),
    {
        Deck { draw_pile: cards, discard_pile: Vec::new() }
    }

    /// Moves the discard pile back into the draw pile and reverses the whole
    /// draw pile's order. Not randomized: the recycled order is deterministic.
    pub fn shuffle(&mut self)
        ensures
            final(self).draw_pile@ == recycled_pile(old(self).draw_pile@, old(self).discard_pile@),
            final(self).discard_pile@ == Seq::<Card>::empty(),
    {
        self.draw_pile.append(&mut self.discard_pile);
        let ghost combined = self.draw_pile@;
        let mut reversed: Vec<Card> = Vec::new();
        loop
            invariant
                reversed@.len() <= combined.len(),
                self.draw_pile@ == combined.take(combined.len() - reversed@.len()),
                reversed@ == combined.skip(combined.len() - reversed@.len()).reverse(),
                self.discard_pile@ == Seq::<Card>::empty(),
            ensures
                reversed@ == combined.reverse(),
                self.discard_pile@ == Seq::<Card>::empty(),
            decreases self.draw_pile.len(),
        {
            match self.draw_pile.pop() {
                Some(card) => {
                    reversed.push(card);
                    proof {
                        let m = combined.len() - reversed@.len();
                        assert(self.draw_pile@ =~= combined.take(m));
                        assert(reversed@ =~= combined.skip(m).reverse());
                    }
                },
                None => {
                    proof {
                        assert(combined.skip(0) =~= combined);
                    }
                    break;
                },
            }
        }
        self.draw_pile = reversed;
    }

    /// Removes and returns the top card of the draw pile, first recycling the
    /// discard pile via `shuffle` when the draw pile is empty. Returns `None`
    /// only when both piles are empty.
    pub fn draw(&mut self) -> (card: Option<Card>)
        ensures
            card == one_draw(old(self).draw_pile@, old(self).discard_pile@).0,
            final(self).draw_pile@ == one_draw(old(self).draw_pile@, old(self).discard_pile@).1,
            final(self).discard_pile@ == one_draw(old(self).draw_pile@, old(self).discard_pile@).2,
            card is None <==> old(self).draw_pile@.len() == 0 && old(self).discard_pile@.len() == 0,
    {
        match self.draw_pile.pop() {
            Some(card) => Some(card),
            None => {
                self.shuffle();
                proof {
                    let recycled = recycled_pile(old(self).draw_pile@, old(self).discard_pile@);
                    if recycled.len() > 0 {
                        assert(recycled.subrange(0, recycled.len() - 1) =~= recycled.drop_last());
                    }
                }
                self.draw_pile.pop()
            },
        }
    }

    /// Draws up to `count` cards via repeated `draw` steps, stopping early
    /// once both piles are exhausted. Cards are returned in draw order.
    pub fn draw_multiple(&mut self, count: usize) -> (drawn: Vec<Card>)
        ensures
            drawn@ == multi_draw(old(self).draw_pile@, old(self).discard_pile@, count as nat).0,
            final(self).draw_pile@ == multi_draw(old(self).draw_pile@, old(self).discard_pile@, count as nat).1,
            final(self).discard_pile@ == multi_draw(old(self).draw_pile@, old(self).discard_pile@, count as nat).2,
    {
        let ghost orig_draw = self.draw_pile@;
        let ghost orig_discard = self.discard_pile@;
        let mut drawn: Vec<Card> = Vec::new();
        let mut i: usize = 0;
        while i < count
            invariant
                i <= count,
                drawn@ == multi_draw(orig_draw, orig_discard, i as nat).0,
                self.draw_pile@ == multi_draw(orig_draw, orig_discard, i as nat).1,
                self.discard_pile@ == multi_draw(orig_draw, orig_discard, i as nat).2,
            ensures
                drawn@ == multi_draw(orig_draw, orig_discard, count as nat).0,
                self.draw_pile@ == multi_draw(orig_draw, orig_discard, count as nat).1,
                self.discard_pile@ == multi_draw(orig_draw, orig_discard, count as nat).2,
            decreases count - i,
        {
            match self.draw() {
                Some(card) => {
                    drawn.push(card);
                },
                None => {
                    proof {
                        lemma_multi_draw_stalls(orig_draw, orig_discard, (i + 1) as nat, count as nat);
                    }
                    break;
                },
            }
            i = i + 1;
        }
        drawn
    }

    /// Appends a card to the end of the discard pile.
    pub fn discard(&mut self, card: Card)
        ensures
            final(self).discard_pile@ == old(self).discard_pile@.push(card),
            final(self).draw_pile@ == old(self).draw_pile@,
    {
        self.discard_pile.push(card);
    }

    /// Returns up to `count` cards from the top of the draw pile without
    /// removing them, ordered top-first. Never recycles the discard pile,
    /// even when the draw pile is short or empty.
    pub fn peek(&self, count: usize) -> (top: Vec<&Card>)
        ensures
            top@.len() == if count <= self.draw_pile@.len() { count as int } else { self.draw_pile@.len() as int },
            forall|i: int| 0 <= i < top@.len()
                ==> *(#[trigger] top@[i]) == self.draw_pile@[self.draw_pile@.len() - 1 - i],
    {
        let len = self.draw_pile.len();
        let mut top: Vec<&Card> = Vec::new();
        let mut i: usize = 0;
        while i < count && i < len
            invariant
                len == self.draw_pile@.len(),
                i <= count,
                i <= len,
                top@.len() == i,
                forall|j: int| 0 <= j < top@.len()
                    ==> *(#[trigger] top@[j]) == self.draw_pile@[self.draw_pile@.len() - 1 - j],
            decreases count - i,
        {
            top.push(&self.draw_pile[len - 1 - i]);
            i = i + 1;
        }
        top
    }

    /// Mills up to `count` cards: takes them off the top of the draw pile,
    /// puts them in the discard pile, and returns clones of them in mill
    /// order. Stops early when the draw pile runs out; never recycles.
    pub fn mill(&mut self, count: usize) -> (cards: Vec<Card>)
        ensures
            cards@ == milled(old(self).draw_pile@, old(self).discard_pile@, count as nat).0,
            final(self).draw_pile@ == milled(old(self).draw_pile@, old(self).discard_pile@, count as nat).1,
            final(self).discard_pile@ == milled(old(self).draw_pile@, old(self).discard_pile@, count as nat).2,
    {
        let ghost orig_draw = self.draw_pile@;
        let ghost orig_discard = self.discard_pile@;
        let mut cards: Vec<Card> = Vec::new();
        let mut i: usize = 0;
        while i < count
            invariant
                i <= count,
                cards@ == milled(orig_draw, orig_discard, i as nat).0,
                self.draw_pile@ == milled(orig_draw, orig_discard, i as nat).1,
                self.discard_pile@ == milled(orig_draw, orig_discard, i as nat).2,
            ensures
                cards@ == milled(orig_draw, orig_discard, count as nat).0,
                self.draw_pile@ == milled(orig_draw, orig_discard, count as nat).1,
                self.discard_pile@ == milled(orig_draw, orig_discard, count as nat).2,
            decreases count - i,
        {
            let ghost before = self.draw_pile@;
            match self.draw_pile.pop() {
                Some(card) => {
                    proof {
                        assert(self.draw_pile@ =~= before.drop_last());
                    }
                    cards.push(card.clone());
                    self.discard_pile.push(card);
                },
                None => {
                    proof {
                        lemma_milled_stalls(orig_draw, orig_discard, i as nat, count as nat);
                    }
                    break;
                },
            }
            i = i + 1;
        }
        cards
    }

    /// Scans the draw pile in pile order for the first card satisfying
    /// `predicate`; removes and returns it if found. Never scans the discard
    /// pile and never mutates on a miss.
    pub fn search<F: Fn(&Card) -> bool>(&mut self, predicate: F) -> (found: Option<Card>)
        requires
            forall|card: &Card| #[trigger] call_requires(predicate, (card,)),
        ensures
            final(self).discard_pile@ == old(self).discard_pile@,
            match found {
                Some(card) => exists|i: int|
                    {
                        &&& 0 <= i < old(self).draw_pile@.len()
                        &&& card == old(self).draw_pile@[i]
                        &&& call_ensures(predicate, (&old(self).draw_pile@[i],), true)
                        &&& (forall|j: int| 0 <= j < i
                            ==> call_ensures(predicate, (&old(self).draw_pile@[j],), false))
                        &&& final(self).draw_pile@ == old(self).draw_pile@.remove(i)
                    },
                None => {
                    &&& final(self).draw_pile@ == old(self).draw_pile@
                    &&& (forall|j: int| 0 <= j < old(self).draw_pile@.len()
                        ==> call_ensures(predicate, (&old(self).draw_pile@[j],), false))
                },
            },
    {
        let len = self.draw_pile.len();
        let mut i: usize = 0;
        while i < len
            invariant
                self.draw_pile@ == old(self).draw_pile@,
                self.discard_pile@ == old(self).discard_pile@,
                len == self.draw_pile@.len(),
                i <= len,
                forall|card: &Card| #[trigger] call_requires(predicate, (card,)),
                forall|j: int| 0 <= j < i
                    ==> call_ensures(predicate, (&self.draw_pile@[j],), false),
            decreases len - i,
        {
            if predicate(&self.draw_pile[i]) {
                let card = self.draw_pile.remove(i);
                return Some(card);
            }
            i = i + 1;
        }
        None
    }

    /// Inserts a card at the bottom of the draw pile (position 0, opposite
    /// the end that `draw` takes from).
    pub fn move_to_bottom(&mut self, card: Card)
        ensures
            final(self).draw_pile@ == old(self).draw_pile@.insert(0, card),
            final(self).discard_pile@ == old(self).discard_pile@,
    {
        self.draw_pile.insert(0, card);
    }
}

/// An owned card effect: the closed catalogue of things a played card can do
/// to a `GameContext`. `Compound` applies its sub-effects strictly in order,
/// each seeing the mutations of the earlier ones.
pub enum Effect {
    /// Subtract the given amount from the enemy's health.
    Attack(i32),
    /// Add the given amount to the player's health.
    Heal(i32),
    /// Apply the listed effects in order.
    Compound(Vec<Effect>),
}

/// Whether every health update that playing `effect` on `ctx` performs stays
/// within `i32` range.
pub open spec fn effect_fits(effect: Effect, ctx: GameContext) -> bool
    decreases effect, 0int,
{
    match effect {
        Effect::Attack(damage) => i32::MIN <= ctx.enemy_health - damage <= i32::MAX,
        Effect::Heal(amount) => i32::MIN <= ctx.player_health + amount <= i32::MAX,
        Effect::Compound(effects) => effects_fit(effects@, 0, ctx),
    }
}

/// Whether the effects from position `i` on, applied in order, all stay
/// within `i32` range.
pub open spec fn effects_fit(effects: Seq<Effect>, i: int, ctx: GameContext) -> bool
    decreases effects, effects.len() - i,
{
    if i < 0 || i >= effects.len() {
        true
    } else {
        effect_fits(effects[i], ctx) && effects_fit(effects, i + 1, effect_result(effects[i], ctx))
    }
}

/// The context that playing `effect` on `ctx` produces.
pub open spec fn effect_result(effect: Effect, ctx: GameContext) -> GameContext
    decreases effect, 0int,
{
    match effect {
        Effect::Attack(damage) => GameContext { enemy_health: (ctx.enemy_health - damage) as i32, ..ctx },
        Effect::Heal(amount) => GameContext { player_health: (ctx.player_health + amount) as i32, ..ctx },
        Effect::Compound(effects) => effects_result(effects@, 0, ctx),
    }
}

/// The context that applying the effects from position `i` on, in order,
/// produces.
pub open spec fn effects_result(effects: Seq<Effect>, i: int, ctx: GameContext) -> GameContext
    decreases effects, effects.len() - i,
{
    if i < 0 || i >= effects.len() {
        ctx
    } else {
        effects_result(effects, i + 1, effect_result(effects[i], ctx))
    }
}

impl Effect {
    /// Applies this effect to the context.
    pub fn apply(&self, ctx: &mut GameContext)
        requires
            effect_fits(*self, *old(ctx)),
        ensures
            *final(ctx) == effect_result(*self, *old(ctx)),
        decreases *self,
    {
        match self {
            Effect::Attack(damage) => ctx.deal_damage(*damage),
            Effect::Heal(amount) => ctx.heal(*amount),
            Effect::Compound(effects) => play_effects(effects, ctx),
        }
    }
}

/// Applies the listed effects to the context strictly in list order; each
/// effect sees the mutations of the earlier ones.
pub fn play_effects(effects: &Vec<Effect>, ctx: &mut GameContext)
    requires
        effects_fit(effects@, 0, *old(ctx)),
    ensures
        *final(ctx) == effects_result(effects@, 0, *old(ctx)),
    decreases effects@,
{
    let ghost orig = *old(ctx);
    let mut i: usize = 0;
    while i < effects.len()
        invariant
            i <= effects@.len(),
            effects_fit(effects@, i as int, *ctx),
            effects_result(effects@, 0, orig) == effects_result(effects@, i as int, *ctx),
        decreases effects@.len() - i,
    {
        effects[i].apply(ctx);
        i = i + 1;
    }
}

/// A card effect that can be played against a `GameContext`.
pub trait Playable {
    /// Whether playing this effect on `ctx` keeps every health update
    /// within machine range.
    spec fn spec_can_play(&self, ctx: GameContext) -> bool;

    /// The context that playing this effect on `ctx` produces.
    spec fn spec_play(&self, ctx: GameContext) -> GameContext;

    /// Plays the card effect, modifying the game context.
    fn play(&self, ctx: &mut GameContext)
        requires
            self.spec_can_play(*old(ctx)),
        ensures
            *final(ctx) == self.spec_play(*old(ctx)),
    ;
}

impl Playable for Effect {
    open spec fn spec_can_play(&self, ctx: GameContext) -> bool {
        effect_fits(*self, ctx)
    }

    open spec fn spec_play(&self, ctx: GameContext) -> GameContext {
        effect_result(*self, ctx)
    }

    fn play(&self, ctx: &mut GameContext) {
        self.apply(ctx);
    }
}

/// Example attack card that deals a fixed amount of damage.
pub struct AttackCard {
    pub card: Card,
    pub damage: i32,
}

impl Playable for AttackCard {
    open spec fn spec_can_play(&self, ctx: GameContext) -> bool {
        i32::MIN <= ctx.enemy_health - self.damage <= i32::MAX
    }

    open spec fn spec_play(&self, ctx: GameContext) -> GameContext {
        GameContext { enemy_health: (ctx.enemy_health - self.damage) as i32, ..ctx }
    }

    fn play(&self, ctx: &mut GameContext) {
        ctx.deal_damage(self.damage);
    }
}

/// Example heal card that heals the player by a fixed amount.
pub struct HealCard {
    pub card: Card,
    pub heal_amount: i32,
}

impl Playable for HealCard {
    open spec fn spec_can_play(&self, ctx: GameContext) -> bool {
        i32::MIN <= ctx.player_health + self.heal_amount <= i32::MAX
    }

    open spec fn spec_play(&self, ctx: GameContext) -> GameContext {
        GameContext { player_health: (ctx.player_health + self.heal_amount) as i32, ..ctx }
    }

    fn play(&self, ctx: &mut GameContext) {
        ctx.heal(self.heal_amount);
    }
}

/// Card that plays an ordered list of owned effects in sequence.
pub struct CompoundCard {
    pub card: Card,
    pub effects: Vec<Effect>,
}

impl Playable for CompoundCard {
    open spec fn spec_can_play(&self, ctx: GameContext) -> bool {
        effects_fit(self.effects@, 0, ctx)
    }

    open spec fn spec_play(&self, ctx: GameContext) -> GameContext {
        effects_result(self.effects@, 0, ctx)
    }

    fn play(&self, ctx: &mut GameContext) {
        play_effects(&self.effects, ctx);
    }
}

} // verus!
