//! A blackjack hand: the cards drawn so far and their value.

use vstd::prelude::*;

verus! {

/// The card value that stands for an ace.
pub const ACE: u32 = 11;

/// The thirteen ranks a card is drawn from, each with equal chance:
/// an ace, four ranks worth ten, then nine down to two.
pub open spec fn deck() -> Seq<u32> {
    seq![11u32, 10, 10, 10, 10, 9, 8, 7, 6, 5, 4, 3, 2]
}

/// The sum of the cards that are not aces.
pub open spec fn non_ace_sum(cards: Seq<u32>) -> int
    decreases cards.len(),
{
    if cards.len() == 0 {
        0
    } else {
        non_ace_sum(cards.drop_last()) + if cards.last() == ACE { 0int } else { cards.last() as int }
    }
}

/// The number of aces among the cards.
pub open spec fn ace_count(cards: Seq<u32>) -> int
    decreases cards.len(),
{
    if cards.len() == 0 {
        0
    } else {
        ace_count(cards.drop_last()) + if cards.last() == ACE { 1int } else { 0int }
    }
}

/// Whether an ace of the hand counts eleven: there is an ace and the other
/// cards sum to at most ten. Only the first ace can count eleven; every
/// further ace counts one, even where a second ace at one would have kept
/// the hand under 22.
pub open spec fn is_soft(cards: Seq<u32>) -> bool {
    ace_count(cards) >= 1 && non_ace_sum(cards) <= 10
}

/// The value of a hand: the non-ace cards, one for each ace, and ten more
/// where the hand is soft.
pub open spec fn hand_value(cards: Seq<u32>) -> int {
    non_ace_sum(cards) + ace_count(cards) + if is_soft(cards) { 10int } else { 0int }
}

/// The value with every ace counted as one.
pub open spec fn hard_value(cards: Seq<u32>) -> int {
    non_ace_sum(cards) + ace_count(cards)
}

/// The value of a hand can be computed in `u32` arithmetic without
/// overflow: the non-ace cards sum to at most `u32::MAX`, and each ace,
/// when it is counted, finds the running sum at least 11 below the limit
/// (the sum tested against 21 is the running sum plus 11).
pub open spec fn value_fits(cards: Seq<u32>) -> bool {
    let s = non_ace_sum(cards);
    let k = ace_count(cards);
    if k == 0 {
        s <= u32::MAX
    } else if k >= 2 && s <= 10 {
        s + k + 20 <= u32::MAX
    } else {
        s + k + 10 <= u32::MAX
    }
}

/// A hand worth at most 1000 with aces at one can be valued in `u32`.
pub proof fn lemma_small_hand_fits(cards: Seq<u32>)
    requires
        hard_value(cards) <= 1000,
    ensures
        value_fits(cards),
{
    lemma_sums_nonneg(cards);
}

pub proof fn lemma_sums_nonneg(cards: Seq<u32>)
    ensures
        non_ace_sum(cards) >= 0,
        ace_count(cards) >= 0,
    decreases cards.len(),
{
    if cards.len() > 0 {
        lemma_sums_nonneg(cards.drop_last());
    }
}

/// Sums over a prefix are at most the sums over the whole hand.
pub proof fn lemma_prefix_sums(cards: Seq<u32>, i: int)
    requires
        0 <= i <= cards.len(),
    ensures
        non_ace_sum(cards.take(i)) <= non_ace_sum(cards),
        ace_count(cards.take(i)) <= ace_count(cards),
    decreases cards.len() - i,
{
    if i < cards.len() {
        lemma_prefix_sums(cards, i + 1);
        assert(cards.take(i + 1).drop_last() =~= cards.take(i));
    } else {
        assert(cards.take(i) =~= cards);
    }
}

/// The value of the cards, and whether an ace counts eleven in it.
pub fn hand_value_of(cards: &[u32]) -> (res: (u32, bool))
    requires
        value_fits(cards@),
    ensures
        res.0 == hand_value(cards@),
        res.1 == is_soft(cards@),
{
    let mut a_count: usize = 0;
    let mut is_soft_hand: bool = false;
    let mut sum: u32 = 0;
    let n = cards.len();
    let mut i: usize = 0;
    while i < n
        invariant
            n == cards@.len(),
            0 <= i <= n,
            value_fits(cards@),
            sum == non_ace_sum(cards@.take(i as int)),
            a_count == ace_count(cards@.take(i as int)),
        decreases n - i,
    {
        proof {
            lemma_prefix_sums(cards@, i + 1);
            lemma_sums_nonneg(cards@.take(i + 1));
            assert(cards@.take(i + 1).drop_last() =~= cards@.take(i as int));
        }
        let card = cards[i];
        if card == ACE {
            a_count += 1;
        } else {
            sum += card;
        }
        i += 1;
    }
    assert(cards@.take(n as int) =~= cards@);
    let ghost s: int = sum as int;
    proof {
        lemma_sums_nonneg(cards@);
    }
    let mut j: usize = 0;
    while j < a_count
        invariant
            0 <= j <= a_count,
            a_count >= 2 && s <= 10 ==> s + a_count + 20 <= u32::MAX,
            a_count >= 1 && !(a_count >= 2 && s <= 10) ==> s + a_count + 10 <= u32::MAX,
            s >= 0,
            j == 0 ==> sum == s && !is_soft_hand,
            j >= 1 && s <= 10 ==> sum == s + 10 + j && is_soft_hand,
            j >= 1 && s > 10 ==> sum == s + j && !is_soft_hand,
        decreases a_count - j,
    {
        if sum + 11 > 21 {
            sum += 1;
        } else {
            sum += 11;
            is_soft_hand = true;
        }
        j += 1;
    }
    (sum, is_soft_hand)
}


/// The ranks of the deck run from 2 to 11.
pub proof fn lemma_deck_card_range(card: u32)
    requires
        deck().contains(card),
    ensures
        2 <= card <= 11,
{
    let i = choose|i: int| 0 <= i < deck().len() && deck()[i] == card;
}

/// Bounds of the value: between the value with aces at one and ten more;
/// soft exactly when it is ten more, which needs an ace; and an ace counts
/// eleven whenever that keeps the value with all other aces at one at most 21.
pub proof fn lemma_hand_value_bounds(cards: Seq<u32>)
    ensures
        hard_value(cards) <= hand_value(cards) <= hard_value(cards) + 10,
        is_soft(cards) == (hand_value(cards) == hard_value(cards) + 10),
        is_soft(cards) ==> cards.contains(ACE),
        ace_count(cards) >= 1 && hard_value(cards) + 10 <= 21 ==> hand_value(cards) == hard_value(cards) + 10,
{
    if ace_count(cards) >= 1 {
        lemma_ace_count_positive(cards);
    }
}

/// A hand with an ace count above zero holds an ace.
proof fn lemma_ace_count_positive(cards: Seq<u32>)
    requires
        ace_count(cards) >= 1,
    ensures
        cards.contains(ACE),
    decreases cards.len(),
{
    if cards.last() == ACE {
        assert(cards[cards.len() - 1] == ACE);
    } else {
        lemma_ace_count_positive(cards.drop_last());
        let i = choose|i: int| 0 <= i < cards.drop_last().len() && cards.drop_last()[i] == ACE;
        assert(cards[i] == ACE);
    }
}

/// Taking out the card at place `i` lowers the sums by that card.
proof fn lemma_sums_remove(cards: Seq<u32>, i: int)
    requires
        0 <= i < cards.len(),
    ensures
        non_ace_sum(cards) == non_ace_sum(cards.remove(i)) + if cards[i] == ACE { 0int } else { cards[i] as int },
        ace_count(cards) == ace_count(cards.remove(i)) + if cards[i] == ACE { 1int } else { 0int },
    decreases cards.len(),
{
    if i == cards.len() - 1 {
        assert(cards.remove(i) =~= cards.drop_last());
    } else {
        lemma_sums_remove(cards.drop_last(), i);
        assert(cards.remove(i).drop_last() =~= cards.drop_last().remove(i));
        assert(cards.remove(i).last() == cards.last());
    }
}

/// The sums over a hand depend only on which cards it holds.
proof fn lemma_sums_order_free(c1: Seq<u32>, c2: Seq<u32>)
    requires
        c1.to_multiset() == c2.to_multiset(),
    ensures
        non_ace_sum(c1) == non_ace_sum(c2),
        ace_count(c1) == ace_count(c2),
    decreases c1.len(),
{
    broadcast use vstd::seq_lib::group_to_multiset_ensures;

    if c1.len() == 0 {
        assert(c2.to_multiset().len() == 0);
        assert(c2.len() == 0);
    } else {
        let x = c1.last();
        let rest = c1.drop_last();
        assert(c1 =~= rest.push(x));
        assert(c1.to_multiset() == rest.to_multiset().insert(x));
        assert(c2.to_multiset().count(x) > 0);
        assert(c2.contains(x));
        let i = choose|i: int| 0 <= i < c2.len() && c2[i] == x;
        assert(c2.remove(i).to_multiset() =~= rest.to_multiset());
        lemma_sums_order_free(rest, c2.remove(i));
        lemma_sums_remove(c2, i);
    }
}

/// The value of a hand does not depend on the order its cards were drawn
/// in: hands holding the same cards have the same value and softness (and
/// the same need of room in `u32`).
pub proof fn lemma_hand_value_order_free(c1: Seq<u32>, c2: Seq<u32>)
    requires
        c1.to_multiset() == c2.to_multiset(),
    ensures
        hand_value(c1) == hand_value(c2),
        is_soft(c1) == is_soft(c2),
        value_fits(c1) == value_fits(c2),
{
    lemma_sums_order_free(c1, c2);
}

/// Every card of the hand is one of the ranks of the deck.
pub open spec fn cards_from_deck(cards: Seq<u32>) -> bool {
    forall|i: int| 0 <= i < cards.len() ==> deck().contains(#[trigger] cards[i])
}

/// Drawing a card raises the value with aces at one by the card's worth.
pub proof fn lemma_hard_value_push(cards: Seq<u32>, card: u32)
    ensures
        hard_value(cards.push(card)) == hard_value(cards) + if card == ACE { 1int } else { card as int },
{
    assert(cards.push(card).drop_last() =~= cards);
}

/// Calls `rand::random_range(0..len)`, which draws an index uniformly from
/// `0..len` with the thread-local generator; it panics on an empty range, so
/// `len` must be positive. Claimed: the index is below `len`, and the ghost
/// part of the result records `len`, the size of the range the draw was made
/// over. Which index comes out is left open: it rests on chance.
#[verifier::external_body]
fn random_index(len: usize) -> (drawn: (usize, Ghost<nat>))
    requires
        len > 0,
    ensures
        drawn.0 < len,
        drawn.1@ == len,
{
    (rand::random_range(0..len), Ghost(len as nat))
}

/// A hand of cards dealt from an endless deck.
pub struct Hand {
    cards: Vec<u32>,
    cards_list: [u32; 13],
    draw_ranges: Ghost<Seq<nat>>,
}

impl View for Hand {
    type V = Seq<u32>;

    /// The cards in the order they were drawn.
    closed spec fn view(&self) -> Seq<u32> {
        self.cards@
    }
}

impl Hand {
    /// The hand draws from the standard ranks and holds only cards of them,
    /// with one draw record for each card.
    pub closed spec fn wf(&self) -> bool {
        &&& self.cards_list@ == deck()
        &&& cards_from_deck(self.cards@)
        &&& self.draw_ranges@.len() == self.cards@.len()
    }

    /// For each card, in order, the number of ranks of the uniform random
    /// draw that picked it: the whole deck (13) for a card drawn by
    /// `new_card`, and 0 for a card placed by rank with `add_card`.
    pub closed spec fn draw_ranges(&self) -> Seq<nat> {
        self.draw_ranges@
    }

    /// A well-formed hand holds only cards of the deck, one record per card.
    pub proof fn lemma_wf_cards(&self)
        requires
            self.wf(),
        ensures
            cards_from_deck(self@),
            self.draw_ranges().len() == self@.len(),
    {
    }

    /// An empty hand.
    pub fn create() -> (hand: Hand)
        ensures
            hand.wf(),
            hand@ == Seq::<u32>::empty(),
            hand.draw_ranges() == Seq::<nat>::empty(),
    {
        let cards_list: [u32; 13] = [11, 10, 10, 10, 10, 9, 8, 7, 6, 5, 4, 3, 2];
        let hand = Hand { cards: Vec::new(), cards_list, draw_ranges: Ghost(Seq::empty()) };
        assert(hand.cards_list@ =~= deck());
        hand
    }

    /// Draws a card uniformly from the thirteen ranks of the deck, adds it
    /// to the hand and returns it. The draw is made over the whole deck:
    /// its record is `deck().len()`.
    pub fn new_card(&mut self) -> (card: u32)
        requires
            old(self).wf(),
        ensures
            final(self).wf(),
            final(self)@ == old(self)@.push(card),
            deck().contains(card),
            final(self).draw_ranges() == old(self).draw_ranges().push(deck().len()),
    {
        let (index, range) = random_index(self.cards_list.len());
        self.place(index, range)
    }

    /// Adds the card of rank `index` of the deck to the hand and returns it.
    /// The card is placed, not drawn: its record is 0.
    pub fn add_card(&mut self, index: usize) -> (card: u32)
        requires
            old(self).wf(),
            index < 13,
        ensures
            final(self).wf(),
            card == deck()[index as int],
            final(self)@ == old(self)@.push(card),
            deck().contains(card),
            final(self).draw_ranges() == old(self).draw_ranges().push(0),
    {
        self.place(index, Ghost(0))
    }

    /// Adds the card of rank `index`, recording the size of the draw's range.
    fn place(&mut self, index: usize, range: Ghost<nat>) -> (card: u32)
        requires
            old(self).wf(),
            index < 13,
        ensures
            final(self).wf(),
            card == deck()[index as int],
            final(self)@ == old(self)@.push(card),
            deck().contains(card),
            final(self).draw_ranges() == old(self).draw_ranges().push(range@),
    {
        let card: u32 = self.cards_list[index];
        assert(deck()[index as int] == card);
        self.cards.push(card);
        self.draw_ranges = Ghost(self.draw_ranges@.push(range@));
        proof {
            assert forall|i: int| 0 <= i < self.cards@.len() implies deck().contains(
                #[trigger] self.cards@[i],
            ) by {
                if i < old(self).cards@.len() {
                    assert(self.cards@[i] == old(self).cards@[i]);
                }
            }
        }
        card
    }

    /// The cards of the hand, in the order they were drawn.
    pub fn cards(&self) -> (cards: &Vec<u32>)
        ensures
            cards@ == self@,
    {
        &self.cards
    }

    /// The value of the hand, and whether an ace counts eleven in it.
    pub fn total(&self) -> (res: (u32, bool))
        requires
            value_fits(self@),
        ensures
            res.0 == hand_value(self@),
            res.1 == is_soft(self@),
    {
        hand_value_of(self.cards.as_slice())
    }
}

} // verus!
