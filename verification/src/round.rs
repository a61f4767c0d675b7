//! One round of blackjack between a player and the dealer.

use vstd::prelude::*;
use crate::hand::{
    Hand, deck, hand_value, hard_value, value_fits, cards_from_deck, lemma_hard_value_push,
    lemma_sums_nonneg, lemma_deck_card_range, lemma_small_hand_fits,
};

verus! {

/// Whether the player loses with the given final values: the player went
/// over 21, or the dealer stayed at most 21 and beat the player. A tie, and
/// a dealer over 21 against a player at most 21, are won by the player.
pub open spec fn player_loses(player_value: int, dealer_value: int) -> bool {
    player_value > 21 || (player_value < dealer_value && dealer_value <= 21)
}

/// The ends of a round: a player over 21 loses even when the dealer is over
/// 21 too; a player at most 21 wins against a dealer over 21, and wins a tie.
pub proof fn lemma_round_outcomes(player_value: int, dealer_value: int)
    ensures
        player_value > 21 ==> player_loses(player_value, dealer_value),
        player_value <= 21 && dealer_value > 21 ==> !player_loses(player_value, dealer_value),
        player_value <= 21 && player_value == dealer_value ==> !player_loses(player_value, dealer_value),
        player_value <= 21 && dealer_value <= 21 ==> (player_loses(player_value, dealer_value)
            <==> player_value < dealer_value),
{
}

/// The dealer stops at the first hand, from `start` cards on, whose value
/// reaches 17: every hand in between stayed below 17.
pub open spec fn dealer_stopped(cards: Seq<u32>, start: int) -> bool {
    &&& start <= cards.len()
    &&& hand_value(cards) >= 17
    &&& forall|k: int| start <= k < cards.len() ==> hand_value(#[trigger] cards.take(k)) < 17
}

/// The draw records `after` extend `before`, and every record added was a
/// uniform draw over the whole deck.
pub open spec fn drawn_over_deck(after: Seq<nat>, before: Seq<nat>) -> bool {
    &&& before.len() <= after.len()
    &&& after.take(before.len() as int) == before
    &&& forall|k: int| before.len() <= k < after.len() ==> after[k] == deck().len()
}

/// The player's and the dealer's hands in one round.
pub struct Round {
    pub player: Hand,
    pub dealer: Hand,
}

impl Round {
    /// Both hands are well formed.
    pub open spec fn wf(&self) -> bool {
        self.player.wf() && self.dealer.wf()
    }

    /// Starts a round: the player holds no card and the dealer one.
    pub fn deal() -> (round: Round)
        ensures
            round.wf(),
            round.player@ == Seq::<u32>::empty(),
            round.dealer@.len() == 1,
            deck().contains(round.dealer@[0]),
            round.player.draw_ranges() == Seq::<nat>::empty(),
            round.dealer.draw_ranges() == seq![deck().len()],
    {
        let player = Hand::create();
        let mut dealer = Hand::create();
        dealer.new_card();
        Round { player, dealer }
    }

    /// The player takes a card. Returns whether the player's turn is over,
    /// that is whether the hand has reached 21.
    pub fn player_hit(&mut self) -> (turn_over: bool)
        requires
            old(self).wf(),
            hand_value(old(self).player@) < 21,
        ensures
            final(self).wf(),
            final(self).dealer == old(self).dealer,
            exists|card: u32| deck().contains(card) && final(self).player@ == old(self).player@.push(card),
            turn_over == (hand_value(final(self).player@) >= 21),
            hand_value(final(self).player@) < 21 || turn_over,
            value_fits(final(self).player@),
            final(self).player.draw_ranges() == old(self).player.draw_ranges().push(deck().len()),
    {
        let ghost before = self.player@;
        proof {
            lemma_sums_nonneg(before);
        }
        let card = self.player.new_card();
        proof {
            lemma_hard_value_push(before, card);
            lemma_deck_card_range(card);
            lemma_small_hand_fits(self.player@);
        }
        let (value, _) = self.player.total();
        value >= 21
    }

    /// The dealer draws cards while the hand is worth less than 17.
    pub fn dealer_turn(&mut self)
        requires
            old(self).wf(),
            value_fits(old(self).dealer@),
        ensures
            final(self).wf(),
            final(self).player == old(self).player,
            final(self).dealer@.take(old(self).dealer@.len() as int) == old(self).dealer@,
            cards_from_deck(final(self).dealer@),
            dealer_stopped(final(self).dealer@, old(self).dealer@.len() as int),
            value_fits(final(self).dealer@),
            drawn_over_deck(final(self).dealer.draw_ranges(), old(self).dealer.draw_ranges()),
    {
        let ghost start = self.dealer@.len() as int;
        let ghost first = self.dealer@;
        assert(self.dealer.draw_ranges().take(self.dealer.draw_ranges().len() as int) =~= self.dealer.draw_ranges());
        loop
            invariant
                self.wf(),
                self.player == old(self).player,
                value_fits(self.dealer@),
                0 <= start <= self.dealer@.len(),
                start == first.len(),
                self.dealer@.take(start) == first,
                first == old(self).dealer@,
                drawn_over_deck(self.dealer.draw_ranges(), old(self).dealer.draw_ranges()),
                forall|k: int| start <= k < self.dealer@.len() ==> hand_value(#[trigger] self.dealer@.take(k)) < 17,
            ensures
                self.wf(),
                self.player == old(self).player,
                value_fits(self.dealer@),
                self.dealer@.take(start) == first,
                dealer_stopped(self.dealer@, start),
                drawn_over_deck(self.dealer.draw_ranges(), old(self).dealer.draw_ranges()),
            decreases (if hard_value(self.dealer@) < 17 { 17 - hard_value(self.dealer@) } else { 0 }),
        {
            let (value, _) = self.dealer.total();
            if value >= 17 {
                break;
            }
            let ghost before = self.dealer@;
            let ghost ranges_before = self.dealer.draw_ranges();
            proof {
                lemma_sums_nonneg(before);
                assert(hard_value(before) <= hand_value(before));
            }
            let card = self.dealer.new_card();
            proof {
                lemma_hard_value_push(before, card);
                lemma_deck_card_range(card);
                lemma_small_hand_fits(self.dealer@);
                assert(self.dealer@ == before.push(card));
                assert(self.dealer.draw_ranges().take(ranges_before.len() as int) =~= ranges_before);
                assert(self.dealer.draw_ranges().take(old(self).dealer.draw_ranges().len() as int)
                    =~= ranges_before.take(old(self).dealer.draw_ranges().len() as int));
                assert(self.dealer@.take(start) =~= before.take(start));
                assert(self.dealer@.take(before.len() as int) =~= before);
                assert forall|k: int| start <= k < self.dealer@.len() implies hand_value(
                    #[trigger] self.dealer@.take(k),
                ) < 17 by {
                    if k < before.len() {
                        assert(self.dealer@.take(k) =~= before.take(k));
                    }
                }
            }
        }
        proof {
            self.dealer.lemma_wf_cards();
        }
    }

    /// Whether the player wins the round, with both turns played.
    pub fn player_won(&self) -> (won: bool)
        requires
            value_fits(self.player@),
            value_fits(self.dealer@),
        ensures
            won == !player_loses(hand_value(self.player@), hand_value(self.dealer@)),
    {
        let dealer_value = self.dealer.total().0;
        let player_value = self.player.total().0;
        !(player_value > 21 || (player_value < dealer_value && dealer_value <= 21))
    }
}

} // verus!
