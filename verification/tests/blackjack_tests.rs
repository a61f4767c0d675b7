use ml_from_scratch::hand::{hand_value_of, Hand};
use ml_from_scratch::menu::{
    model_index_from_input, parse_command, simulations_from_input, text_equals, Command,
};
use ml_from_scratch::round::Round;

#[test]
fn empty_hand_is_worth_nothing() {
    assert_eq!(hand_value_of(&[]), (0, false));
    let hand = Hand::create();
    assert_eq!(hand.total(), (0, false));
    assert!(hand.cards().is_empty());
}

#[test]
fn ace_counts_eleven_while_it_fits() {
    assert_eq!(hand_value_of(&[11]), (11, true));
    assert_eq!(hand_value_of(&[11, 9]), (20, true));
    assert_eq!(hand_value_of(&[9, 11]), (20, true));
    assert_eq!(hand_value_of(&[10, 11]), (21, true));
}

#[test]
fn ace_counts_one_when_eleven_would_bust() {
    assert_eq!(hand_value_of(&[11, 9, 2]), (12, false));
    assert_eq!(hand_value_of(&[10, 2, 11]), (13, false));
}

#[test]
fn only_the_first_ace_counts_eleven() {
    assert_eq!(hand_value_of(&[11, 11]), (12, true));
    assert_eq!(hand_value_of(&[11, 11, 11]), (13, true));
    // Ten and two aces: the first ace takes the hand to 21, the second busts it.
    assert_eq!(hand_value_of(&[10, 11, 11]), (22, true));
}

#[test]
fn hands_without_aces_sum_their_cards() {
    assert_eq!(hand_value_of(&[10, 10, 5]), (25, false));
    assert_eq!(hand_value_of(&[2, 3, 4, 5]), (14, false));
}

#[test]
fn drawn_cards_come_from_the_deck() {
    let mut hand = Hand::create();
    for n in 1..=12 {
        let card = hand.new_card();
        assert!((2..=11).contains(&card));
        assert_eq!(hand.cards().len(), n);
        assert_eq!(*hand.cards().last().unwrap(), card);
    }
    let total = hand.total();
    assert_eq!(total, hand_value_of(hand.cards()));
}

#[test]
fn a_round_starts_with_one_dealer_card() {
    let round = Round::deal();
    assert!(round.player.cards().is_empty());
    assert_eq!(round.dealer.cards().len(), 1);
    assert!((2..=11).contains(&round.dealer.cards()[0]));
}

#[test]
fn the_player_turn_ends_at_twenty_one() {
    for _ in 0..200 {
        let mut round = Round::deal();
        loop {
            let over = round.player_hit();
            let value = round.player.total().0;
            assert_eq!(over, value >= 21);
            if over {
                break;
            }
        }
        assert!(round.player.total().0 >= 21);
    }
}

#[test]
fn the_dealer_draws_to_seventeen() {
    for _ in 0..200 {
        let mut round = Round::deal();
        let first = round.dealer.cards()[0];
        round.dealer_turn();
        let cards = round.dealer.cards().clone();
        assert_eq!(cards[0], first);
        assert!(round.dealer.total().0 >= 17);
        for k in 1..cards.len() {
            assert!(hand_value_of(&cards[..k]).0 < 17);
        }
    }
}

#[test]
fn the_winner_follows_the_values() {
    for _ in 0..200 {
        let mut round = Round::deal();
        round.player_hit();
        round.dealer_turn();
        let p = round.player.total().0;
        let d = round.dealer.total().0;
        let lost = p > 21 || (p < d && d <= 21);
        assert_eq!(round.player_won(), !lost);
    }
}

#[test]
fn menu_commands() {
    assert_eq!(parse_command("q"), Command::Quit);
    assert_eq!(parse_command("l"), Command::Learn);
    assert_eq!(parse_command("t"), Command::Test);
    assert_eq!(parse_command("x"), Command::Ignored);
    assert_eq!(parse_command(""), Command::Ignored);
    assert_eq!(parse_command("quit"), Command::Ignored);
}

#[test]
fn menu_simulation_counts() {
    assert_eq!(simulations_from_input("1"), 1);
    assert_eq!(simulations_from_input("5"), 5);
    assert_eq!(simulations_from_input("10"), 10);
    assert_eq!(simulations_from_input("50"), 50);
    assert_eq!(simulations_from_input("100"), 100);
    assert_eq!(simulations_from_input("500"), 500);
    assert_eq!(simulations_from_input("1000"), 1000);
    assert_eq!(simulations_from_input("7"), 1);
    assert_eq!(simulations_from_input("10000"), 1);
    assert_eq!(simulations_from_input(""), 1);
}

#[test]
fn menu_model_choice() {
    assert_eq!(model_index_from_input("Z", 1000), 999);
    assert_eq!(model_index_from_input("Z", 1), 0);
    assert_eq!(model_index_from_input("A", 1000), 0);
    assert_eq!(model_index_from_input("", 0), 0);
}

#[test]
fn texts_compare_by_characters() {
    assert!(text_equals("abc", "abc"));
    assert!(!text_equals("abc", "abd"));
    assert!(!text_equals("ab", "abc"));
    assert!(text_equals("", ""));
    assert!(text_equals("é", "é"));
}

#[test]
fn add_card_takes_the_rank_at_the_index() {
    let mut hand = Hand::create();
    let ranks = [11, 10, 10, 10, 10, 9, 8, 7, 6, 5, 4, 3, 2];
    for (index, &rank) in ranks.iter().enumerate() {
        assert_eq!(hand.add_card(index), rank);
    }
    assert_eq!(hand.cards(), &ranks.to_vec());
    assert_eq!(hand.total(), (85, false));
}

#[test]
fn values_near_the_u32_limit() {
    assert_eq!(hand_value_of(&[u32::MAX]), (u32::MAX, false));
    assert_eq!(hand_value_of(&[u32::MAX - 11, 11]), (u32::MAX - 10, false));
    assert_eq!(hand_value_of(&[u32::MAX - 30, 5, 5]), (u32::MAX - 20, false));
}

#[test]
fn value_ignores_card_order() {
    let a = [11, 5, 3, 11];
    let b = [3, 11, 11, 5];
    assert_eq!(hand_value_of(&a), hand_value_of(&b));
    assert_eq!(hand_value_of(&a), (20, true));
}

#[test]
fn value_bounds() {
    // Aces at one: 9 + 1 + 1 = 11; the first ace adds ten more.
    assert_eq!(hand_value_of(&[9, 11, 11]), (21, true));
    // Ace with 11 in other cards: no ace can count eleven.
    assert_eq!(hand_value_of(&[5, 6, 11]), (12, false));
}
