use patience::card::{Card, Rank, Suit};
use patience::deck::Deck;
use patience::game::{Choices, Game, MatchType, PlacedCard};
use patience::search::{classify, play_deal, play_one, Result, MAX_CHOICE_POINTS};

fn rank_index(r: Rank) -> u8 {
    let all = [
        Rank::Ace, Rank::Two, Rank::Three, Rank::Four, Rank::Five, Rank::Six, Rank::Seven,
        Rank::Eight, Rank::Nine, Rank::Ten, Rank::Jack, Rank::Queen, Rank::King,
    ];
    all.iter().position(|x| *x == r).unwrap() as u8
}

fn suit_index(s: Suit) -> u8 {
    let all = [Suit::Clubs, Suit::Diamonds, Suit::Hearts, Suit::Spades];
    all.iter().position(|x| *x == s).unwrap() as u8
}

fn deck_of(ids: &[u8]) -> Deck {
    let mut list: Vec<Card> = ids.iter().map(|&i| Card(i)).collect();
    for i in 0..52u8 {
        if !ids.contains(&i) {
            list.push(Card(i));
        }
    }
    Deck { list, pos: 0 }
}

fn placed(t: &Game) -> Vec<(u8, bool, bool)> {
    t.tableau.iter().map(|p| (p.card.0, p.matches_one, p.matches_three)).collect()
}

fn game_with_tableau(ids: &[u8]) -> Game {
    // Deal the given cards in order; none of them may trigger a move.
    let mut g = Game::with_deck(deck_of(ids));
    for _ in ids {
        assert_eq!(g.deal_card(), Some(()));
    }
    g
}

#[test]
fn card_round_trip() {
    for i in 0..52u8 {
        let c = Card(i);
        let id = suit_index(c.suit()) * 13 + rank_index(c.rank());
        assert_eq!(id, i);
    }
}

#[test]
fn card_decoding_examples() {
    assert_eq!(Card(0).rank(), Rank::Ace);
    assert_eq!(Card(0).suit(), Suit::Clubs);
    assert_eq!(Card(12).rank(), Rank::King);
    assert_eq!(Card(13).suit(), Suit::Diamonds);
    assert_eq!(Card(13).rank(), Rank::Ace);
    assert_eq!(Card(35).rank(), Rank::Ten);
    assert_eq!(Card(35).suit(), Suit::Hearts);
    assert_eq!(Card(51).rank(), Rank::King);
    assert_eq!(Card(51).suit(), Suit::Spades);
}

#[test]
fn single_chars() {
    assert_eq!(Rank::Ace.single_char(), "A");
    assert_eq!(Rank::Ten.single_char(), "10");
    assert_eq!(Rank::Seven.single_char(), "7");
    assert_eq!(Rank::Queen.single_char(), "Q");
    assert_eq!(Suit::Clubs.single_char(), "\u{2663}");
    assert_eq!(Suit::Diamonds.single_char(), "\u{2666}");
    assert_eq!(Suit::Hearts.single_char(), "\u{2665}");
    assert_eq!(Suit::Spades.single_char(), "\u{2660}");
}

#[test]
fn unshuffled_deck_is_in_order() {
    let mut d = Deck::new_unshuffled();
    for i in 0..52u8 {
        assert_eq!(d.draw(), Some(Card(i)));
    }
    assert_eq!(d.draw(), None);
    assert_eq!(d.pos, 52);
}

#[test]
fn shuffled_deck_draws_every_card_once() {
    let mut d = Deck::new_shuffled();
    let mut seen = [false; 52];
    for _ in 0..52 {
        let c = d.draw().unwrap();
        assert!(c.0 < 52);
        assert!(!seen[c.0 as usize]);
        seen[c.0 as usize] = true;
    }
    assert!(seen.iter().all(|&s| s));
    assert_eq!(d.draw(), None);
}

#[test]
fn is_match_by_suit_then_rank() {
    let p = |i: u8| PlacedCard { card: Card(i), matches_one: false, matches_three: false };
    assert_eq!(Game::is_match(&p(0), &p(1)), Some(MatchType::Suit));
    assert_eq!(Game::is_match(&p(0), &p(13)), Some(MatchType::Rank));
    assert_eq!(Game::is_match(&p(0), &p(14)), None);
    assert_eq!(Game::is_match(&p(13), &p(13)), Some(MatchType::Suit));
}

#[test]
fn ace_two_of_clubs_flags() {
    let mut g = Game::with_deck(Deck::new_unshuffled());
    assert_eq!(g.deal_card(), Some(()));
    assert_eq!(g.deal_card(), Some(()));
    assert_eq!(placed(&g), vec![(0, false, false), (1, true, false)]);
    assert_eq!(g.find_matches(), vec![(1, 1)]);
}

#[test]
fn deal_card_sets_distance_three_flag() {
    // A♣ 2♦ 3♥ 4♣: the last matches the first by suit, three places left.
    let g = game_with_tableau(&[0, 14, 28, 3]);
    assert_eq!(
        placed(&g),
        vec![(0, false, false), (14, false, false), (28, false, false), (3, false, true)]
    );
}

#[test]
fn deal_card_on_exhausted_deck() {
    let mut g = Game::with_deck(Deck::new_unshuffled());
    g.deck.pos = 52;
    assert_eq!(g.deal_card(), None);
    assert!(g.tableau.is_empty());
}

#[test]
fn find_matches_lists_both_distances() {
    // A♣ 2♦ 3♣ 5♣: the last matches both 3♣ and A♣.
    let mut g = game_with_tableau(&[0, 14, 2, 4]);
    assert_eq!(g.find_matches(), vec![(3, 1), (3, 3)]);
}

#[test]
fn remove_card_rechecks_following_positions() {
    // A♣ 2♦ 3♥ 4♠ 5♦: 5♦ matches 2♦ three places left. Removing 2♦ makes
    // 3♥ sit next to A♣, and puts 5♦ three places right of A♣.
    let mut g = game_with_tableau(&[0, 14, 28, 42, 17]);
    assert_eq!(g.find_matches(), vec![(4, 3)]);
    let c = g.remove_card(1);
    assert_eq!(c, Card(14));
    assert_eq!(
        placed(&g),
        vec![(0, false, false), (28, false, false), (42, false, false), (17, false, false)]
    );
}

#[test]
fn place_card_rechecks_following_positions() {
    // A♣ 2♦ 3♥ 4♠ 6♥: overwriting 2♦ with 7♥ gives a suit match next to 3♥
    // and three places left of 6♥.
    let mut g = game_with_tableau(&[0, 14, 28, 42, 31]);
    assert_eq!(g.find_matches(), vec![]);
    g.place_card(Card(32), 1);
    assert_eq!(
        placed(&g),
        vec![(0, false, false), (32, false, false), (28, true, false), (42, false, false), (31, false, true)]
    );
}

#[test]
fn make_choice_moves_card_onto_partner() {
    // A♣ 2♦ 3♣ 5♣: moving 5♣ onto A♣ leaves 5♣ 2♦ 3♣.
    let mut g = game_with_tableau(&[0, 14, 2, 4]);
    g.make_choice((3, 3));
    assert_eq!(placed(&g), vec![(4, false, false), (14, false, false), (2, false, false)]);
    // Moving 3♣ onto 2♦ leaves 5♣ 3♣, which match by suit.
    g.make_choice((2, 1));
    assert_eq!(placed(&g), vec![(4, false, false), (2, true, false)]);
}

#[test]
fn save_and_restore() {
    let mut g = game_with_tableau(&[0, 14, 2]);
    let saved = g.save_game();
    g.deal_card();
    g.make_choice((3, 1));
    g.restore(saved);
    assert_eq!(g.deck.pos, 3);
    assert_eq!(placed(&g), vec![(0, false, false), (14, false, false), (2, false, false)]);
}

#[test]
fn play_to_choice_stops_at_two_moves() {
    let mut g = Game::with_deck(deck_of(&[0, 14, 2, 4]));
    match g.play_to_choice() {
        Choices::ChooseOne(c) => assert_eq!(c, vec![(3, 1), (3, 3)]),
        other => panic!("expected a choice, got {:?}", other),
    }
    assert_eq!(g.choice_points, 1);
    assert_eq!(g.deck.pos, 4);
}

#[test]
fn play_to_choice_on_unshuffled_deck() {
    let mut g = Game::with_deck(Deck::new_unshuffled());
    assert!(matches!(g.play_to_choice(), Choices::GameWon));
    assert_eq!(placed(&g), vec![(51, false, false)]);
    assert_eq!(g.choice_points, 0);
    assert_eq!(g.deck.pos, 52);
}

#[test]
fn unshuffled_deal_is_always_won() {
    assert_eq!(play_deal(Deck::new_unshuffled(), MAX_CHOICE_POINTS), (0, Result::AlwaysWin));
}

#[test]
fn zero_cap_without_choice_reports_the_game() {
    assert_eq!(play_deal(Deck::new_unshuffled(), 0), (0, Result::AlwaysWin));
}

#[test]
fn same_deal_same_result() {
    let deck = deck_of(&[0, 14, 2, 4]);
    let a = play_deal(deck.clone(), MAX_CHOICE_POINTS);
    let b = play_deal(deck, MAX_CHOICE_POINTS);
    assert_eq!(a, b);
    assert!(a.0 >= 1);
    assert!(a.1 != Result::GaveUp);
}

#[test]
fn cap_at_tree_size_does_not_give_up() {
    let deck = deck_of(&[0, 14, 2, 4]);
    let (d, r) = play_deal(deck.clone(), MAX_CHOICE_POINTS);
    assert_eq!(play_deal(deck.clone(), d), (d, r));
    assert_eq!(play_deal(deck, d - 1), (d, Result::GaveUp));
}

#[test]
fn zero_cap_gives_up_at_first_choice() {
    assert_eq!(play_deal(deck_of(&[0, 14, 2, 4]), 0), (1, Result::GaveUp));
}

#[test]
fn small_cap_gives_up() {
    let (d, _) = play_deal(deck_of(&[0, 14, 2, 4]), MAX_CHOICE_POINTS);
    let (cp, r) = play_deal(deck_of(&[0, 14, 2, 4]), 1);
    if d > 1 {
        assert_eq!((cp, r), (2, Result::GaveUp));
    } else {
        assert_eq!(cp, d);
        assert!(r != Result::GaveUp);
    }
}

#[test]
fn classify_cases() {
    assert_eq!(classify(true, false), Result::AlwaysWin);
    assert_eq!(classify(false, true), Result::AlwaysLose);
    assert_eq!(classify(true, true), Result::CanWin);
}

#[test]
fn play_one_classifies_a_random_deal() {
    let (cp, r) = play_one();
    assert_eq!(r == Result::GaveUp, cp > MAX_CHOICE_POINTS);
    if cp == 0 {
        assert!(matches!(r, Result::AlwaysWin | Result::AlwaysLose));
    }
}

#[test]
fn shuffled_deck_is_reordered() {
    // The chance that a uniform shuffle leaves all 52 cards in place is 1 in 52!.
    let d = Deck::new_shuffled();
    assert_eq!(d.pos, 0);
    assert_eq!(d.list.len(), 52);
    assert_ne!(d.list, Deck::new_unshuffled().list);
}
