use setengine::cards::{is_set, is_ultraset};
use setengine::{
    select_index, selection_contains_set, CardCoordinates, CardVisualAttr, Deck, GameDeck,
    PlayResponse,
};

fn sorted_coords(cards: &[(CardCoordinates, CardVisualAttr)]) -> Vec<(u8, u8, u8, u8)> {
    let mut v: Vec<(u8, u8, u8, u8)> =
        cards.iter().map(|p| (p.0.num, p.0.color, p.0.shape, p.0.filling)).collect();
    v.sort();
    v
}

fn find_set_indices(cards: &[(CardCoordinates, CardVisualAttr)]) -> Option<(usize, usize, usize)> {
    for i in 0..cards.len() {
        for j in (i + 1)..cards.len() {
            for k in (j + 1)..cards.len() {
                if is_set(cards[i].0, cards[j].0, cards[k].0) {
                    return Some((i, j, k));
                }
            }
        }
    }
    None
}

#[test]
fn selection_size_matches_session() {
    let deck = Deck::new_standard_deck();
    assert_eq!(GameDeck::start_set_play(&deck).selection_size(), 3);
    assert_eq!(GameDeck::start_ultraset_play(&deck).selection_size(), 4);
}

#[test]
fn wrong_selection_count_is_rejected_without_change() {
    let deck = Deck::new_standard_deck();
    let mut game = GameDeck::start_set_play(&deck);
    let play_before = sorted_coords(game.in_play());
    let deck_before = sorted_coords(game.in_deck());
    let r = game.play_selection(vec![0, 1]);
    assert!(matches!(r, PlayResponse::InvalidPlay));
    assert_eq!(sorted_coords(game.in_play()), play_before);
    assert_eq!(sorted_coords(game.in_deck()), deck_before);
}

#[test]
fn out_of_range_selection_is_rejected_without_change() {
    let deck = Deck::new_standard_deck();
    let mut game = GameDeck::start_set_play(&deck);
    let n = game.in_play().len();
    let play_before = sorted_coords(game.in_play());
    let r = game.play_selection(vec![0, 1, n]);
    assert!(matches!(r, PlayResponse::InvalidPlay));
    assert_eq!(sorted_coords(game.in_play()), play_before);
}

#[test]
fn repeated_position_is_rejected() {
    let deck = Deck::new_standard_deck();
    let mut game = GameDeck::start_set_play(&deck);
    let r = game.play_selection(vec![0, 0, 1]);
    assert!(matches!(r, PlayResponse::InvalidPlay));
}

#[test]
fn non_matching_selection_is_rejected_without_change() {
    let deck = Deck::new_standard_deck();
    let mut game = GameDeck::start_set_play(&deck);
    // Find three positions that are not a set.
    let cards = game.in_play().clone();
    let mut non_set: Option<(usize, usize, usize)> = None;
    'outer: for i in 0..cards.len() {
        for j in (i + 1)..cards.len() {
            for k in (j + 1)..cards.len() {
                if !is_set(cards[i].0, cards[j].0, cards[k].0) {
                    non_set = Some((i, j, k));
                    break 'outer;
                }
            }
        }
    }
    let (i, j, k) = non_set.expect("a twelve-card table is never all sets");
    let play_before = sorted_coords(game.in_play());
    let r = game.play_selection(vec![i, j, k]);
    assert!(matches!(r, PlayResponse::InvalidPlay));
    assert_eq!(sorted_coords(game.in_play()), play_before);
}

#[test]
fn valid_play_conserves_cards_and_keeps_table_playable() {
    let deck = Deck::new_standard_deck();
    let mut game = GameDeck::start_set_play(&deck);
    let cards = game.in_play().clone();
    let (i, j, k) = find_set_indices(cards.as_slice()).expect("dealing guarantees a set");
    let mut before = sorted_coords(game.in_play());
    before.extend(sorted_coords(game.in_deck()));
    before.sort();
    let removed: Vec<(u8, u8, u8, u8)> = [i, j, k]
        .iter()
        .map(|&p| (cards[p].0.num, cards[p].0.color, cards[p].0.shape, cards[p].0.filling))
        .collect();

    let r = game.play_selection(vec![i, j, k]);
    assert!(matches!(r, PlayResponse::ValidPlay));
    assert!(selection_contains_set(game.in_play().as_slice()));

    let mut after = sorted_coords(game.in_play());
    after.extend(sorted_coords(game.in_deck()));
    after.extend(removed);
    after.sort();
    assert_eq!(after, before);

    // A fresh table is at the minimum size and the pile is full, so the
    // played cards were replaced in their slots: every other position
    // still shows the card it showed before.
    assert!(game.in_play().len() >= cards.len());
    for p in 0..cards.len() {
        if p != i && p != j && p != k {
            assert_eq!(game.in_play()[p].0, cards[p].0);
        }
    }
}

#[test]
fn hint_names_part_of_a_set() {
    let deck = Deck::new_standard_deck();
    let game = GameDeck::start_set_play(&deck);
    let hint = game.get_hint();
    assert_eq!(hint.len(), 2);
    let cards = game.in_play();
    assert!(hint[0] < hint[1] && hint[1] < cards.len());
    let mut completes = false;
    for k in 0..cards.len() {
        if k != hint[0] && k != hint[1] && is_set(cards[hint[0]].0, cards[hint[1]].0, cards[k].0) {
            completes = true;
        }
    }
    assert!(completes);
}

#[test]
fn ultraset_hint_names_part_of_an_ultraset() {
    let deck = Deck::new_standard_deck();
    let game = GameDeck::start_ultraset_play(&deck);
    let hint = game.get_hint();
    assert_eq!(hint.len(), 3);
    let cards = game.in_play();
    assert!(hint[0] < hint[1] && hint[1] < hint[2] && hint[2] < cards.len());
    let mut completes = false;
    for k in 0..cards.len() {
        if k != hint[0] && k != hint[1] && k != hint[2]
            && is_ultraset(cards[hint[0]].0, cards[hint[1]].0, cards[hint[2]].0, cards[k].0)
        {
            completes = true;
        }
    }
    assert!(completes);
}

#[test]
fn full_game_terminates_and_conserves_81_cards() {
    let deck = Deck::new_standard_deck();
    let mut game = GameDeck::start_set_play(&deck);
    let mut removed: usize = 0;
    let mut plays: usize = 0;
    loop {
        plays += 1;
        assert!(plays <= 27, "a standard deck admits at most 27 plays");
        let cards = game.in_play().clone();
        let (i, j, k) =
            find_set_indices(cards.as_slice()).expect("the table always holds a set in play");
        let r = game.play_selection(vec![i, j, k]);
        match r {
            PlayResponse::ValidPlay => {
                removed += 3;
                assert!(selection_contains_set(game.in_play().as_slice()));
            }
            PlayResponse::GameOver => {
                removed += 3;
                break;
            }
            PlayResponse::InvalidPlay => panic!("a detected set must be accepted"),
        }
    }
    // Game over means the pile is dry and the table holds no set.
    assert_eq!(game.in_deck().len(), 0);
    assert!(!selection_contains_set(game.in_play().as_slice()));
    assert_eq!(removed + game.in_play().len() + game.in_deck().len(), 81);
}

#[test]
fn select_index_toggles_with_cap() {
    let deck = Deck::new_standard_deck();
    let game = GameDeck::start_set_play(&deck);
    let mut selected: Vec<usize> = Vec::new();

    select_index(0, &game, &mut selected);
    select_index(5, &game, &mut selected);
    select_index(7, &game, &mut selected);
    assert_eq!(selected, vec![0, 5, 7]);

    // The selection is capped at the session arity: adding a fourth is a no-op.
    select_index(9, &game, &mut selected);
    assert_eq!(selected, vec![0, 5, 7]);

    // Toggling a selected position removes it.
    select_index(5, &game, &mut selected);
    assert_eq!(selected, vec![0, 7]);

    // Out-of-range positions are ignored.
    select_index(1000, &game, &mut selected);
    assert_eq!(selected, vec![0, 7]);

    // With room again, adding works.
    select_index(9, &game, &mut selected);
    assert_eq!(selected, vec![0, 7, 9]);
}

#[test]
fn mutable_accessors_expose_the_same_cards() {
    let deck = Deck::new_standard_deck();
    let mut game = GameDeck::start_set_play(&deck);
    let play = sorted_coords(game.in_play());
    let pile = sorted_coords(game.in_deck());
    assert_eq!(sorted_coords(game.in_play_mut()), play);
    assert_eq!(sorted_coords(game.in_deck_mut()), pile);
}
