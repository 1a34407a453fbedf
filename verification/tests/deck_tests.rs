use setengine::{
    generate_random_attributes, generate_standard_attributes, selection_contains_set,
    selection_contains_ultraset, CardCoordinates, CardVisualAttr, Deck, Filling, GameDeck,
    SetColor, SetNum, Shape,
};

fn coords_of(cards: &[(CardCoordinates, CardVisualAttr)]) -> Vec<CardCoordinates> {
    cards.iter().map(|p| p.0).collect()
}

#[test]
fn index_functions_enumerate_six_symbols() {
    assert_eq!(Filling::index(0), Some(Filling::Hollow));
    assert_eq!(Filling::index(5), Some(Filling::VerticalStriped));
    assert_eq!(Filling::index(6), None);
    assert_eq!(SetColor::index(0), Some(SetColor::Purple));
    assert_eq!(SetColor::index(5), Some(SetColor::Blue));
    assert_eq!(SetColor::index(6), None);
    assert_eq!(SetNum::index(0), Some(SetNum::One));
    assert_eq!(SetNum::index(5), Some(SetNum::Six));
    assert_eq!(SetNum::index(7), None);
    assert_eq!(Shape::index(0), Some(Shape::Diamond));
    assert_eq!(Shape::index(5), Some(Shape::Club));
    assert_eq!(Shape::index(100), None);
    for i in 0..6 {
        for j in 0..6 {
            if i != j {
                assert_ne!(Filling::index(i), Filling::index(j));
                assert_ne!(SetColor::index(i), SetColor::index(j));
                assert_ne!(SetNum::index(i), SetNum::index(j));
                assert_ne!(Shape::index(i), Shape::index(j));
            }
        }
    }
}

#[test]
fn standard_attributes_take_first_three_symbols() {
    let a = generate_standard_attributes();
    assert_eq!(a.numbers, [SetNum::One, SetNum::Two, SetNum::Three]);
    assert_eq!(a.colors, [SetColor::Purple, SetColor::Red, SetColor::Green]);
    assert_eq!(a.shapes, [Shape::Diamond, Shape::Pill, Shape::Squiggle]);
    assert_eq!(a.fillings, [Filling::Hollow, Filling::Solid, Filling::HorizontalStriped]);
}

#[test]
fn random_attributes_are_injective_per_axis() {
    for _ in 0..200 {
        let a = generate_random_attributes();
        for i in 0..3 {
            for j in 0..3 {
                if i != j {
                    assert_ne!(a.numbers[i], a.numbers[j]);
                    assert_ne!(a.colors[i], a.colors[j]);
                    assert_ne!(a.shapes[i], a.shapes[j]);
                    assert_ne!(a.fillings[i], a.fillings[j]);
                }
            }
        }
    }
}

#[test]
fn standard_deck_is_complete() {
    let deck = Deck::new_standard_deck();
    assert_eq!(deck.cards.len(), 81);
    let coords = coords_of(&deck.cards);
    // All coordinates are distinct and well-formed.
    for i in 0..81 {
        let c = coords[i];
        assert!(c.num < 3 && c.color < 3 && c.shape < 3 && c.filling < 3);
        for j in 0..i {
            assert_ne!(coords[i], coords[j]);
        }
    }
    // Every axis value appears on exactly 27 cards.
    for v in 0..3u8 {
        assert_eq!(coords.iter().filter(|c| c.num == v).count(), 27);
        assert_eq!(coords.iter().filter(|c| c.color == v).count(), 27);
        assert_eq!(coords.iter().filter(|c| c.shape == v).count(), 27);
        assert_eq!(coords.iter().filter(|c| c.filling == v).count(), 27);
    }
}

#[test]
fn standard_deck_maps_attributes_consistently() {
    let deck = Deck::new_standard_deck();
    let a = generate_standard_attributes();
    for (c, va) in &deck.cards {
        assert_eq!(va.num, a.numbers[c.num as usize]);
        assert_eq!(va.color, a.colors[c.color as usize]);
        assert_eq!(va.shape, a.shapes[c.shape as usize]);
        assert_eq!(va.filling, a.fillings[c.filling as usize]);
    }
}

#[test]
fn random_deck_is_complete_and_consistently_mapped() {
    let deck = Deck::new_random_deck();
    assert_eq!(deck.cards.len(), 81);
    let coords = coords_of(&deck.cards);
    for i in 0..81 {
        for j in 0..i {
            assert_ne!(coords[i], coords[j]);
        }
    }
    // Equal coordinate components always show the same symbol; different
    // components on one axis never do.
    for (c1, v1) in &deck.cards {
        for (c2, v2) in &deck.cards {
            assert_eq!(c1.num == c2.num, v1.num == v2.num);
            assert_eq!(c1.color == c2.color, v1.color == v2.color);
            assert_eq!(c1.shape == c2.shape, v1.shape == v2.shape);
            assert_eq!(c1.filling == c2.filling, v1.filling == v2.filling);
        }
    }
}

#[test]
fn dealing_invariant_on_fresh_decks() {
    for _ in 0..1000 {
        let deck = Deck::new_standard_deck();
        let game = GameDeck::start_set_play(&deck);
        let in_play = game.in_play();
        assert!(in_play.len() >= 12);
        assert_eq!(in_play.len() % 3, 0);
        assert!(selection_contains_set(in_play.as_slice()));
        assert_eq!(in_play.len() + game.in_deck().len(), 81);
    }
}

#[test]
fn dealing_invariant_on_fresh_ultraset_decks() {
    for _ in 0..100 {
        let deck = Deck::new_random_deck();
        let game = GameDeck::start_ultraset_play(&deck);
        let in_play = game.in_play();
        assert!(in_play.len() >= 12);
        assert_eq!(in_play.len() % 3, 0);
        assert!(selection_contains_ultraset(in_play.as_slice()));
        assert_eq!(in_play.len() + game.in_deck().len(), 81);
    }
}
