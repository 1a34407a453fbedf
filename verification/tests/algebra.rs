use setengine::cards::{complete_set, is_set, is_ultraset};
use setengine::CardCoordinates;

fn coord(num: u8, color: u8, shape: u8, filling: u8) -> CardCoordinates {
    CardCoordinates::new(num, color, shape, filling)
}

fn all_coords() -> Vec<CardCoordinates> {
    let mut v = Vec::new();
    for num in 0..3 {
        for color in 0..3 {
            for shape in 0..3 {
                for filling in 0..3 {
                    v.push(coord(num, color, shape, filling));
                }
            }
        }
    }
    v
}

#[test]
fn new_reduces_components_mod_3() {
    assert_eq!(coord(3, 4, 5, 6), coord(0, 1, 2, 0));
    assert_eq!(coord(255, 254, 253, 252), coord(0, 2, 1, 0));
}

#[test]
fn trivial_set_check() {
    // Varying only the first axis through all three values is a set.
    assert!(is_set(coord(0, 0, 0, 0), coord(1, 0, 0, 0), coord(2, 0, 0, 0)));
}

#[test]
fn non_set_with_repeated_card() {
    // Two identical cards never belong to one set: the sum is (1,0,0,0).
    assert!(!is_set(coord(0, 0, 0, 0), coord(0, 0, 0, 0), coord(1, 0, 0, 0)));
}

#[test]
fn completion_forms_set_for_all_pairs() {
    let coords = all_coords();
    for &c1 in &coords {
        for &c2 in &coords {
            let c3 = complete_set(c1, c2);
            assert!(is_set(c1, c2, c3));
        }
    }
}

#[test]
fn completion_of_trivial_pair() {
    assert_eq!(complete_set(coord(0, 0, 0, 0), coord(1, 0, 0, 0)), coord(2, 0, 0, 0));
    assert_eq!(complete_set(coord(1, 2, 0, 1), coord(1, 2, 0, 1)), coord(1, 2, 0, 1));
}

#[test]
fn completion_distinct_for_all_distinct_pairs() {
    let coords = all_coords();
    for &c1 in &coords {
        for &c2 in &coords {
            if c1 != c2 {
                let c3 = complete_set(c1, c2);
                assert_ne!(c3, c1);
                assert_ne!(c3, c2);
            }
        }
    }
}

#[test]
fn set_predicate_is_symmetric() {
    let c1 = coord(0, 1, 2, 0);
    let c2 = coord(1, 1, 1, 1);
    let c3 = coord(2, 1, 0, 2);
    let expected = is_set(c1, c2, c3);
    assert!(expected);
    let cards = [c1, c2, c3];
    let orders: [[usize; 3]; 6] =
        [[0, 1, 2], [0, 2, 1], [1, 0, 2], [1, 2, 0], [2, 0, 1], [2, 1, 0]];
    for order in orders {
        assert_eq!(is_set(cards[order[0]], cards[order[1]], cards[order[2]]), expected);
    }
    // And on a non-set in every order.
    let n1 = coord(0, 0, 0, 0);
    let n2 = coord(0, 0, 0, 0);
    let n3 = coord(1, 0, 0, 0);
    let non = [n1, n2, n3];
    for order in orders {
        assert!(!is_set(non[order[0]], non[order[1]], non[order[2]]));
    }
}

#[test]
fn ultraset_via_shared_completion() {
    let c1 = coord(0, 0, 0, 0);
    let c2 = coord(1, 0, 0, 0);
    // complete(c1, c2) == (2,0,0,0)
    assert_eq!(complete_set(c1, c2), coord(2, 0, 0, 0));
    let c3 = coord(0, 1, 0, 0);
    let c4 = coord(1, 2, 0, 0);
    // complete(c3, c4) == (2,0,0,0) as well
    assert_eq!(complete_set(c3, c4), coord(2, 0, 0, 0));
    assert!(is_ultraset(c1, c2, c3, c4));
}

#[test]
fn ultraset_predicate_is_symmetric() {
    let cards = [coord(0, 0, 0, 0), coord(1, 0, 0, 0), coord(0, 1, 0, 0), coord(1, 2, 0, 0)];
    let expected = is_ultraset(cards[0], cards[1], cards[2], cards[3]);
    assert!(expected);
    let others = [coord(0, 0, 0, 0), coord(1, 0, 0, 0), coord(0, 1, 0, 0), coord(2, 2, 2, 2)];
    assert!(!is_ultraset(others[0], others[1], others[2], others[3]));
    let orders: [[usize; 4]; 24] = [
        [0, 1, 2, 3],
        [0, 1, 3, 2],
        [0, 2, 1, 3],
        [0, 2, 3, 1],
        [0, 3, 1, 2],
        [0, 3, 2, 1],
        [1, 0, 2, 3],
        [1, 0, 3, 2],
        [1, 2, 0, 3],
        [1, 2, 3, 0],
        [1, 3, 0, 2],
        [1, 3, 2, 0],
        [2, 0, 1, 3],
        [2, 0, 3, 1],
        [2, 1, 0, 3],
        [2, 1, 3, 0],
        [2, 3, 0, 1],
        [2, 3, 1, 0],
        [3, 0, 1, 2],
        [3, 0, 2, 1],
        [3, 1, 0, 2],
        [3, 1, 2, 0],
        [3, 2, 0, 1],
        [3, 2, 1, 0],
    ];
    for order in orders {
        assert_eq!(
            is_ultraset(cards[order[0]], cards[order[1]], cards[order[2]], cards[order[3]]),
            expected
        );
        assert!(!is_ultraset(
            others[order[0]],
            others[order[1]],
            others[order[2]],
            others[order[3]]
        ));
    }
}
