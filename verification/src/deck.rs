//! Decks: all 81 distinct coordinates, each paired with its visual symbols
//! under one per-deck attribute assignment, in a shuffled order.

use vstd::arithmetic::div_mod::{
    lemma_breakdown, lemma_fundamental_div_mod_converse_div,
    lemma_fundamental_div_mod_converse_mod, lemma_mod_multiples_vanish, lemma_small_mod,
};
use vstd::prelude::*;

use crate::attrs::{
    attributes_wf, generate_random_attributes, generate_standard_attributes,
    spec_standard_attributes, Attributes, CardVisualAttr,
};
use crate::cards::{spec_new, CardCoordinates};
use crate::counting::{count_matching, lemma_count_matching_permutation};
use crate::rng::shuffle;

verus! {

/// The coordinate at a position of the unshuffled deck: positions taken as
/// base-3 numbers, one digit per axis.
pub open spec fn coord_at(j: int) -> CardCoordinates {
    spec_new(j / 27, j / 9, j / 3, j)
}

/// The position of a well-formed coordinate in the unshuffled deck.
pub open spec fn coord_index(x: CardCoordinates) -> int {
    27 * x.num + 9 * x.color + 3 * x.shape + x.filling
}

/// The visual symbols an attribute assignment gives to a coordinate.
pub open spec fn attr_of(a: Attributes, x: CardCoordinates) -> CardVisualAttr
    recommends
        x.wf(),
{
    CardVisualAttr {
        num: a.numbers[x.num as int],
        color: a.colors[x.color as int],
        shape: a.shapes[x.shape as int],
        filling: a.fillings[x.filling as int],
    }
}

/// A well-formed coordinate sits at its own position: `coord_at` inverts
/// `coord_index`.
pub proof fn lemma_coord_at_coord_index(x: CardCoordinates)
    requires
        x.wf(),
    ensures
        0 <= coord_index(x) < 81,
        coord_at(coord_index(x)) == x,
{
    let a = x.num as int;
    let b = x.color as int;
    let c = x.shape as int;
    let d = x.filling as int;
    let t = coord_index(x);

    assert(t == 27 * a + (9 * b + 3 * c + d));
    lemma_fundamental_div_mod_converse_div(t, 27, a, 9 * b + 3 * c + d);
    lemma_small_mod(a as nat, 3);

    assert(t == 9 * (3 * a + b) + (3 * c + d));
    lemma_fundamental_div_mod_converse_div(t, 9, 3 * a + b, 3 * c + d);
    lemma_mod_multiples_vanish(a, b, 3);
    lemma_small_mod(b as nat, 3);

    assert(t == 3 * (9 * a + 3 * b + c) + d);
    lemma_fundamental_div_mod_converse_div(t, 3, 9 * a + 3 * b + c, d);
    lemma_mod_multiples_vanish(3 * a + b, c, 3);
    lemma_small_mod(c as nat, 3);

    lemma_fundamental_div_mod_converse_mod(t, 3, 9 * a + 3 * b + c, d);
}

/// A deck position is reconstructed from the base-3 digits of its
/// coordinate: `coord_index` inverts `coord_at`.
pub proof fn lemma_coord_index_coord_at(j: int)
    requires
        0 <= j < 81,
    ensures
        coord_at(j).wf(),
        coord_index(coord_at(j)) == j,
{
    lemma_breakdown(j, 27, 3);
    lemma_small_mod(j as nat, 81);
    lemma_breakdown(j, 9, 3);
    lemma_breakdown(j, 3, 3);
}

/// Distinct positions of the unshuffled deck hold distinct coordinates.
pub proof fn lemma_coord_at_injective(j1: int, j2: int)
    requires
        0 <= j1 < 81,
        0 <= j2 < 81,
        coord_at(j1) == coord_at(j2),
    ensures
        j1 == j2,
{
    lemma_coord_index_coord_at(j1);
    lemma_coord_index_coord_at(j2);
}

/// The card whose count-axis value is v.
pub open spec fn card_num_is(v: u8) -> spec_fn((CardCoordinates, CardVisualAttr)) -> bool {
    |p: (CardCoordinates, CardVisualAttr)| p.0.num == v
}

/// The card whose color-axis value is v.
pub open spec fn card_color_is(v: u8) -> spec_fn((CardCoordinates, CardVisualAttr)) -> bool {
    |p: (CardCoordinates, CardVisualAttr)| p.0.color == v
}

/// The card whose shape-axis value is v.
pub open spec fn card_shape_is(v: u8) -> spec_fn((CardCoordinates, CardVisualAttr)) -> bool {
    |p: (CardCoordinates, CardVisualAttr)| p.0.shape == v
}

/// The card whose filling-axis value is v.
pub open spec fn card_filling_is(v: u8) -> spec_fn((CardCoordinates, CardVisualAttr)) -> bool {
    |p: (CardCoordinates, CardVisualAttr)| p.0.filling == v
}

/// A full deck under an attribute assignment: 81 cards, every well-formed
/// coordinate exactly once, every axis value on exactly 27 cards, and every
/// card's symbols given by the assignment, which is injective per axis.
pub open spec fn deck_wf(cards: Seq<(CardCoordinates, CardVisualAttr)>, a: Attributes) -> bool {
    &&& cards.len() == 81
    &&& attributes_wf(a)
    &&& (forall|j: int|
        0 <= j < cards.len() ==> (#[trigger] cards[j]).0.wf() && cards[j].1 == attr_of(
            a,
            cards[j].0,
        ))
    &&& (forall|x: CardCoordinates|
        x.wf() ==> #[trigger] cards.to_multiset().count((x, attr_of(a, x))) == 1)
    &&& (forall|v: u8| v < 3 ==> #[trigger] count_matching(cards, card_num_is(v)) == 27)
    &&& (forall|v: u8| v < 3 ==> #[trigger] count_matching(cards, card_color_is(v)) == 27)
    &&& (forall|v: u8| v < 3 ==> #[trigger] count_matching(cards, card_shape_is(v)) == 27)
    &&& (forall|v: u8| v < 3 ==> #[trigger] count_matching(cards, card_filling_is(v)) == 27)
}

/// The first n cards of the unshuffled deck under an attribute assignment.
pub open spec fn assembled(a: Attributes, n: nat) -> Seq<(CardCoordinates, CardVisualAttr)>
    decreases n,
{
    if n == 0 {
        Seq::empty()
    } else {
        assembled(a, (n - 1) as nat).push(
            (coord_at(n - 1), attr_of(a, coord_at(n - 1))),
        )
    }
}

/// Length and contents of the unshuffled prefix, position by position.
proof fn lemma_assembled_index(a: Attributes, n: nat)
    ensures
        assembled(a, n).len() == n,
        forall|j: int|
            0 <= j < n ==> #[trigger] assembled(a, n)[j] == (coord_at(j), attr_of(a, coord_at(j))),
    decreases n,
{
    if n > 0 {
        lemma_assembled_index(a, (n - 1) as nat);
    }
}

/// The fully assembled, unshuffled deck is a full deck.
proof fn lemma_assembled_deck_wf(a: Attributes)
    requires
        attributes_wf(a),
    ensures
        deck_wf(assembled(a, 81), a),
{
    let cards = assembled(a, 81);
    lemma_assembled_index(a, 81);

    assert forall|j: int|
        0 <= j < cards.len() implies (#[trigger] cards[j]).0.wf() && cards[j].1 == attr_of(
        a,
        cards[j].0,
    ) by {
        lemma_coord_index_coord_at(j);
    }

    assert(cards.no_duplicates()) by {
        assert forall|j1: int, j2: int|
            0 <= j1 < cards.len() && 0 <= j2 < cards.len() && j1 != j2 implies cards[j1]
            != cards[j2] by {
            if coord_at(j1) == coord_at(j2) {
                lemma_coord_at_injective(j1, j2);
            }
        }
    }
    cards.lemma_multiset_has_no_duplicates();

    broadcast use vstd::seq_lib::group_to_multiset_ensures;

    assert forall|x: CardCoordinates| x.wf() implies #[trigger] cards.to_multiset().count(
        (x, attr_of(a, x)),
    ) == 1 by {
        lemma_coord_at_coord_index(x);
        let j = coord_index(x);
        assert(cards[j] == (x, attr_of(a, x)));
        assert(cards.contains((x, attr_of(a, x))));
        assert(cards.to_multiset().count((x, attr_of(a, x))) > 0);
    }

    lemma_assembled_counts(a);
}

/// How many positions below n have a given base-3 digit: p is the place
/// value of the digit, v the digit looked for.
pub open spec fn digit_count(n: nat, p: int, v: u8) -> nat
    recommends
        p > 0,
    decreases n,
{
    if n == 0 {
        0
    } else {
        digit_count((n - 1) as nat, p, v) + (if ((n - 1) as int / p) % 3 == v {
            1nat
        } else {
            0nat
        })
    }
}

/// Counting cards of the unshuffled prefix by count-axis value is counting
/// positions by their highest base-3 digit.
proof fn lemma_num_count(a: Attributes, n: nat, v: u8)
    ensures
        count_matching(assembled(a, n), card_num_is(v)) == digit_count(n, 27, v),
    decreases n,
{
    if n > 0 {
        lemma_num_count(a, (n - 1) as nat, v);
        lemma_assembled_index(a, n);
        assert(assembled(a, n).drop_last() =~= assembled(a, (n - 1) as nat));
    }
}

/// Counting cards of the unshuffled prefix by color-axis value is counting
/// positions by their second-highest base-3 digit.
proof fn lemma_color_count(a: Attributes, n: nat, v: u8)
    ensures
        count_matching(assembled(a, n), card_color_is(v)) == digit_count(n, 9, v),
    decreases n,
{
    if n > 0 {
        lemma_color_count(a, (n - 1) as nat, v);
        lemma_assembled_index(a, n);
        assert(assembled(a, n).drop_last() =~= assembled(a, (n - 1) as nat));
    }
}

/// Counting cards of the unshuffled prefix by shape-axis value is counting
/// positions by their second-lowest base-3 digit.
proof fn lemma_shape_count(a: Attributes, n: nat, v: u8)
    ensures
        count_matching(assembled(a, n), card_shape_is(v)) == digit_count(n, 3, v),
    decreases n,
{
    if n > 0 {
        lemma_shape_count(a, (n - 1) as nat, v);
        lemma_assembled_index(a, n);
        assert(assembled(a, n).drop_last() =~= assembled(a, (n - 1) as nat));
    }
}

/// Counting cards of the unshuffled prefix by filling-axis value is
/// counting positions by their lowest base-3 digit.
proof fn lemma_filling_count(a: Attributes, n: nat, v: u8)
    ensures
        count_matching(assembled(a, n), card_filling_is(v)) == digit_count(n, 1, v),
    decreases n,
{
    if n > 0 {
        lemma_filling_count(a, (n - 1) as nat, v);
        lemma_assembled_index(a, n);
        assert(assembled(a, n).drop_last() =~= assembled(a, (n - 1) as nat));
    }
}

/// A value clamped to the interval [0, p].
pub open spec fn clamped(x: int, p: int) -> int {
    if x < 0 {
        0
    } else if x > p {
        p
    } else {
        x
    }
}

/// Closed form of `digit_count` for the four place values that occur in a
/// four-digit base-3 position: whole 3p-blocks contribute p positions each,
/// and the final partial block contributes the part of its middle run of
/// digit v that is already below n.
proof fn lemma_digit_count_closed(n: nat, p: int, v: u8)
    requires
        p == 1 || p == 3 || p == 9 || p == 27,
        v < 3,
    ensures
        digit_count(n, p, v) == (n as int) / (3 * p) * p + clamped(
            (n as int) % (3 * p) - (v as int) * p,
            p,
        ),
    decreases n,
{
    if n == 0 {
        lemma_fundamental_div_mod_converse_div(0, 3 * p, 0, 0);
        lemma_fundamental_div_mod_converse_mod(0, 3 * p, 0, 0);
    } else {
        let m = (n - 1) as nat;
        lemma_digit_count_closed(m, p, v);
        let mi = m as int;
        vstd::arithmetic::div_mod::lemma_fundamental_div_mod(mi, 3 * p);
        lemma_breakdown(mi, p, 3);
        let q = mi / (3 * p);
        let r = mi % (3 * p);
        if r + 1 < 3 * p {
            lemma_fundamental_div_mod_converse_div(mi + 1, 3 * p, q, r + 1);
            lemma_fundamental_div_mod_converse_mod(mi + 1, 3 * p, q, r + 1);
        } else {
            lemma_fundamental_div_mod_converse_div(mi + 1, 3 * p, q + 1, 0);
            lemma_fundamental_div_mod_converse_mod(mi + 1, 3 * p, q + 1, 0);
        }
    }
}

/// Among the 81 positions, each base-3 digit takes each of its three values
/// exactly 27 times.
proof fn lemma_digit_count_81(p: int, v: u8)
    requires
        p == 1 || p == 3 || p == 9 || p == 27,
        v < 3,
    ensures
        digit_count(81, p, v) == 27,
{
    lemma_digit_count_closed(81, p, v);
}

/// On each axis, each of the three values appears on exactly 27 of the 81
/// unshuffled cards.
proof fn lemma_assembled_counts(a: Attributes)
    ensures
        forall|v: u8| v < 3 ==> #[trigger] count_matching(assembled(a, 81), card_num_is(v)) == 27,
        forall|v: u8|
            v < 3 ==> #[trigger] count_matching(assembled(a, 81), card_color_is(v)) == 27,
        forall|v: u8|
            v < 3 ==> #[trigger] count_matching(assembled(a, 81), card_shape_is(v)) == 27,
        forall|v: u8|
            v < 3 ==> #[trigger] count_matching(assembled(a, 81), card_filling_is(v)) == 27,
{
    assert forall|v: u8| v < 3 implies #[trigger] count_matching(
        assembled(a, 81),
        card_num_is(v),
    ) == 27 by {
        lemma_num_count(a, 81, v);
        lemma_digit_count_81(27, v);
    }
    assert forall|v: u8| v < 3 implies #[trigger] count_matching(
        assembled(a, 81),
        card_color_is(v),
    ) == 27 by {
        lemma_color_count(a, 81, v);
        lemma_digit_count_81(9, v);
    }
    assert forall|v: u8| v < 3 implies #[trigger] count_matching(
        assembled(a, 81),
        card_shape_is(v),
    ) == 27 by {
        lemma_shape_count(a, 81, v);
        lemma_digit_count_81(3, v);
    }
    assert forall|v: u8| v < 3 implies #[trigger] count_matching(
        assembled(a, 81),
        card_filling_is(v),
    ) == 27 by {
        lemma_filling_count(a, 81, v);
        lemma_digit_count_81(1, v);
    }
}

/// Being a full deck only depends on the cards' multiset: it survives any
/// permutation, in particular a shuffle.
proof fn lemma_deck_wf_permutation(
    pre: Seq<(CardCoordinates, CardVisualAttr)>,
    post: Seq<(CardCoordinates, CardVisualAttr)>,
    a: Attributes,
)
    requires
        deck_wf(pre, a),
        post.len() == pre.len(),
        post.to_multiset() == pre.to_multiset(),
    ensures
        deck_wf(post, a),
{
    broadcast use vstd::seq_lib::group_to_multiset_ensures;

    assert forall|j: int|
        0 <= j < post.len() implies (#[trigger] post[j]).0.wf() && post[j].1 == attr_of(
        a,
        post[j].0,
    ) by {
        assert(post.contains(post[j]));
        assert(pre.to_multiset().count(post[j]) > 0);
        assert(pre.contains(post[j]));
        let i = choose|i: int| 0 <= i < pre.len() && pre[i] == post[j];
    }

    assert forall|v: u8| v < 3 implies #[trigger] count_matching(post, card_num_is(v)) == 27 by {
        lemma_count_matching_permutation(pre, post, card_num_is(v));
    }
    assert forall|v: u8| v < 3 implies #[trigger] count_matching(post, card_color_is(v)) == 27 by {
        lemma_count_matching_permutation(pre, post, card_color_is(v));
    }
    assert forall|v: u8| v < 3 implies #[trigger] count_matching(post, card_shape_is(v)) == 27 by {
        lemma_count_matching_permutation(pre, post, card_shape_is(v));
    }
    assert forall|v: u8|
        v < 3 implies #[trigger] count_matching(post, card_filling_is(v)) == 27 by {
        lemma_count_matching_permutation(pre, post, card_filling_is(v));
    }
}

/// A full deck always offers a play: it holds a set (the three cards equal
/// on all axes but one, spread over that axis) and an ultraset, wherever
/// the shuffle put them.
pub proof fn lemma_deck_wf_contains_matches(
    cards: Seq<(CardCoordinates, CardVisualAttr)>,
    a: Attributes,
)
    requires
        deck_wf(cards, a),
    ensures
        crate::cards::spec_contains_set(cards),
        crate::cards::spec_contains_ultraset(cards),
{
    broadcast use vstd::seq_lib::group_to_multiset_ensures;

    let x1 = CardCoordinates { num: 0, color: 0, shape: 0, filling: 0 };
    let x2 = CardCoordinates { num: 1, color: 1, shape: 1, filling: 1 };
    let x3 = CardCoordinates { num: 2, color: 2, shape: 2, filling: 2 };
    assert(cards.to_multiset().count((x1, attr_of(a, x1))) == 1);
    assert(cards.to_multiset().count((x2, attr_of(a, x2))) == 1);
    assert(cards.to_multiset().count((x3, attr_of(a, x3))) == 1);
    assert(cards.contains((x1, attr_of(a, x1))));
    assert(cards.contains((x2, attr_of(a, x2))));
    assert(cards.contains((x3, attr_of(a, x3))));
    let j1 = choose|j: int| 0 <= j < cards.len() && cards[j] == (x1, attr_of(a, x1));
    let j2 = choose|j: int| 0 <= j < cards.len() && cards[j] == (x2, attr_of(a, x2));
    let j3 = choose|j: int| 0 <= j < cards.len() && cards[j] == (x3, attr_of(a, x3));
    assert(crate::cards::spec_is_set(x1, x2, x3));
    crate::cards::lemma_contains_set_at(cards, j1, j2, j3);

    let y2 = CardCoordinates { num: 1, color: 0, shape: 0, filling: 0 };
    let y3 = CardCoordinates { num: 0, color: 1, shape: 0, filling: 0 };
    let y4 = CardCoordinates { num: 1, color: 2, shape: 0, filling: 0 };
    assert(cards.to_multiset().count((y2, attr_of(a, y2))) == 1);
    assert(cards.to_multiset().count((y3, attr_of(a, y3))) == 1);
    assert(cards.to_multiset().count((y4, attr_of(a, y4))) == 1);
    assert(cards.contains((y2, attr_of(a, y2))));
    assert(cards.contains((y3, attr_of(a, y3))));
    assert(cards.contains((y4, attr_of(a, y4))));
    let k2 = choose|j: int| 0 <= j < cards.len() && cards[j] == (y2, attr_of(a, y2));
    let k3 = choose|j: int| 0 <= j < cards.len() && cards[j] == (y3, attr_of(a, y3));
    let k4 = choose|j: int| 0 <= j < cards.len() && cards[j] == (y4, attr_of(a, y4));
    assert(crate::cards::spec_is_ultraset(x1, y2, y3, y4));
    crate::cards::lemma_contains_ultraset_at(cards, j1, k2, k3, k4);
}

/// A shuffled deck.
#[derive(Clone)]
pub struct Deck {
    pub cards: Vec<(CardCoordinates, CardVisualAttr)>,
}

impl Deck {
    /// The deck is full under some per-axis-injective attribute assignment.
    pub open spec fn wf(self) -> bool {
        exists|a: Attributes| deck_wf(self.cards@, a)
    }
}

/// Every full deck is ready for either session: it has all 81 cards, a
/// multiple of three, and holds both a set and an ultraset.
pub proof fn lemma_deck_ready_to_play(d: Deck)
    requires
        d.wf(),
    ensures
        d.cards@.len() == 81,
        crate::cards::spec_contains_set(d.cards@),
        crate::cards::spec_contains_ultraset(d.cards@),
{
    let a = choose|a: Attributes| deck_wf(d.cards@, a);
    lemma_deck_wf_contains_matches(d.cards@, a);
}

/// Lays out all 81 cards in base-3 order under the given assignment.
fn assemble_deck(attrs: &Attributes) -> (cards: Vec<(CardCoordinates, CardVisualAttr)>)
    requires
        attributes_wf(*attrs),
    ensures
        cards@ == assembled(*attrs, 81),
        deck_wf(cards@, *attrs),
{
    let mut cards: Vec<(CardCoordinates, CardVisualAttr)> = Vec::new();
    let mut i: usize = 0;
    while i < 81
        invariant
            i <= 81,
            cards@ == assembled(*attrs, i as nat),
            cards@.len() == i,
        decreases 81 - i,
    {
        let c = CardCoordinates::new((i / 27) as u8, (i / 9) as u8, (i / 3) as u8, i as u8);
        let va = CardVisualAttr {
            num: attrs.numbers[c.num as usize],
            color: attrs.colors[c.color as usize],
            shape: attrs.shapes[c.shape as usize],
            filling: attrs.fillings[c.filling as usize],
        };
        proof {
            assert(c == coord_at(i as int));
            assert(va == attr_of(*attrs, c));
        }
        cards.push((c, va));
        i = i + 1;
    }
    proof {
        lemma_assembled_deck_wf(*attrs);
    }
    cards
}

impl Deck {
    /// Creates a deck with the standard attributes and shuffles it.
    pub fn new_standard_deck() -> (r: Self)
        ensures
            deck_wf(r.cards@, spec_standard_attributes()),
            r.wf(),
    {
        let standard_attributes = generate_standard_attributes();
        let mut cards = assemble_deck(&standard_attributes);
        let ghost pre = cards@;
        shuffle(&mut cards);
        proof {
            lemma_deck_wf_permutation(pre, cards@, spec_standard_attributes());
        }
        Self { cards }
    }

    /// Creates a deck with randomized attributes and shuffles it.
    pub fn new_random_deck() -> (r: Self)
        ensures
            r.wf(),
    {
        let random_attributes = generate_random_attributes();
        let mut cards = assemble_deck(&random_attributes);
        let ghost pre = cards@;
        shuffle(&mut cards);
        proof {
            lemma_deck_wf_permutation(pre, cards@, random_attributes);
        }
        let r = Self { cards };
        proof {
            assert(deck_wf(r.cards@, random_attributes));
        }
        r
    }
}

} // verus!
