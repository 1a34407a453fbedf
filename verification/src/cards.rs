//! Card coordinates in GF(3)^4 and the algebra of sets and ultrasets.
//!
//! Three cards form a set exactly when their coordinates sum to zero
//! component-wise mod 3; four cards form an ultraset exactly when they can
//! be split into two pairs whose set-completions coincide.

use vstd::arithmetic::div_mod::{
    lemma_add_mod_noop, lemma_mod_multiples_basic, lemma_mod_twice,
};
use vstd::prelude::*;

use crate::attrs::CardVisualAttr;

verus! {

/// Coordinates in F_3^4 of a card. Well-formed values keep every component
/// in {0, 1, 2}.
#[derive(Debug, Clone, Copy, PartialEq, Eq, Hash, Structural)]
pub struct CardCoordinates {
    pub num: u8,
    pub color: u8,
    pub shape: u8,
    pub filling: u8,
}

/// The coordinate whose components are the given integers reduced mod 3.
pub open spec fn spec_new(num: int, color: int, shape: int, filling: int) -> CardCoordinates {
    CardCoordinates {
        num: (num % 3) as u8,
        color: (color % 3) as u8,
        shape: (shape % 3) as u8,
        filling: (filling % 3) as u8,
    }
}

/// Component-wise sum mod 3.
pub open spec fn spec_add(c1: CardCoordinates, c2: CardCoordinates) -> CardCoordinates {
    spec_new(
        c1.num + c2.num,
        c1.color + c2.color,
        c1.shape + c2.shape,
        c1.filling + c2.filling,
    )
}

/// Component-wise difference mod 3, computed as x + 2y since -y == 2y mod 3.
pub open spec fn spec_sub(c1: CardCoordinates, c2: CardCoordinates) -> CardCoordinates {
    spec_new(
        c1.num + 2 * c2.num,
        c1.color + 2 * c2.color,
        c1.shape + 2 * c2.shape,
        c1.filling + 2 * c2.filling,
    )
}

/// Three cards form a set exactly when their coordinates sum to zero mod 3
/// on every axis.
pub open spec fn spec_is_set(
    c1: CardCoordinates,
    c2: CardCoordinates,
    c3: CardCoordinates,
) -> bool {
    &&& (c1.num + c2.num + c3.num) % 3 == 0
    &&& (c1.color + c2.color + c3.color) % 3 == 0
    &&& (c1.shape + c2.shape + c3.shape) % 3 == 0
    &&& (c1.filling + c2.filling + c3.filling) % 3 == 0
}

/// The unique coordinate that completes a pair to a set: 2*c1 + 2*c2 mod 3.
pub open spec fn spec_complete(c1: CardCoordinates, c2: CardCoordinates) -> CardCoordinates {
    spec_new(
        2 * c1.num + 2 * c2.num,
        2 * c1.color + 2 * c2.color,
        2 * c1.shape + 2 * c2.shape,
        2 * c1.filling + 2 * c2.filling,
    )
}

/// Four cards form an ultraset exactly when some pairing of them into two
/// pairs has equal set-completions.
pub open spec fn spec_is_ultraset(
    c1: CardCoordinates,
    c2: CardCoordinates,
    c3: CardCoordinates,
    c4: CardCoordinates,
) -> bool {
    ||| spec_complete(c1, c2) == spec_complete(c3, c4)
    ||| spec_complete(c1, c3) == spec_complete(c2, c4)
    ||| spec_complete(c1, c4) == spec_complete(c2, c3)
}

impl CardCoordinates {
    /// Every component lies in the field {0, 1, 2}.
    pub open spec fn wf(self) -> bool {
        self.num < 3 && self.color < 3 && self.shape < 3 && self.filling < 3
    }

    /// Creates a coordinate from a quadruple of u8s, reducing each mod 3.
    pub fn new(num: u8, color: u8, shape: u8, filling: u8) -> (r: Self)
        ensures
            r == spec_new(num as int, color as int, shape as int, filling as int),
            r.wf(),
    {
        Self { num: num % 3, color: color % 3, shape: shape % 3, filling: filling % 3 }
    }

    /// Component-wise addition mod 3. Total: inputs need not be reduced.
    pub fn add(self, rhs: Self) -> (r: Self)
        ensures
            r == spec_add(self, rhs),
            r.wf(),
    {
        Self {
            num: ((self.num as u16 + rhs.num as u16) % 3) as u8,
            color: ((self.color as u16 + rhs.color as u16) % 3) as u8,
            shape: ((self.shape as u16 + rhs.shape as u16) % 3) as u8,
            filling: ((self.filling as u16 + rhs.filling as u16) % 3) as u8,
        }
    }

    /// Component-wise subtraction mod 3, as x + 2y. Total.
    pub fn sub(self, rhs: Self) -> (r: Self)
        ensures
            r == spec_sub(self, rhs),
            r.wf(),
    {
        Self {
            num: ((self.num as u16 + 2 * rhs.num as u16) % 3) as u8,
            color: ((self.color as u16 + 2 * rhs.color as u16) % 3) as u8,
            shape: ((self.shape as u16 + 2 * rhs.shape as u16) % 3) as u8,
            filling: ((self.filling as u16 + 2 * rhs.filling as u16) % 3) as u8,
        }
    }
}

/// Reducing the left summand mod 3 does not change a sum mod 3.
proof fn lemma_mod3_add_left(x: int, y: int)
    requires
        0 <= x,
        0 <= y,
    ensures
        (x % 3 + y) % 3 == (x + y) % 3,
{
    lemma_add_mod_noop(x, y, 3);
    lemma_add_mod_noop(x % 3, y, 3);
    lemma_mod_twice(x, 3);
}

/// Checks whether three cards form a set.
pub fn is_set(card1: CardCoordinates, card2: CardCoordinates, card3: CardCoordinates) -> (r: bool)
    ensures
        r == spec_is_set(card1, card2, card3),
{
    proof {
        lemma_mod3_add_left(card1.num + card2.num, card3.num as int);
        lemma_mod3_add_left(card1.color + card2.color, card3.color as int);
        lemma_mod3_add_left(card1.shape + card2.shape, card3.shape as int);
        lemma_mod3_add_left(card1.filling + card2.filling, card3.filling as int);
    }
    card1.add(card2).add(card3) == CardCoordinates::new(0, 0, 0, 0)
}

/// Computes the unique card completing the given pair to a set.
pub fn complete_set(card1: CardCoordinates, card2: CardCoordinates) -> (r: CardCoordinates)
    ensures
        r == spec_complete(card1, card2),
        r.wf(),
{
    proof {
        lemma_mod3_add_left(2 * card1.num, 2 * card2.num);
        lemma_mod3_add_left(2 * card1.color, 2 * card2.color);
        lemma_mod3_add_left(2 * card1.shape, 2 * card2.shape);
        lemma_mod3_add_left(2 * card1.filling, 2 * card2.filling);
    }
    card1.add(card1).sub(card2)
}

/// Checks whether four cards form an ultraset.
pub fn is_ultraset(
    card1: CardCoordinates,
    card2: CardCoordinates,
    card3: CardCoordinates,
    card4: CardCoordinates,
) -> (r: bool)
    ensures
        r == spec_is_ultraset(card1, card2, card3, card4),
{
    complete_set(card1, card2) == complete_set(card3, card4)
        || complete_set(card1, card3) == complete_set(card2, card4)
        || complete_set(card1, card4) == complete_set(card2, card3)
}

/// The completion of a pair really forms a set with that pair, for all
/// coordinates, well-formed or not.
pub proof fn lemma_complete_forms_set(c1: CardCoordinates, c2: CardCoordinates)
    ensures
        spec_is_set(c1, c2, spec_complete(c1, c2)),
{
    lemma_complete_forms_set_axis(c1.num as int, c2.num as int);
    lemma_complete_forms_set_axis(c1.color as int, c2.color as int);
    lemma_complete_forms_set_axis(c1.shape as int, c2.shape as int);
    lemma_complete_forms_set_axis(c1.filling as int, c2.filling as int);
}

/// One axis of `lemma_complete_forms_set`: a + b + ((2a + 2b) mod 3) is
/// divisible by 3.
proof fn lemma_complete_forms_set_axis(a: int, b: int)
    requires
        0 <= a,
        0 <= b,
    ensures
        (a + b + (2 * a + 2 * b) % 3) % 3 == 0,
{
    lemma_mod3_add_left(2 * a + 2 * b, a + b);
    assert((2 * a + 2 * b + (a + b)) % 3 == 0) by {
        lemma_mod_multiples_basic(a + b, 3);
    }
}

/// Whether three cards form a set does not depend on the order in which
/// they are given: `spec_is_set` is invariant under all six orderings of
/// its arguments.
pub proof fn lemma_is_set_symmetric(c1: CardCoordinates, c2: CardCoordinates, c3: CardCoordinates)
    ensures
        spec_is_set(c1, c2, c3) == spec_is_set(c1, c3, c2),
        spec_is_set(c1, c2, c3) == spec_is_set(c2, c1, c3),
        spec_is_set(c1, c2, c3) == spec_is_set(c2, c3, c1),
        spec_is_set(c1, c2, c3) == spec_is_set(c3, c1, c2),
        spec_is_set(c1, c2, c3) == spec_is_set(c3, c2, c1),
{
}

/// Completing a pair does not depend on the order of the pair.
pub proof fn lemma_complete_symmetric(c1: CardCoordinates, c2: CardCoordinates)
    ensures
        spec_complete(c1, c2) == spec_complete(c2, c1),
{
}

/// Whether four cards form an ultraset does not depend on the order in
/// which they are given: `spec_is_ultraset` is invariant under all 24
/// orderings of its arguments.
pub proof fn lemma_is_ultraset_symmetric(
    c1: CardCoordinates,
    c2: CardCoordinates,
    c3: CardCoordinates,
    c4: CardCoordinates,
)
    ensures
        spec_is_ultraset(c1, c2, c3, c4) == spec_is_ultraset(c1, c2, c4, c3),
        spec_is_ultraset(c1, c2, c3, c4) == spec_is_ultraset(c1, c3, c2, c4),
        spec_is_ultraset(c1, c2, c3, c4) == spec_is_ultraset(c1, c3, c4, c2),
        spec_is_ultraset(c1, c2, c3, c4) == spec_is_ultraset(c1, c4, c2, c3),
        spec_is_ultraset(c1, c2, c3, c4) == spec_is_ultraset(c1, c4, c3, c2),
        spec_is_ultraset(c1, c2, c3, c4) == spec_is_ultraset(c2, c1, c3, c4),
        spec_is_ultraset(c1, c2, c3, c4) == spec_is_ultraset(c2, c1, c4, c3),
        spec_is_ultraset(c1, c2, c3, c4) == spec_is_ultraset(c2, c3, c1, c4),
        spec_is_ultraset(c1, c2, c3, c4) == spec_is_ultraset(c2, c3, c4, c1),
        spec_is_ultraset(c1, c2, c3, c4) == spec_is_ultraset(c2, c4, c1, c3),
        spec_is_ultraset(c1, c2, c3, c4) == spec_is_ultraset(c2, c4, c3, c1),
        spec_is_ultraset(c1, c2, c3, c4) == spec_is_ultraset(c3, c1, c2, c4),
        spec_is_ultraset(c1, c2, c3, c4) == spec_is_ultraset(c3, c1, c4, c2),
        spec_is_ultraset(c1, c2, c3, c4) == spec_is_ultraset(c3, c2, c1, c4),
        spec_is_ultraset(c1, c2, c3, c4) == spec_is_ultraset(c3, c2, c4, c1),
        spec_is_ultraset(c1, c2, c3, c4) == spec_is_ultraset(c3, c4, c1, c2),
        spec_is_ultraset(c1, c2, c3, c4) == spec_is_ultraset(c3, c4, c2, c1),
        spec_is_ultraset(c1, c2, c3, c4) == spec_is_ultraset(c4, c1, c2, c3),
        spec_is_ultraset(c1, c2, c3, c4) == spec_is_ultraset(c4, c1, c3, c2),
        spec_is_ultraset(c1, c2, c3, c4) == spec_is_ultraset(c4, c2, c1, c3),
        spec_is_ultraset(c1, c2, c3, c4) == spec_is_ultraset(c4, c2, c3, c1),
        spec_is_ultraset(c1, c2, c3, c4) == spec_is_ultraset(c4, c3, c1, c2),
        spec_is_ultraset(c1, c2, c3, c4) == spec_is_ultraset(c4, c3, c2, c1),
{
    assert forall|x: CardCoordinates, y: CardCoordinates|
        #[trigger] spec_complete(x, y) == spec_complete(y, x) by {
        lemma_complete_symmetric(x, y);
    }
}

/// For two distinct well-formed coordinates, the completion is distinct
/// from both: a set never repeats a card.
pub proof fn lemma_complete_distinct(c1: CardCoordinates, c2: CardCoordinates)
    requires
        c1.wf(),
        c2.wf(),
        c1 != c2,
    ensures
        spec_complete(c1, c2) != c1,
        spec_complete(c1, c2) != c2,
{
    lemma_complete_axis_distinct(c1.num as int, c2.num as int);
    lemma_complete_axis_distinct(c1.color as int, c2.color as int);
    lemma_complete_axis_distinct(c1.shape as int, c2.shape as int);
    lemma_complete_axis_distinct(c1.filling as int, c2.filling as int);
}

/// One axis of `lemma_complete_distinct`: for field elements a and b,
/// (2a + 2b) mod 3 equals a exactly when a equals b.
proof fn lemma_complete_axis_distinct(a: int, b: int)
    requires
        0 <= a < 3,
        0 <= b < 3,
    ensures
        ((2 * a + 2 * b) % 3 == a) <==> a == b,
        ((2 * a + 2 * b) % 3 == b) <==> a == b,
{
}

/// All triples of distinct positions in a pool of cards, checked for a set.
pub open spec fn spec_contains_set(s: Seq<(CardCoordinates, CardVisualAttr)>) -> bool {
    exists|i: int, j: int, k: int|
        0 <= i < j < k < s.len() && spec_is_set(s[i].0, s[j].0, s[k].0)
}

/// All quadruples of distinct positions in a pool, checked for an ultraset.
pub open spec fn spec_contains_ultraset(s: Seq<(CardCoordinates, CardVisualAttr)>) -> bool {
    exists|i: int, j: int, k: int, l: int|
        0 <= i < j < k < l < s.len() && spec_is_ultraset(s[i].0, s[j].0, s[k].0, s[l].0)
}

/// Number of out-of-order pairs among three indices.
pub open spec fn inversions3(p: int, q: int, r: int) -> nat {
    (if p > q {
        1nat
    } else {
        0nat
    }) + (if p > r {
        1nat
    } else {
        0nat
    }) + (if q > r {
        1nat
    } else {
        0nat
    })
}

/// Number of out-of-order pairs among four indices.
pub open spec fn inversions4(p: int, q: int, r: int, t: int) -> nat {
    inversions3(p, q, r) + (if p > t {
        1nat
    } else {
        0nat
    }) + (if q > t {
        1nat
    } else {
        0nat
    }) + (if r > t {
        1nat
    } else {
        0nat
    })
}

/// A set at any three distinct positions, whatever their order, shows that
/// the pool contains a set.
pub proof fn lemma_contains_set_at(
    s: Seq<(CardCoordinates, CardVisualAttr)>,
    p: int,
    q: int,
    r: int,
)
    requires
        0 <= p < s.len(),
        0 <= q < s.len(),
        0 <= r < s.len(),
        p != q,
        p != r,
        q != r,
        spec_is_set(s[p].0, s[q].0, s[r].0),
    ensures
        spec_contains_set(s),
    decreases inversions3(p, q, r),
{
    if p < q && q < r {
        assert(0 <= p < q < r < s.len() && spec_is_set(s[p].0, s[q].0, s[r].0));
    } else if p > q {
        lemma_is_set_symmetric(s[p].0, s[q].0, s[r].0);
        lemma_contains_set_at(s, q, p, r);
    } else {
        lemma_is_set_symmetric(s[p].0, s[q].0, s[r].0);
        lemma_contains_set_at(s, p, r, q);
    }
}

/// An ultraset at any four distinct positions, whatever their order, shows
/// that the pool contains an ultraset.
pub proof fn lemma_contains_ultraset_at(
    s: Seq<(CardCoordinates, CardVisualAttr)>,
    p: int,
    q: int,
    r: int,
    t: int,
)
    requires
        0 <= p < s.len(),
        0 <= q < s.len(),
        0 <= r < s.len(),
        0 <= t < s.len(),
        p != q,
        p != r,
        p != t,
        q != r,
        q != t,
        r != t,
        spec_is_ultraset(s[p].0, s[q].0, s[r].0, s[t].0),
    ensures
        spec_contains_ultraset(s),
    decreases inversions4(p, q, r, t),
{
    if p < q && q < r && r < t {
        assert(0 <= p < q < r < t < s.len() && spec_is_ultraset(
            s[p].0,
            s[q].0,
            s[r].0,
            s[t].0,
        ));
    } else if p > q {
        lemma_is_ultraset_symmetric(s[p].0, s[q].0, s[r].0, s[t].0);
        lemma_contains_ultraset_at(s, q, p, r, t);
    } else if q > r {
        lemma_is_ultraset_symmetric(s[p].0, s[q].0, s[r].0, s[t].0);
        lemma_contains_ultraset_at(s, p, r, q, t);
    } else {
        lemma_is_ultraset_symmetric(s[p].0, s[q].0, s[r].0, s[t].0);
        lemma_contains_ultraset_at(s, p, q, t, r);
    }
}

/// Checks if a selection is a set; only the first three cards are read.
pub fn selection_is_set(cards_picked: &[(CardCoordinates, CardVisualAttr)]) -> (r: bool)
    requires
        cards_picked@.len() >= 3,
    ensures
        r == spec_is_set(cards_picked@[0].0, cards_picked@[1].0, cards_picked@[2].0),
{
    let card1 = cards_picked[0].0;
    let card2 = cards_picked[1].0;
    let card3 = cards_picked[2].0;

    is_set(card1, card2, card3)
}

/// Checks if a selection is an ultraset; only the first four cards are read.
pub fn selection_is_ultraset(cards_picked: &[(CardCoordinates, CardVisualAttr)]) -> (r: bool)
    requires
        cards_picked@.len() >= 4,
    ensures
        r == spec_is_ultraset(
            cards_picked@[0].0,
            cards_picked@[1].0,
            cards_picked@[2].0,
            cards_picked@[3].0,
        ),
{
    let card1 = cards_picked[0].0;
    let card2 = cards_picked[1].0;
    let card3 = cards_picked[2].0;
    let card4 = cards_picked[3].0;

    is_ultraset(card1, card2, card3, card4)
}

/// Finds the positions of the first set in the pool, enumerating triples of
/// indices in ascending lexicographic order.
pub fn find_set(cards: &[(CardCoordinates, CardVisualAttr)]) -> (r: Option<(usize, usize, usize)>)
    ensures
        match r {
            Some(t) => t.0 < t.1 < t.2 < cards@.len() && spec_is_set(
                cards@[t.0 as int].0,
                cards@[t.1 as int].0,
                cards@[t.2 as int].0,
            ),
            None => !spec_contains_set(cards@),
        },
{
    let n = cards.len();
    let mut i: usize = 0;
    while i < n
        invariant
            i <= n,
            n == cards@.len(),
            forall|i0: int, j0: int, k0: int|
                0 <= i0 < j0 < k0 < n && i0 < i ==> !spec_is_set(
                    cards@[i0].0,
                    cards@[j0].0,
                    cards@[k0].0,
                ),
        decreases n - i,
    {
        let mut j: usize = i + 1;
        while j < n
            invariant
                i < j <= n || (i + 1 > n && j == i + 1),
                i < n,
                n == cards@.len(),
                forall|i0: int, j0: int, k0: int|
                    0 <= i0 < j0 < k0 < n && i0 < i ==> !spec_is_set(
                        cards@[i0].0,
                        cards@[j0].0,
                        cards@[k0].0,
                    ),
                forall|j0: int, k0: int|
                    i < j0 < k0 < n && j0 < j ==> !spec_is_set(
                        cards@[i as int].0,
                        cards@[j0].0,
                        cards@[k0].0,
                    ),
            decreases n - j,
        {
            let mut k: usize = j + 1;
            while k < n
                invariant
                    j < k <= n || (j + 1 > n && k == j + 1),
                    i < j < n,
                    n == cards@.len(),
                    forall|k0: int|
                        j < k0 < n && k0 < k ==> !spec_is_set(
                            cards@[i as int].0,
                            cards@[j as int].0,
                            cards@[k0].0,
                        ),
                decreases n - k,
            {
                if is_set(cards[i].0, cards[j].0, cards[k].0) {
                    return Some((i, j, k));
                }
                k = k + 1;
            }
            j = j + 1;
        }
        i = i + 1;
    }
    None
}

/// Finds the positions of the first ultraset in the pool, enumerating
/// quadruples of indices in ascending lexicographic order.
pub fn find_ultraset(cards: &[(CardCoordinates, CardVisualAttr)]) -> (r: Option<
    (usize, usize, usize, usize),
>)
    ensures
        match r {
            Some(t) => t.0 < t.1 < t.2 < t.3 < cards@.len() && spec_is_ultraset(
                cards@[t.0 as int].0,
                cards@[t.1 as int].0,
                cards@[t.2 as int].0,
                cards@[t.3 as int].0,
            ),
            None => !spec_contains_ultraset(cards@),
        },
{
    let n = cards.len();
    let mut i: usize = 0;
    while i < n
        invariant
            i <= n,
            n == cards@.len(),
            forall|i0: int, j0: int, k0: int, l0: int|
                0 <= i0 < j0 < k0 < l0 < n && i0 < i ==> !spec_is_ultraset(
                    cards@[i0].0,
                    cards@[j0].0,
                    cards@[k0].0,
                    cards@[l0].0,
                ),
        decreases n - i,
    {
        let mut j: usize = i + 1;
        while j < n
            invariant
                i < j <= n || (i + 1 > n && j == i + 1),
                i < n,
                n == cards@.len(),
                forall|i0: int, j0: int, k0: int, l0: int|
                    0 <= i0 < j0 < k0 < l0 < n && i0 < i ==> !spec_is_ultraset(
                        cards@[i0].0,
                        cards@[j0].0,
                        cards@[k0].0,
                        cards@[l0].0,
                    ),
                forall|j0: int, k0: int, l0: int|
                    i < j0 < k0 < l0 < n && j0 < j ==> !spec_is_ultraset(
                        cards@[i as int].0,
                        cards@[j0].0,
                        cards@[k0].0,
                        cards@[l0].0,
                    ),
            decreases n - j,
        {
            let mut k: usize = j + 1;
            while k < n
                invariant
                    j < k <= n || (j + 1 > n && k == j + 1),
                    i < j < n,
                    n == cards@.len(),
                    forall|k0: int, l0: int|
                        j < k0 < l0 < n && k0 < k ==> !spec_is_ultraset(
                            cards@[i as int].0,
                            cards@[j as int].0,
                            cards@[k0].0,
                            cards@[l0].0,
                        ),
                decreases n - k,
            {
                let mut l: usize = k + 1;
                while l < n
                    invariant
                        k < l <= n || (k + 1 > n && l == k + 1),
                        i < j < k < n,
                        n == cards@.len(),
                        forall|l0: int|
                            k < l0 < n && l0 < l ==> !spec_is_ultraset(
                                cards@[i as int].0,
                                cards@[j as int].0,
                                cards@[k as int].0,
                                cards@[l0].0,
                            ),
                    decreases n - l,
                {
                    if is_ultraset(cards[i].0, cards[j].0, cards[k].0, cards[l].0) {
                        return Some((i, j, k, l));
                    }
                    l = l + 1;
                }
                k = k + 1;
            }
            j = j + 1;
        }
        i = i + 1;
    }
    None
}

/// Checks if a pool of cards contains a set.
pub fn selection_contains_set(cards_in_play: &[(CardCoordinates, CardVisualAttr)]) -> (r: bool)
    ensures
        r == spec_contains_set(cards_in_play@),
{
    find_set(cards_in_play).is_some()
}

/// Checks if a pool of cards contains an ultraset.
pub fn selection_contains_ultraset(
    cards_in_play: &[(CardCoordinates, CardVisualAttr)],
) -> (r: bool)
    ensures
        r == spec_contains_ultraset(cards_in_play@),
{
    find_ultraset(cards_in_play).is_some()
}

} // verus!
