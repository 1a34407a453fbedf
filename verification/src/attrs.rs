//! Visual attributes of cards: the symbols a renderer draws for each of the
//! four coordinate axes, and the per-deck assignment of symbols to axis
//! values.

use vstd::prelude::*;

use crate::rng::shuffle;

verus! {

/// The symbol drawn for the filling axis of a card.
#[derive(Debug, Clone, Copy, PartialEq, Eq, Hash, Structural)]
pub enum Filling {
    Hollow,
    Solid,
    HorizontalStriped,
    Wavy,
    Checkerboard,
    VerticalStriped,
}

/// The symbol drawn for the color axis of a card.
#[derive(Debug, Clone, Copy, PartialEq, Eq, Hash, Structural)]
pub enum SetColor {
    Purple,
    Red,
    Green,
    Black,
    Yellow,
    Blue,
}

/// The symbol drawn for the count axis of a card.
#[derive(Debug, Clone, Copy, PartialEq, Eq, Hash, Structural)]
pub enum SetNum {
    One,
    Two,
    Three,
    Four,
    Five,
    Six,
}

/// The symbol drawn for the shape axis of a card.
#[derive(Debug, Clone, Copy, PartialEq, Eq, Hash, Structural)]
pub enum Shape {
    Diamond,
    Pill,
    Squiggle,
    Heart,
    Spade,
    Club,
}

/// The full visual description of one card, one symbol per axis.
#[derive(Debug, Clone, Copy, PartialEq, Eq, Hash, Structural)]
pub struct CardVisualAttr {
    pub num: SetNum,
    pub color: SetColor,
    pub shape: Shape,
    pub filling: Filling,
}

/// An assignment of three visual symbols to the three values of each axis.
#[derive(Debug, Clone, Copy, PartialEq, Eq)]
pub struct Attributes {
    pub numbers: [SetNum; 3],
    pub colors: [SetColor; 3],
    pub shapes: [Shape; 3],
    pub fillings: [Filling; 3],
}

/// The symbol the filling axis shows at a given position of the full list.
pub open spec fn spec_filling_index(i: int) -> Option<Filling> {
    if i == 0 {
        Some(Filling::Hollow)
    } else if i == 1 {
        Some(Filling::Solid)
    } else if i == 2 {
        Some(Filling::HorizontalStriped)
    } else if i == 3 {
        Some(Filling::Wavy)
    } else if i == 4 {
        Some(Filling::Checkerboard)
    } else if i == 5 {
        Some(Filling::VerticalStriped)
    } else {
        None
    }
}

/// The symbol the color axis shows at a given position of the full list.
pub open spec fn spec_color_index(i: int) -> Option<SetColor> {
    if i == 0 {
        Some(SetColor::Purple)
    } else if i == 1 {
        Some(SetColor::Red)
    } else if i == 2 {
        Some(SetColor::Green)
    } else if i == 3 {
        Some(SetColor::Black)
    } else if i == 4 {
        Some(SetColor::Yellow)
    } else if i == 5 {
        Some(SetColor::Blue)
    } else {
        None
    }
}

/// The symbol the count axis shows at a given position of the full list.
pub open spec fn spec_num_index(i: int) -> Option<SetNum> {
    if i == 0 {
        Some(SetNum::One)
    } else if i == 1 {
        Some(SetNum::Two)
    } else if i == 2 {
        Some(SetNum::Three)
    } else if i == 3 {
        Some(SetNum::Four)
    } else if i == 4 {
        Some(SetNum::Five)
    } else if i == 5 {
        Some(SetNum::Six)
    } else {
        None
    }
}

/// The symbol the shape axis shows at a given position of the full list.
pub open spec fn spec_shape_index(i: int) -> Option<Shape> {
    if i == 0 {
        Some(Shape::Diamond)
    } else if i == 1 {
        Some(Shape::Pill)
    } else if i == 2 {
        Some(Shape::Squiggle)
    } else if i == 3 {
        Some(Shape::Heart)
    } else if i == 4 {
        Some(Shape::Spade)
    } else if i == 5 {
        Some(Shape::Club)
    } else {
        None
    }
}

impl Filling {
    /// Looks up the filling symbol at a position of the full six-symbol list.
    pub fn index(index: usize) -> (r: Option<Self>)
        ensures
            r == spec_filling_index(index as int),
    {
        match index {
            0 => Some(Filling::Hollow),
            1 => Some(Filling::Solid),
            2 => Some(Filling::HorizontalStriped),
            3 => Some(Filling::Wavy),
            4 => Some(Filling::Checkerboard),
            5 => Some(Filling::VerticalStriped),
            _ => None,
        }
    }
}

impl SetColor {
    /// Looks up the color symbol at a position of the full six-symbol list.
    pub fn index(index: usize) -> (r: Option<Self>)
        ensures
            r == spec_color_index(index as int),
    {
        match index {
            0 => Some(SetColor::Purple),
            1 => Some(SetColor::Red),
            2 => Some(SetColor::Green),
            3 => Some(SetColor::Black),
            4 => Some(SetColor::Yellow),
            5 => Some(SetColor::Blue),
            _ => None,
        }
    }
}

impl SetNum {
    /// Looks up the count symbol at a position of the full six-symbol list.
    pub fn index(index: usize) -> (r: Option<Self>)
        ensures
            r == spec_num_index(index as int),
    {
        match index {
            0 => Some(SetNum::One),
            1 => Some(SetNum::Two),
            2 => Some(SetNum::Three),
            3 => Some(SetNum::Four),
            4 => Some(SetNum::Five),
            5 => Some(SetNum::Six),
            _ => None,
        }
    }
}

impl Shape {
    /// Looks up the shape symbol at a position of the full six-symbol list.
    pub fn index(index: usize) -> (r: Option<Self>)
        ensures
            r == spec_shape_index(index as int),
    {
        match index {
            0 => Some(Shape::Diamond),
            1 => Some(Shape::Pill),
            2 => Some(Shape::Squiggle),
            3 => Some(Shape::Heart),
            4 => Some(Shape::Spade),
            5 => Some(Shape::Club),
            _ => None,
        }
    }
}

/// On each axis the three chosen symbols are pairwise distinct, so the
/// mapping from axis values to symbols is a bijection onto its image.
pub open spec fn attributes_wf(a: Attributes) -> bool {
    forall|i: int, j: int|
        0 <= i < j < 3 ==> a.numbers[i] != a.numbers[j] && a.colors[i] != a.colors[j]
            && a.shapes[i] != a.shapes[j] && a.fillings[i] != a.fillings[j]
}

/// The standard assignment: the first three symbols of every axis, in order.
pub open spec fn spec_standard_attributes() -> Attributes {
    Attributes {
        numbers: [SetNum::One, SetNum::Two, SetNum::Three],
        colors: [SetColor::Purple, SetColor::Red, SetColor::Green],
        shapes: [Shape::Diamond, Shape::Pill, Shape::Squiggle],
        fillings: [Filling::Hollow, Filling::Solid, Filling::HorizontalStriped],
    }
}

/// Builds the standard assignment of symbols to axis values.
pub fn generate_standard_attributes() -> (r: Attributes)
    ensures
        r == spec_standard_attributes(),
        attributes_wf(r),
{
    Attributes {
        numbers: [SetNum::One, SetNum::Two, SetNum::Three],
        colors: [SetColor::Purple, SetColor::Red, SetColor::Green],
        shapes: [Shape::Diamond, Shape::Pill, Shape::Squiggle],
        fillings: [Filling::Hollow, Filling::Solid, Filling::HorizontalStriped],
    }
}

/// The pool of symbol positions an axis draws from.
spec fn axis_pool() -> Seq<usize> {
    seq![0usize, 1usize, 2usize, 3usize, 4usize, 5usize]
}

/// Reshuffles the six symbol positions; the result is a permutation of
/// 0..6, so its entries are pairwise distinct and all below six.
fn reshuffle(indices: &mut Vec<usize>)
    requires
        old(indices)@.to_multiset() == axis_pool().to_multiset(),
    ensures
        final(indices)@.to_multiset() == axis_pool().to_multiset(),
        final(indices)@.len() == 6,
        final(indices)@.no_duplicates(),
        forall|k: int| 0 <= k < 6 ==> final(indices)@[k] < 6,
{
    shuffle(indices);
    proof {
        broadcast use vstd::seq_lib::group_to_multiset_ensures;

        assert(axis_pool().no_duplicates());
        axis_pool().lemma_multiset_has_no_duplicates();
        indices@.lemma_multiset_has_no_duplicates_conv();
        assert(axis_pool().to_multiset().len() == 6);
        assert forall|k: int| 0 <= k < 6 implies indices@[k] < 6 by {
            assert(indices@.contains(indices@[k]));
            assert(indices@.to_multiset().count(indices@[k]) > 0);
            assert(axis_pool().to_multiset().count(indices@[k]) > 0);
            assert(axis_pool().contains(indices@[k]));
        }
    }
}

/// Builds a randomized assignment: each axis independently draws three
/// distinct symbols from its six, in a random order.
pub fn generate_random_attributes() -> (r: Attributes)
    ensures
        attributes_wf(r),
{
    let mut indices: Vec<usize> = Vec::new();
    indices.push(0);
    indices.push(1);
    indices.push(2);
    indices.push(3);
    indices.push(4);
    indices.push(5);
    proof {
        assert(indices@ =~= axis_pool());
    }

    reshuffle(&mut indices);
    let set_nums: [SetNum; 3] = [
        SetNum::index(indices[0]).unwrap(),
        SetNum::index(indices[1]).unwrap(),
        SetNum::index(indices[2]).unwrap(),
    ];

    reshuffle(&mut indices);
    let set_colors: [SetColor; 3] = [
        SetColor::index(indices[0]).unwrap(),
        SetColor::index(indices[1]).unwrap(),
        SetColor::index(indices[2]).unwrap(),
    ];

    reshuffle(&mut indices);
    let shapes: [Shape; 3] = [
        Shape::index(indices[0]).unwrap(),
        Shape::index(indices[1]).unwrap(),
        Shape::index(indices[2]).unwrap(),
    ];

    reshuffle(&mut indices);
    let fillings: [Filling; 3] = [
        Filling::index(indices[0]).unwrap(),
        Filling::index(indices[1]).unwrap(),
        Filling::index(indices[2]).unwrap(),
    ];

    Attributes { numbers: set_nums, colors: set_colors, shapes, fillings }
}

} // verus!

