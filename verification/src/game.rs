//! The running game: the table of visible cards, the draw pile, dealing,
//! play validation, replenishment, hints and game-over detection.

use vstd::multiset::Multiset;
use vstd::prelude::*;

use crate::attrs::CardVisualAttr;
use crate::cards::{
    find_set, find_ultraset, selection_contains_set, selection_contains_ultraset, selection_is_set,
    selection_is_ultraset, spec_contains_set, spec_contains_ultraset, spec_is_set,
    spec_is_ultraset, CardCoordinates,
};
use crate::deck::Deck;

verus! {

/// A deck from which cards have been dealt out.
#[derive(Clone)]
pub struct ActiveDeck {
    pub in_play: Vec<(CardCoordinates, CardVisualAttr)>,
    pub in_deck: Vec<(CardCoordinates, CardVisualAttr)>,
}

/// Wraps `ActiveDeck`, marking whether a set or an ultraset session is
/// being played.
#[derive(Clone)]
pub enum GameDeck {
    SetGame(ActiveDeck),
    UltraSet(ActiveDeck),
}

/// The three possible responses to playing a selection.
#[derive(Debug, Clone, Copy, PartialEq, Eq, Structural)]
pub enum PlayResponse {
    InvalidPlay,
    ValidPlay,
    GameOver,
}

/// The cards of a pool sitting at the given positions, in position-list
/// order.
pub open spec fn picked_cards(
    s: Seq<(CardCoordinates, CardVisualAttr)>,
    sel: Seq<usize>,
) -> Seq<(CardCoordinates, CardVisualAttr)> {
    sel.map_values(|i: usize| s[i as int])
}

impl GameDeck {
    /// How many cards a play removes: the arity of the session's match
    /// predicate.
    pub open spec fn spec_arity(self) -> int {
        if self is SetGame {
            3
        } else {
            4
        }
    }

    /// The cards on the table.
    pub open spec fn spec_in_play(self) -> Seq<(CardCoordinates, CardVisualAttr)> {
        match self {
            GameDeck::SetGame(ad) => ad.in_play@,
            GameDeck::UltraSet(ad) => ad.in_play@,
        }
    }

    /// The cards of the draw pile.
    pub open spec fn spec_in_deck(self) -> Seq<(CardCoordinates, CardVisualAttr)> {
        match self {
            GameDeck::SetGame(ad) => ad.in_deck@,
            GameDeck::UltraSet(ad) => ad.in_deck@,
        }
    }

    /// All cards the game still owns, on the table or in the pile.
    pub open spec fn all_cards(self) -> Multiset<(CardCoordinates, CardVisualAttr)> {
        self.spec_in_play().to_multiset().add(self.spec_in_deck().to_multiset())
    }

    /// The table holds a match of the session's arity.
    pub open spec fn table_has_match(self) -> bool {
        if self is SetGame {
            spec_contains_set(self.spec_in_play())
        } else {
            spec_contains_ultraset(self.spec_in_play())
        }
    }

    /// The selection names exactly arity distinct table positions whose
    /// cards form a match of the session's arity.
    pub open spec fn spec_valid_selection(self, sel: Seq<usize>) -> bool {
        &&& sel.len() == self.spec_arity()
        &&& sel.no_duplicates()
        &&& (forall|t: int| 0 <= t < sel.len() ==> (#[trigger] sel[t]) < self.spec_in_play().len())
        &&& (self is SetGame ==> spec_is_set(
            self.spec_in_play()[sel[0] as int].0,
            self.spec_in_play()[sel[1] as int].0,
            self.spec_in_play()[sel[2] as int].0,
        ))
        &&& (self !is SetGame ==> spec_is_ultraset(
            self.spec_in_play()[sel[0] as int].0,
            self.spec_in_play()[sel[1] as int].0,
            self.spec_in_play()[sel[2] as int].0,
            self.spec_in_play()[sel[3] as int].0,
        ))
    }

    /// Returns how many cards need to be selected, depending upon the game.
    pub fn selection_size(&self) -> (r: usize)
        ensures
            r == self.spec_arity(),
    {
        match *self {
            GameDeck::SetGame(_) => 3,
            GameDeck::UltraSet(_) => 4,
        }
    }

    /// Returns the cards currently in play.
    pub fn in_play(&self) -> (r: &Vec<(CardCoordinates, CardVisualAttr)>)
        ensures
            r@ == self.spec_in_play(),
    {
        match self {
            GameDeck::SetGame(ad) => &ad.in_play,
            GameDeck::UltraSet(ad) => &ad.in_play,
        }
    }

    /// Returns the cards still in the draw pile.
    pub fn in_deck(&self) -> (r: &Vec<(CardCoordinates, CardVisualAttr)>)
        ensures
            r@ == self.spec_in_deck(),
    {
        match self {
            GameDeck::SetGame(ad) => &ad.in_deck,
            GameDeck::UltraSet(ad) => &ad.in_deck,
        }
    }

    /// Returns a mutable reference to the cards in play.
    pub fn in_play_mut(&mut self) -> (r: &mut Vec<(CardCoordinates, CardVisualAttr)>)
        ensures
            (*r)@ == old(self).spec_in_play(),
            (*final(self)) is SetGame <==> (*old(self)) is SetGame,
            final(self).spec_in_play() == (*final(r))@,
            final(self).spec_in_deck() == old(self).spec_in_deck(),
    {
        match self {
            GameDeck::SetGame(ad) => &mut ad.in_play,
            GameDeck::UltraSet(ad) => &mut ad.in_play,
        }
    }

    /// Returns a mutable reference to the cards of the draw pile.
    pub fn in_deck_mut(&mut self) -> (r: &mut Vec<(CardCoordinates, CardVisualAttr)>)
        ensures
            (*r)@ == old(self).spec_in_deck(),
            (*final(self)) is SetGame <==> (*old(self)) is SetGame,
            final(self).spec_in_deck() == (*final(r))@,
            final(self).spec_in_play() == old(self).spec_in_play(),
    {
        match self {
            GameDeck::SetGame(ad) => &mut ad.in_deck,
            GameDeck::UltraSet(ad) => &mut ad.in_deck,
        }
    }
}

impl GameDeck {
    /// Returns positions of all but one card of some match in play: two
    /// cards that complete to a set, or three that complete to an ultraset.
    /// The table must hold a match, which dealing and replenishment
    /// guarantee whenever the game is not over.
    pub fn get_hint(&self) -> (r: Vec<usize>)
        requires
            self.table_has_match(),
        ensures
            r@.len() == self.spec_arity() - 1,
            forall|t: int| 0 <= t < r@.len() ==> (#[trigger] r@[t]) < self.spec_in_play().len(),
            self is SetGame ==> r@[0] < r@[1] && (exists|k: int|
                r@[1] < k < self.spec_in_play().len() && spec_is_set(
                    self.spec_in_play()[r@[0] as int].0,
                    self.spec_in_play()[r@[1] as int].0,
                    #[trigger] self.spec_in_play()[k].0,
                )),
            self !is SetGame ==> r@[0] < r@[1] < r@[2] && (exists|k: int|
                r@[2] < k < self.spec_in_play().len() && spec_is_ultraset(
                    self.spec_in_play()[r@[0] as int].0,
                    self.spec_in_play()[r@[1] as int].0,
                    self.spec_in_play()[r@[2] as int].0,
                    #[trigger] self.spec_in_play()[k].0,
                )),
    {
        match self {
            GameDeck::SetGame(ad) => {
                match find_set(ad.in_play.as_slice()) {
                    Some(t) => {
                        let mut r: Vec<usize> = Vec::new();
                        r.push(t.0);
                        r.push(t.1);
                        r
                    },
                    None => {
                        proof {
                            assert(false);
                        }
                        Vec::new()
                    },
                }
            },
            GameDeck::UltraSet(ad) => {
                match find_ultraset(ad.in_play.as_slice()) {
                    Some(t) => {
                        let mut r: Vec<usize> = Vec::new();
                        r.push(t.0);
                        r.push(t.1);
                        r.push(t.2);
                        r
                    },
                    None => {
                        proof {
                            assert(false);
                        }
                        Vec::new()
                    },
                }
            },
        }
    }
}

/// Toggles a table position in the player's selection: removes the position
/// if it is already selected, adds it if the selection is not yet full, and
/// ignores positions beyond the table.
pub fn select_index(
    selected_index: usize,
    active_deck: &GameDeck,
    selected_cards: &mut Vec<usize>,
)
    requires
        old(selected_cards)@.no_duplicates(),
    ensures
        final(selected_cards)@.no_duplicates(),
        selected_index >= active_deck.spec_in_play().len() ==> final(selected_cards)@ == old(
            selected_cards,
        )@,
        selected_index < active_deck.spec_in_play().len() && old(selected_cards)@.contains(
            selected_index,
        ) ==> (exists|p: int|
            0 <= p < old(selected_cards)@.len() && old(selected_cards)@[p] == selected_index
                && final(selected_cards)@ == #[trigger] old(selected_cards)@.remove(p)),
        selected_index < active_deck.spec_in_play().len() && !old(selected_cards)@.contains(
            selected_index,
        ) && old(selected_cards)@.len() == active_deck.spec_arity() ==> final(selected_cards)@
            == old(selected_cards)@,
        selected_index < active_deck.spec_in_play().len() && !old(selected_cards)@.contains(
            selected_index,
        ) && old(selected_cards)@.len() != active_deck.spec_arity() ==> final(selected_cards)@
            == old(selected_cards)@.push(selected_index),
{
    let in_play_len = active_deck.in_play().len();
    let selection_size = active_deck.selection_size();

    if selected_index < in_play_len {
        let n = selected_cards.len();
        let mut p: usize = 0;
        while p < n
            invariant
                p <= n,
                n == selected_cards@.len(),
                selected_index < active_deck.spec_in_play().len(),
                selected_cards@ == old(selected_cards)@,
                selected_cards@.no_duplicates(),
                forall|q: int| 0 <= q < p ==> selected_cards@[q] != selected_index,
            decreases n - p,
        {
            if selected_cards[p] == selected_index {
                let ghost pre = selected_cards@;
                selected_cards.remove(p);
                proof {
                    assert(selected_cards@.no_duplicates()) by {
                        assert forall|i: int, j: int|
                            0 <= i < selected_cards@.len() && 0 <= j < selected_cards@.len() && i
                                != j implies selected_cards@[i] != selected_cards@[j] by {
                            let i0 = if i < p {
                                i
                            } else {
                                i + 1
                            };
                            let j0 = if j < p {
                                j
                            } else {
                                j + 1
                            };
                            assert(selected_cards@[i] == pre[i0] && selected_cards@[j] == pre[j0]);
                        }
                    }
                }
                return ;
            }
            p = p + 1;
        }
        assert(!selected_cards@.contains(selected_index));

        if selected_cards.len() == selection_size {
            return ;
        }
        selected_cards.push(selected_index);
    }
}

/// Whether the selection names the given table position.
/// Whether the selection names the given table position.
pub open spec fn sel_has(sel: Seq<usize>, pos: int) -> bool {
    exists|t: int| 0 <= t < sel.len() && sel[t] == pos
}

/// Checks whether the selection names the given table position.
fn selection_contains_position(sel: &Vec<usize>, p: usize) -> (r: bool)
    ensures
        r == sel_has(sel@, p as int),
{
    let n = sel.len();
    let mut t: usize = 0;
    while t < n
        invariant
            t <= n,
            n == sel@.len(),
            forall|q: int| 0 <= q < t ==> sel@[q] != p,
        decreases n - t,
    {
        if sel[t] == p {
            proof {
                assert(sel@[t as int] == p as int);
            }
            return true;
        }
        t = t + 1;
    }
    false
}

/// The cards at the selected positions below p, gathered as a multiset.
pub open spec fn removed_below(
    s: Seq<(CardCoordinates, CardVisualAttr)>,
    sel: Seq<usize>,
    p: int,
) -> Multiset<(CardCoordinates, CardVisualAttr)>
    decreases p,
{
    if p <= 0 {
        Multiset::empty()
    } else if sel_has(sel, p - 1) {
        removed_below(s, sel, p - 1).insert(s[p - 1])
    } else {
        removed_below(s, sel, p - 1)
    }
}

/// The cards at the unselected positions below p, in table order.
pub open spec fn kept_below(
    s: Seq<(CardCoordinates, CardVisualAttr)>,
    sel: Seq<usize>,
    p: int,
) -> Seq<(CardCoordinates, CardVisualAttr)>
    decreases p,
{
    if p <= 0 {
        Seq::empty()
    } else if sel_has(sel, p - 1) {
        kept_below(s, sel, p - 1)
    } else {
        kept_below(s, sel, p - 1).push(s[p - 1])
    }
}

/// With no positions selected, nothing is removed.
proof fn lemma_removed_below_empty(s: Seq<(CardCoordinates, CardVisualAttr)>, p: int)
    ensures
        removed_below(s, Seq::empty(), p) == Multiset::<(CardCoordinates, CardVisualAttr)>::empty(),
    decreases p,
{
    if p > 0 {
        lemma_removed_below_empty(s, p - 1);
    }
}

/// Extending the selection by one fresh position adds that position's card,
/// if the position lies below p.
proof fn lemma_removed_below_extend(
    s: Seq<(CardCoordinates, CardVisualAttr)>,
    sel: Seq<usize>,
    x: usize,
    p: int,
)
    requires
        !sel_has(sel, x as int),
    ensures
        removed_below(s, sel.push(x), p) == if (x as int) < p {
            removed_below(s, sel, p).insert(s[x as int])
        } else {
            removed_below(s, sel, p)
        },
    decreases p,
{
    broadcast use vstd::multiset::group_multiset_axioms;

    if p > 0 {
        lemma_removed_below_extend(s, sel, x, p - 1);
        assert forall|pos: int| #[trigger]
            sel_has(sel.push(x), pos) == (sel_has(sel, pos) || pos == x as int) by {
            if sel_has(sel.push(x), pos) {
                let t = choose|t: int| 0 <= t < sel.push(x).len() && sel.push(x)[t] == pos;
                if t < sel.len() {
                    assert(sel[t] == pos);
                }
            }
            if sel_has(sel, pos) {
                let t = choose|t: int| 0 <= t < sel.len() && sel[t] == pos;
                assert(sel.push(x)[t] == pos);
            }
            if pos == x as int {
                assert(sel.push(x)[sel.len() as int] == pos);
            }
        }
        if sel_has(sel, p - 1) && p - 1 != x as int && (x as int) < p - 1 {
            assert(removed_below(s, sel, p - 1).insert(s[x as int]).insert(s[p - 1])
                =~= removed_below(s, sel, p - 1).insert(s[p - 1]).insert(s[x as int]));
        }
    }
}

/// Gathering the cards at all selected positions by scanning positions in
/// order gives the same multiset as reading the selection in its own order.
proof fn lemma_removed_below_is_picked(
    s: Seq<(CardCoordinates, CardVisualAttr)>,
    sel: Seq<usize>,
)
    requires
        sel.no_duplicates(),
        forall|t: int| 0 <= t < sel.len() ==> (#[trigger] sel[t]) < s.len(),
    ensures
        removed_below(s, sel, s.len() as int) == picked_cards(s, sel).to_multiset(),
    decreases sel.len(),
{
    broadcast use vstd::seq_lib::group_to_multiset_ensures;
    broadcast use vstd::multiset::group_multiset_axioms;

    if sel.len() == 0 {
        assert(sel =~= Seq::<usize>::empty());
        lemma_removed_below_empty(s, s.len() as int);
        assert(picked_cards(s, sel) =~= Seq::empty());
        assert(Seq::<(CardCoordinates, CardVisualAttr)>::empty().to_multiset() =~= Multiset::<
            (CardCoordinates, CardVisualAttr),
        >::empty());
    } else {
        let sel0 = sel.drop_last();
        let x = sel.last();
        assert(sel[sel.len() - 1] < s.len());
        assert(!sel_has(sel0, x as int)) by {
            if sel_has(sel0, x as int) {
                let i = choose|i: int| 0 <= i < sel0.len() && sel0[i] == x as int;
                assert(sel[i] == sel[sel.len() - 1]);
            }
        }
        lemma_removed_below_is_picked(s, sel0);
        assert(sel0.push(x) =~= sel);
        lemma_removed_below_extend(s, sel0, x, s.len() as int);
        let picked0 = picked_cards(s, sel0);
        assert(picked_cards(s, sel) =~= picked0.push(s[x as int]));
        crate::counting::lemma_push_to_multiset(picked0, s[x as int]);
        assert(removed_below(s, sel, s.len() as int) == removed_below(
            s,
            sel0,
            s.len() as int,
        ).insert(s[x as int]));
        assert(picked_cards(s, sel).to_multiset() == picked0.to_multiset().insert(s[x as int]));
    }
}

impl ActiveDeck {
    /// Replaces the selected table positions in place with cards drawn from
    /// the top of the pile, keeping the table size constant.
    fn replace_at(&mut self, selection: &Vec<usize>)
        requires
            old(self).in_deck@.len() >= selection@.len(),
            selection@.no_duplicates(),
            forall|t: int|
                0 <= t < selection@.len() ==> (#[trigger] selection@[t]) < old(
                    self,
                ).in_play@.len(),
        ensures
            final(self).in_play@.len() == old(self).in_play@.len(),
            final(self).in_play@.to_multiset().add(final(self).in_deck@.to_multiset()).add(
                picked_cards(old(self).in_play@, selection@).to_multiset(),
            ) == old(self).in_play@.to_multiset().add(old(self).in_deck@.to_multiset()),
            forall|p: int|
                0 <= p < old(self).in_play@.len() && !sel_has(selection@, p)
                    ==> final(self).in_play@[p] == old(self).in_play@[p],
            final(self).in_deck@ == old(self).in_deck@.take(
                old(self).in_deck@.len() - selection@.len(),
            ),
    {
        broadcast use vstd::seq_lib::group_to_multiset_ensures;
        broadcast use vstd::multiset::group_multiset_axioms;

        let ghost orig_play = self.in_play@;
        let ghost orig_deck = self.in_deck@;
        let ghost picked = picked_cards(orig_play, selection@);
        let k = selection.len();
        let mut t: usize = 0;
        while t < k
            invariant
                t <= k,
                k == selection@.len(),
                k <= orig_deck.len(),
                selection@.no_duplicates(),
                picked == picked_cards(orig_play, selection@),
                forall|t0: int| 0 <= t0 < k ==> (#[trigger] selection@[t0]) < orig_play.len(),
                self.in_play@.len() == orig_play.len(),
                self.in_deck@.len() == orig_deck.len() - t,
                self.in_deck@ == orig_deck.take(orig_deck.len() - t),
                forall|t0: int|
                    t <= t0 < k ==> self.in_play@[selection@[t0] as int] == orig_play[selection@[t0] as int],
                forall|p: int|
                    0 <= p < orig_play.len() && !sel_has(selection@, p) ==> self.in_play@[p]
                        == orig_play[p],
                self.in_play@.to_multiset().add(self.in_deck@.to_multiset()).add(
                    picked.take(t as int).to_multiset(),
                ) == orig_play.to_multiset().add(orig_deck.to_multiset()),
            decreases k - t,
        {
            let ghost pre_play = self.in_play@;
            let ghost pre_deck = self.in_deck@;
            let card = self.in_deck.pop().unwrap();
            let idx = selection[t];
            self.in_play[idx] = card;
            proof {
                broadcast use vstd::seq_lib::group_to_multiset_ensures;
                broadcast use vstd::multiset::group_multiset_axioms;

                assert(pre_deck.drop_last() =~= self.in_deck@);
                assert(self.in_deck@ =~= orig_deck.take(orig_deck.len() - (t + 1)));
                crate::counting::lemma_drop_last_to_multiset(pre_deck);
                crate::counting::lemma_update_to_multiset(pre_play, idx as int, card);
                assert(sel_has(selection@, idx as int));
                assert(pre_deck[pre_deck.len() - 1] == card);
                assert(pre_deck.contains(card));
                assert(pre_deck.to_multiset().count(card) > 0);
                assert(pre_play.contains(pre_play[idx as int]));
                assert(pre_play.to_multiset().count(pre_play[idx as int]) > 0);
                assert(picked[t as int] == orig_play[idx as int]);
                assert(pre_play[idx as int] == picked[t as int]);
                assert(picked.take(t + 1) =~= picked.take(t as int).push(picked[t as int]));
                crate::counting::lemma_push_to_multiset(picked.take(t as int), picked[t as int]);
                assert(self.in_play@.to_multiset().add(self.in_deck@.to_multiset()).add(
                    picked.take(t + 1).to_multiset(),
                ) =~= orig_play.to_multiset().add(orig_deck.to_multiset()));
            }
            t = t + 1;
        }
        proof {
            assert(picked.take(k as int) =~= picked);
        }
    }

    /// Removes the selected positions from the table, keeping the remaining
    /// cards in their order; the pile is untouched.
    fn discard_at(&mut self, selection: &Vec<usize>)
        requires
            selection@.no_duplicates(),
            forall|t: int|
                0 <= t < selection@.len() ==> (#[trigger] selection@[t]) < old(
                    self,
                ).in_play@.len(),
        ensures
            final(self).in_deck@ == old(self).in_deck@,
            final(self).in_play@ == kept_below(
                old(self).in_play@,
                selection@,
                old(self).in_play@.len() as int,
            ),
            final(self).in_play@.to_multiset().add(
                picked_cards(old(self).in_play@, selection@).to_multiset(),
            ) == old(self).in_play@.to_multiset(),
    {
        broadcast use vstd::seq_lib::group_to_multiset_ensures;
        broadcast use vstd::multiset::group_multiset_axioms;

        let ghost orig_play = self.in_play@;
        let mut new_in_play: Vec<(CardCoordinates, CardVisualAttr)> = Vec::new();
        let n = self.in_play.len();
        let mut p: usize = 0;
        while p < n
            invariant
                p <= n,
                n == orig_play.len(),
                self.in_play@ == orig_play,
                new_in_play@ == kept_below(orig_play, selection@, p as int),
                new_in_play@.to_multiset().add(removed_below(orig_play, selection@, p as int))
                    == orig_play.take(p as int).to_multiset(),
            decreases n - p,
        {
            let ghost pre_new = new_in_play@;
            if !selection_contains_position(selection, p) {
                new_in_play.push(self.in_play[p]);
                proof {
                    broadcast use vstd::seq_lib::group_to_multiset_ensures;
                    broadcast use vstd::multiset::group_multiset_axioms;

                    crate::counting::lemma_push_to_multiset(pre_new, orig_play[p as int]);
                }
            }
            proof {
                broadcast use vstd::seq_lib::group_to_multiset_ensures;
                broadcast use vstd::multiset::group_multiset_axioms;

                assert(orig_play.take(p + 1) =~= orig_play.take(p as int).push(
                    orig_play[p as int],
                ));
                crate::counting::lemma_push_to_multiset(
                    orig_play.take(p as int),
                    orig_play[p as int],
                );
                assert(new_in_play@.to_multiset().add(
                    removed_below(orig_play, selection@, p + 1),
                ) =~= orig_play.take(p + 1).to_multiset());
            }
            p = p + 1;
        }
        self.in_play = new_in_play;
        proof {
            assert(orig_play.take(n as int) =~= orig_play);
            lemma_removed_below_is_picked(orig_play, selection@);
        }
    }

    /// Draws batches of cards from the pile onto the table until the table
    /// holds a match, reporting the game over when the pile runs dry first.
    fn replenish(&mut self, set_session: bool) -> (r: PlayResponse)
        ensures
            final(self).in_play@.to_multiset().add(final(self).in_deck@.to_multiset()) == old(
                self,
            ).in_play@.to_multiset().add(old(self).in_deck@.to_multiset()),
            old(self).in_play@.is_prefix_of(final(self).in_play@),
            final(self).in_deck@.len() <= old(self).in_deck@.len(),
            final(self).in_deck@ == old(self).in_deck@.take(final(self).in_deck@.len() as int),
            r is ValidPlay || r is GameOver,
            r is ValidPlay ==> (if set_session {
                spec_contains_set(final(self).in_play@)
            } else {
                spec_contains_ultraset(final(self).in_play@)
            }),
            r is GameOver ==> final(self).in_deck@.len() == 0 && !(if set_session {
                spec_contains_set(final(self).in_play@)
            } else {
                spec_contains_ultraset(final(self).in_play@)
            }),
    {
        broadcast use vstd::seq_lib::group_to_multiset_ensures;
        broadcast use vstd::multiset::group_multiset_axioms;

        let batch: usize = if set_session {
            3
        } else {
            4
        };
        loop
            invariant
                batch == if set_session {
                    3usize
                } else {
                    4usize
                },
                self.in_play@.to_multiset().add(self.in_deck@.to_multiset()) == old(
                    self,
                ).in_play@.to_multiset().add(old(self).in_deck@.to_multiset()),
                old(self).in_play@.is_prefix_of(self.in_play@),
                self.in_deck@.len() <= old(self).in_deck@.len(),
                self.in_deck@ == old(self).in_deck@.take(self.in_deck@.len() as int),
            decreases self.in_deck@.len(),
        {
            let found = if set_session {
                selection_contains_set(self.in_play.as_slice())
            } else {
                selection_contains_ultraset(self.in_play.as_slice())
            };
            if found {
                return PlayResponse::ValidPlay;
            }
            if self.in_deck.len() == 0 {
                return PlayResponse::GameOver;
            }
            let ghost deck_len_before_batch = self.in_deck@.len();
            let mut b: usize = 0;
            while b < batch
                invariant
                    b <= batch,
                    b == 0 ==> self.in_deck@.len() == deck_len_before_batch
                        && deck_len_before_batch > 0,
                    b > 0 ==> self.in_deck@.len() < deck_len_before_batch,
                    self.in_play@.to_multiset().add(self.in_deck@.to_multiset()) == old(
                        self,
                    ).in_play@.to_multiset().add(old(self).in_deck@.to_multiset()),
                    old(self).in_play@.is_prefix_of(self.in_play@),
                    self.in_deck@.len() <= old(self).in_deck@.len(),
                    self.in_deck@ == old(self).in_deck@.take(self.in_deck@.len() as int),
                decreases batch - b,
            {
                let ghost pre_play = self.in_play@;
                let ghost pre_deck = self.in_deck@;
                match self.in_deck.pop() {
                    Some(card) => {
                        proof {
                            broadcast use vstd::seq_lib::group_to_multiset_ensures;
                            broadcast use vstd::multiset::group_multiset_axioms;
                            broadcast use vstd::seq_lib::group_seq_properties;

                            assert(pre_deck.drop_last() =~= self.in_deck@);
                            assert forall|i: int| 0 <= i < self.in_deck@.len() implies self
                                .in_deck@[i] == old(self).in_deck@[i] by {
                                assert(pre_deck[i] == old(self).in_deck@.take(
                                    pre_deck.len() as int,
                                )[i]);
                            }
                            assert(self.in_deck@ =~= old(self).in_deck@.take(
                                self.in_deck@.len() as int,
                            ));
                            crate::counting::lemma_drop_last_to_multiset(pre_deck);
                            assert(pre_deck[pre_deck.len() - 1] == card);
                            assert(pre_deck.contains(card));
                            assert(pre_deck.to_multiset().count(card) > 0);
                        }
                        self.in_play.push(card);
                        proof {
                            broadcast use vstd::multiset::group_multiset_axioms;

                            crate::counting::lemma_push_to_multiset(pre_play, card);
                            assert(self.in_play@.to_multiset().add(self.in_deck@.to_multiset())
                                =~= pre_play.to_multiset().add(pre_deck.to_multiset()));
                        }
                    },
                    None => {},
                }
                b = b + 1;
            }
        }
    }
}

impl GameDeck {
    /// Plays the cards at the selected table positions. A selection of the
    /// wrong size, with repeated or out-of-range positions, or whose cards
    /// do not form a match of the session's arity is rejected unchanged.
    /// Otherwise the selected cards leave the game: they are replaced in
    /// place from the pile when the table is at its minimum size and the
    /// pile suffices, and the table is then refilled in batches until it
    /// holds a match again. When the pile empties before a match appears,
    /// the game is over.
    pub fn play_selection(&mut self, selection: Vec<usize>) -> (r: PlayResponse)
        ensures
            (*final(self)) is SetGame <==> (*old(self)) is SetGame,
            r is InvalidPlay <==> !old(self).spec_valid_selection(selection@),
            r is InvalidPlay ==> *final(self) == *old(self),
            !(r is InvalidPlay) ==> old(self).all_cards() == final(self).all_cards().add(
                picked_cards(old(self).spec_in_play(), selection@).to_multiset(),
            ),
            r is ValidPlay ==> final(self).table_has_match(),
            r is GameOver ==> final(self).spec_in_deck().len() == 0
                && !final(self).table_has_match(),
            !(r is InvalidPlay) ==> (r is GameOver <==> final(self).spec_in_deck().len() == 0
                && !final(self).table_has_match()),
            !(r is InvalidPlay) ==> final(self).spec_in_deck() == old(self).spec_in_deck().take(
                final(self).spec_in_deck().len() as int,
            ),
            !(r is InvalidPlay) && old(self).spec_in_deck().len() >= old(self).spec_arity()
                && old(self).spec_in_play().len() <= 12 ==> final(self).spec_in_play().len()
                >= old(self).spec_in_play().len() && (forall|p: int|
                0 <= p < old(self).spec_in_play().len() && !sel_has(selection@, p)
                    ==> final(self).spec_in_play()[p] == old(self).spec_in_play()[p]),
            !(r is InvalidPlay) && !(old(self).spec_in_deck().len() >= old(self).spec_arity()
                && old(self).spec_in_play().len() <= 12) ==> kept_below(
                old(self).spec_in_play(),
                selection@,
                old(self).spec_in_play().len() as int,
            ).is_prefix_of(final(self).spec_in_play()),
    {
        let arity = self.selection_size();
        if selection.len() != arity {
            return PlayResponse::InvalidPlay;
        }
        let n = self.in_play().len();

        let mut t: usize = 0;
        while t < arity
            invariant
                t <= arity,
                arity == self.spec_arity(),
                selection@.len() == arity,
                n == self.spec_in_play().len(),
                forall|q: int| 0 <= q < t ==> (#[trigger] selection@[q]) < n,
            decreases arity - t,
        {
            if selection[t] >= n {
                return PlayResponse::InvalidPlay;
            }
            t = t + 1;
        }

        let mut a: usize = 0;
        while a < arity
            invariant
                a <= arity,
                arity == self.spec_arity(),
                selection@.len() == arity,
                n == self.spec_in_play().len(),
                forall|q: int| 0 <= q < arity ==> (#[trigger] selection@[q]) < n,
                forall|q1: int, q2: int|
                    0 <= q1 < a && q1 < q2 < arity ==> selection@[q1] != selection@[q2],
            decreases arity - a,
        {
            let mut b: usize = a + 1;
            while b < arity
                invariant
                    a < b <= arity || (a + 1 > arity && b == a + 1),
                    a < arity,
                    arity == self.spec_arity(),
                    selection@.len() == arity,
                    n == self.spec_in_play().len(),
                    forall|q2: int| a < q2 < b ==> selection@[a as int] != selection@[q2],
                decreases arity - b,
            {
                if selection[a] == selection[b] {
                    proof {
                        assert(!selection@.no_duplicates());
                    }
                    return PlayResponse::InvalidPlay;
                }
                b = b + 1;
            }
            a = a + 1;
        }
        proof {
            assert(selection@.no_duplicates()) by {
                assert forall|q1: int, q2: int|
                    0 <= q1 < selection@.len() && 0 <= q2 < selection@.len() && q1
                        != q2 implies selection@[q1] != selection@[q2] by {
                    if q2 < q1 {
                        assert(selection@[q2] != selection@[q1]);
                    }
                }
            }
        }

        let mut selected_cards: Vec<(CardCoordinates, CardVisualAttr)> = Vec::new();
        let mut t: usize = 0;
        while t < arity
            invariant
                t <= arity,
                arity == self.spec_arity(),
                selection@.len() == arity,
                n == self.spec_in_play().len(),
                forall|q: int| 0 <= q < arity ==> (#[trigger] selection@[q]) < n,
                selected_cards@.len() == t,
                forall|q: int|
                    0 <= q < t ==> #[trigger] selected_cards@[q] == self.spec_in_play()[selection@[q] as int],
            decreases arity - t,
        {
            let idx = selection[t];
            let card = self.in_play()[idx];
            selected_cards.push(card);
            t = t + 1;
        }

        let valid = if arity == 3 {
            selection_is_set(selected_cards.as_slice())
        } else {
            selection_is_ultraset(selected_cards.as_slice())
        };
        if !valid {
            return PlayResponse::InvalidPlay;
        }
        proof {
            assert(old(self).spec_valid_selection(selection@));
        }

        let mut tmp = GameDeck::SetGame(ActiveDeck { in_play: Vec::new(), in_deck: Vec::new() });
        core::mem::swap(self, &mut tmp);
        let (set_session, mut ad): (bool, ActiveDeck) = match tmp {
            GameDeck::SetGame(active) => (true, active),
            GameDeck::UltraSet(active) => (false, active),
        };
        let ghost picked = picked_cards(ad.in_play@, selection@);

        if ad.in_deck.len() >= arity && ad.in_play.len() <= 12 {
            ad.replace_at(&selection);
        } else {
            ad.discard_at(&selection);
        }
        proof {
            broadcast use vstd::multiset::group_multiset_axioms;

            assert(ad.in_play@.to_multiset().add(ad.in_deck@.to_multiset()).add(
                picked.to_multiset(),
            ) =~= old(self).spec_in_play().to_multiset().add(
                old(self).spec_in_deck().to_multiset(),
            ));
        }
        let ghost play_after_removal = ad.in_play@;
        let ghost deck_after_removal = ad.in_deck@;
        let response = ad.replenish(set_session);
        proof {
            broadcast use vstd::seq_lib::group_seq_properties;

            assert forall|p: int|
                0 <= p < play_after_removal.len() implies ad.in_play@[p]
                == play_after_removal[p] by {
                assert(ad.in_play@.subrange(0, play_after_removal.len() as int)[p]
                    == ad.in_play@[p]);
            }
            assert(ad.in_deck@ =~= old(self).spec_in_deck().take(ad.in_deck@.len() as int)) by {
                assert forall|i: int| 0 <= i < ad.in_deck@.len() implies ad.in_deck@[i] == old(
                    self,
                ).spec_in_deck()[i] by {
                    assert(ad.in_deck@[i] == deck_after_removal.take(ad.in_deck@.len() as int)[i]);
                }
            }
        }
        *self = if set_session {
            GameDeck::SetGame(ad)
        } else {
            GameDeck::UltraSet(ad)
        };
        proof {
            broadcast use vstd::multiset::group_multiset_axioms;

            assert(old(self).all_cards() =~= final(self).all_cards().add(picked.to_multiset()));
        }
        response
    }
}

/// Splits a deck at the first prefix, from twelve cards and growing by
/// three, that contains a set (for a set session) or an ultraset (for an
/// ultraset session).
fn deal(deck: &Deck, set_session: bool) -> (r: ActiveDeck)
    requires
        deck.cards@.len() >= 12,
        deck.cards@.len() % 3 == 0,
        set_session ==> spec_contains_set(deck.cards@),
        !set_session ==> spec_contains_ultraset(deck.cards@),
    ensures
        r.in_play@ + r.in_deck@ == deck.cards@,
        r.in_play@.len() >= 12,
        r.in_play@.len() % 3 == 0,
        set_session ==> spec_contains_set(r.in_play@),
        !set_session ==> spec_contains_ultraset(r.in_play@),
        forall|k: int|
            12 <= k < r.in_play@.len() && k % 3 == 0 ==> !(if set_session {
                spec_contains_set(#[trigger] deck.cards@.take(k))
            } else {
                spec_contains_ultraset(deck.cards@.take(k))
            }),
{
    let n = deck.cards.len();
    let mut in_play: Vec<(CardCoordinates, CardVisualAttr)> = Vec::new();
    let mut i: usize = 0;
    while i < 12
        invariant
            i <= 12 <= n,
            n == deck.cards@.len(),
            in_play@ == deck.cards@.take(i as int),
        decreases 12 - i,
    {
        in_play.push(deck.cards[i]);
        proof {
            assert(in_play@ =~= deck.cards@.take(i + 1));
        }
        i = i + 1;
    }

    loop
        invariant
            12 <= i <= n,
            i % 3 == 0,
            n % 3 == 0,
            n == deck.cards@.len(),
            in_play@ == deck.cards@.take(i as int),
            set_session ==> spec_contains_set(deck.cards@),
            !set_session ==> spec_contains_ultraset(deck.cards@),
            forall|k: int|
                12 <= k < i && k % 3 == 0 ==> !(if set_session {
                    spec_contains_set(#[trigger] deck.cards@.take(k))
                } else {
                    spec_contains_ultraset(deck.cards@.take(k))
                }),
        ensures
            in_play@ == deck.cards@.take(i as int),
            12 <= i <= n,
            set_session ==> spec_contains_set(in_play@),
            !set_session ==> spec_contains_ultraset(in_play@),
            forall|k: int|
                12 <= k < i && k % 3 == 0 ==> !(if set_session {
                    spec_contains_set(#[trigger] deck.cards@.take(k))
                } else {
                    spec_contains_ultraset(deck.cards@.take(k))
                }),
        decreases n - i,
    {
        let found = if set_session {
            selection_contains_set(in_play.as_slice())
        } else {
            selection_contains_ultraset(in_play.as_slice())
        };
        if found {
            break ;
        }
        proof {
            assert(i < n) by {
                if i == n {
                    assert(deck.cards@.take(i as int) =~= deck.cards@);
                }
            }
        }
        let mut b: usize = 0;
        while b < 3
            invariant
                b <= 3,
                i + 3 <= n,
                n == deck.cards@.len(),
                in_play@ == deck.cards@.take(i + b),
            decreases 3 - b,
        {
            in_play.push(deck.cards[i + b]);
            proof {
                assert(in_play@ =~= deck.cards@.take(i + b + 1));
            }
            b = b + 1;
        }
        i = i + 3;
    }

    let mut in_deck: Vec<(CardCoordinates, CardVisualAttr)> = Vec::new();
    let mut j: usize = i;
    while j < n
        invariant
            i <= j <= n,
            n == deck.cards@.len(),
            in_deck@ == deck.cards@.subrange(i as int, j as int),
        decreases n - j,
    {
        in_deck.push(deck.cards[j]);
        proof {
            assert(in_deck@ =~= deck.cards@.subrange(i as int, j + 1));
        }
        j = j + 1;
    }
    proof {
        assert(in_play@ + in_deck@ =~= deck.cards@);
    }

    ActiveDeck { in_play, in_deck }
}

impl GameDeck {
    /// Deals out cards for a set session, ensuring there is always a set.
    pub fn start_set_play(deck: &Deck) -> (r: Self)
        requires
            deck.cards@.len() >= 12,
            deck.cards@.len() % 3 == 0,
            spec_contains_set(deck.cards@),
        ensures
            r is SetGame,
            r.spec_in_play() + r.spec_in_deck() == deck.cards@,
            r.spec_in_play().len() >= 12,
            r.spec_in_play().len() % 3 == 0,
            r.table_has_match(),
            r.all_cards() == deck.cards@.to_multiset(),
            forall|k: int|
                12 <= k < r.spec_in_play().len() && k % 3 == 0 ==> !spec_contains_set(
                    #[trigger] deck.cards@.take(k),
                ),
    {
        let ad = deal(deck, true);
        let r = GameDeck::SetGame(ad);
        proof {
            vstd::seq_lib::lemma_multiset_commutative(r.spec_in_play(), r.spec_in_deck());
        }
        r
    }

    /// Deals out cards for an ultraset session, ensuring there is always an
    /// ultraset.
    pub fn start_ultraset_play(deck: &Deck) -> (r: Self)
        requires
            deck.cards@.len() >= 12,
            deck.cards@.len() % 3 == 0,
            spec_contains_ultraset(deck.cards@),
        ensures
            r is UltraSet,
            r.spec_in_play() + r.spec_in_deck() == deck.cards@,
            r.spec_in_play().len() >= 12,
            r.spec_in_play().len() % 3 == 0,
            r.table_has_match(),
            r.all_cards() == deck.cards@.to_multiset(),
            forall|k: int|
                12 <= k < r.spec_in_play().len() && k % 3 == 0 ==> !spec_contains_ultraset(
                    #[trigger] deck.cards@.take(k),
                ),
    {
        let ad = deal(deck, false);
        let r = GameDeck::UltraSet(ad);
        proof {
            vstd::seq_lib::lemma_multiset_commutative(r.spec_in_play(), r.spec_in_deck());
        }
        r
    }
}

} // verus!
