//! The matching game: a flat grid of labels derived from the entry store, and
//! a bounded selection of grid positions validated against the store.

use crate::store::EntryStore;
use crate::store::EntryView;
use crate::store::grid_of;
use crate::store::labels_of;
use vstd::prelude::*;

verus! {

/// What one call of `toggle_position` did.
#[derive(Clone, Copy, Debug, PartialEq, Eq, Structural)]
pub enum ToggleOutcome {
    /// The position was already selected and has been deselected.
    Deselected,
    /// The position was added; the selection is still incomplete.
    Selected,
    /// The completed triple matched an entry; its labels left the grid.
    Matched,
    /// The completed triple matched no entry; the selection is kept.
    MatchFailed,
}

/// A game state is well formed when at most three positions are selected, all
/// of them within the grid and pairwise distinct.
pub open spec fn game_wf(grid: Seq<Seq<char>>, sel: Seq<usize>) -> bool {
    &&& sel.len() <= 3
    &&& forall|i: int| 0 <= i < sel.len() ==> (#[trigger] sel[i]) < grid.len()
    &&& forall|i: int, j: int| 0 <= i < j < sel.len() ==> sel[i] != sel[j]
}

/// The column a grid position falls in: positions flow row by row, three to a
/// row.
pub open spec fn column_of(p: usize) -> int {
    p as int % 3
}

/// Whether the three selected positions cover three different columns.
pub open spec fn columns_distinct(sel: Seq<usize>) -> bool
    recommends
        sel.len() == 3,
{
    &&& column_of(sel[0]) != column_of(sel[1])
    &&& column_of(sel[0]) != column_of(sel[2])
    &&& column_of(sel[1]) != column_of(sel[2])
}

/// The label of the selected position that lies in column `col`.
pub open spec fn label_in_column(grid: Seq<Seq<char>>, sel: Seq<usize>, col: int) -> Seq<char>
    recommends
        sel.len() == 3,
        columns_distinct(sel),
{
    if column_of(sel[0]) == col {
        grid[sel[0] as int]
    } else if column_of(sel[1]) == col {
        grid[sel[1] as int]
    } else {
        grid[sel[2] as int]
    }
}

/// The candidate triple assembled from a completed selection, ordered by
/// column, not by selection order.
pub open spec fn candidate_of(grid: Seq<Seq<char>>, sel: Seq<usize>) -> EntryView
    recommends
        sel.len() == 3,
        columns_distinct(sel),
{
    EntryView {
        first: label_in_column(grid, sel, 0),
        second: label_in_column(grid, sel, 1),
        third: label_in_column(grid, sel, 2),
    }
}

/// A completed selection matches when its positions cover three different
/// columns and the column-ordered candidate triple is an entry of the store.
pub open spec fn match_succeeds(
    grid: Seq<Seq<char>>,
    sel: Seq<usize>,
    store: Seq<EntryView>,
) -> bool
    recommends
        sel.len() == 3,
{
    columns_distinct(sel) && store.contains(candidate_of(grid, sel))
}

/// Three values in ascending order.
pub open spec fn sort3(x: int, y: int, z: int) -> (int, int, int) {
    if x <= y && x <= z {
        if y <= z {
            (x, y, z)
        } else {
            (x, z, y)
        }
    } else if y <= x && y <= z {
        if x <= z {
            (y, x, z)
        } else {
            (y, z, x)
        }
    } else {
        if x <= y {
            (z, x, y)
        } else {
            (z, y, x)
        }
    }
}

/// The grid with the labels at positions `a < b < c` taken out: every other
/// label stays, in its original relative order.
pub open spec fn remove_three(g: Seq<Seq<char>>, a: int, b: int, c: int) -> Seq<Seq<char>>
    recommends
        0 <= a < b < c < g.len(),
{
    g.subrange(0, a) + g.subrange(a + 1, b) + g.subrange(b + 1, c) + g.subrange(
        c + 1,
        g.len() as int,
    )
}

/// The grid after a successful match of the completed selection `sel`.
pub open spec fn grid_after_match(grid: Seq<Seq<char>>, sel: Seq<usize>) -> Seq<Seq<char>>
    recommends
        sel.len() == 3,
{
    let sorted = sort3(sel[0] as int, sel[1] as int, sel[2] as int);
    remove_three(grid, sorted.0, sorted.1, sorted.2)
}

/// The selection after picking a fresh position `p`: when the previous
/// selection still held a full triple (a failed match), only its first two
/// picks are kept before `p` is appended.
pub open spec fn selection_after_pick(sel: Seq<usize>, p: usize) -> Seq<usize> {
    if sel.len() > 2 {
        sel.take(2).push(p)
    } else {
        sel.push(p)
    }
}

/// Grid derivation determinism: the grid derived from a store state is a
/// function of that state alone, so two rebuilds from equal stores agree.
pub proof fn lemma_rebuild_deterministic(s1: Seq<EntryView>, s2: Seq<EntryView>)
    requires
        s1 == s2,
    ensures
        grid_of(s1) == grid_of(s2),
{
}

/// Selection cap: a well-formed game never holds more than three selected
/// positions. `toggle_position` further ensures a successful match leaves
/// none.
pub proof fn lemma_selection_cap(grid: Seq<Seq<char>>, sel: Seq<usize>)
    requires
        game_wf(grid, sel),
    ensures
        sel.len() <= 3,
{
}

/// Removal correctness: taking three distinct positions out of a grid of
/// length `n` leaves `n - 3` labels, namely every label but the three removed,
/// each at its original relative place.
pub proof fn lemma_removal_correctness(g: Seq<Seq<char>>, a: int, b: int, c: int)
    requires
        0 <= a < b < c < g.len(),
    ensures
        remove_three(g, a, b, c).len() == g.len() - 3,
        forall|k: int| 0 <= k < a ==> #[trigger] remove_three(g, a, b, c)[k] == g[k],
        forall|k: int| a <= k < b - 1 ==> #[trigger] remove_three(g, a, b, c)[k] == g[k + 1],
        forall|k: int| b - 1 <= k < c - 2 ==> #[trigger] remove_three(g, a, b, c)[k] == g[k + 2],
        forall|k: int|
            c - 2 <= k < g.len() - 3 ==> #[trigger] remove_three(g, a, b, c)[k] == g[k + 3],
{
}

/// The matching game. It owns the grid and the selection; the entry store is
/// only read, for validation and for rebuilds.
pub struct MatchGame {
    grid: Vec<String>,
    selection: Vec<usize>,
    stale: bool,
}

impl MatchGame {
    /// The grid as a sequence of labels.
    pub closed spec fn grid_view(&self) -> Seq<Seq<char>> {
        labels_of(self.grid@)
    }

    /// The selected positions, oldest first.
    pub closed spec fn selection_view(&self) -> Seq<usize> {
        self.selection@
    }

    /// Whether the store changed shape since the grid was last rebuilt.
    pub closed spec fn is_stale(&self) -> bool {
        self.stale
    }

    pub open spec fn wf(&self) -> bool {
        game_wf(self.grid_view(), self.selection_view())
    }

    /// A fresh game: empty grid and selection, waiting for its first rebuild.
    pub fn new() -> (r: MatchGame)
        ensures
            r.wf(),
            r.grid_view() == Seq::<Seq<char>>::empty(),
            r.selection_view() == Seq::<usize>::empty(),
            r.is_stale(),
    {
        let r = MatchGame { grid: Vec::new(), selection: Vec::new(), stale: true };
        proof {
            assert(r.grid_view() =~= Seq::<Seq<char>>::empty());
        }
        r
    }

    /// Recomputes the grid by flattening the store's entries in order and
    /// clears the selection: stale positions cannot be trusted across a
    /// rebuild.
    pub fn rebuild_grid(&mut self, store: &EntryStore)
        ensures
            final(self).wf(),
            final(self).grid_view() == grid_of(store@),
            final(self).selection_view() == Seq::<usize>::empty(),
            !final(self).is_stale(),
    {
        self.grid.clear();
        self.selection.clear();
        self.stale = false;
        let entries = store.entries();
        let n = entries.len();
        proof {
            assert(labels_of(self.grid@) =~= grid_of(store@.take(0)));
        }
        let mut i: usize = 0;
        while i < n
            invariant
                n == entries@.len(),
                entries@.map_values(|e: crate::store::Entry| e@) == store@,
                0 <= i <= n,
                labels_of(self.grid@) == grid_of(store@.take(i as int)),
                self.selection@ == Seq::<usize>::empty(),
                self.stale == false,
            decreases n - i,
        {
            let ghost before = self.grid@;
            self.grid.push(entries[i].first.clone());
            self.grid.push(entries[i].second.clone());
            self.grid.push(entries[i].third.clone());
            proof {
                let ghost e = store@[i as int];
                assert(store@.take(i as int + 1).drop_last() =~= store@.take(i as int));
                assert(store@.take(i as int + 1).last() == e);
                assert(labels_of(self.grid@) =~= labels_of(before) + seq![
                    e.first,
                    e.second,
                    e.third,
                ]);
            }
            i += 1;
        }
        proof {
            assert(store@.take(n as int) =~= store@);
        }
    }

    /// Signals that the store changed shape (insert, delete, or an explicit
    /// reset): the grid and selection are discarded and a rebuild is owed.
    pub fn invalidate(&mut self)
        ensures
            final(self).wf(),
            final(self).grid_view() == Seq::<Seq<char>>::empty(),
            final(self).selection_view() == Seq::<usize>::empty(),
            final(self).is_stale(),
    {
        self.grid.clear();
        self.selection.clear();
        self.stale = true;
        proof {
            assert(self.grid_view() =~= Seq::<Seq<char>>::empty());
        }
    }

    /// Whether a rebuild is owed before the grid may be shown or played.
    pub fn needs_rebuild(&self) -> (r: bool)
        ensures
            r == self.is_stale(),
    {
        self.stale
    }

    /// The grid labels currently in play, for rendering.
    pub fn grid(&self) -> (r: &Vec<String>)
        ensures
            labels_of(r@) == self.grid_view(),
    {
        &self.grid
    }

    /// The selected positions, oldest first, for rendering.
    pub fn selection(&self) -> (r: &Vec<usize>)
        ensures
            r@ == self.selection_view(),
    {
        &self.selection
    }

    /// The quiet win condition: every label has been matched away.
    pub fn grid_is_empty(&self) -> (r: bool)
        ensures
            r == (self.grid_view().len() == 0),
    {
        self.grid.is_empty()
    }

    /// Where `p` sits in the selection, if selected: its ordinal for the
    /// rendering collaborator's highlight.
    pub fn selection_index_of(&self, p: usize) -> (r: Option<usize>)
        ensures
            (r is Some) == self.selection_view().contains(p),
            r matches Some(i) ==> i < self.selection_view().len()
                && self.selection_view()[i as int] == p,
    {
        let n = self.selection.len();
        let mut i: usize = 0;
        while i < n
            invariant
                n == self.selection@.len(),
                0 <= i <= n,
                forall|k: int| 0 <= k < i ==> self.selection@[k] != p,
            decreases n - i,
        {
            if self.selection[i] == p {
                return Some(i);
            }
            i += 1;
        }
        proof {
            assert(!self.selection@.contains(p));
        }
        None
    }

    /// One user click on grid position `p`, the game's single transition.
    ///
    /// A selected position is deselected. A fresh position is appended, after
    /// an overfull selection (a previous failed match) is first cut back to
    /// its two oldest picks. A selection completed to three positions is
    /// validated at once against the store: on a match the three labels leave
    /// the grid, later labels shifting left in order, and the selection
    /// clears; on a failed match the three picks are kept until the next
    /// toggle enforces the cap.
    pub fn toggle_position(&mut self, store: &EntryStore, p: usize) -> (r: ToggleOutcome)
        requires
            old(self).wf(),
            p < old(self).grid_view().len(),
        ensures
            final(self).wf(),
            final(self).is_stale() == old(self).is_stale(),
            old(self).selection_view().contains(p) ==> ({
                &&& r == ToggleOutcome::Deselected
                &&& final(self).grid_view() == old(self).grid_view()
                &&& final(self).selection_view() == old(self).selection_view().remove(
                    old(self).selection_view().index_of(p),
                )
            }),
            !old(self).selection_view().contains(p) ==> ({
                let sel2 = selection_after_pick(old(self).selection_view(), p);
                let g = old(self).grid_view();
                &&& sel2.len() < 3 ==> ({
                    &&& r == ToggleOutcome::Selected
                    &&& final(self).grid_view() == g
                    &&& final(self).selection_view() == sel2
                })
                &&& sel2.len() == 3 && match_succeeds(g, sel2, store@) ==> ({
                    &&& r == ToggleOutcome::Matched
                    &&& final(self).grid_view() == grid_after_match(g, sel2)
                    &&& final(self).selection_view() == Seq::<usize>::empty()
                })
                &&& sel2.len() == 3 && !match_succeeds(g, sel2, store@) ==> ({
                    &&& r == ToggleOutcome::MatchFailed
                    &&& final(self).grid_view() == g
                    &&& final(self).selection_view() == sel2
                })
            }),
    {
        let ghost osel = self.selection@;
        if let Some(idx) = self.selection_index_of(p) {
            self.selection.remove(idx);
            proof {
                let j = osel.index_of(p);
                assert(osel[j] == p);
                assert(osel[idx as int] == p);
                if j != idx as int {
                    assert(osel[j] != osel[idx as int]);
                }
                osel.remove_ensures(idx as int);
            }
            return ToggleOutcome::Deselected;
        }
        if self.selection.len() > 2 {
            self.selection.truncate(2);
            proof {
                assert(self.selection@ =~= osel.take(2));
            }
        }
        self.selection.push(p);
        let ghost sel2 = selection_after_pick(osel, p);
        proof {
            assert(self.selection@ == sel2);
        }
        if self.selection.len() < 3 {
            return ToggleOutcome::Selected;
        }
        let ghost g = labels_of(self.grid@);
        let p0 = self.selection[0];
        let p1 = self.selection[1];
        let p2 = self.selection[2];
        let c0 = p0 % 3;
        let c1 = p1 % 3;
        let c2 = p2 % 3;
        if c0 == c1 || c0 == c2 || c1 == c2 {
            assert(!columns_distinct(sel2));
            return ToggleOutcome::MatchFailed;
        }
        let first = if c0 == 0 {
            self.grid[p0].clone()
        } else if c1 == 0 {
            self.grid[p1].clone()
        } else {
            self.grid[p2].clone()
        };
        let second = if c0 == 1 {
            self.grid[p0].clone()
        } else if c1 == 1 {
            self.grid[p1].clone()
        } else {
            self.grid[p2].clone()
        };
        let third = if c0 == 2 {
            self.grid[p0].clone()
        } else if c1 == 2 {
            self.grid[p1].clone()
        } else {
            self.grid[p2].clone()
        };
        let cand = crate::store::Entry { first, second, third };
        proof {
            assert(cand@ == candidate_of(g, sel2));
        }
        if !store.contains_entry(&cand) {
            assert(!match_succeeds(g, sel2, store@));
            return ToggleOutcome::MatchFailed;
        }
        let mut a = p0;
        let mut b = p1;
        let mut c = p2;
        if a > b {
            let t = a;
            a = b;
            b = t;
        }
        if b > c {
            let t = b;
            b = c;
            c = t;
        }
        if a > b {
            let t = a;
            a = b;
            b = t;
        }
        proof {
            assert(p0 != p1 && p0 != p2 && p1 != p2);
            assert((a as int, b as int, c as int) == sort3(p0 as int, p1 as int, p2 as int));
        }
        let ghost gv = self.grid@;
        self.grid.remove(a);
        self.grid.remove(b - 1);
        self.grid.remove(c - 2);
        self.selection.clear();
        proof {
            lemma_labels_remove(gv, a as int);
            lemma_labels_remove(gv.remove(a as int), b as int - 1);
            lemma_labels_remove(gv.remove(a as int).remove(b as int - 1), c as int - 2);
            lemma_remove_three_steps(g, a as int, b as int, c as int);
        }
        ToggleOutcome::Matched
    }
}

/// Taking the views of labels commutes with removing one label.
proof fn lemma_labels_remove(v: Seq<String>, i: int)
    requires
        0 <= i < v.len(),
    ensures
        labels_of(v.remove(i)) == labels_of(v).remove(i),
{
    assert(labels_of(v.remove(i)) =~= labels_of(v).remove(i));
}

/// Removing three ascending positions one by one, each index corrected for the
/// removals before it, takes out exactly the labels at the three original
/// positions.
proof fn lemma_remove_three_steps(g: Seq<Seq<char>>, a: int, b: int, c: int)
    requires
        0 <= a < b < c < g.len(),
    ensures
        g.remove(a).remove(b - 1).remove(c - 2) == remove_three(g, a, b, c),
{
    assert(g.remove(a).remove(b - 1).remove(c - 2) =~= remove_three(g, a, b, c));
}

} // verus!
