//! The entry table: an ordered sequence of three-form verb entries with
//! validated insertion and deletion by index, plus flat import/export for a
//! persistence collaborator.

use vstd::prelude::*;

verus! {

/// Mathematical view of one entry: the three principal forms as character
/// sequences.
pub struct EntryView {
    pub first: Seq<char>,
    pub second: Seq<char>,
    pub third: Seq<char>,
}

/// One three-form verb record (base form, past form, participle).
pub struct Entry {
    pub first: String,
    pub second: String,
    pub third: String,
}

impl View for Entry {
    type V = EntryView;

    open spec fn view(&self) -> EntryView {
        EntryView { first: self.first@, second: self.second@, third: self.third@ }
    }
}

impl Clone for Entry {
    fn clone(&self) -> (r: Entry)
        ensures
            r@ == self@,
    {
        Entry { first: self.first.clone(), second: self.second.clone(), third: self.third.clone() }
    }
}

impl Entry {
    /// Field-wise equality of two entries, order-sensitive.
    pub fn eq_entry(&self, other: &Entry) -> (r: bool)
        ensures
            r == (self@ == other@),
    {
        self.first == other.first && self.second == other.second && self.third == other.third
    }
}

/// Every rejection the store can report. A failed match in the game is a
/// normal outcome, not an error, and is not listed here.
#[derive(Clone, Copy, Debug, PartialEq, Eq, Structural)]
pub enum StoreError {
    /// An inserted triple had an empty field or duplicated an existing entry.
    ValidationRejected,
    /// A deletion index was out of bounds.
    IndexOutOfRange,
}

/// An entry is well formed when none of its three fields is empty.
pub open spec fn entry_wf(e: EntryView) -> bool {
    e.first.len() > 0 && e.second.len() > 0 && e.third.len() > 0
}

/// A store is well formed when every entry is well formed and no two entries
/// are field-wise equal.
pub open spec fn store_wf(s: Seq<EntryView>) -> bool {
    &&& forall|i: int| 0 <= i < s.len() ==> entry_wf(#[trigger] s[i])
    &&& forall|i: int, j: int| 0 <= i < j < s.len() ==> s[i] != s[j]
}

/// A candidate triple may be inserted when all fields are non-empty and the
/// store holds no field-wise equal entry yet.
pub open spec fn candidate_ok(s: Seq<EntryView>, e: EntryView) -> bool {
    entry_wf(e) && !s.contains(e)
}

/// The views of a sequence of labels.
pub open spec fn labels_of(v: Seq<String>) -> Seq<Seq<char>> {
    v.map_values(|s: String| s@)
}

/// The flat label form of a sequence of entries: each entry contributes its
/// three forms in order, entry after entry. The game's grid and the store's
/// durable form are both derived this way.
pub open spec fn grid_of(s: Seq<EntryView>) -> Seq<Seq<char>>
    decreases s.len(),
{
    if s.len() == 0 {
        Seq::empty()
    } else {
        grid_of(s.drop_last()) + seq![s.last().first, s.last().second, s.last().third]
    }
}

pub proof fn lemma_grid_of_len(s: Seq<EntryView>)
    ensures
        grid_of(s).len() == 3 * s.len(),
    decreases s.len(),
{
    if s.len() > 0 {
        lemma_grid_of_len(s.drop_last());
    }
}

/// Position addressing in the flat form: entry `i` supplies the three labels
/// at positions `3 * i` to `3 * i + 2`, so a position `p` shows the form
/// `p % 3` of entry `p / 3`.
pub proof fn lemma_grid_of_index(s: Seq<EntryView>, i: int)
    requires
        0 <= i < s.len(),
    ensures
        grid_of(s)[3 * i] == s[i].first,
        grid_of(s)[3 * i + 1] == s[i].second,
        grid_of(s)[3 * i + 2] == s[i].third,
    decreases s.len(),
{
    lemma_grid_of_len(s);
    lemma_grid_of_len(s.drop_last());
    if i < s.len() - 1 {
        lemma_grid_of_index(s.drop_last(), i);
        assert(s.drop_last()[i] == s[i]);
    }
}

/// The entries read back from a flat label sequence: three consecutive labels
/// make one entry.
pub open spec fn entries_of_labels(labels: Seq<Seq<char>>) -> Seq<EntryView>
    recommends
        labels.len() % 3 == 0,
{
    Seq::new(
        labels.len() / 3,
        |i: int|
            EntryView {
                first: labels[3 * i],
                second: labels[3 * i + 1],
                third: labels[3 * i + 2],
            },
    )
}

/// Whether a flat label sequence is an admissible durable form: a whole number
/// of triples that read back as a well-formed store.
pub open spec fn import_ok(labels: Seq<Seq<char>>) -> bool {
    labels.len() % 3 == 0 && store_wf(entries_of_labels(labels))
}

/// Round trip: exporting a store to its flat label form and reading the
/// entries back reproduces the store exactly, and the flat form of a
/// well-formed store is always admissible for import.
pub proof fn lemma_flat_round_trip(s: Seq<EntryView>)
    ensures
        grid_of(s).len() % 3 == 0,
        entries_of_labels(grid_of(s)) == s,
        store_wf(s) ==> import_ok(grid_of(s)),
    decreases s.len(),
{
    lemma_grid_of_len(s);
    if s.len() == 0 {
        assert(entries_of_labels(grid_of(s)) =~= s);
    } else {
        let prev = s.drop_last();
        lemma_flat_round_trip(prev);
        lemma_grid_of_len(prev);
        assert forall|i: int| 0 <= i < s.len() implies entries_of_labels(grid_of(s))[i] == s[i] by {
            if i < s.len() - 1 {
                assert(entries_of_labels(grid_of(prev))[i] == prev[i]);
                assert(grid_of(s)[3 * i] == grid_of(prev)[3 * i]);
                assert(grid_of(s)[3 * i + 1] == grid_of(prev)[3 * i + 1]);
                assert(grid_of(s)[3 * i + 2] == grid_of(prev)[3 * i + 2]);
            } else {
                assert(grid_of(s)[3 * i] == s.last().first);
                assert(grid_of(s)[3 * i + 1] == s.last().second);
                assert(grid_of(s)[3 * i + 2] == s.last().third);
            }
        }
        assert(entries_of_labels(grid_of(s)) =~= s);
    }
}

/// The ordered table of entries; the single source of truth for the game's
/// label grid.
pub struct EntryStore {
    entries: Vec<Entry>,
}

impl View for EntryStore {
    type V = Seq<EntryView>;

    closed spec fn view(&self) -> Seq<EntryView> {
        self.entries@.map_values(|e: Entry| e@)
    }
}

impl EntryStore {
    pub open spec fn wf(&self) -> bool {
        store_wf(self@)
    }

    /// An empty store.
    pub fn new() -> (r: EntryStore)
        ensures
            r@ == Seq::<EntryView>::empty(),
            r.wf(),
    {
        let r = EntryStore { entries: Vec::new() };
        proof {
            assert(r@ =~= Seq::<EntryView>::empty());
        }
        r
    }

    /// Read view of the entries, in insertion order.
    pub fn entries(&self) -> (r: &Vec<Entry>)
        ensures
            r@.map_values(|e: Entry| e@) == self@,
    {
        &self.entries
    }

    /// Number of entries in the store.
    pub fn len(&self) -> (r: usize)
        ensures
            r == self@.len(),
    {
        self.entries.len()
    }

    /// Whether the store holds an entry field-wise equal to `e`.
    pub fn contains_entry(&self, e: &Entry) -> (r: bool)
        ensures
            r == self@.contains(e@),
    {
        let n = self.entries.len();
        let mut i: usize = 0;
        while i < n
            invariant
                n == self.entries.len(),
                0 <= i <= n,
                forall|k: int| 0 <= k < i ==> self@[k] != e@,
            decreases n - i,
        {
            if self.entries[i].eq_entry(e) {
                assert(self@[i as int] == e@);
                return true;
            }
            i += 1;
        }
        false
    }

    /// Pure admission predicate: whether an `insert` of this triple would be
    /// accepted, without committing it.
    pub fn is_valid_candidate(&self, first: &String, second: &String, third: &String) -> (r: bool)
        ensures
            r == candidate_ok(self@, EntryView { first: first@, second: second@, third: third@ }),
    {
        if first.as_str().is_empty() || second.as_str().is_empty() || third.as_str().is_empty() {
            return false;
        }
        let e = Entry { first: first.clone(), second: second.clone(), third: third.clone() };
        !self.contains_entry(&e)
    }

    /// Appends a validated triple. Rejected, leaving the store unchanged, when
    /// a field is empty or a field-wise equal entry already exists.
    pub fn insert(&mut self, first: String, second: String, third: String) -> (r: Result<
        (),
        StoreError,
    >)
        requires
            old(self).wf(),
        ensures
            final(self).wf(),
            candidate_ok(old(self)@, EntryView { first: first@, second: second@, third: third@ })
                ==> (r is Ok && final(self)@ == old(self)@.push(
                EntryView { first: first@, second: second@, third: third@ },
            )),
            !candidate_ok(old(self)@, EntryView { first: first@, second: second@, third: third@ })
                ==> (r == Err::<(), StoreError>(StoreError::ValidationRejected) && final(self)@
                == old(self)@),
    {
        if !self.is_valid_candidate(&first, &second, &third) {
            return Err(StoreError::ValidationRejected);
        }
        let ghost prev = self@;
        let ghost e = EntryView { first: first@, second: second@, third: third@ };
        self.entries.push(Entry { first, second, third });
        proof {
            assert(self@ =~= prev.push(e));
            assert forall|i: int, j: int| 0 <= i < j < self@.len() implies self@[i] != self@[j] by {
                if j == prev.len() {
                    assert(!prev.contains(e));
                    assert(prev[i] != e);
                }
            }
        }
        Ok(())
    }

    /// Removes the entry at `index`; later entries shift down by one. Rejected
    /// when the index is out of bounds.
    pub fn delete_at(&mut self, index: usize) -> (r: Result<(), StoreError>)
        requires
            old(self).wf(),
        ensures
            final(self).wf(),
            index < old(self)@.len() ==> (r is Ok && final(self)@ == old(self)@.remove(
                index as int,
            )),
            index >= old(self)@.len() ==> (r == Err::<(), StoreError>(StoreError::IndexOutOfRange)
                && final(self)@ == old(self)@),
    {
        if index >= self.entries.len() {
            return Err(StoreError::IndexOutOfRange);
        }
        let ghost prev = self@;
        self.entries.remove(index);
        proof {
            assert(self@ =~= prev.remove(index as int));
            prev.remove_ensures(index as int);
        }
        Ok(())
    }

    /// The store's durable form: every entry flattened into its three forms,
    /// in entry order. A persistence collaborator stores these plain labels
    /// and hands them back to `import_entries` on load.
    pub fn export_entries(&self) -> (r: Vec<String>)
        ensures
            labels_of(r@) == grid_of(self@),
    {
        let n = self.entries.len();
        let mut out: Vec<String> = Vec::new();
        proof {
            assert(labels_of(out@) =~= grid_of(self@.take(0)));
        }
        let mut i: usize = 0;
        while i < n
            invariant
                n == self.entries.len(),
                0 <= i <= n,
                labels_of(out@) == grid_of(self@.take(i as int)),
            decreases n - i,
        {
            let ghost before = out@;
            out.push(self.entries[i].first.clone());
            out.push(self.entries[i].second.clone());
            out.push(self.entries[i].third.clone());
            proof {
                let ghost e = self@[i as int];
                assert(self@.take(i as int + 1).drop_last() =~= self@.take(i as int));
                assert(self@.take(i as int + 1).last() == e);
                assert(labels_of(out@) =~= labels_of(before) + seq![e.first, e.second, e.third]);
            }
            i += 1;
        }
        proof {
            assert(self@.take(n as int) =~= self@);
        }
        out
    }

    /// Reads a store back from its durable flat form. Rejected when the label
    /// count is not a whole number of triples, or when the triples read back
    /// would not make a well-formed store (an empty field, or a duplicate).
    pub fn import_entries(labels: &Vec<String>) -> (r: Result<EntryStore, StoreError>)
        ensures
            (r is Ok) == import_ok(labels_of(labels@)),
            r matches Ok(store) ==> store@ == entries_of_labels(labels_of(labels@)) && store.wf(),
            !(r is Ok) ==> r == Err::<EntryStore, StoreError>(StoreError::ValidationRejected),
    {
        let ghost flat = labels_of(labels@);
        let n = labels.len();
        if n % 3 != 0 {
            return Err(StoreError::ValidationRejected);
        }
        let m = n / 3;
        let ghost read = entries_of_labels(flat);
        let mut store = EntryStore::new();
        proof {
            assert(store@ =~= read.take(0));
        }
        let mut i: usize = 0;
        while i < m
            invariant
                store.wf(),
                n == labels@.len(),
                flat == labels_of(labels@),
                read == entries_of_labels(flat),
                n % 3 == 0,
                m == n / 3,
                0 <= i <= m,
                store@ == read.take(i as int),
            decreases m - i,
        {
            let first = labels[3 * i].clone();
            let second = labels[3 * i + 1].clone();
            let third = labels[3 * i + 2].clone();
            let ghost e = EntryView { first: first@, second: second@, third: third@ };
            let ghost seen = store@;
            proof {
                assert(read[i as int] == e);
            }
            match store.insert(first, second, third) {
                Ok(_) => {
                    proof {
                        assert(store@ =~= read.take(i as int + 1));
                    }
                },
                Err(_) => {
                    proof {
                        if !entry_wf(e) {
                            assert(!entry_wf(read[i as int]));
                        } else {
                            let j = choose|j: int| 0 <= j < seen.len() && seen[j] == e;
                            assert(read[j] == read[i as int]);
                        }
                        assert(!store_wf(read));
                    }
                    return Err(StoreError::ValidationRejected);
                },
            }
            i += 1;
        }
        proof {
            assert(read.take(m as int) =~= read);
        }
        Ok(store)
    }
}

} // verus!
