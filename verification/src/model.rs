//! The in-memory store: named tables, each with an ordered column list
//! and a sequence of rows. A row maps column names to text values; the
//! store maps table names to tables. Both are kept as vectors of pairs
//! and abstracted to `Map`s, where a later binding for the same key
//! shadows an earlier one.

use vstd::prelude::*;

verus! {

/// Folds a sequence of key/value pairs into a map; a later pair for
/// the same key wins.
pub open spec fn pairs_to_map<V>(s: Seq<(Seq<u8>, V)>) -> Map<Seq<u8>, V>
    decreases s.len(),
{
    if s.len() == 0 {
        Map::empty()
    } else {
        pairs_to_map(s.drop_last()).insert(s.last().0, s.last().1)
    }
}

/// A key is in the folded map exactly when some pair carries it.
pub proof fn lemma_map_contains<V>(s: Seq<(Seq<u8>, V)>, k: Seq<u8>)
    ensures
        pairs_to_map(s).contains_key(k) <==> (exists|i: int|
            0 <= i < s.len() && (#[trigger] s[i]).0 == k),
    decreases s.len(),
{
    if s.len() == 0 {
    } else {
        lemma_map_contains(s.drop_last(), k);
        if s.last().0 == k {
            assert(s[s.len() - 1].0 == k);
        } else if pairs_to_map(s.drop_last()).contains_key(k) {
            let i = choose|i: int| 0 <= i < s.drop_last().len() && (#[trigger] s.drop_last()[i]).0
                == k;
            assert(s[i].0 == k);
        } else if exists|i: int| 0 <= i < s.len() && (#[trigger] s[i]).0 == k {
            let i = choose|i: int| 0 <= i < s.len() && (#[trigger] s[i]).0 == k;
            assert(s.drop_last()[i].0 == k);
        }
    }
}

/// The folded map carries, for each key, the value of the last pair
/// with that key.
pub proof fn lemma_map_value<V>(s: Seq<(Seq<u8>, V)>, i: int)
    requires
        0 <= i < s.len(),
        forall|j: int| i < j < s.len() ==> (#[trigger] s[j]).0 != s[i].0,
    ensures
        pairs_to_map(s).contains_key(s[i].0),
        pairs_to_map(s)[s[i].0] == s[i].1,
    decreases s.len(),
{
    if i == s.len() - 1 {
    } else {
        assert(s.drop_last()[i] == s[i]);
        assert(forall|j: int| i < j < s.drop_last().len() ==> (#[trigger] s.drop_last()[j]).0
            == s[j].0);
        lemma_map_value(s.drop_last(), i);
        assert(s.last().0 != s[i].0);
    }
}

/// Removing the pair at `i` removes its key from the folded map, when
/// the keys are pairwise distinct.
pub proof fn lemma_map_remove<V>(s: Seq<(Seq<u8>, V)>, i: int)
    requires
        0 <= i < s.len(),
        forall|a: int, b: int| 0 <= a < b < s.len() ==> (#[trigger] s[a]).0 != (#[trigger] s[b]).0,
    ensures
        pairs_to_map(s.remove(i)) == pairs_to_map(s).remove(s[i].0),
    decreases s.len(),
{
    let k = s[i].0;
    if i == s.len() - 1 {
        assert(s.remove(i) =~= s.drop_last());
        lemma_map_contains(s.drop_last(), k);
        if pairs_to_map(s.drop_last()).contains_key(k) {
            let j = choose|j: int| 0 <= j < s.drop_last().len() && (#[trigger] s.drop_last()[j]).0
                == k;
            assert(s[j].0 == k);
            assert(false);
        }
        assert(pairs_to_map(s.drop_last()).insert(k, s[i].1).remove(k) =~= pairs_to_map(
            s.drop_last(),
        ));
    } else {
        assert(forall|a: int, b: int| 0 <= a < b < s.drop_last().len() ==> (#[trigger] s.drop_last(
        )[a]).0 != (#[trigger] s.drop_last()[b]).0);
        assert(s.drop_last()[i] == s[i]);
        lemma_map_remove(s.drop_last(), i);
        assert(s.remove(i).drop_last() =~= s.drop_last().remove(i));
        assert(s.remove(i).last() == s.last());
        assert(s.last().0 != k);
        assert(pairs_to_map(s.drop_last()).remove(k).insert(s.last().0, s.last().1)
            =~= pairs_to_map(s.drop_last()).insert(s.last().0, s.last().1).remove(k));
    }
}

/// Appending a pair inserts its binding into the folded map.
pub proof fn lemma_map_push<V>(s: Seq<(Seq<u8>, V)>, p: (Seq<u8>, V))
    ensures
        pairs_to_map(s.push(p)) == pairs_to_map(s).insert(p.0, p.1),
{
    assert(s.push(p).drop_last() =~= s);
    assert(s.push(p).last() == p);
}

/// One stored row: column name / value pairs, laid down positionally
/// when the row is inserted.
#[derive(Clone, Debug, PartialEq, Eq)]
pub struct Row {
    pub cells: Vec<(Vec<u8>, Vec<u8>)>,
}

impl View for Row {
    type V = Map<Seq<u8>, Seq<u8>>;

    open spec fn view(&self) -> Map<Seq<u8>, Seq<u8>> {
        pairs_to_map(self.cells@.map_values(|c: (Vec<u8>, Vec<u8>)| (c.0@, c.1@)))
    }
}

/// A named table: declared columns in order, then the inserted rows.
#[derive(Clone, Debug, PartialEq, Eq)]
pub struct Table {
    pub name: Vec<u8>,
    pub columns: Vec<Vec<u8>>,
    pub rows: Vec<Row>,
}

/// The mathematical shape of a table.
pub ghost struct TableView {
    pub name: Seq<u8>,
    pub columns: Seq<Seq<u8>>,
    pub rows: Seq<Map<Seq<u8>, Seq<u8>>>,
}

impl View for Table {
    type V = TableView;

    open spec fn view(&self) -> TableView {
        TableView {
            name: self.name@,
            columns: self.columns.deep_view(),
            rows: self.rows@.map_values(|r: Row| r@),
        }
    }
}

/// The store: every table of one run, keyed by its exact name.
#[derive(Clone, Debug, PartialEq, Eq)]
pub struct Store {
    tables: Vec<Table>,
}

impl View for Store {
    type V = Map<Seq<u8>, TableView>;

    closed spec fn view(&self) -> Map<Seq<u8>, TableView> {
        pairs_to_map(self.tables@.map_values(|t: Table| (t.name@, t@)))
    }
}

impl Store {
    /// Table names are pairwise distinct, so the vector of tables and
    /// the map it stands for carry the same information.
    pub closed spec fn wf(&self) -> bool {
        forall|a: int, b: int|
            0 <= a < b < self.tables@.len() ==> (#[trigger] self.tables@[a]).name@ != (
            #[trigger] self.tables@[b]).name@
    }

    /// The empty store.
    pub fn new() -> (r: Store)
        ensures
            r@ == Map::<Seq<u8>, TableView>::empty(),
            r.wf(),
    {
        let r = Store { tables: Vec::new() };
        proof {
            assert(r.tables@.map_values(|t: Table| (t.name@, t@)) =~= Seq::<(
                Seq<u8>,
                TableView,
            )>::empty());
        }
        r
    }

    /// The position of the table called `name`, if any.
    fn find(&self, name: &[u8]) -> (r: Option<usize>)
        requires
            self.wf(),
        ensures
            r matches Option::Some(i) ==> i < self.tables@.len() && self.tables@[i as int].name@
                == name@ && self@.contains_key(name@) && self@[name@] == self.tables@[i as int]@,
            r is None ==> !self@.contains_key(name@),
    {
        let ghost pairs = self.tables@.map_values(|t: Table| (t.name@, t@));
        let n = self.tables.len();
        let mut i: usize = 0;
        while i < n
            invariant
                0 <= i <= n == self.tables@.len(),
                self.wf(),
                pairs == self.tables@.map_values(|t: Table| (t.name@, t@)),
                forall|j: int| 0 <= j < i ==> (#[trigger] self.tables@[j]).name@ != name@,
            decreases n - i,
        {
            if crate::text::bytes_eq(self.tables[i].name.as_slice(), name) {
                proof {
                    assert(pairs[i as int].0 == name@);
                    lemma_map_value(pairs, i as int);
                }
                return Some(i);
            }
            i = i + 1;
        }
        proof {
            lemma_map_contains(pairs, name@);
        }
        None
    }

    /// Looks a table up by its exact name.
    pub fn get_table(&self, name: &[u8]) -> (r: Option<&Table>)
        requires
            self.wf(),
        ensures
            r matches Option::Some(t) ==> self@.contains_key(name@) && t@ == self@[name@]
                && t.name@ == name@,
            r is None ==> !self@.contains_key(name@),
    {
        match self.find(name) {
            Some(i) => Some(&self.tables[i]),
            None => None,
        }
    }

    /// Removes the table called `name`; reports whether one was there.
    pub fn remove_table(&mut self, name: &[u8]) -> (r: bool)
        requires
            old(self).wf(),
        ensures
            final(self).wf(),
            r == old(self)@.contains_key(name@),
            final(self)@ == old(self)@.remove(name@),
    {
        let ghost pairs = self.tables@.map_values(|t: Table| (t.name@, t@));
        match self.find(name) {
            Some(i) => {
                self.tables.remove(i);
                proof {
                    lemma_map_remove(pairs, i as int);
                    assert(self.tables@.map_values(|t: Table| (t.name@, t@)) =~= pairs.remove(
                        i as int,
                    ));
                }
                true
            },
            None => {
                proof {
                    assert(self@ =~= old(self)@.remove(name@));
                }
                false
            },
        }
    }

    /// Puts `t` into the store under its own name, replacing any table
    /// that carried that name before.
    pub fn put_table(&mut self, t: Table) -> (r: bool)
        requires
            old(self).wf(),
        ensures
            final(self).wf(),
            r == old(self)@.contains_key(t.name@),
            final(self)@ == old(self)@.insert(t.name@, t@),
    {
        let had = self.remove_table(t.name.as_slice());
        let ghost mid = self.tables@.map_values(|tt: Table| (tt.name@, tt@));
        let ghost tv = t@;
        let ghost tn = t.name@;
        proof {
            lemma_map_contains(mid, tn);
        }
        self.tables.push(t);
        proof {
            lemma_map_push(mid, (tn, tv));
            assert(self.tables@.map_values(|tt: Table| (tt.name@, tt@)) =~= mid.push((tn, tv)));
            assert(self@ =~= old(self)@.insert(tn, tv));
            assert forall|a: int, b: int|
                0 <= a < b < self.tables@.len() implies (#[trigger] self.tables@[a]).name@ != (
            #[trigger] self.tables@[b]).name@ by {
                if b == self.tables@.len() - 1 {
                    assert(mid[a].0 == self.tables@[a].name@);
                }
            }
        }
        had
    }

    /// Takes the table called `name` out of the store, if it is there.
    pub fn take_table(&mut self, name: &[u8]) -> (r: Option<Table>)
        requires
            old(self).wf(),
        ensures
            final(self).wf(),
            r matches Option::Some(t) ==> old(self)@.contains_key(name@) && t@ == old(
                self,
            )@[name@] && t.name@ == name@ && final(self)@ == old(self)@.remove(name@),
            r is None ==> !old(self)@.contains_key(name@) && final(self)@ == old(self)@,
    {
        let ghost pairs = self.tables@.map_values(|t: Table| (t.name@, t@));
        match self.find(name) {
            Some(i) => {
                let t = self.tables.remove(i);
                proof {
                    lemma_map_remove(pairs, i as int);
                    assert(self.tables@.map_values(|tt: Table| (tt.name@, tt@)) =~= pairs.remove(
                        i as int,
                    ));
                }
                Some(t)
            },
            None => {
                proof {
                    assert(self@ =~= old(self)@);
                }
                None
            },
        }
    }

    /// The tables, in their stored order; their names are distinct and
    /// fold to exactly this store's map.
    pub fn tables(&self) -> (r: &Vec<Table>)
        requires
            self.wf(),
        ensures
            pairs_to_map(r@.map_values(|t: Table| (t.name@, t@))) == self@,
            forall|a: int, b: int| 0 <= a < b < r@.len() ==> (#[trigger] r@[a]).name@ != (
            #[trigger] r@[b]).name@,
    {
        &self.tables
    }
}

/// Rebuilds a store from a list of tables, as the persistence
/// collaborator hands them back at startup: tables are put in listed
/// order, so a later table under a repeated name wins, exactly as the
/// folded map says.
pub fn rebuild_store(tables: Vec<Table>) -> (r: Store)
    ensures
        r.wf(),
        r@ == pairs_to_map(tables@.map_values(|t: Table| (t.name@, t@))),
{
    let ghost all = tables@.map_values(|t: Table| (t.name@, t@));
    let mut r = Store::new();
    let mut rest = tables;
    let n0 = rest.len();
    proof {
        assert(rest@.len() == n0);
    }
    let mut done: usize = 0;
    let ghost total = all.len();
    while rest.len() > 0
        invariant
            done + rest@.len() == total == all.len(),
            done + rest@.len() <= usize::MAX,
            r.wf(),
            r@ == pairs_to_map(all.subrange(0, done as int)),
            forall|j: int| 0 <= j < rest@.len() ==> all[done + j] == (
                (#[trigger] rest@[j]).name@,
                rest@[j]@,
            ),
        decreases rest@.len(),
    {
        let t = rest.remove(0);
        let _had = r.put_table(t);
        proof {
            lemma_map_push(all.subrange(0, done as int), all[done as int]);
            assert(all.subrange(0, done + 1) =~= all.subrange(0, done as int).push(
                all[done as int],
            ));
        }
        done = done + 1;
    }
    proof {
        assert(all.subrange(0, total as int) =~= all);
    }
    r
}

/// Copies a byte vector.
pub fn copy_bytes(v: &Vec<u8>) -> (r: Vec<u8>)
    ensures
        r@ == v@,
{
    let r = crate::text::copy_range(v.as_slice(), 0, v.len());
    proof {
        assert(v@.subrange(0, v@.len() as int) =~= v@);
    }
    r
}

/// The row that pairs declared columns with parsed values position by
/// position; with a duplicated column name the later position wins.
pub open spec fn row_of(cols: Seq<Seq<u8>>, vals: Seq<Seq<u8>>) -> Map<Seq<u8>, Seq<u8>> {
    pairs_to_map(Seq::new(cols.len(), |i: int| (cols[i], vals[i])))
}

/// Builds the row for `vals` inserted under the declared `cols`.
pub fn build_row(cols: &Vec<Vec<u8>>, vals: &Vec<Vec<u8>>) -> (r: Row)
    requires
        cols@.len() == vals@.len(),
    ensures
        r@ == row_of(cols.deep_view(), vals.deep_view()),
{
    let n = cols.len();
    let mut cells: Vec<(Vec<u8>, Vec<u8>)> = Vec::new();
    let mut i: usize = 0;
    while i < n
        invariant
            0 <= i <= n == cols@.len() == vals@.len(),
            cells@.len() == i,
            forall|j: int| 0 <= j < i ==> (#[trigger] cells@[j]).0@ == cols@[j]@ && cells@[j].1@
                == vals@[j]@,
        decreases n - i,
    {
        let c = copy_bytes(&cols[i]);
        let v = copy_bytes(&vals[i]);
        cells.push((c, v));
        i = i + 1;
    }
    let r = Row { cells };
    proof {
        let lhs = r.cells@.map_values(|c: (Vec<u8>, Vec<u8>)| (c.0@, c.1@));
        let rhs = Seq::new(
            cols.deep_view().len(),
            |i: int| (cols.deep_view()[i], vals.deep_view()[i]),
        );
        assert forall|j: int| 0 <= j < n implies lhs[j] == rhs[j] by {
            assert(cols.deep_view()[j] =~= cols@[j]@);
            assert(vals.deep_view()[j] =~= vals@[j]@);
        }
        assert(lhs =~= rhs);
    }
    r
}

impl Row {
    /// The value this row holds for `col`, if any.
    pub fn get(&self, col: &[u8]) -> (r: Option<&Vec<u8>>)
        ensures
            r matches Option::Some(v) ==> self@.contains_key(col@) && v@ == self@[col@],
            r is None ==> !self@.contains_key(col@),
    {
        let ghost pairs = self.cells@.map_values(|c: (Vec<u8>, Vec<u8>)| (c.0@, c.1@));
        let n = self.cells.len();
        let mut i: usize = n;
        while i > 0
            invariant
                0 <= i <= n == self.cells@.len(),
                pairs == self.cells@.map_values(|c: (Vec<u8>, Vec<u8>)| (c.0@, c.1@)),
                forall|j: int| i <= j < n ==> (#[trigger] self.cells@[j]).0@ != col@,
            decreases i,
        {
            i = i - 1;
            if crate::text::bytes_eq(self.cells[i].0.as_slice(), col) {
                proof {
                    assert(pairs[i as int].0 == col@);
                    lemma_map_value(pairs, i as int);
                }
                return Some(&self.cells[i].1);
            }
        }
        proof {
            lemma_map_contains(pairs, col@);
        }
        None
    }
}

} // verus!
