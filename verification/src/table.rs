//! Rows keyed by text, one row per key: the in-memory form of a stored
//! table whose rows are found by a text key (a record id, a group name, a
//! tombstone key).
use vstd::prelude::*;
use crate::strs::str_eq;

verus! {

/// A table of values keyed by text, at most one row per key.
#[derive(Debug)]
pub struct Table<V> {
    rows: Vec<(String, V)>,
}

/// The map the rows hold.
pub open spec fn rows_map<V: View>(rows: Seq<(String, V)>) -> Map<Seq<char>, V::V>
    decreases rows.len(),
{
    if rows.len() == 0 {
        Map::empty()
    } else {
        rows_map(rows.drop_last()).insert(rows.last().0@, rows.last().1@)
    }
}

/// No key occurs in two rows.
pub open spec fn distinct_keys<V>(rows: Seq<(String, V)>) -> bool {
    forall|i: int, j: int| 0 <= i < j < rows.len() ==> (#[trigger] rows[i]).0@ != (#[trigger] rows[j]).0@
}

proof fn lemma_rows_absent<V: View>(rows: Seq<(String, V)>, k: Seq<char>)
    requires
        forall|j: int| 0 <= j < rows.len() ==> (#[trigger] rows[j]).0@ != k,
    ensures
        !rows_map(rows).contains_key(k),
    decreases rows.len(),
{
    if rows.len() > 0 {
        lemma_rows_absent(rows.drop_last(), k);
    }
}

proof fn lemma_rows_contains<V: View>(rows: Seq<(String, V)>, k: Seq<char>)
    requires
        rows_map(rows).contains_key(k),
    ensures
        exists|i: int| 0 <= i < rows.len() && (#[trigger] rows[i]).0@ == k,
    decreases rows.len(),
{
    if rows.len() > 0 && rows.last().0@ != k {
        lemma_rows_contains(rows.drop_last(), k);
        let i = choose|i: int| 0 <= i < rows.drop_last().len() && (#[trigger] rows.drop_last()[i]).0@ == k;
        assert(rows[i] == rows.drop_last()[i]);
    } else if rows.len() > 0 {
        assert(rows[rows.len() - 1].0@ == k);
    }
}

proof fn lemma_rows_found<V: View>(rows: Seq<(String, V)>, i: int)
    requires
        distinct_keys(rows),
        0 <= i < rows.len(),
    ensures
        rows_map(rows).contains_key(rows[i].0@),
        rows_map(rows)[rows[i].0@] == rows[i].1@,
    decreases rows.len(),
{
    if i < rows.len() - 1 {
        assert(rows.drop_last()[i] == rows[i]);
        assert(rows[i].0@ != rows[rows.len() - 1].0@);
        lemma_rows_found(rows.drop_last(), i);
    }
}

proof fn lemma_rows_update<V: View>(rows: Seq<(String, V)>, i: int, row: (String, V))
    requires
        distinct_keys(rows),
        0 <= i < rows.len(),
        row.0@ == rows[i].0@,
    ensures
        distinct_keys(rows.update(i, row)),
        rows_map(rows.update(i, row)) == rows_map(rows).insert(row.0@, row.1@),
    decreases rows.len(),
{
    let u = rows.update(i, row);
    assert forall|a: int, b: int| 0 <= a < b < u.len() implies (#[trigger] u[a]).0@ != (#[trigger] u[b]).0@ by {
        assert(rows[a].0@ != rows[b].0@);
    }
    if i == rows.len() - 1 {
        assert(u.drop_last() =~= rows.drop_last());
        assert(rows_map(u) =~= rows_map(rows).insert(row.0@, row.1@));
    } else {
        let last = rows[rows.len() - 1];
        assert(u.drop_last() =~= rows.drop_last().update(i, row));
        assert(rows[i].0@ != last.0@);
        lemma_rows_update(rows.drop_last(), i, row);
        assert(rows_map(u) =~= rows_map(rows).insert(row.0@, row.1@));
    }
}

proof fn lemma_rows_remove<V: View>(rows: Seq<(String, V)>, i: int)
    requires
        distinct_keys(rows),
        0 <= i < rows.len(),
    ensures
        distinct_keys(rows.remove(i)),
        rows_map(rows.remove(i)) == rows_map(rows).remove(rows[i].0@),
    decreases rows.len(),
{
    let r = rows.remove(i);
    let k = rows[i].0@;
    assert forall|a: int, b: int| 0 <= a < b < r.len() implies (#[trigger] r[a]).0@ != (#[trigger] r[b]).0@ by {
        let a2 = if a < i { a } else { a + 1 };
        let b2 = if b < i { b } else { b + 1 };
        assert(r[a] == rows[a2]);
        assert(r[b] == rows[b2]);
        assert(rows[a2].0@ != rows[b2].0@);
    }
    if i == rows.len() - 1 {
        assert(r =~= rows.drop_last());
        assert forall|j: int| 0 <= j < rows.drop_last().len() implies (#[trigger] rows.drop_last()[j]).0@ != k by {
            assert(rows.drop_last()[j] == rows[j]);
            assert(rows[j].0@ != rows[i].0@);
        }
        lemma_rows_absent(rows.drop_last(), k);
        assert(rows_map(r) =~= rows_map(rows).remove(k));
    } else {
        let last = rows[rows.len() - 1];
        assert(r.drop_last() =~= rows.drop_last().remove(i));
        assert(r.last() == last);
        assert(k != last.0@);
        assert(rows.drop_last()[i] == rows[i]);
        lemma_rows_remove(rows.drop_last(), i);
        assert(rows_map(r) =~= rows_map(rows).remove(k));
    }
}

proof fn lemma_rows_len<V: View>(rows: Seq<(String, V)>)
    requires
        distinct_keys(rows),
    ensures
        rows_map(rows).dom().finite(),
        rows_map(rows).dom().len() == rows.len(),
    decreases rows.len(),
{
    if rows.len() > 0 {
        let d = rows.drop_last();
        let k = rows.last().0@;
        assert forall|j: int| 0 <= j < d.len() implies (#[trigger] d[j]).0@ != k by {
            assert(d[j] == rows[j]);
            assert(rows[j].0@ != rows[rows.len() - 1].0@);
        }
        lemma_rows_absent(d, k);
        lemma_rows_len(d);
        assert(rows_map(rows).dom() =~= rows_map(d).dom().insert(k));
    }
}

impl<V: View> View for Table<V> {
    type V = Map<Seq<char>, V::V>;

    closed spec fn view(&self) -> Map<Seq<char>, V::V> {
        rows_map(self.rows@)
    }
}

impl<V> Table<V> {
    #[verifier::type_invariant]
    spec fn one_row_per_key(self) -> bool {
        distinct_keys(self.rows@)
    }

    /// The keys in the order the rows are held.
    pub closed spec fn key_seq(self) -> Seq<Seq<char>> {
        self.rows@.map_values(|r: (String, V)| r.0@)
    }
}

impl<V: View> Table<V> {
    /// An empty table.
    pub fn new() -> (t: Self)
        ensures
            t@ == Map::<Seq<char>, V::V>::empty(),
    {
        Table { rows: Vec::new() }
    }

    /// The row of `key`, by position.
    fn position(&self, key: &str) -> (r: Option<usize>)
        ensures
            match r {
                Some(i) => i < self.rows@.len() && self.rows@[i as int].0@ == key@,
                None => forall|j: int| 0 <= j < self.rows@.len() ==> (#[trigger] self.rows@[j]).0@ != key@,
            },
    {
        let mut i: usize = 0;
        while i < self.rows.len()
            invariant
                i <= self.rows@.len(),
                forall|j: int| 0 <= j < i ==> (#[trigger] self.rows@[j]).0@ != key@,
            decreases self.rows@.len() - i,
        {
            if str_eq(self.rows[i].0.as_str(), key) {
                return Some(i);
            }
            i += 1;
        }
        None
    }

    /// The number of rows; the keys in row order are each in the table once.
    pub fn len(&self) -> (n: usize)
        ensures
            self@.dom().finite(),
            n == self@.dom().len(),
            n == self.key_seq().len(),
            forall|i: int, j: int| 0 <= i < j < n ==> self.key_seq()[i] != self.key_seq()[j],
            forall|i: int| 0 <= i < n ==> self@.contains_key(#[trigger] self.key_seq()[i]),
            forall|k: Seq<char>| #[trigger] self@.contains_key(k) ==> exists|i: int| 0 <= i < n && self.key_seq()[i] == k,
    {
        proof {
            use_type_invariant(self);
            lemma_rows_len(self.rows@);
            assert forall|i: int, j: int| 0 <= i < j < self.rows@.len() implies self.key_seq()[i] != self.key_seq()[j] by {
                assert(self.rows@[i].0@ != self.rows@[j].0@);
            }
            assert forall|i: int| 0 <= i < self.rows@.len() implies self@.contains_key(#[trigger] self.key_seq()[i]) by {
                lemma_rows_found(self.rows@, i);
            }
            assert forall|k: Seq<char>| #[trigger] self@.contains_key(k) implies exists|i: int|
                0 <= i < self.rows@.len() && self.key_seq()[i] == k by {
                lemma_rows_contains(self.rows@, k);
                let i = choose|i: int| 0 <= i < self.rows@.len() && (#[trigger] self.rows@[i]).0@ == k;
                assert(self.key_seq()[i] == k);
            }
        }
        self.rows.len()
    }

    /// The row at position `i` in row order.
    pub fn entry(&self, i: usize) -> (r: (&String, &V))
        requires
            i < self.key_seq().len(),
        ensures
            r.0@ == self.key_seq()[i as int],
            self@.contains_key(r.0@),
            r.1@ == self@[r.0@],
    {
        proof {
            use_type_invariant(self);
            lemma_rows_found(self.rows@, i as int);
        }
        (&self.rows[i].0, &self.rows[i].1)
    }

    /// The value of `key`, if any.
    pub fn get(&self, key: &str) -> (r: Option<&V>)
        ensures
            match r {
                Some(v) => self@.contains_key(key@) && v@ == self@[key@],
                None => !self@.contains_key(key@),
            },
    {
        proof {
            use_type_invariant(self);
        }
        match self.position(key) {
            Some(i) => {
                proof {
                    lemma_rows_found(self.rows@, i as int);
                }
                Some(&self.rows[i].1)
            },
            None => {
                proof {
                    lemma_rows_absent(self.rows@, key@);
                }
                None
            },
        }
    }

    /// Sets the value of `key`; a key already present keeps its place.
    pub fn insert(&mut self, key: String, value: V)
        ensures
            final(self)@ == old(self)@.insert(key@, value@),
            old(self)@.contains_key(key@) ==> final(self).key_seq() == old(self).key_seq(),
    {
        proof {
            use_type_invariant(&*self);
        }
        match self.position(key.as_str()) {
            Some(i) => {
                let ghost before = self.rows@;
                proof {
                    lemma_rows_update(self.rows@, i as int, (key, value));
                }
                let mut rows: Vec<(String, V)> = Vec::new();
                std::mem::swap(&mut rows, &mut self.rows);
                rows.set(i, (key, value));
                self.rows = rows;
                assert(self.key_seq() =~= before.map_values(|r: (String, V)| r.0@));
            },
            None => {
                let ghost before = self.rows@;
                proof {
                    lemma_rows_absent(before, key@);
                }
                let mut rows: Vec<(String, V)> = Vec::new();
                std::mem::swap(&mut rows, &mut self.rows);
                rows.push((key, value));
                assert(rows@.drop_last() =~= before);
                self.rows = rows;
            },
        }
    }

    /// Removes `key`.
    pub fn remove(&mut self, key: &str)
        ensures
            final(self)@ == old(self)@.remove(key@),
    {
        proof {
            use_type_invariant(&*self);
        }
        match self.position(key) {
            Some(i) => {
                proof {
                    lemma_rows_remove(self.rows@, i as int);
                }
                let mut rows: Vec<(String, V)> = Vec::new();
                std::mem::swap(&mut rows, &mut self.rows);
                rows.remove(i);
                self.rows = rows;
            },
            None => {
                proof {
                    lemma_rows_absent(self.rows@, key@);
                    assert(self@ =~= self@.remove(key@));
                }
            },
        }
    }
}

/// The message of a failed store operation.
pub open spec fn store_error(detail: Seq<char>) -> Seq<char> {
    "数据库操作失败: "@ + detail
}

/// The detail of a refused argument.
pub open spec fn invalid_argument(detail: Seq<char>) -> Seq<char> {
    "Invalid parameter name: "@ + detail
}

/// The detail of a row that is not there.
pub open spec fn no_rows() -> Seq<char> {
    "Query returned no rows"@
}

/// `store_error(invalid_argument(detail))` as text.
pub fn refused_argument_error(detail: &str) -> (e: String)
    ensures
        e@ == store_error(invalid_argument(detail@)),
{
    let mut e = crate::strs::string_from_str("数据库操作失败: ");
    crate::strs::push_str(&mut e, "Invalid parameter name: ");
    crate::strs::push_str(&mut e, detail);
    proof {
        assert(e@ =~= store_error(invalid_argument(detail@)));
    }
    e
}

/// `store_error(no_rows())` as text.
pub fn missing_row_error() -> (e: String)
    ensures
        e@ == store_error(no_rows()),
{
    let mut e = crate::strs::string_from_str("数据库操作失败: ");
    crate::strs::push_str(&mut e, "Query returned no rows");
    e
}

/// The message when no database is open.
pub open spec fn db_not_initialized() -> Seq<char> {
    "数据库未初始化"@
}

/// A failed store operation's error as reported: its detail after the
/// `store_error` prefix.
pub fn wrap_store_error(detail: &str) -> (e: String)
    ensures
        e@ == store_error(detail@),
{
    let mut e = crate::strs::string_from_str("数据库操作失败: ");
    crate::strs::push_str(&mut e, detail);
    e
}

} // verus!
