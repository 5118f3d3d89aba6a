//! Keyed tables: rows found by a text key that no two rows share.

use crate::text::{same, texts};
use vstd::prelude::*;

verus! {

/// A row of a table: a value with a key.
pub trait Row: View {
    /// The key of a row.
    spec fn key_of(v: Self::V) -> Seq<char>;

    /// The key of this row.
    fn key(&self) -> (r: &str)
        ensures
            r@ == Self::key_of(self@),
    ;
}

/// Whether no two rows have the same key.
pub open spec fn distinct_keys<R: Row>(rows: Seq<R>) -> bool {
    forall|i: int, j: int|
        0 <= i < j < rows.len() ==> R::key_of((#[trigger] rows[i])@) != R::key_of(
            (#[trigger] rows[j])@,
        )
}

/// Where the row with that key stands.
pub open spec fn stands<R: Row>(rows: Seq<R>, key: Seq<char>, i: int) -> bool {
    0 <= i < rows.len() && R::key_of(rows[i]@) == key
}

/// The rows by their keys.
pub open spec fn by_key<R: Row>(rows: Seq<R>) -> Map<Seq<char>, R::V> {
    Map::new(
        |key: Seq<char>| exists|i: int| #[trigger] stands(rows, key, i),
        |key: Seq<char>| rows[choose|i: int| #[trigger] stands(rows, key, i)]@,
    )
}

/// Whether a key comes before another in an order.
pub open spec fn earlier(order: Seq<Seq<char>>, first: Seq<char>, second: Seq<char>) -> bool {
    exists|i: int, j: int|
        0 <= i < j < order.len() && #[trigger] order[i] == first && #[trigger] order[j] == second
}

/// Whether what comes before another in one order does so in the other.
pub open spec fn in_order_of(part: Seq<Seq<char>>, whole: Seq<Seq<char>>) -> bool {
    forall|first: Seq<char>, second: Seq<char>| #[trigger]
        earlier(part, first, second) ==> earlier(whole, first, second)
}

/// A table of rows with distinct keys, in the order they were added.
pub struct Table<R: Row> {
    rows: Vec<R>,
}

impl<R: Row> View for Table<R> {
    type V = Map<Seq<char>, R::V>;

    closed spec fn view(&self) -> Map<Seq<char>, R::V> {
        by_key(self.rows@)
    }
}

proof fn lemma_by_key<R: Row>(rows: Seq<R>, i: int)
    requires
        distinct_keys(rows),
        0 <= i < rows.len(),
    ensures
        by_key(rows).contains_key(R::key_of(rows[i]@)),
        by_key(rows)[R::key_of(rows[i]@)] == rows[i]@,
{
    let key = R::key_of(rows[i]@);
    assert(stands(rows, key, i));
    let k = choose|k: int| #[trigger] stands(rows, key, k);
    assert(stands(rows, key, k));
    if k < i {
        assert(R::key_of(rows[k]@) != R::key_of(rows[i]@));
    } else if i < k {
        assert(R::key_of(rows[i]@) != R::key_of(rows[k]@));
    }
}

impl<R: Row> Table<R> {
    /// No two rows share a key.
    pub closed spec fn wf(self) -> bool {
        distinct_keys(self.rows@)
    }

    /// The rows in the order they were added.
    pub closed spec fn listed(self) -> Seq<R> {
        self.rows@
    }

    /// The keys in the order their rows were added.
    pub open spec fn order(self) -> Seq<Seq<char>> {
        Seq::new(self.listed().len(), |i: int| R::key_of(self.listed()[i]@))
    }

    /// An empty table.
    pub fn new() -> (r: Self)
        ensures
            r.wf(),
            r@ == Map::<Seq<char>, R::V>::empty(),
            r.listed() == Seq::<R>::empty(),
    {
        let rows: Vec<R> = Vec::new();
        assert(by_key(rows@) =~= Map::<Seq<char>, R::V>::empty());
        Table { rows }
    }

    /// How many rows there are.
    pub fn len(&self) -> (r: usize)
        ensures
            r == self.listed().len(),
    {
        self.rows.len()
    }

    /// The row at a position.
    pub fn at(&self, i: usize) -> (r: &R)
        requires
            self.wf(),
            i < self.listed().len(),
        ensures
            *r == self.listed()[i as int],
            self@.contains_key(R::key_of(r@)),
            self@[R::key_of(r@)] == r@,
    {
        proof {
            lemma_by_key(self.rows@, i as int);
        }
        &self.rows[i]
    }

    /// The keys of a table, in the order their rows were added.
    pub fn keys(&self) -> (r: Vec<String>)
        requires
            self.wf(),
        ensures
            texts(r@) == self.order(),
            texts(r@).no_duplicates(),
            forall|key: Seq<char>| #[trigger]
                self@.contains_key(key) <==> texts(r@).contains(key),
            texts(r@).to_set() == self@.dom(),
            self@.dom().finite(),
            self@.dom().len() == r@.len(),
    {
        let mut out: Vec<String> = Vec::new();
        let mut i: usize = 0;
        while i < self.rows.len()
            invariant
                i <= self.rows@.len(),
                out@.len() == i,
                forall|k: int| 0 <= k < i ==> (#[trigger] out@[k])@ == R::key_of(self.rows@[k]@),
            decreases self.rows@.len() - i,
        {
            out.push(self.rows[i].key().to_owned());
            i = i + 1;
        }
        proof {
            let all = texts(out@);
            assert(all =~= self.order());
            assert forall|a: int, b: int| 0 <= a < all.len() && 0 <= b < all.len() && a
                != b implies all[a] != all[b] by {
                assert(all[a] == out@[a]@ && all[b] == out@[b]@);
                if a < b {
                    assert(R::key_of(self.rows@[a]@) != R::key_of(self.rows@[b]@));
                } else {
                    assert(R::key_of(self.rows@[b]@) != R::key_of(self.rows@[a]@));
                }
            }
            assert forall|key: Seq<char>| #[trigger]
                self@.contains_key(key) <==> all.contains(key) by {
                if self@.contains_key(key) {
                    let k = choose|k: int| #[trigger] stands(self.rows@, key, k);
                    assert(stands(self.rows@, key, k));
                    assert(all[k] == out@[k]@);
                }
                if all.contains(key) {
                    let k = choose|k: int| 0 <= k < all.len() && all[k] == key;
                    assert(all[k] == out@[k]@);
                    assert(stands(self.rows@, key, k));
                }
            }
            assert(all.to_set() =~= self@.dom());
            all.unique_seq_to_set();
        }
        out
    }

    fn find(&self, key: &str) -> (r: Option<usize>)
        requires
            self.wf(),
        ensures
            match r {
                Some(i) => i < self.rows@.len() && R::key_of(self.rows@[i as int]@) == key@
                    && self@.contains_key(key@) && self@[key@] == self.rows@[i as int]@,
                None => !self@.contains_key(key@) && forall|k: int|
                    0 <= k < self.rows@.len() ==> R::key_of((#[trigger] self.rows@[k])@) != key@,
            },
    {
        let mut i: usize = 0;
        while i < self.rows.len()
            invariant
                i <= self.rows@.len(),
                distinct_keys(self.rows@),
                forall|k: int| 0 <= k < i ==> R::key_of((#[trigger] self.rows@[k])@) != key@,
            decreases self.rows@.len() - i,
        {
            if same(self.rows[i].key(), key) {
                proof {
                    lemma_by_key(self.rows@, i as int);
                }
                return Some(i);
            }
            i = i + 1;
        }
        assert(!self@.contains_key(key@)) by {
            if self@.contains_key(key@) {
                let k = choose|k: int| #[trigger] stands(self.rows@, key@, k);
                assert(stands(self.rows@, key@, k));
            }
        }
        None
    }

    /// The row with that key.
    pub fn get(&self, key: &str) -> (r: Option<&R>)
        requires
            self.wf(),
        ensures
            match r {
                Some(row) => self@.contains_key(key@) && self@[key@] == row@ && R::key_of(row@)
                    == key@ && self.listed().contains(*row),
                None => !self@.contains_key(key@),
            },
    {
        match self.find(key) {
            Some(i) => Some(&self.rows[i]),
            None => None,
        }
    }

    /// Adds a row, or replaces the row with its key.
    pub fn put(&mut self, row: R)
        requires
            old(self).wf(),
        ensures
            final(self).wf(),
            final(self)@ == old(self)@.insert(R::key_of(row@), row@),
            !old(self)@.contains_key(R::key_of(row@)) ==> final(self).listed()
                == old(self).listed().push(row),
    {
        let ghost before = self.rows@;
        let ghost key = R::key_of(row@);
        match self.find(row.key()) {
            Some(i) => {
                assert(distinct_keys(before.update(i as int, row)));
                self.rows.set(i, row);
                proof {
                    lemma_put_at(before, i as int, row);
                }
            },
            None => {
                assert(distinct_keys(before.push(row)));
                self.rows.push(row);
                proof {
                    lemma_push(before, row);
                }
            },
        }
    }

    /// Takes the row with that key out, if there is one.
    pub fn remove(&mut self, key: &str)
        requires
            old(self).wf(),
        ensures
            final(self).wf(),
            final(self)@ == old(self)@.remove(key@),
            in_order_of(final(self).order(), old(self).order()),
    {
        let ghost before = self.rows@;
        let ghost whole = self.order();
        match self.find(key) {
            Some(i) => {
                assert(distinct_keys(before.remove(i as int)));
                self.rows.remove(i);
                proof {
                    lemma_remove(before, i as int);
                    let part = self.order();
                    assert(part =~= whole.remove(i as int));
                    assert forall|first: Seq<char>, second: Seq<char>| #[trigger]
                        earlier(part, first, second) implies earlier(whole, first, second) by {
                        let (m, n) = choose|m: int, n: int|
                            0 <= m < n < part.len() && #[trigger] part[m] == first
                                && #[trigger] part[n] == second;
                        let p = if m < i {
                            m
                        } else {
                            m + 1
                        };
                        let q = if n < i {
                            n
                        } else {
                            n + 1
                        };
                        assert(whole[p] == first && whole[q] == second);
                    }
                }
            },
            None => {
                assert(self@ =~= old(self)@.remove(key@));
            },
        }
    }
}

proof fn lemma_put_at<R: Row>(rows: Seq<R>, i: int, row: R)
    requires
        distinct_keys(rows),
        0 <= i < rows.len(),
        R::key_of(rows[i]@) == R::key_of(row@),
        distinct_keys(rows.update(i, row)),
    ensures
        by_key(rows.update(i, row)) == by_key(rows).insert(R::key_of(row@), row@),
{
    let after = rows.update(i, row);
    let want = by_key(rows).insert(R::key_of(row@), row@);
    lemma_by_key(after, i);
    assert forall|key: Seq<char>| by_key(after).contains_key(key) == #[trigger] want.contains_key(
        key,
    ) by {
        if by_key(after).contains_key(key) {
            let k = choose|k: int| #[trigger] stands(after, key, k);
            assert(stands(rows, key, k) || k == i);
        }
        if by_key(rows).contains_key(key) {
            let k = choose|k: int| #[trigger] stands(rows, key, k);
            assert(stands(after, key, k));
        }
    }
    assert forall|key: Seq<char>| by_key(after).contains_key(key) implies by_key(after)[key]
        == #[trigger] want[key] by {
        let k = choose|k: int| #[trigger] stands(after, key, k);
        lemma_by_key(after, k);
        if k != i {
            lemma_by_key(rows, k);
        }
    }
    assert(by_key(after) =~= want);
}

proof fn lemma_push<R: Row>(rows: Seq<R>, row: R)
    requires
        distinct_keys(rows.push(row)),
    ensures
        by_key(rows.push(row)) == by_key(rows).insert(R::key_of(row@), row@),
{
    let after = rows.push(row);
    let want = by_key(rows).insert(R::key_of(row@), row@);
    assert(distinct_keys(rows)) by {
        assert forall|i: int, j: int| 0 <= i < j < rows.len() implies R::key_of(
            (#[trigger] rows[i])@,
        ) != R::key_of((#[trigger] rows[j])@) by {
            assert(after[i] == rows[i]);
            assert(after[j] == rows[j]);
        }
    }
    lemma_by_key(after, rows.len() as int);
    assert forall|key: Seq<char>| by_key(after).contains_key(key) == #[trigger] want.contains_key(
        key,
    ) by {
        if by_key(after).contains_key(key) {
            let k = choose|k: int| #[trigger] stands(after, key, k);
            assert(stands(rows, key, k) || k == rows.len());
        }
        if by_key(rows).contains_key(key) {
            let k = choose|k: int| #[trigger] stands(rows, key, k);
            assert(stands(after, key, k));
        }
    }
    assert forall|key: Seq<char>| by_key(after).contains_key(key) implies by_key(after)[key]
        == #[trigger] want[key] by {
        let k = choose|k: int| #[trigger] stands(after, key, k);
        lemma_by_key(after, k);
        if k < rows.len() {
            assert(after[k] == rows[k]);
            lemma_by_key(rows, k);
        }
    }
    assert(by_key(after) =~= want);
}

proof fn lemma_remove<R: Row>(rows: Seq<R>, i: int)
    requires
        distinct_keys(rows),
        0 <= i < rows.len(),
        distinct_keys(rows.remove(i)),
    ensures
        by_key(rows.remove(i)) == by_key(rows).remove(R::key_of(rows[i]@)),
{
    let after = rows.remove(i);
    let gone = R::key_of(rows[i]@);
    let want = by_key(rows).remove(gone);
    assert forall|key: Seq<char>| by_key(after).contains_key(key) == #[trigger] want.contains_key(
        key,
    ) by {
        if by_key(after).contains_key(key) {
            let k = choose|k: int| #[trigger] stands(after, key, k);
            let o = if k < i {
                k
            } else {
                k + 1
            };
            assert(after[k] == rows[o]);
            assert(stands(rows, key, o));
            if o < i {
                assert(R::key_of(rows[o]@) != R::key_of(rows[i]@));
            } else {
                assert(R::key_of(rows[i]@) != R::key_of(rows[o]@));
            }
        }
        if want.contains_key(key) {
            let o = choose|k: int| #[trigger] stands(rows, key, k);
            let k = if o < i {
                o
            } else {
                o - 1
            };
            assert(after[k] == rows[o]);
            assert(stands(after, key, k));
        }
    }
    assert forall|key: Seq<char>| by_key(after).contains_key(key) implies by_key(after)[key]
        == #[trigger] want[key] by {
        let k = choose|k: int| #[trigger] stands(after, key, k);
        lemma_by_key(after, k);
        let o = if k < i {
            k
        } else {
            k + 1
        };
        assert(after[k] == rows[o]);
        lemma_by_key(rows, o);
    }
    assert(by_key(after) =~= want);
}

} // verus!
