//! An ordered multiset: a bag that keeps duplicate values by count.
//!
//! The bag stores each distinct value once, together with how many copies of
//! it the bag holds, in a vector kept strictly sorted by the element order.
//! `len` counts copies; `set_len` counts distinct values.

use vstd::prelude::*;

use crate::order::{lt_spec, TotalOrder};

verus! {

/// How many copies of `k` the entry sequence holds, summed over all entries.
pub open spec fn seq_count<T>(s: Seq<(T, usize)>, k: T) -> nat
    decreases s.len(),
{
    if s.len() == 0 {
        0
    } else {
        (if s[0].0 == k {
            s[0].1 as nat
        } else {
            0 as nat
        }) + seq_count(s.drop_first(), k)
    }
}

/// How many copies the entry sequence holds in all.
pub open spec fn total_count<T>(s: Seq<(T, usize)>) -> nat
    decreases s.len(),
{
    if s.len() == 0 {
        0
    } else {
        s[0].1 as nat + total_count(s.drop_first())
    }
}

/// Counting distributes over concatenation.
pub proof fn lemma_seq_count_concat<T>(s1: Seq<(T, usize)>, s2: Seq<(T, usize)>, k: T)
    ensures
        seq_count(s1 + s2, k) == seq_count(s1, k) + seq_count(s2, k),
    decreases s1.len(),
{
    if s1.len() == 0 {
        assert(s1 + s2 =~= s2);
    } else {
        assert((s1 + s2).drop_first() =~= s1.drop_first() + s2);
        lemma_seq_count_concat(s1.drop_first(), s2, k);
    }
}

/// The total distributes over concatenation.
pub proof fn lemma_total_count_concat<T>(s1: Seq<(T, usize)>, s2: Seq<(T, usize)>)
    ensures
        total_count(s1 + s2) == total_count(s1) + total_count(s2),
    decreases s1.len(),
{
    if s1.len() == 0 {
        assert(s1 + s2 =~= s2);
    } else {
        assert((s1 + s2).drop_first() =~= s1.drop_first() + s2);
        lemma_total_count_concat(s1.drop_first(), s2);
    }
}

/// A sequence without `k` holds no copy of it.
pub proof fn lemma_seq_count_absent<T>(s: Seq<(T, usize)>, k: T)
    requires
        forall|j: int| 0 <= j < s.len() ==> s[j].0 != k,
    ensures
        seq_count(s, k) == 0,
    decreases s.len(),
{
    if s.len() > 0 {
        assert(s[0].0 != k);
        lemma_seq_count_absent(s.drop_first(), k);
    }
}

/// No count exceeds the total.
pub proof fn lemma_entry_le_total<T>(s: Seq<(T, usize)>, i: int)
    requires
        0 <= i < s.len(),
    ensures
        s[i].1 <= total_count(s),
    decreases s.len(),
{
    if i > 0 {
        lemma_entry_le_total(s.drop_first(), i - 1);
    }
}

/// The count of any one value does not exceed the total.
pub proof fn lemma_seq_count_le_total<T>(s: Seq<(T, usize)>, k: T)
    ensures
        seq_count(s, k) <= total_count(s),
    decreases s.len(),
{
    if s.len() > 0 {
        lemma_seq_count_le_total(s.drop_first(), k);
    }
}

/// Entries in strictly ascending value order.
pub open spec fn sorted_strict<T: TotalOrder>(s: Seq<(T, usize)>) -> bool {
    forall|i: int, j: int| 0 <= i < j < s.len() ==> lt_spec(#[trigger] s[i].0, #[trigger] s[j].0)
}

/// Counting across an insertion: the new entry's copies are added, at every
/// value.
pub proof fn lemma_counts_insert<T>(s: Seq<(T, usize)>, pos: int, e: (T, usize), k: T)
    requires
        0 <= pos <= s.len(),
    ensures
        seq_count(s.insert(pos, e), k) == seq_count(s, k) + (if e.0 == k {
            e.1 as nat
        } else {
            0 as nat
        }),
        total_count(s.insert(pos, e)) == total_count(s) + e.1,
{
    let s2 = s.insert(pos, e);
    assert(s2 =~= s.take(pos) + seq![e] + s.skip(pos));
    assert(s =~= s.take(pos) + s.skip(pos));
    lemma_seq_count_concat(s.take(pos) + seq![e], s.skip(pos), k);
    lemma_seq_count_concat(s.take(pos), seq![e], k);
    lemma_seq_count_concat(s.take(pos), s.skip(pos), k);
    lemma_total_count_concat(s.take(pos) + seq![e], s.skip(pos));
    lemma_total_count_concat(s.take(pos), seq![e]);
    lemma_total_count_concat(s.take(pos), s.skip(pos));
    assert(seq![e].drop_first() =~= Seq::<(T, usize)>::empty());
    assert(seq_count(Seq::<(T, usize)>::empty(), k) == 0);
    assert(total_count(Seq::<(T, usize)>::empty()) == 0);
    assert(seq_count(seq![e], k) == (if e.0 == k {
        e.1 as nat
    } else {
        0 as nat
    }));
    assert(total_count(seq![e]) == e.1 as nat);
}

/// Counting across a removal: the removed entry's copies are taken away, at
/// every value.
pub proof fn lemma_counts_remove<T>(s: Seq<(T, usize)>, pos: int, k: T)
    requires
        0 <= pos < s.len(),
    ensures
        seq_count(s, k) == seq_count(s.remove(pos), k) + (if s[pos].0 == k {
            s[pos].1 as nat
        } else {
            0 as nat
        }),
        total_count(s) == total_count(s.remove(pos)) + s[pos].1,
{
    let s2 = s.remove(pos);
    assert(s2 =~= s.take(pos) + s.skip(pos + 1));
    assert(s =~= s.take(pos) + seq![s[pos]] + s.skip(pos + 1));
    lemma_seq_count_concat(s.take(pos) + seq![s[pos]], s.skip(pos + 1), k);
    lemma_seq_count_concat(s.take(pos), seq![s[pos]], k);
    lemma_seq_count_concat(s.take(pos), s.skip(pos + 1), k);
    lemma_total_count_concat(s.take(pos) + seq![s[pos]], s.skip(pos + 1));
    lemma_total_count_concat(s.take(pos), seq![s[pos]]);
    lemma_total_count_concat(s.take(pos), s.skip(pos + 1));
    assert(seq![s[pos]].drop_first() =~= Seq::<(T, usize)>::empty());
    assert(seq_count(Seq::<(T, usize)>::empty(), k) == 0);
    assert(total_count(Seq::<(T, usize)>::empty()) == 0);
    assert(seq_count(seq![s[pos]], k) == (if s[pos].0 == k {
        s[pos].1 as nat
    } else {
        0 as nat
    }));
    assert(total_count(seq![s[pos]]) == s[pos].1 as nat);
}

/// Inserting between smaller and larger values keeps the entries sorted.
pub proof fn lemma_sorted_insert<T: TotalOrder>(s: Seq<(T, usize)>, pos: int, e: (T, usize))
    requires
        sorted_strict(s),
        0 <= pos <= s.len(),
        forall|j: int| 0 <= j < pos ==> lt_spec(#[trigger] s[j].0, e.0),
        forall|j: int| pos <= j < s.len() ==> lt_spec(e.0, #[trigger] s[j].0),
    ensures
        sorted_strict(s.insert(pos, e)),
{
    let s2 = s.insert(pos, e);
    assert forall|i: int, j: int| 0 <= i < j < s2.len() implies lt_spec(
        #[trigger] s2[i].0,
        #[trigger] s2[j].0,
    ) by {
        if i < pos {
            assert(s2[i] == s[i]);
        }
        if j < pos {
            assert(s2[j] == s[j]);
        }
        if i > pos {
            assert(s2[i] == s[i - 1]);
        }
        if j > pos {
            assert(s2[j] == s[j - 1]);
        }
    }
}

/// Removing an entry keeps the rest sorted.
pub proof fn lemma_sorted_remove<T: TotalOrder>(s: Seq<(T, usize)>, pos: int)
    requires
        sorted_strict(s),
        0 <= pos < s.len(),
    ensures
        sorted_strict(s.remove(pos)),
{
    let s2 = s.remove(pos);
    assert forall|i: int, j: int| 0 <= i < j < s2.len() implies lt_spec(
        #[trigger] s2[i].0,
        #[trigger] s2[j].0,
    ) by {
        let i0: int = if i < pos { i } else { i + 1 };
        let j0: int = if j < pos { j } else { j + 1 };
        assert(s2[i] == s[i0]);
        assert(s2[j] == s[j0]);
        assert(lt_spec(s[i0].0, s[j0].0));
    }
}

/// Exchanging one entry's count, keeping its value, preserves sorting and
/// positivity and shifts the counts by the difference.
pub proof fn lemma_update_entry<T: TotalOrder>(s0: Seq<(T, usize)>, pos: int, c: usize)
    requires
        sorted_strict(s0),
        0 <= pos < s0.len(),
        c >= 1,
        forall|i: int| 0 <= i < s0.len() ==> #[trigger] s0[i].1 >= 1,
    ensures
        ({
            let s2 = s0.remove(pos).insert(pos, (s0[pos].0, c));
            &&& sorted_strict(s2)
            &&& (forall|i: int| 0 <= i < s2.len() ==> #[trigger] s2[i].1 >= 1)
            &&& total_count(s2) == total_count(s0) - s0[pos].1 + c
            &&& (forall|k: T|
                seq_count(s2, k) == seq_count(s0, k) - (if s0[pos].0 == k {
                    s0[pos].1 as nat
                } else {
                    0 as nat
                }) + (if s0[pos].0 == k {
                    c as nat
                } else {
                    0 as nat
                }))
            &&& s2.len() == s0.len()
        }),
{
    let s1 = s0.remove(pos);
    let e = (s0[pos].0, c);
    let s2 = s1.insert(pos, e);
    assert forall|k: T| true implies seq_count(s2, k) == seq_count(s0, k) - (if s0[pos].0 == k {
        s0[pos].1 as nat
    } else {
        0 as nat
    }) + (if s0[pos].0 == k {
        c as nat
    } else {
        0 as nat
    }) by {
        lemma_counts_remove(s0, pos, k);
        lemma_counts_insert(s1, pos, e, k);
    }
    lemma_counts_remove(s0, pos, s0[pos].0);
    lemma_counts_insert(s1, pos, e, s0[pos].0);
    assert forall|i: int| 0 <= i < s2.len() implies #[trigger] s2[i].1 >= 1 by {
        if i != pos {
            assert(s2[i] == s0[i]);
        }
    }
    assert forall|i: int, j: int| 0 <= i < j < s2.len() implies lt_spec(
        #[trigger] s2[i].0,
        #[trigger] s2[j].0,
    ) by {
        assert(s2[i].0 == s0[i].0);
        assert(s2[j].0 == s0[j].0);
    }
}

/// Deleting one entry preserves sorting and positivity and takes its copies
/// away from the counts.
pub proof fn lemma_delete_entry<T: TotalOrder>(s0: Seq<(T, usize)>, pos: int)
    requires
        sorted_strict(s0),
        0 <= pos < s0.len(),
        forall|i: int| 0 <= i < s0.len() ==> #[trigger] s0[i].1 >= 1,
    ensures
        ({
            let s2 = s0.remove(pos);
            &&& sorted_strict(s2)
            &&& (forall|i: int| 0 <= i < s2.len() ==> #[trigger] s2[i].1 >= 1)
            &&& total_count(s2) == total_count(s0) - s0[pos].1
            &&& (forall|k: T|
                seq_count(s2, k) == seq_count(s0, k) - (if s0[pos].0 == k {
                    s0[pos].1 as nat
                } else {
                    0 as nat
                }))
        }),
{
    let s2 = s0.remove(pos);
    assert forall|k: T| true implies seq_count(s2, k) == seq_count(s0, k) - (if s0[pos].0 == k {
        s0[pos].1 as nat
    } else {
        0 as nat
    }) by {
        lemma_counts_remove(s0, pos, k);
    }
    lemma_counts_remove(s0, pos, s0[pos].0);
    lemma_sorted_remove(s0, pos);
    assert forall|i: int| 0 <= i < s2.len() implies #[trigger] s2[i].1 >= 1 by {
        if i < pos {
            assert(s2[i] == s0[i]);
        } else {
            assert(s2[i] == s0[i + 1]);
        }
    }
}

/// A bag of values with duplicates, stored as strictly sorted entries of
/// value and occurrence count.
#[derive(Clone, Debug)]
pub struct OrdBag<T: TotalOrder> {
    items: Vec<(T, usize)>,
    count: usize,
}

impl<T: TotalOrder> OrdBag<T> {
    /// The entries: each distinct value with its occurrence count, in
    /// ascending value order.
    pub closed spec fn entries(&self) -> Seq<(T, usize)> {
        self.items@
    }

    /// The total number of copies in the bag.
    pub closed spec fn count_spec(&self) -> usize {
        self.count
    }

    /// How many copies of `k` the bag holds.
    pub open spec fn multiplicity(&self, k: T) -> nat {
        seq_count(self.entries(), k)
    }

    /// The bag's invariant: entries strictly sorted by the element order,
    /// every count positive, and the cached total correct.
    pub open spec fn wf(&self) -> bool {
        &&& sorted_strict(self.entries())
        &&& (forall|i: int| 0 <= i < self.entries().len() ==> #[trigger] self.entries()[i].1 >= 1)
        &&& self.count_spec() == total_count(self.entries())
    }

    /// An entry's value determines its position: with strict sorting, equal
    /// values sit at equal indices.
    proof fn lemma_unique_key(&self, i: int, j: int)
        requires
            self.wf(),
            0 <= i < self.entries().len(),
            0 <= j < self.entries().len(),
            self.entries()[i].0 == self.entries()[j].0,
        ensures
            i == j,
    {
        if i < j {
            assert(lt_spec(self.entries()[i].0, self.entries()[j].0));
        } else if j < i {
            assert(lt_spec(self.entries()[j].0, self.entries()[i].0));
        }
    }

    /// The copies of the value at entry `i` are exactly that entry's count.
    proof fn lemma_count_at(&self, i: int)
        requires
            self.wf(),
            0 <= i < self.entries().len(),
        ensures
            self.multiplicity(self.entries()[i].0) == self.entries()[i].1,
    {
        let s = self.entries();
        let k = s[i].0;
        assert(s =~= s.take(i) + seq![s[i]] + s.skip(i + 1));
        lemma_seq_count_concat(s.take(i) + seq![s[i]], s.skip(i + 1), k);
        lemma_seq_count_concat(s.take(i), seq![s[i]], k);
        assert forall|j: int| 0 <= j < s.take(i).len() implies #[trigger] s.take(i)[j].0 != k by {
            if s.take(i)[j].0 == k {
                self.lemma_unique_key(j, i);
            }
        }
        lemma_seq_count_absent(s.take(i), k);
        assert forall|j: int| 0 <= j < s.skip(i + 1).len() implies #[trigger] s.skip(i + 1)[j].0 != k by {
            if s.skip(i + 1)[j].0 == k {
                self.lemma_unique_key(i + 1 + j, i);
            }
        }
        lemma_seq_count_absent(s.skip(i + 1), k);
        assert(seq_count(seq![s[i]], k) == s[i].1 + seq_count(seq![s[i]].drop_first(), k));
        assert(seq![s[i]].drop_first() =~= Seq::<(T, usize)>::empty());
    }

    /// A value that sits at no entry has no copies in the bag.
    proof fn lemma_count_missing(&self, k: T)
        requires
            forall|j: int| 0 <= j < self.entries().len() ==> #[trigger] self.entries()[j].0 != k,
        ensures
            self.multiplicity(k) == 0,
    {
        lemma_seq_count_absent(self.entries(), k);
    }

    /// Create an empty bag.
    pub fn new() -> (r: OrdBag<T>)
        ensures
            r.wf(),
            r.entries().len() == 0,
            r.count_spec() == 0,
            forall|k: T| r.multiplicity(k) == 0,
    {
        OrdBag { items: Vec::new(), count: 0 }
    }

    /// The number of copies in the bag; duplicates are counted.
    pub fn len(&self) -> (r: usize)
        ensures
            r == self.count_spec(),
    {
        self.count
    }

    /// The number of distinct values in the bag.
    pub fn set_len(&self) -> (r: usize)
        ensures
            r == self.entries().len(),
    {
        self.items.len()
    }

    /// Whether the bag holds nothing.
    pub fn is_empty(&self) -> (r: bool)
        ensures
            r == (self.count_spec() == 0),
    {
        self.count == 0
    }

    /// Remove everything.
    pub fn clear(&mut self)
        ensures
            final(self).wf(),
            final(self).entries().len() == 0,
            final(self).count_spec() == 0,
            forall|k: T| final(self).multiplicity(k) == 0,
    {
        self.count = 0;
        self.items.clear();
    }

    /// Find the entry holding a value equal to `value`, if any.
    fn find(&self, value: &T) -> (r: Option<usize>)
        requires
            self.wf(),
        ensures
            (match r {
                Some(i) => i < self.entries().len() && self.entries()[i as int].0 == *value,
                None => forall|j: int|
                    0 <= j < self.entries().len() ==> #[trigger] self.entries()[j].0 != *value,
            }),
    {
        let n = self.items.len();
        let mut i: usize = 0;
        while i < n
            invariant
                self.wf(),
                n == self.entries().len(),
                i <= n,
                forall|j: int| 0 <= j < i ==> #[trigger] self.entries()[j].0 != *value,
            decreases n - i,
        {
            match value.cmp_with(&self.items[i].0) {
                core::cmp::Ordering::Equal => {
                    return Some(i);
                },
                _ => {},
            }
            i = i + 1;
        }
        None
    }

    /// Find where a value equal to `value` sits, or where it would have to
    /// be inserted to keep the entries sorted.
    fn locate(&self, value: &T) -> (r: (usize, bool))
        requires
            self.wf(),
        ensures
            r.0 <= self.entries().len(),
            r.1 ==> r.0 < self.entries().len() && self.entries()[r.0 as int].0 == *value,
            !r.1 ==> {
                &&& (forall|j: int|
                    0 <= j < self.entries().len() ==> #[trigger] self.entries()[j].0 != *value)
                &&& (forall|j: int|
                    0 <= j < r.0 ==> lt_spec(#[trigger] self.entries()[j].0, *value))
                &&& (forall|j: int|
                    r.0 <= j < self.entries().len() ==> lt_spec(
                        *value,
                        #[trigger] self.entries()[j].0,
                    ))
            },
    {
        let n = self.items.len();
        let mut i: usize = 0;
        while i < n
            invariant
                self.wf(),
                n == self.entries().len(),
                i <= n,
                forall|j: int| 0 <= j < i ==> lt_spec(#[trigger] self.entries()[j].0, *value),
            decreases n - i,
        {
            match value.cmp_with(&self.items[i].0) {
                core::cmp::Ordering::Equal => {
                    return (i, true);
                },
                core::cmp::Ordering::Less => {
                    proof {
                        assert forall|j: int|
                            i <= j < self.entries().len() implies lt_spec(
                            *value,
                            #[trigger] self.entries()[j].0,
                        ) by {
                            if j > i {
                                assert(lt_spec(self.entries()[i as int].0, self.entries()[j].0));
                                T::lemma_transitive(
                                    *value,
                                    self.entries()[i as int].0,
                                    self.entries()[j].0,
                                );
                                if *value == self.entries()[j].0 {
                                    T::lemma_antisymmetric(
                                        self.entries()[i as int].0,
                                        self.entries()[j].0,
                                    );
                                }
                            }
                        }
                        assert forall|j: int|
                            0 <= j < self.entries().len() implies #[trigger] self.entries()[j].0
                            != *value by {
                            if j < i {
                                assert(lt_spec(self.entries()[j].0, *value));
                            } else {
                                assert(lt_spec(*value, self.entries()[j].0));
                            }
                        }
                    }
                    return (i, false);
                },
                core::cmp::Ordering::Greater => {},
            }
            i = i + 1;
        }
        proof {
            assert forall|j: int|
                0 <= j < self.entries().len() implies #[trigger] self.entries()[j].0 != *value by {
                assert(lt_spec(self.entries()[j].0, *value));
            }
        }
        (n, false)
    }

    /// Add one copy of a value to the bag; the number of copies previously
    /// present is returned.
    pub fn insert(&mut self, value: T) -> (r: usize)
        requires
            old(self).wf(),
            old(self).count_spec() < usize::MAX,
        ensures
            final(self).wf(),
            r == old(self).multiplicity(value),
            final(self).multiplicity(value) == old(self).multiplicity(value) + 1,
            forall|k: T| k != value ==> final(self).multiplicity(k) == old(self).multiplicity(k),
            final(self).count_spec() == old(self).count_spec() + 1,
            old(self).multiplicity(value) > 0 ==> final(self).entries().len() == old(
                self,
            ).entries().len(),
            old(self).multiplicity(value) == 0 ==> final(self).entries().len() == old(
                self,
            ).entries().len() + 1,
    {
        self.insert_many(value, 1)
    }

    /// Add several copies of a value to the bag; the number of copies
    /// previously present is returned. Adding no copies changes nothing.
    pub fn insert_many(&mut self, value: T, count: usize) -> (r: usize)
        requires
            old(self).wf(),
            old(self).count_spec() + count <= usize::MAX,
        ensures
            final(self).wf(),
            r == old(self).multiplicity(value),
            count > 0 ==> final(self).multiplicity(value) == old(self).multiplicity(value) + count,
            count == 0 ==> *final(self) == *old(self),
            forall|k: T| k != value ==> final(self).multiplicity(k) == old(self).multiplicity(k),
            final(self).count_spec() == old(self).count_spec() + count,
            (old(self).multiplicity(value) > 0 || count == 0) ==> final(self).entries().len()
                == old(self).entries().len(),
            (old(self).multiplicity(value) == 0 && count > 0) ==> final(self).entries().len()
                == old(self).entries().len() + 1,
    {
        if count == 0 {
            return self.contains(&value);
        }
        let (pos, found) = self.locate(&value);
        if found {
            proof {
                self.lemma_count_at(pos as int);
                lemma_entry_le_total(self.entries(), pos as int);
            }
            let (k, n) = self.items.remove(pos);
            self.items.insert(pos, (k, n + count));
            self.count = self.count + count;
            proof {
                let s0 = old(self).entries();
                lemma_update_entry(s0, pos as int, (n + count) as usize);
                assert(self.entries() =~= s0.remove(pos as int).insert(
                    pos as int,
                    (s0[pos as int].0, (n + count) as usize),
                ));
            }
            n
        } else {
            proof {
                self.lemma_count_missing(value);
            }
            self.items.insert(pos, (value, count));
            self.count = self.count + count;
            proof {
                let s0 = old(self).entries();
                let s2 = self.entries();
                assert(s2 =~= s0.insert(pos as int, (value, count)));
                assert forall|k2: T| true implies seq_count(s2, k2) == seq_count(s0, k2) + (
                if value == k2 {
                    count as nat
                } else {
                    0 as nat
                }) by {
                    lemma_counts_insert(s0, pos as int, (value, count), k2);
                }
                lemma_counts_insert(s0, pos as int, (value, count), value);
                lemma_sorted_insert(s0, pos as int, (value, count));
            }
            0
        }
    }

    /// Add one copy of a value, first removing every copy equal to it; the
    /// number of copies previously present is returned.
    pub fn replace(&mut self, value: T) -> (r: usize)
        requires
            old(self).wf(),
            old(self).count_spec() < usize::MAX,
        ensures
            final(self).wf(),
            r == old(self).multiplicity(value),
            final(self).multiplicity(value) == 1,
            forall|k: T| k != value ==> final(self).multiplicity(k) == old(self).multiplicity(k),
            final(self).count_spec() == old(self).count_spec() - r + 1,
    {
        let (pos, found) = self.locate(&value);
        if found {
            proof {
                self.lemma_count_at(pos as int);
                lemma_entry_le_total(self.entries(), pos as int);
            }
            let (k, n) = self.items.remove(pos);
            self.items.insert(pos, (value, 1));
            self.count = self.count - n + 1;
            proof {
                let s0 = old(self).entries();
                lemma_update_entry(s0, pos as int, 1usize);
                assert(self.entries() =~= s0.remove(pos as int).insert(
                    pos as int,
                    (s0[pos as int].0, 1usize),
                ));
            }
            n
        } else {
            proof {
                self.lemma_count_missing(value);
            }
            self.items.insert(pos, (value, 1));
            self.count = self.count + 1;
            proof {
                let s0 = old(self).entries();
                assert(self.entries() =~= s0.insert(pos as int, (value, 1usize)));
                assert forall|k2: T| true implies seq_count(self.entries(), k2) == seq_count(
                    s0,
                    k2,
                ) + (if value == k2 {
                    1 as nat
                } else {
                    0 as nat
                }) by {
                    lemma_counts_insert(s0, pos as int, (value, 1usize), k2);
                }
                lemma_counts_insert(s0, pos as int, (value, 1usize), value);
                lemma_sorted_insert(s0, pos as int, (value, 1usize));
            }
            0
        }
    }

    /// Remove one copy of a value from the bag; the number of copies
    /// previously present is returned.
    pub fn remove(&mut self, value: &T) -> (r: usize)
        requires
            old(self).wf(),
        ensures
            final(self).wf(),
            r == old(self).multiplicity(*value),
            old(self).multiplicity(*value) > 0 ==> final(self).multiplicity(*value) == old(
                self,
            ).multiplicity(*value) - 1,
            old(self).multiplicity(*value) == 0 ==> *final(self) == *old(self),
            forall|k: T| k != *value ==> final(self).multiplicity(k) == old(self).multiplicity(k),
            final(self).count_spec() == old(self).count_spec() - (if old(self).multiplicity(*value)
                > 0 {
                1int
            } else {
                0int
            }),
    {
        let (pos, found) = self.locate(value);
        if !found {
            proof {
                self.lemma_count_missing(*value);
            }
            return 0;
        }
        proof {
            self.lemma_count_at(pos as int);
            lemma_entry_le_total(self.entries(), pos as int);
        }
        let (k, n) = self.items.remove(pos);
        if n == 1 {
            self.count = self.count - 1;
            proof {
                let s0 = old(self).entries();
                lemma_delete_entry(s0, pos as int);
                assert(self.entries() =~= s0.remove(pos as int));
            }
            1
        } else {
            self.items.insert(pos, (k, n - 1));
            self.count = self.count - 1;
            proof {
                let s0 = old(self).entries();
                lemma_update_entry(s0, pos as int, (n - 1) as usize);
                assert(self.entries() =~= s0.remove(pos as int).insert(
                    pos as int,
                    (s0[pos as int].0, (n - 1) as usize),
                ));
            }
            n
        }
    }

    /// Remove one copy of a value and hand the stored value out when it was
    /// the last copy; otherwise point at the remainder, with the number of
    /// copies prior to the removal.
    pub fn try_take(&mut self, value: &T) -> (r: Result<T, Option<(&T, usize)>>)
        requires
            old(self).wf(),
        ensures
            final(self).wf(),
            (match r {
                Ok(t) => {
                    &&& old(self).multiplicity(*value) == 1
                    &&& t == *value
                    &&& final(self).multiplicity(*value) == 0
                },
                Err(Some(p)) => {
                    &&& old(self).multiplicity(*value) == p.1
                    &&& p.1 > 1
                    &&& *p.0 == *value
                    &&& final(self).multiplicity(*value) == p.1 - 1
                },
                Err(None) => {
                    &&& old(self).multiplicity(*value) == 0
                    &&& *final(self) == *old(self)
                },
            }),
            forall|k: T| k != *value ==> final(self).multiplicity(k) == old(self).multiplicity(k),
            final(self).count_spec() == old(self).count_spec() - (if old(self).multiplicity(*value)
                > 0 {
                1int
            } else {
                0int
            }),
    {
        let (pos, found) = self.locate(value);
        if !found {
            proof {
                self.lemma_count_missing(*value);
            }
            return Err(None);
        }
        proof {
            self.lemma_count_at(pos as int);
            lemma_entry_le_total(self.entries(), pos as int);
        }
        let (k, n) = self.items.remove(pos);
        if n == 1 {
            self.count = self.count - 1;
            proof {
                let s0 = old(self).entries();
                lemma_delete_entry(s0, pos as int);
                assert(self.entries() =~= s0.remove(pos as int));
            }
            Ok(k)
        } else {
            self.items.insert(pos, (k, n - 1));
            self.count = self.count - 1;
            proof {
                let s0 = old(self).entries();
                lemma_update_entry(s0, pos as int, (n - 1) as usize);
                assert(self.entries() =~= s0.remove(pos as int).insert(
                    pos as int,
                    (s0[pos as int].0, (n - 1) as usize),
                ));
            }
            let entry = &self.items[pos];
            Err(Some((&entry.0, n)))
        }
    }

    /// Remove every copy of a value; the stored value and how many copies it
    /// had are returned.
    pub fn take_all(&mut self, value: &T) -> (r: Option<(T, usize)>)
        requires
            old(self).wf(),
        ensures
            final(self).wf(),
            (match r {
                Some(p) => {
                    &&& old(self).multiplicity(*value) == p.1
                    &&& p.1 >= 1
                    &&& p.0 == *value
                    &&& final(self).multiplicity(*value) == 0
                    &&& final(self).count_spec() == old(self).count_spec() - p.1
                },
                None => {
                    &&& old(self).multiplicity(*value) == 0
                    &&& *final(self) == *old(self)
                },
            }),
            forall|k: T| k != *value ==> final(self).multiplicity(k) == old(self).multiplicity(k),
    {
        let (pos, found) = self.locate(value);
        if !found {
            proof {
                self.lemma_count_missing(*value);
            }
            return None;
        }
        proof {
            self.lemma_count_at(pos as int);
            lemma_entry_le_total(self.entries(), pos as int);
        }
        let (k, n) = self.items.remove(pos);
        self.count = self.count - n;
        proof {
            let s0 = old(self).entries();
            lemma_delete_entry(s0, pos as int);
            assert(self.entries() =~= s0.remove(pos as int));
        }
        Some((k, n))
    }

    /// Entry `p` of `orig` has been filtered into `kept` as the rule `f`
    /// directed: it keeps the smaller of its old count and the rule's answer.
    pub open spec fn retain_entry_ok<F: Fn(&T, usize) -> usize>(
        f: F,
        orig: Seq<(T, usize)>,
        kept: Seq<(T, usize)>,
        p: int,
    ) -> bool {
        exists|want: usize|
            f.ensures((&orig[p].0, orig[p].1), want) && #[trigger] vstd::math::min(
                orig[p].1 as int,
                want as int,
            ) == seq_count(kept, orig[p].0)
    }

    /// Entries up to `upto` of `orig` have been filtered into `kept` as the
    /// rule `f` directed: each keeps the smaller of its old count and the
    /// rule's answer.
    pub open spec fn retain_ok<F: Fn(&T, usize) -> usize>(
        f: F,
        orig: Seq<(T, usize)>,
        kept: Seq<(T, usize)>,
        upto: int,
    ) -> bool {
        forall|p: int| 0 <= p < upto ==> #[trigger] Self::retain_entry_ok(f, orig, kept, p)
    }

    /// Keep of each value only as many copies as the given rule allows: a
    /// value with `n` copies keeps `min(n, rule(&value, n))` of them, and
    /// values left with no copies leave the bag.
    pub fn retain<F: Fn(&T, usize) -> usize>(&mut self, f: F)
        requires
            old(self).wf(),
            forall|x: (&T, usize)| #[trigger] f.requires(x),
        ensures
            final(self).wf(),
            forall|k: T| final(self).multiplicity(k) <= old(self).multiplicity(k),
            forall|k: T| old(self).multiplicity(k) == 0 ==> final(self).multiplicity(k) == 0,
            Self::retain_ok(
                f,
                old(self).entries(),
                final(self).entries(),
                old(self).entries().len() as int,
            ),
    {
        let ghost orig = self.entries();
        let ghost total0 = old(self).count_spec();
        let n0 = self.items.len();
        let mut kept: Vec<(T, usize)> = Vec::new();
        let mut new_count: usize = 0;
        let mut i: usize = 0;
        while self.items.len() > 0
            invariant
                old(self).wf(),
                orig == old(self).entries(),
                total0 == old(self).count_spec(),
                i <= orig.len(),
                i as int + self.items@.len() == n0 as int,
                self.items@ =~= orig.skip(i as int),
                new_count as int + total_count(self.items@) <= total0,
                new_count == total_count(kept@),
                forall|j: int| 0 <= j < kept@.len() ==> (#[trigger] kept@[j]).1 >= 1,
                sorted_strict(kept@),
                forall|j: int|
                    0 <= j < kept@.len() ==> exists|p: int|
                        0 <= p < i && (#[trigger] kept@[j]).0 == orig[p].0,
                Self::retain_ok(f, orig, kept@, i as int),
                forall|x: (&T, usize)| #[trigger] f.requires(x),
            decreases self.items@.len(),
        {
            proof {
                assert(orig.skip(i as int).len() > 0);
                assert(orig.skip(i as int)[0] == orig[i as int]);
                assert(orig.skip(i as int).drop_first() =~= orig.skip(i as int + 1));
                assert(total_count(self.items@) == self.items@[0].1 + total_count(
                    self.items@.drop_first(),
                ));
            }
            let (k, n) = self.items.remove(0);
            let want = f(&k, n);
            let keep: usize = if want < n {
                want
            } else {
                n
            };
            let ghost pre_kept = kept@;
            if keep > 0 {
                kept.push((k, keep));
                new_count = new_count + keep;
            }
            proof {
                let p = i as int;
                assert forall|j: int|
                    0 <= j < kept@.len() implies exists|q: int|
                        0 <= q < p + 1 && (#[trigger] kept@[j]).0 == orig[q].0 by {
                    if j < pre_kept.len() {
                        assert(kept@[j] == pre_kept[j]);
                        let q = choose|q: int| 0 <= q < p && pre_kept[j].0 == orig[q].0;
                        assert(0 <= q < p + 1 && kept@[j].0 == orig[q].0);
                    } else {
                        assert(kept@[j].0 == orig[p].0);
                    }
                }
                if keep > 0 {
                    assert(kept@ =~= pre_kept.push((orig[p].0, keep)));
                    lemma_counts_insert(pre_kept, pre_kept.len() as int, (orig[p].0, keep), orig[p].0);
                    assert(pre_kept.insert(pre_kept.len() as int, (orig[p].0, keep)) =~= kept@);
                    assert forall|i2: int, j2: int| 0 <= i2 < j2 < kept@.len() implies lt_spec(
                        #[trigger] kept@[i2].0,
                        #[trigger] kept@[j2].0,
                    ) by {
                        if j2 < pre_kept.len() {
                            assert(kept@[i2] == pre_kept[i2] && kept@[j2] == pre_kept[j2]);
                        } else {
                            assert(kept@[i2] == pre_kept[i2]);
                            let q = choose|q: int| 0 <= q < p && pre_kept[i2].0 == orig[q].0;
                            assert(lt_spec(orig[q].0, orig[p].0));
                        }
                    }
                }
                assert forall|q: int|
                    0 <= q < p + 1 implies #[trigger] Self::retain_entry_ok(f, orig, kept@, q) by {
                    if q < p {
                        assert(Self::retain_entry_ok(f, orig, pre_kept, q));
                        let want2 = choose|want2: usize|
                            f.ensures((&orig[q].0, orig[q].1), want2) && #[trigger] vstd::math::min(
                                orig[q].1 as int,
                                want2 as int,
                            ) == seq_count(pre_kept, orig[q].0);
                        if keep > 0 {
                            lemma_counts_insert(
                                pre_kept,
                                pre_kept.len() as int,
                                (orig[p].0, keep),
                                orig[q].0,
                            );
                            assert(orig[q].0 != orig[p].0) by {
                                assert(lt_spec(orig[q].0, orig[p].0));
                            }
                        }
                        assert(seq_count(kept@, orig[q].0) == seq_count(pre_kept, orig[q].0));
                        assert(f.ensures((&orig[q].0, orig[q].1), want2) && vstd::math::min(
                            orig[q].1 as int,
                            want2 as int,
                        ) == seq_count(kept@, orig[q].0));
                    } else {
                        assert forall|j: int|
                            0 <= j < pre_kept.len() implies (#[trigger] pre_kept[j]).0 != orig[p].0 by {
                            let q2 = choose|q2: int| 0 <= q2 < p && pre_kept[j].0 == orig[q2].0;
                            assert(lt_spec(orig[q2].0, orig[p].0));
                        }
                        lemma_seq_count_absent(pre_kept, orig[p].0);
                        if keep > 0 {
                            lemma_counts_insert(
                                pre_kept,
                                pre_kept.len() as int,
                                (orig[p].0, keep),
                                orig[p].0,
                            );
                        }
                        assert(f.ensures((&orig[p].0, orig[p].1), want) && vstd::math::min(
                            orig[p].1 as int,
                            want as int,
                        ) == seq_count(kept@, orig[p].0));
                    }
                }
            }
            i = i + 1;
        }
        proof {
            assert(orig.skip(i as int).len() == 0);
            assert(i == orig.len());
        }
        self.items = kept;
        self.count = new_count;
        proof {
            assert forall|k: T| true implies seq_count(self.entries(), k) <= seq_count(orig, k) && (
            seq_count(orig, k) == 0 ==> seq_count(self.entries(), k) == 0) by {
                if forall|j: int|
                    0 <= j < self.entries().len() ==> (#[trigger] self.entries()[j]).0 != k {
                    lemma_seq_count_absent(self.entries(), k);
                } else {
                    let j = choose|j: int|
                        0 <= j < self.entries().len() && (#[trigger] self.entries()[j]).0 == k;
                    let p = choose|p: int| 0 <= p < orig.len() && self.entries()[j].0 == orig[p].0;
                    assert(Self::retain_entry_ok(f, orig, self.entries(), p));
                    let want2 = choose|want2: usize|
                        f.ensures((&orig[p].0, orig[p].1), want2) && #[trigger] vstd::math::min(
                            orig[p].1 as int,
                            want2 as int,
                        ) == seq_count(self.entries(), orig[p].0);
                    old(self).lemma_count_at(p);
                }
            }
        }
    }

    /// How many copies of `value` the bag holds.
    pub fn contains(&self, value: &T) -> (r: usize)
        requires
            self.wf(),
        ensures
            r == self.multiplicity(*value),
    {
        match self.find(value) {
            Some(i) => {
                proof {
                    self.lemma_count_at(i as int);
                }
                self.items[i].1
            },
            None => {
                proof {
                    self.lemma_count_missing(*value);
                }
                0
            },
        }
    }

    /// The stored value equal to the given one, with its occurrence count.
    pub fn get(&self, value: &T) -> (r: Option<(&T, usize)>)
        requires
            self.wf(),
        ensures
            (match r {
                Some(p) => self.multiplicity(*value) == p.1 && *p.0 == *value && p.1 >= 1,
                None => self.multiplicity(*value) == 0,
            }),
    {
        match self.find(value) {
            Some(i) => {
                proof {
                    self.lemma_count_at(i as int);
                }
                let entry = &self.items[i];
                Some((&entry.0, entry.1))
            },
            None => {
                proof {
                    self.lemma_count_missing(*value);
                }
                None
            },
        }
    }
}

/// What an outer join still yields while walking the left bag's entries:
/// each left value with its two counts.
pub open spec fn oj_left_rest<T: TotalOrder>(
    lefts: Seq<(T, usize)>,
    rights: Seq<(T, usize)>,
) -> Seq<(T, nat, nat)>
    decreases lefts.len(),
{
    if lefts.len() == 0 {
        Seq::empty()
    } else {
        seq![(lefts[0].0, lefts[0].1 as nat, seq_count(rights, lefts[0].0))] + oj_left_rest(
            lefts.drop_first(),
            rights,
        )
    }
}

/// What an outer join still yields while walking the right bag's entries:
/// the values not in the left bag, with a left count of zero.
pub open spec fn oj_right_rest<T: TotalOrder>(
    lefts: Seq<(T, usize)>,
    rights: Seq<(T, usize)>,
) -> Seq<(T, nat, nat)>
    decreases rights.len(),
{
    if rights.len() == 0 {
        Seq::empty()
    } else if seq_count(lefts, rights[0].0) == 0 {
        seq![(rights[0].0, 0 as nat, rights[0].1 as nat)] + oj_right_rest(
            lefts,
            rights.drop_first(),
        )
    } else {
        oj_right_rest(lefts, rights.drop_first())
    }
}

/// An iterator over all values in either bag, yielded once each with their
/// counts in the left and in the right bag; values of the left bag come
/// first.
pub struct OuterJoin<'a, T: TotalOrder> {
    left: &'a OrdBag<T>,
    right: &'a OrdBag<T>,
    p1: usize,
    p2: usize,
}

impl<'a, T: TotalOrder> OuterJoin<'a, T> {
    /// The iterator's invariant: both bags well formed, positions in range,
    /// and the right walk only begins once the left walk is done.
    pub open spec fn wf(&self) -> bool {
        &&& self.left_spec().wf()
        &&& self.right_spec().wf()
        &&& self.p1_spec() <= self.left_spec().entries().len()
        &&& self.p2_spec() <= self.right_spec().entries().len()
        &&& (self.p2_spec() > 0 ==> self.p1_spec() == self.left_spec().entries().len())
    }

    /// The left bag.
    pub closed spec fn left_spec(&self) -> OrdBag<T> {
        *self.left
    }

    /// The right bag.
    pub closed spec fn right_spec(&self) -> OrdBag<T> {
        *self.right
    }

    /// How far the left walk has come.
    pub closed spec fn p1_spec(&self) -> usize {
        self.p1
    }

    /// How far the right walk has come.
    pub closed spec fn p2_spec(&self) -> usize {
        self.p2
    }

    /// The triples the iterator has yet to yield.
    pub open spec fn remaining(&self) -> Seq<(T, nat, nat)> {
        oj_left_rest(
            self.left_spec().entries().skip(self.p1_spec() as int),
            self.right_spec().entries(),
        ) + oj_right_rest(
            self.left_spec().entries(),
            self.right_spec().entries().skip(self.p2_spec() as int),
        )
    }

    /// How many entries the two walks have left, as a pair: the left walk's
    /// length is owed, the right walk's is only an upper bound.
    pub fn size_hint(&self) -> (r: (usize, Option<usize>))
        requires
            self.wf(),
        ensures
            r.0 == self.left_spec().entries().len() - self.p1_spec(),
            r.1 == (if self.left_spec().entries().len() - self.p1_spec() + (
            self.right_spec().entries().len() - self.p2_spec()) <= usize::MAX {
                Some(
                    (self.left_spec().entries().len() - self.p1_spec() + (
                    self.right_spec().entries().len() - self.p2_spec())) as usize,
                )
            } else {
                None
            }),
    {
        let l = self.left.set_len() - self.p1;
        let u = l.checked_add(self.right.set_len() - self.p2);
        (l, u)
    }

    /// The next value with its two counts, or nothing once both walks are
    /// done.
    pub fn next(&mut self) -> (r: Option<(&'a T, usize, usize)>)
        requires
            old(self).wf(),
        ensures
            final(self).wf(),
            final(self).left_spec() == old(self).left_spec(),
            final(self).right_spec() == old(self).right_spec(),
            old(self).remaining().len() == 0 ==> r is None && final(self).remaining().len() == 0,
            old(self).remaining().len() > 0 ==> r is Some && {
                let (k, a, b) = r->Some_0;
                &&& *k == old(self).remaining()[0].0
                &&& a as nat == old(self).remaining()[0].1
                &&& b as nat == old(self).remaining()[0].2
                &&& final(self).remaining() == old(self).remaining().drop_first()
            },
    {
        let ln = self.left.set_len();
        if self.p1 < ln {
            let entry = &self.left.items[self.p1];
            let b = self.right.contains(&entry.0);
            proof {
                let ls = self.left.entries().skip(self.p1 as int);
                assert(ls[0] == self.left.entries()[self.p1 as int]);
                assert(ls.drop_first() =~= self.left.entries().skip(self.p1 as int + 1));
            }
            self.p1 = self.p1 + 1;
            Some((&entry.0, entry.1, b))
        } else {
            let rn = self.right.set_len();
            while self.p2 < rn
                invariant
                    old(self).wf(),
                    self.left == old(self).left,
                    self.right == old(self).right,
                    self.p1 == old(self).p1,
                    self.p1_spec() == self.left_spec().entries().len(),
                    self.p2_spec() <= rn,
                    rn == self.right_spec().entries().len(),
                    self.remaining() == old(self).remaining(),
                decreases rn - self.p2,
            {
                let entry = &self.right.items[self.p2];
                let a = self.left.contains(&entry.0);
                proof {
                    let rs = self.right.entries().skip(self.p2 as int);
                    assert(rs[0] == self.right.entries()[self.p2 as int]);
                    assert(rs.drop_first() =~= self.right.entries().skip(self.p2 as int + 1));
                    assert(oj_left_rest(
                        self.left_spec().entries().skip(self.p1_spec() as int),
                        self.right_spec().entries(),
                    ) =~= Seq::<(T, nat, nat)>::empty());
                }
                if a == 0 {
                    self.p2 = self.p2 + 1;
                    return Some((&entry.0, 0, entry.1));
                }
                self.p2 = self.p2 + 1;
            }
            proof {
                assert(self.right_spec().entries().skip(self.p2 as int)
                    =~= Seq::<(T, usize)>::empty());
                assert(self.left_spec().entries().skip(self.p1 as int)
                    =~= Seq::<(T, usize)>::empty());
            }
            None
        }
    }
}

impl<T: TotalOrder> OrdBag<T> {
    /// Walk all values that are in this bag or in the other, each yielded
    /// once with its count here and its count there, in that order; this
    /// bag's values come before values only the other holds.
    pub fn outer_join<'a>(&'a self, other: &'a OrdBag<T>) -> (r: OuterJoin<'a, T>)
        requires
            self.wf(),
            other.wf(),
        ensures
            r.wf(),
            r.left_spec() == *self,
            r.right_spec() == *other,
            r.p1_spec() == 0,
            r.p2_spec() == 0,
            r.remaining() == oj_left_rest(self.entries(), other.entries()) + oj_right_rest(
                self.entries(),
                other.entries(),
            ),
    {
        proof {
            assert(self.entries().skip(0) =~= self.entries());
            assert(other.entries().skip(0) =~= other.entries());
        }
        OuterJoin { left: self, right: other, p1: 0, p2: 0 }
    }
}

/// What a difference walk still yields from the outer join's triples: values
/// with more copies on the left, with the surplus; the walk ends at the
/// first triple with no left copies.
pub open spec fn diff_rest<T>(s: Seq<(T, nat, nat)>) -> Seq<(T, nat)>
    decreases s.len(),
{
    if s.len() == 0 {
        Seq::empty()
    } else if s[0].1 == 0 {
        Seq::empty()
    } else if s[0].1 > s[0].2 {
        seq![(s[0].0, (s[0].1 - s[0].2) as nat)] + diff_rest(s.drop_first())
    } else {
        diff_rest(s.drop_first())
    }
}

/// What a not-in walk still yields: values with no copies on the right,
/// with their left count; the walk ends at the first triple with no left
/// copies.
pub open spec fn notin_rest<T>(s: Seq<(T, nat, nat)>) -> Seq<(T, nat)>
    decreases s.len(),
{
    if s.len() == 0 {
        Seq::empty()
    } else if s[0].1 == 0 {
        Seq::empty()
    } else if s[0].2 == 0 {
        seq![(s[0].0, s[0].1)] + notin_rest(s.drop_first())
    } else {
        notin_rest(s.drop_first())
    }
}

/// What a signed-difference walk still yields: every value with the left
/// count minus the right count.
pub open spec fn sd_rest<T>(s: Seq<(T, nat, nat)>) -> Seq<(T, int)>
    decreases s.len(),
{
    if s.len() == 0 {
        Seq::empty()
    } else {
        seq![(s[0].0, s[0].1 - s[0].2)] + sd_rest(s.drop_first())
    }
}

/// Every triple an outer join yields is bounded by the two bags' totals:
/// the left count by the left total, the right count by the right total.
pub proof fn lemma_oj_left_rest_bounds<T: TotalOrder>(lefts: Seq<(T, usize)>, rights: Seq<(T, usize)>, full: Seq<(T, usize)>)
    requires
        forall|i: int| 0 <= i < lefts.len() ==> total_count(lefts.skip(i)) <= total_count(full),
    ensures
        forall|i: int|
            0 <= i < oj_left_rest(lefts, rights).len() ==> (#[trigger] oj_left_rest(
                lefts,
                rights,
            )[i]).1 <= total_count(full) && oj_left_rest(lefts, rights)[i].2 <= total_count(rights),
    decreases lefts.len(),
{
    if lefts.len() > 0 {
        assert(lefts.skip(0) =~= lefts);
        assert(total_count(lefts) == lefts[0].1 + total_count(lefts.drop_first()));
        lemma_seq_count_le_total(rights, lefts[0].0);
        assert forall|i: int| 0 <= i < lefts.drop_first().len() implies total_count(
            #[trigger] lefts.drop_first().skip(i),
        ) <= total_count(full) by {
            assert(lefts.drop_first().skip(i) =~= lefts.skip(i + 1));
        }
        lemma_oj_left_rest_bounds(lefts.drop_first(), rights, full);
        let res = oj_left_rest(lefts, rights);
        let rec = oj_left_rest(lefts.drop_first(), rights);
        assert forall|i: int| 0 <= i < res.len() implies (#[trigger] res[i]).1 <= total_count(full)
            && res[i].2 <= total_count(rights) by {
            if i > 0 {
                assert(res[i] == rec[i - 1]);
            }
        }
    }
}

/// Every triple yielded from the right walk is bounded by the right total.
pub proof fn lemma_oj_right_rest_bounds<T: TotalOrder>(lefts: Seq<(T, usize)>, rights: Seq<(T, usize)>, full: Seq<(T, usize)>)
    requires
        forall|i: int| 0 <= i < rights.len() ==> total_count(rights.skip(i)) <= total_count(full),
    ensures
        forall|i: int|
            0 <= i < oj_right_rest(lefts, rights).len() ==> (#[trigger] oj_right_rest(
                lefts,
                rights,
            )[i]).1 == 0 && oj_right_rest(lefts, rights)[i].2 <= total_count(full),
    decreases rights.len(),
{
    if rights.len() > 0 {
        assert(rights.skip(0) =~= rights);
        assert(total_count(rights) == rights[0].1 + total_count(rights.drop_first()));
        assert forall|i: int| 0 <= i < rights.drop_first().len() implies total_count(
            #[trigger] rights.drop_first().skip(i),
        ) <= total_count(full) by {
            assert(rights.drop_first().skip(i) =~= rights.skip(i + 1));
        }
        lemma_oj_right_rest_bounds(lefts, rights.drop_first(), full);
        let res = oj_right_rest(lefts, rights);
        let rec = oj_right_rest(lefts, rights.drop_first());
        assert forall|i: int| 0 <= i < res.len() implies (#[trigger] res[i]).1 == 0 && res[i].2
            <= total_count(full) by {
            if seq_count(lefts, rights[0].0) == 0 {
                if i > 0 {
                    assert(res[i] == rec[i - 1]);
                }
            } else {
                assert(res[i] == rec[i]);
            }
        }
    }
}

/// An iterator over the values with more copies in the left bag than in the
/// right one, with the surplus.
pub struct Difference<'a, T: TotalOrder> {
    inner: OuterJoin<'a, T>,
    stopped: bool,
}

impl<'a, T: TotalOrder> Difference<'a, T> {
    /// The underlying outer join.
    pub closed spec fn inner_spec(&self) -> OuterJoin<'a, T> {
        self.inner
    }

    /// Whether the walk has ended.
    pub closed spec fn stopped_spec(&self) -> bool {
        self.stopped
    }

    /// The iterator's invariant.
    pub open spec fn wf(&self) -> bool {
        self.inner_spec().wf()
    }

    /// The pairs the iterator has yet to yield.
    pub open spec fn remaining(&self) -> Seq<(T, nat)> {
        if self.stopped_spec() {
            Seq::empty()
        } else {
            diff_rest(self.inner_spec().remaining())
        }
    }

    /// Nothing is owed, and no more than the underlying walk has left.
    pub fn size_hint(&self) -> (r: (usize, Option<usize>))
        requires
            self.wf(),
        ensures
            r.0 == 0,
            r.1 == (if self.inner_spec().left_spec().entries().len() - self.inner_spec().p1_spec()
                + (self.inner_spec().right_spec().entries().len() - self.inner_spec().p2_spec())
                <= usize::MAX {
                Some(
                    (self.inner_spec().left_spec().entries().len() - self.inner_spec().p1_spec() + (
                    self.inner_spec().right_spec().entries().len()
                        - self.inner_spec().p2_spec())) as usize,
                )
            } else {
                None
            }),
    {
        let (_, upper) = self.inner.size_hint();
        (0, upper)
    }

    /// The next value held in surplus on the left, or nothing once the walk
    /// is over.
    pub fn next(&mut self) -> (r: Option<(&'a T, usize)>)
        requires
            old(self).wf(),
        ensures
            final(self).wf(),
            final(self).inner_spec().left_spec() == old(self).inner_spec().left_spec(),
            final(self).inner_spec().right_spec() == old(self).inner_spec().right_spec(),
            old(self).remaining().len() == 0 ==> r is None && final(self).remaining().len() == 0,
            old(self).remaining().len() > 0 ==> r is Some && {
                let (k, d) = r->Some_0;
                &&& *k == old(self).remaining()[0].0
                &&& d as nat == old(self).remaining()[0].1
                &&& final(self).remaining() == old(self).remaining().drop_first()
            },
    {
        if self.stopped {
            return None;
        }
        loop
            invariant
                self.inner.wf(),
                !self.stopped,
                self.inner_spec().left_spec() == old(self).inner_spec().left_spec(),
                self.inner_spec().right_spec() == old(self).inner_spec().right_spec(),
                diff_rest(self.inner_spec().remaining()) == old(self).remaining(),
            decreases self.inner_spec().remaining().len(),
        {
            let ghost rem = self.inner_spec().remaining();
            match self.inner.next() {
                None => {
                    self.stopped = true;
                    return None;
                },
                Some((k, a, b)) => {
                    proof {
                        assert(rem.len() > 0);
                        assert(self.inner_spec().remaining() =~= rem.drop_first());
                    }
                    if a == 0 {
                        self.stopped = true;
                        return None;
                    }
                    if a > b {
                        proof {
                            assert(diff_rest(rem) =~= seq![(rem[0].0, (rem[0].1 - rem[0].2) as nat)]
                                + diff_rest(rem.drop_first()));
                            assert(diff_rest(rem).drop_first() =~= diff_rest(rem.drop_first()));
                        }
                        return Some((k, a - b));
                    }
                },
            }
        }
    }
}

/// An iterator over the values of the left bag that the right bag does not
/// hold at all, with their counts.
pub struct NotIn<'a, T: TotalOrder> {
    inner: OuterJoin<'a, T>,
    stopped: bool,
}

impl<'a, T: TotalOrder> NotIn<'a, T> {
    /// The underlying outer join.
    pub closed spec fn inner_spec(&self) -> OuterJoin<'a, T> {
        self.inner
    }

    /// Whether the walk has ended.
    pub closed spec fn stopped_spec(&self) -> bool {
        self.stopped
    }

    /// The iterator's invariant.
    pub open spec fn wf(&self) -> bool {
        self.inner_spec().wf()
    }

    /// The pairs the iterator has yet to yield.
    pub open spec fn remaining(&self) -> Seq<(T, nat)> {
        if self.stopped_spec() {
            Seq::empty()
        } else {
            notin_rest(self.inner_spec().remaining())
        }
    }

    /// The next value absent on the right, or nothing once the walk is over.
    pub fn next(&mut self) -> (r: Option<(&'a T, usize)>)
        requires
            old(self).wf(),
        ensures
            final(self).wf(),
            final(self).inner_spec().left_spec() == old(self).inner_spec().left_spec(),
            final(self).inner_spec().right_spec() == old(self).inner_spec().right_spec(),
            old(self).remaining().len() == 0 ==> r is None && final(self).remaining().len() == 0,
            old(self).remaining().len() > 0 ==> r is Some && {
                let (k, d) = r->Some_0;
                &&& *k == old(self).remaining()[0].0
                &&& d as nat == old(self).remaining()[0].1
                &&& final(self).remaining() == old(self).remaining().drop_first()
            },
    {
        if self.stopped {
            return None;
        }
        loop
            invariant
                self.inner.wf(),
                !self.stopped,
                self.inner_spec().left_spec() == old(self).inner_spec().left_spec(),
                self.inner_spec().right_spec() == old(self).inner_spec().right_spec(),
                notin_rest(self.inner_spec().remaining()) == old(self).remaining(),
            decreases self.inner_spec().remaining().len(),
        {
            let ghost rem = self.inner_spec().remaining();
            match self.inner.next() {
                None => {
                    self.stopped = true;
                    return None;
                },
                Some((k, a, b)) => {
                    proof {
                        assert(rem.len() > 0);
                        assert(self.inner_spec().remaining() =~= rem.drop_first());
                    }
                    if a == 0 {
                        self.stopped = true;
                        return None;
                    }
                    if b == 0 {
                        proof {
                            assert(notin_rest(rem) =~= seq![(rem[0].0, rem[0].1)] + notin_rest(
                                rem.drop_first(),
                            ));
                            assert(notin_rest(rem).drop_first() =~= notin_rest(rem.drop_first()));
                        }
                        return Some((k, a));
                    }
                },
            }
        }
    }
}

/// An iterator over all values of either bag with the difference of their
/// counts, negative where the right bag holds more.
pub struct SignedDifference<'a, T: TotalOrder> {
    inner: OuterJoin<'a, T>,
}

impl<'a, T: TotalOrder> SignedDifference<'a, T> {
    /// The underlying outer join.
    pub closed spec fn inner_spec(&self) -> OuterJoin<'a, T> {
        self.inner
    }

    /// The iterator's invariant: the counts fit the signed result type.
    pub open spec fn wf(&self) -> bool {
        &&& self.inner_spec().wf()
        &&& total_count(self.inner_spec().left_spec().entries()) <= isize::MAX
        &&& total_count(self.inner_spec().right_spec().entries()) <= isize::MAX
    }

    /// The pairs the iterator has yet to yield.
    pub open spec fn remaining(&self) -> Seq<(T, int)> {
        sd_rest(self.inner_spec().remaining())
    }

    /// The next value with its signed count difference, or nothing once the
    /// walk is over.
    pub fn next(&mut self) -> (r: Option<(&'a T, isize)>)
        requires
            old(self).wf(),
        ensures
            final(self).wf(),
            final(self).inner_spec().left_spec() == old(self).inner_spec().left_spec(),
            final(self).inner_spec().right_spec() == old(self).inner_spec().right_spec(),
            old(self).remaining().len() == 0 ==> r is None && final(self).remaining().len() == 0,
            old(self).remaining().len() > 0 ==> r is Some && {
                let (k, d) = r->Some_0;
                &&& *k == old(self).remaining()[0].0
                &&& d as int == old(self).remaining()[0].1
                &&& final(self).remaining() == old(self).remaining().drop_first()
            },
    {
        let ghost rem = self.inner_spec().remaining();
        proof {
            let lefts = self.inner_spec().left_spec().entries();
            let rights = self.inner_spec().right_spec().entries();
            let p1 = self.inner_spec().p1_spec() as int;
            let p2 = self.inner_spec().p2_spec() as int;
            assert forall|i: int| 0 <= i < lefts.skip(p1).len() implies total_count(
                #[trigger] lefts.skip(p1).skip(i),
            ) <= total_count(lefts) by {
                assert(lefts.skip(p1).skip(i) =~= lefts.skip(p1 + i));
                lemma_total_skip_le(lefts, p1 + i);
            }
            lemma_oj_left_rest_bounds(lefts.skip(p1), rights, lefts);
            assert forall|i: int| 0 <= i < rights.skip(p2).len() implies total_count(
                #[trigger] rights.skip(p2).skip(i),
            ) <= total_count(rights) by {
                assert(rights.skip(p2).skip(i) =~= rights.skip(p2 + i));
                lemma_total_skip_le(rights, p2 + i);
            }
            lemma_oj_right_rest_bounds(lefts, rights.skip(p2), rights);
        }
        match self.inner.next() {
            None => None,
            Some((k, a, b)) => {
                proof {
                    assert(rem[0].1 <= isize::MAX);
                    assert(rem[0].2 <= isize::MAX);
                    assert(sd_rest(rem) =~= seq![(rem[0].0, rem[0].1 - rem[0].2)] + sd_rest(
                        rem.drop_first(),
                    ));
                    assert(sd_rest(rem).drop_first() =~= sd_rest(rem.drop_first()));
                }
                Some((k, a as isize - b as isize))
            },
        }
    }
}

/// Skipping a prefix cannot raise the total.
pub proof fn lemma_total_skip_le<T>(s: Seq<(T, usize)>, i: int)
    requires
        0 <= i <= s.len(),
    ensures
        total_count(s.skip(i)) <= total_count(s),
    decreases i,
{
    if i > 0 {
        assert(s.skip(i) =~= s.drop_first().skip(i - 1));
        lemma_total_skip_le(s.drop_first(), i - 1);
    } else {
        assert(s.skip(0) =~= s);
    }
}

impl<T: TotalOrder> OrdBag<T> {
    /// Walk the values with more copies here than in the other bag, with the
    /// surplus count.
    pub fn difference<'a>(&'a self, other: &'a OrdBag<T>) -> (r: Difference<'a, T>)
        requires
            self.wf(),
            other.wf(),
        ensures
            r.wf(),
            r.inner_spec().left_spec() == *self,
            r.inner_spec().right_spec() == *other,
            r.remaining() == diff_rest(
                oj_left_rest(self.entries(), other.entries()) + oj_right_rest(
                    self.entries(),
                    other.entries(),
                ),
            ),
    {
        Difference { inner: self.outer_join(other), stopped: false }
    }

    /// Walk the values held here that the other bag does not hold at all,
    /// with their counts.
    pub fn not_in<'a>(&'a self, other: &'a OrdBag<T>) -> (r: NotIn<'a, T>)
        requires
            self.wf(),
            other.wf(),
        ensures
            r.wf(),
            r.inner_spec().left_spec() == *self,
            r.inner_spec().right_spec() == *other,
            r.remaining() == notin_rest(
                oj_left_rest(self.entries(), other.entries()) + oj_right_rest(
                    self.entries(),
                    other.entries(),
                ),
            ),
    {
        NotIn { inner: self.outer_join(other), stopped: false }
    }

    /// Walk all values of either bag with the signed difference of their
    /// counts.
    pub fn signed_difference<'a>(&'a self, other: &'a OrdBag<T>) -> (r: SignedDifference<'a, T>)
        requires
            self.wf(),
            other.wf(),
            self.count_spec() <= isize::MAX,
            other.count_spec() <= isize::MAX,
        ensures
            r.wf(),
            r.inner_spec().left_spec() == *self,
            r.inner_spec().right_spec() == *other,
            r.remaining() == sd_rest(
                oj_left_rest(self.entries(), other.entries()) + oj_right_rest(
                    self.entries(),
                    other.entries(),
                ),
            ),
    {
        SignedDifference { inner: self.outer_join(other) }
    }
}

/// The entries written out one value per copy, in order.
pub open spec fn expand<T>(s: Seq<(T, usize)>) -> Seq<T>
    decreases s.len(),
{
    if s.len() == 0 {
        Seq::empty()
    } else {
        Seq::new(s[0].1 as nat, |i: int| s[0].0) + expand(s.drop_first())
    }
}

/// Written out, the entries have as many values as the total counts.
pub proof fn lemma_expand_len<T>(s: Seq<(T, usize)>)
    ensures
        expand(s).len() == total_count(s),
    decreases s.len(),
{
    if s.len() > 0 {
        lemma_expand_len(s.drop_first());
    }
}

/// An iterator over the values of a bag, each yielded as many times as the
/// bag holds copies of it.
#[derive(Clone, Debug)]
pub struct Iter<'a, T: TotalOrder> {
    bag: &'a OrdBag<T>,
    pos: usize,
    within: usize,
    left: usize,
}

impl<'a, T: TotalOrder> Iter<'a, T> {
    /// The bag being walked.
    pub closed spec fn bag_spec(&self) -> OrdBag<T> {
        *self.bag
    }

    /// The entry the walk stands at.
    pub closed spec fn pos_spec(&self) -> usize {
        self.pos
    }

    /// How many copies of the current entry were already yielded.
    pub closed spec fn within_spec(&self) -> usize {
        self.within
    }

    /// The values the iterator has yet to yield.
    pub open spec fn remaining(&self) -> Seq<T> {
        if self.pos_spec() < self.bag_spec().entries().len() {
            Seq::new(
                (self.bag_spec().entries()[self.pos_spec() as int].1 - self.within_spec()) as nat,
                |i: int| self.bag_spec().entries()[self.pos_spec() as int].0,
            ) + expand(self.bag_spec().entries().skip(self.pos_spec() as int + 1))
        } else {
            Seq::empty()
        }
    }

    /// The iterator's invariant.
    pub open spec fn wf(&self) -> bool {
        &&& self.bag_spec().wf()
        &&& self.pos_spec() <= self.bag_spec().entries().len()
        &&& (self.pos_spec() < self.bag_spec().entries().len() ==> self.within_spec()
            < self.bag_spec().entries()[self.pos_spec() as int].1)
        &&& (self.pos_spec() == self.bag_spec().entries().len() ==> self.within_spec() == 0)
        &&& self.left_spec() == self.remaining().len()
    }

    /// How many values are left, exactly.
    pub closed spec fn left_spec(&self) -> usize {
        self.left
    }

    /// Exactly as many values are owed as are left.
    pub fn size_hint(&self) -> (r: (usize, Option<usize>))
        requires
            self.wf(),
        ensures
            r.0 == self.remaining().len(),
            r.1 == Some(self.remaining().len() as usize),
    {
        (self.left, Some(self.left))
    }

    /// The next value, or nothing once every copy was yielded.
    pub fn next(&mut self) -> (r: Option<&'a T>)
        requires
            old(self).wf(),
        ensures
            final(self).wf(),
            final(self).bag_spec() == old(self).bag_spec(),
            old(self).remaining().len() == 0 ==> r is None && final(self).remaining().len() == 0,
            old(self).remaining().len() > 0 ==> r is Some && *r->Some_0 == old(self).remaining()[0]
                && final(self).remaining() == old(self).remaining().drop_first(),
    {
        let n = self.bag.set_len();
        if self.pos >= n {
            return None;
        }
        let entry = &self.bag.items[self.pos];
        let k = &entry.0;
        let c = entry.1;
        let ghost s = self.bag_spec().entries();
        let ghost p = self.pos_spec() as int;
        self.within = self.within + 1;
        self.left = self.left - 1;
        if self.within == c {
            self.within = 0;
            self.pos = self.pos + 1;
            proof {
                if p + 1 < s.len() {
                    assert(s.skip(p + 1)[0] == s[p + 1]);
                    assert(s.skip(p + 1).drop_first() =~= s.skip(p + 2));
                    assert(expand(s.skip(p + 1)) =~= Seq::new(
                        s[p + 1].1 as nat,
                        |i: int| s[p + 1].0,
                    ) + expand(s.skip(p + 2)));
                    assert(final(self).remaining() =~= old(self).remaining().drop_first());
                } else {
                    assert(s.skip(p + 1) =~= Seq::<(T, usize)>::empty());
                    assert(final(self).remaining() =~= old(self).remaining().drop_first());
                }
            }
        } else {
            proof {
                assert(final(self).remaining() =~= old(self).remaining().drop_first());
            }
        }
        Some(k)
    }
}

/// An iterator over the distinct values of a bag with their counts.
#[derive(Clone, Debug)]
pub struct SetIter<'a, T: TotalOrder> {
    bag: &'a OrdBag<T>,
    pos: usize,
}

impl<'a, T: TotalOrder> SetIter<'a, T> {
    /// The bag being walked.
    pub closed spec fn bag_spec(&self) -> OrdBag<T> {
        *self.bag
    }

    /// The entry the walk stands at.
    pub closed spec fn pos_spec(&self) -> usize {
        self.pos
    }

    /// The entries the iterator has yet to yield.
    pub open spec fn remaining(&self) -> Seq<(T, usize)> {
        self.bag_spec().entries().skip(self.pos_spec() as int)
    }

    /// The iterator's invariant.
    pub open spec fn wf(&self) -> bool {
        self.pos_spec() <= self.bag_spec().entries().len()
    }

    /// Exactly as many entries are owed as are left.
    pub fn size_hint(&self) -> (r: (usize, Option<usize>))
        requires
            self.wf(),
        ensures
            r.0 == self.remaining().len(),
            r.1 == Some(self.remaining().len() as usize),
    {
        let left = self.bag.set_len() - self.pos;
        (left, Some(left))
    }

    /// The next distinct value with its count, or nothing at the end.
    pub fn next(&mut self) -> (r: Option<(&'a T, usize)>)
        requires
            old(self).wf(),
        ensures
            final(self).wf(),
            final(self).bag_spec() == old(self).bag_spec(),
            old(self).remaining().len() == 0 ==> r is None && final(self).remaining().len() == 0,
            old(self).remaining().len() > 0 ==> r is Some && {
                let (k, c) = r->Some_0;
                &&& *k == old(self).remaining()[0].0
                &&& c == old(self).remaining()[0].1
                &&& final(self).remaining() == old(self).remaining().drop_first()
            },
    {
        if self.pos >= self.bag.set_len() {
            return None;
        }
        let entry = &self.bag.items[self.pos];
        proof {
            let s = self.bag_spec().entries();
            let p = self.pos_spec() as int;
            assert(s.skip(p)[0] == s[p]);
            assert(s.skip(p).drop_first() =~= s.skip(p + 1));
        }
        self.pos = self.pos + 1;
        Some((&entry.0, entry.1))
    }
}

/// An owning iterator over the distinct values of a bag with their counts.
#[derive(Debug)]
pub struct IntoIter<T: TotalOrder> {
    items: Vec<(T, usize)>,
}

impl<T: TotalOrder> IntoIter<T> {
    /// The entries the iterator has yet to yield.
    pub closed spec fn remaining(&self) -> Seq<(T, usize)> {
        self.items@
    }

    /// Exactly as many entries are owed as are left.
    pub fn size_hint(&self) -> (r: (usize, Option<usize>))
        ensures
            r.0 == self.remaining().len(),
            r.1 == Some(self.remaining().len() as usize),
    {
        (self.items.len(), Some(self.items.len()))
    }

    /// The next distinct value with its count, or nothing at the end.
    pub fn next(&mut self) -> (r: Option<(T, usize)>)
        ensures
            old(self).remaining().len() == 0 ==> r is None && *final(self) == *old(self),
            old(self).remaining().len() > 0 ==> r is Some && r->Some_0 == old(self).remaining()[0]
                && final(self).remaining() == old(self).remaining().drop_first(),
    {
        if self.items.len() == 0 {
            return None;
        }
        let entry = self.items.remove(0);
        proof {
            assert(self.items@ =~= old(self).remaining().drop_first());
        }
        Some(entry)
    }
}

impl<T: TotalOrder> OrdBag<T> {
    /// Walk every value, yielded once per copy.
    pub fn iter<'a>(&'a self) -> (r: Iter<'a, T>)
        requires
            self.wf(),
        ensures
            r.wf(),
            r.bag_spec() == *self,
            r.remaining() == expand(self.entries()),
            r.remaining().len() == self.count_spec(),
    {
        proof {
            lemma_expand_len(self.entries());
            if self.entries().len() > 0 {
                assert(self.entries().skip(0) =~= self.entries());
                assert(self.entries().skip(0)[0] == self.entries()[0]);
                assert(self.entries().skip(0).drop_first() =~= self.entries().skip(1));
                assert(Seq::new(
                    (self.entries()[0].1 - 0) as nat,
                    |i: int| self.entries()[0].0,
                ) + expand(self.entries().skip(1)) =~= expand(self.entries()));
            } else {
                assert(expand(self.entries()) =~= Seq::<T>::empty());
            }
        }
        Iter { bag: self, pos: 0, within: 0, left: self.count }
    }

    /// Walk every distinct value with its count.
    pub fn set_iter<'a>(&'a self) -> (r: SetIter<'a, T>)
        requires
            self.wf(),
        ensures
            r.wf(),
            r.bag_spec() == *self,
            r.remaining() == self.entries(),
    {
        proof {
            assert(self.entries().skip(0) =~= self.entries());
        }
        SetIter { bag: self, pos: 0 }
    }

    /// Turn the bag into a walk of its distinct values with their counts.
    pub fn into_iter(self) -> (r: IntoIter<T>)
        ensures
            r.remaining() == self.entries(),
    {
        IntoIter { items: self.items }
    }
}

impl<T: TotalOrder> PartialEq for OrdBag<T> {
    /// Two bags are equal when they hold the same entries with the same
    /// counts.
    fn eq(&self, other: &Self) -> (r: bool) {
        if self.count != other.count {
            return false;
        }
        let n = self.items.len();
        if n != other.items.len() {
            proof {
                assert(self.entries().len() != other.entries().len());
            }
            return false;
        }
        let mut i: usize = 0;
        while i < n
            invariant
                n == self.entries().len(),
                n == other.entries().len(),
                i <= n,
                self.count_spec() == other.count_spec(),
                forall|j: int| 0 <= j < i ==> #[trigger] self.entries()[j]
                    == other.entries()[j],
            decreases n - i,
        {
            let a = &self.items[i];
            let b = &other.items[i];
            match a.0.cmp_with(&b.0) {
                core::cmp::Ordering::Equal => {},
                _ => {
                    proof {
                        assert(self.entries()[i as int].0 != other.entries()[i as int].0);
                    }
                    return false;
                },
            }
            if a.1 != b.1 {
                proof {
                    assert(self.entries()[i as int].1 != other.entries()[i as int].1);
                }
                return false;
            }
            i = i + 1;
        }
        proof {
            assert(self.entries() =~= other.entries());
        }
        true
    }
}

impl<T: TotalOrder> vstd::std_specs::cmp::PartialEqSpecImpl for OrdBag<T> {
    open spec fn obeys_eq_spec() -> bool {
        true
    }

    open spec fn eq_spec(&self, other: &Self) -> bool {
        self.entries() == other.entries() && self.count_spec() == other.count_spec()
    }
}

} // verus!
