//! A small ordered map: rows kept sorted by a 64-bit key, so iteration visits keys in ascending
//! order, as the box's tables and the host's reapply expect.

use vstd::prelude::*;

verus! {

/// Whether the rows' keys strictly ascend (so each key occurs once).
pub open spec fn sorted_keys<V>(s: Seq<(u64, V)>) -> bool {
    forall|i: int, j: int| 0 <= i < j < s.len() ==> s[i].0 < s[j].0
}

/// Whether some row carries key `k`.
pub open spec fn has_key<V>(s: Seq<(u64, V)>, k: u64) -> bool {
    exists|i: int| 0 <= i < s.len() && s[i].0 == k
}

/// The map the rows describe.
pub open spec fn map_of<V>(s: Seq<(u64, V)>) -> Map<u64, V> {
    Map::new(
        |k: u64| has_key(s, k),
        |k: u64| s[choose|i: int| 0 <= i < s.len() && s[i].0 == k].1,
    )
}

/// On sorted rows, the map holds exactly the rows' keys, each to its row's value.
pub proof fn lemma_map_of_row<V>(s: Seq<(u64, V)>, i: int)
    requires
        sorted_keys(s),
        0 <= i < s.len(),
    ensures
        map_of(s).dom().contains(s[i].0),
        map_of(s)[s[i].0] == s[i].1,
{
    assert(has_key(s, s[i].0));
    let j = choose|j: int| 0 <= j < s.len() && s[j].0 == s[i].0;
    if j < i {
        assert(s[j].0 < s[i].0);
    } else if j > i {
        assert(s[i].0 < s[j].0);
    }
}

/// A prefix one row longer holds that row's key besides the shorter prefix's keys.
pub proof fn lemma_has_key_take<V>(s: Seq<(u64, V)>, i: int, key: u64)
    requires
        0 <= i < s.len(),
    ensures
        has_key(s.take(i + 1), key) == (has_key(s.take(i), key) || key == s[i].0),
{
    let t1 = s.take(i + 1);
    let t0 = s.take(i);
    if has_key(t1, key) {
        let j = choose|j: int| 0 <= j < t1.len() && t1[j].0 == key;
        if j < i {
            assert(t0[j].0 == key);
        }
    }
    if has_key(t0, key) {
        let j = choose|j: int| 0 <= j < t0.len() && t0[j].0 == key;
        assert(t1[j].0 == key);
    }
    if key == s[i].0 {
        assert(t1[i].0 == key);
    }
}

/// On sorted rows, the map holds as many keys as there are rows.
pub proof fn lemma_rows_len<V>(s: Seq<(u64, V)>)
    requires
        sorted_keys(s),
    ensures
        map_of(s).dom().finite(),
        map_of(s).dom().len() == s.len(),
{
    let keys = s.map_values(|r: (u64, V)| r.0);
    assert(keys.no_duplicates()) by {
        assert forall|i: int, j: int| 0 <= i < keys.len() && 0 <= j < keys.len() && i != j implies keys[i]
            != keys[j] by {
            if i < j {
                assert(s[i].0 < s[j].0);
            } else {
                assert(s[j].0 < s[i].0);
            }
        }
    }
    keys.unique_seq_to_set();
    assert forall|k: u64| #[trigger] map_of(s).dom().contains(k) == keys.to_set().contains(k) by {
        if map_of(s).dom().contains(k) {
            let i = choose|i: int| 0 <= i < s.len() && s[i].0 == k;
            assert(keys[i] == k);
        }
        if keys.to_set().contains(k) {
            let i = choose|i: int| 0 <= i < keys.len() && keys[i] == k;
            assert(has_key(s, k));
        }
    }
    assert(map_of(s).dom() =~= keys.to_set());
    vstd::seq_lib::seq_to_set_is_finite(keys);
}

/// Rows sorted by key: an ordered map from `u64` keys to copyable values.
#[derive(Debug, Clone)]
pub struct KeyedRows<V> {
    rows: Vec<(u64, V)>,
}

impl<V: Copy> KeyedRows<V> {
    /// The rows in key order.
    pub closed spec fn rows(&self) -> Seq<(u64, V)> {
        self.rows@
    }

    /// The map the rows describe.
    pub open spec fn map(&self) -> Map<u64, V> {
        map_of(self.rows())
    }

    /// The rows ascend strictly by key.
    pub open spec fn wf(&self) -> bool {
        sorted_keys(self.rows())
    }

    /// No rows.
    pub fn new() -> (r: KeyedRows<V>)
        ensures
            r.wf(),
            r.rows() == Seq::<(u64, V)>::empty(),
            r.map() == Map::<u64, V>::empty(),
    {
        let r = KeyedRows { rows: Vec::new() };
        assert(r.map() =~= Map::<u64, V>::empty());
        r
    }

    /// The number of rows.
    pub fn len(&self) -> (n: usize)
        ensures
            n == self.rows().len(),
    {
        self.rows.len()
    }

    /// Whether there are no rows.
    pub fn is_empty(&self) -> (b: bool)
        requires
            self.wf(),
        ensures
            b == (self.rows().len() == 0),
            b == (self.map() == Map::<u64, V>::empty()),
    {
        if self.rows.len() == 0 {
            assert(self.map() =~= Map::<u64, V>::empty());
            true
        } else {
            proof {
                lemma_map_of_row(self.rows(), 0);
                assert(!Map::<u64, V>::empty().dom().contains(self.rows()[0].0));
            }
            false
        }
    }

    /// The row at position `i`.
    pub fn row(&self, i: usize) -> (r: (u64, V))
        requires
            i < self.rows().len(),
        ensures
            r == self.rows()[i as int],
    {
        self.rows[i]
    }

    /// The position of the row with key `k`, if any.
    pub fn find(&self, k: u64) -> (r: Option<usize>)
        requires
            self.wf(),
        ensures
            r matches Some(i) ==> i < self.rows().len() && self.rows()[i as int].0 == k,
            r is None <==> !self.map().dom().contains(k),
    {
        let mut i: usize = 0;
        while i < self.rows.len()
            invariant
                i <= self.rows@.len(),
                sorted_keys(self.rows@),
                forall|j: int| 0 <= j < i ==> self.rows@[j].0 != k,
            decreases self.rows@.len() - i,
        {
            if self.rows[i].0 == k {
                proof {
                    lemma_map_of_row(self.rows(), i as int);
                }
                return Some(i);
            }
            i = i + 1;
        }
        None
    }

    /// The value under `k`, if any.
    pub fn get(&self, k: u64) -> (r: Option<V>)
        requires
            self.wf(),
        ensures
            r is Some <==> self.map().dom().contains(k),
            r matches Some(v) ==> v == self.map()[k],
    {
        match self.find(k) {
            Some(i) => {
                proof {
                    lemma_map_of_row(self.rows(), i as int);
                }
                Some(self.rows[i].1)
            },
            None => None,
        }
    }

    /// Whether a row carries `k`.
    pub fn contains(&self, k: u64) -> (b: bool)
        requires
            self.wf(),
        ensures
            b == self.map().dom().contains(k),
    {
        self.find(k).is_some()
    }

    /// Put `v` under `k`, replacing what was there; returns the value replaced.
    pub fn insert(&mut self, k: u64, v: V) -> (prior: Option<V>)
        requires
            old(self).wf(),
        ensures
            final(self).wf(),
            final(self).map() == old(self).map().insert(k, v),
            prior is Some <==> old(self).map().dom().contains(k),
            prior matches Some(p) ==> p == old(self).map()[k],
    {
        let ghost s0 = self.rows@;
        let mut i: usize = 0;
        while i < self.rows.len() && self.rows[i].0 < k
            invariant
                i <= self.rows@.len(),
                self.rows@ == s0,
                sorted_keys(s0),
                forall|j: int| 0 <= j < i ==> s0[j].0 < k,
            decreases self.rows@.len() - i,
        {
            i = i + 1;
        }
        if i < self.rows.len() && self.rows[i].0 == k {
            let p = self.rows[i].1;
            proof {
                lemma_map_of_row(s0, i as int);
            }
            self.rows.set(i, (k, v));
            proof {
                let s1 = self.rows@;
                assert(s1 == s0.update(i as int, (k, v)));
                assert(sorted_keys(s1));
                assert forall|key: u64| #[trigger] has_key(s1, key) == has_key(s0, key) by {
                    if has_key(s0, key) {
                        let j = choose|j: int| 0 <= j < s0.len() && s0[j].0 == key;
                        assert(s1[j].0 == key);
                    }
                    if has_key(s1, key) {
                        let j = choose|j: int| 0 <= j < s1.len() && s1[j].0 == key;
                        assert(s0[j].0 == key);
                    }
                }
                assert forall|key: u64| #[trigger] map_of(s1).dom().contains(key) implies map_of(s1)[key]
                    == map_of(s0).insert(k, v)[key] by {
                    let j = choose|j: int| 0 <= j < s1.len() && s1[j].0 == key;
                    lemma_map_of_row(s1, j);
                    if j != i {
                        lemma_map_of_row(s0, j);
                    }
                }
                assert(map_of(s1) =~= map_of(s0).insert(k, v));
            }
            Some(p)
        } else {
            proof {
                if has_key(s0, k) {
                    let j = choose|j: int| 0 <= j < s0.len() && s0[j].0 == k;
                    if j >= i {
                        if (i as int) < s0.len() {
                            assert(s0[i as int].0 > k);
                            if j > i {
                                assert(s0[i as int].0 < s0[j].0);
                            }
                        }
                    }
                }
                assert(!has_key(s0, k));
            }
            self.rows.insert(i, (k, v));
            proof {
                let s1 = self.rows@;
                assert(s1 == s0.insert(i as int, (k, v)));
                assert forall|a: int, b: int| 0 <= a < b < s1.len() implies s1[a].0 < s1[b].0 by {
                    if b < i {
                    } else if a < i && b == i {
                    } else if a < i && b > i {
                        assert(s1[b] == s0[b - 1]);
                        if (i as int) < s0.len() {
                            assert(s0[i as int].0 >= k);
                            assert(s0[i as int].0 != k);
                        }
                        if b - 1 > i {
                            assert(s0[i as int].0 < s0[b - 1].0);
                        }
                    } else if a == i {
                        assert(s1[b] == s0[b - 1]);
                        assert(s0[i as int].0 >= k);
                        assert(s0[i as int].0 != k);
                        if b - 1 > i {
                            assert(s0[i as int].0 < s0[b - 1].0);
                        }
                    } else {
                        assert(s1[a] == s0[a - 1]);
                        assert(s1[b] == s0[b - 1]);
                    }
                }
                assert(sorted_keys(s1));
                assert forall|key: u64| #[trigger] has_key(s1, key) == (has_key(s0, key) || key
                    == k) by {
                    if has_key(s0, key) {
                        let j = choose|j: int| 0 <= j < s0.len() && s0[j].0 == key;
                        if j < i {
                            assert(s1[j].0 == key);
                        } else {
                            assert(s1[j + 1].0 == key);
                        }
                    }
                    if key == k {
                        assert(s1[i as int].0 == key);
                    }
                    if has_key(s1, key) {
                        let j = choose|j: int| 0 <= j < s1.len() && s1[j].0 == key;
                        if j < i {
                            assert(s0[j].0 == key);
                        } else if j > i {
                            assert(s0[j - 1].0 == key);
                        }
                    }
                }
                assert forall|key: u64| #[trigger] map_of(s1).dom().contains(key) implies map_of(s1)[key]
                    == map_of(s0).insert(k, v)[key] by {
                    let j = choose|j: int| 0 <= j < s1.len() && s1[j].0 == key;
                    lemma_map_of_row(s1, j);
                    if j < i {
                        lemma_map_of_row(s0, j);
                    } else if j > i {
                        lemma_map_of_row(s0, j - 1);
                    }
                }
                assert(map_of(s1) =~= map_of(s0).insert(k, v));
            }
            None
        }
    }

    /// Drop the row under `k`; returns its value.
    pub fn remove(&mut self, k: u64) -> (prior: Option<V>)
        requires
            old(self).wf(),
        ensures
            final(self).wf(),
            final(self).map() == old(self).map().remove(k),
            prior is Some <==> old(self).map().dom().contains(k),
            prior matches Some(p) ==> p == old(self).map()[k],
            prior is Some ==> final(self).rows().len() + 1 == old(self).rows().len(),
            prior is None ==> final(self).rows() == old(self).rows(),
    {
        let ghost s0 = self.rows@;
        match self.find(k) {
            None => {
                assert(map_of(s0) =~= map_of(s0).remove(k));
                None
            },
            Some(i) => {
                proof {
                    lemma_map_of_row(s0, i as int);
                }
                let (_, p) = self.rows.remove(i);
                proof {
                    let s1 = self.rows@;
                    assert(s1 == s0.remove(i as int));
                    assert forall|a: int, b: int| 0 <= a < b < s1.len() implies s1[a].0 < s1[b].0 by {
                        if a < i && b < i {
                        } else if a < i {
                            assert(s1[b] == s0[b + 1]);
                        } else {
                            assert(s1[a] == s0[a + 1]);
                            assert(s1[b] == s0[b + 1]);
                        }
                    }
                    assert forall|key: u64| #[trigger] has_key(s1, key) == (has_key(s0, key) && key
                        != k) by {
                        if has_key(s0, key) && key != k {
                            let j = choose|j: int| 0 <= j < s0.len() && s0[j].0 == key;
                            if j < i {
                                assert(s1[j].0 == key);
                            } else {
                                assert(j != i);
                                assert(s1[j - 1].0 == key);
                            }
                        }
                        if has_key(s1, key) {
                            let j = choose|j: int| 0 <= j < s1.len() && s1[j].0 == key;
                            if j < i {
                                assert(s0[j].0 == key);
                                assert(s0[j].0 < s0[i as int].0);
                            } else {
                                assert(s0[j + 1].0 == key);
                                assert(s0[i as int].0 < s0[j + 1].0);
                            }
                        }
                    }
                    assert forall|key: u64| #[trigger] map_of(s1).dom().contains(key) implies map_of(
                        s1,
                    )[key] == map_of(s0).remove(k)[key] by {
                        let j = choose|j: int| 0 <= j < s1.len() && s1[j].0 == key;
                        lemma_map_of_row(s1, j);
                        if j < i {
                            lemma_map_of_row(s0, j);
                        } else {
                            lemma_map_of_row(s0, j + 1);
                        }
                    }
                    assert(map_of(s1) =~= map_of(s0).remove(k));
                }
                Some(p)
            },
        }
    }

    /// The position of the first row whose key lies in `lo..hi`, if any.
    pub fn find_in_range(&self, lo: u64, hi: u64) -> (r: Option<usize>)
        requires
            self.wf(),
        ensures
            r matches Some(i) ==> i < self.rows().len() && lo <= self.rows()[i as int].0 < hi
                && forall|j: int| 0 <= j < i ==> !(lo <= #[trigger] self.rows()[j].0 < hi),
            r is None ==> forall|k: u64| lo <= k < hi ==> !#[trigger] self.map().dom().contains(k),
    {
        let mut i: usize = 0;
        while i < self.rows.len()
            invariant
                i <= self.rows@.len(),
                sorted_keys(self.rows@),
                forall|j: int| 0 <= j < i ==> !(lo <= #[trigger] self.rows@[j].0 < hi),
            decreases self.rows@.len() - i,
        {
            let k = self.rows[i].0;
            if lo <= k && k < hi {
                return Some(i);
            }
            i = i + 1;
        }
        proof {
            assert forall|k: u64| lo <= k < hi implies !#[trigger] self.map().dom().contains(k) by {
                if self.map().dom().contains(k) {
                    let j = choose|j: int| 0 <= j < self.rows@.len() && self.rows@[j].0 == k;
                    assert(!(lo <= self.rows@[j].0 < hi));
                }
            }
        }
        None
    }

    /// Replace the value of the row at position `i`, keeping its key and place.
    pub fn set_value_at(&mut self, i: usize, v: V)
        requires
            old(self).wf(),
            i < old(self).rows().len(),
        ensures
            final(self).wf(),
            final(self).rows() == old(self).rows().update(i as int, (old(self).rows()[i as int].0, v)),
            final(self).map() == old(self).map().insert(old(self).rows()[i as int].0, v),
    {
        let ghost s0 = self.rows@;
        let k = self.rows[i].0;
        self.rows.set(i, (k, v));
        proof {
            let s1 = self.rows@;
            assert(sorted_keys(s1));
            assert forall|key: u64| #[trigger] has_key(s1, key) == has_key(s0, key) by {
                if has_key(s0, key) {
                    let j = choose|j: int| 0 <= j < s0.len() && s0[j].0 == key;
                    assert(s1[j].0 == key);
                }
                if has_key(s1, key) {
                    let j = choose|j: int| 0 <= j < s1.len() && s1[j].0 == key;
                    assert(s0[j].0 == key);
                }
            }
            lemma_map_of_row(s0, i as int);
            assert forall|key: u64| #[trigger] map_of(s1).dom().contains(key) implies map_of(s1)[key]
                == map_of(s0).insert(k, v)[key] by {
                let j = choose|j: int| 0 <= j < s1.len() && s1[j].0 == key;
                lemma_map_of_row(s1, j);
                if j != i {
                    lemma_map_of_row(s0, j);
                }
            }
            assert(map_of(s1) =~= map_of(s0).insert(k, v));
        }
    }

    /// A copy of these rows.
    pub fn duplicate(&self) -> (r: KeyedRows<V>)
        ensures
            r.rows() == self.rows(),
            r.map() == self.map(),
            r.wf() == self.wf(),
    {
        let mut out: Vec<(u64, V)> = Vec::new();
        let mut i: usize = 0;
        while i < self.rows.len()
            invariant
                i <= self.rows@.len(),
                out@ == self.rows@.take(i as int),
            decreases self.rows@.len() - i,
        {
            out.push(self.rows[i]);
            assert(self.rows@.take(i as int + 1) =~= self.rows@.take(i as int).push(self.rows@[i as int]));
            i = i + 1;
        }
        assert(self.rows@.take(self.rows@.len() as int) =~= self.rows@);
        KeyedRows { rows: out }
    }

    /// Drop every row.
    pub fn clear(&mut self)
        ensures
            final(self).wf(),
            final(self).rows() == Seq::<(u64, V)>::empty(),
            final(self).map() == Map::<u64, V>::empty(),
    {
        self.rows.clear();
        assert(self.map() =~= Map::<u64, V>::empty());
    }
}

} // verus!
