//! Ordered tables keyed by a field of their entries, as the box holds its rewrite rules, transforms
//! and packet triggers: one entry per key, in an order that is itself state.
//!
//! An add, overwrite or removal returns what it displaced, and putting that back restores the table
//! exactly; the laws here state that for every table with one entry per key.

use crate::bytes::{bytes_eq, copy_bytes};
use vstd::prelude::*;

verus! {

/// No two entries share a key.
pub open spec fn unique_keys<T, K>(s: Seq<T>, f: spec_fn(T) -> K) -> bool {
    forall|i: int, j: int| 0 <= i < j < s.len() ==> f(s[i]) != f(s[j])
}

/// Whether some entry carries key `k`.
pub open spec fn has_key<T, K>(s: Seq<T>, f: spec_fn(T) -> K, k: K) -> bool {
    exists|i: int| 0 <= i < s.len() && f(s[i]) == k
}

/// The position of the entry carrying `k`, if any.
pub open spec fn key_at<T, K>(s: Seq<T>, f: spec_fn(T) -> K, k: K) -> Option<int> {
    if has_key(s, f, k) {
        Some(choose|i: int| 0 <= i < s.len() && f(s[i]) == k)
    } else {
        None
    }
}

/// The entry carrying `k` and its position, if any: what a change at `k` displaces.
pub open spec fn prior_at<T, K>(s: Seq<T>, f: spec_fn(T) -> K, k: K) -> Option<(int, T)> {
    match key_at(s, f, k) {
        Some(i) => Some((i, s[i])),
        None => None,
    }
}

/// The entries not carrying `k`, in order.
pub open spec fn drop_key<T, K>(s: Seq<T>, f: spec_fn(T) -> K, k: K) -> Seq<T>
    decreases s.len(),
{
    if s.len() == 0 {
        s
    } else if f(s.last()) == k {
        drop_key(s.drop_last(), f, k)
    } else {
        drop_key(s.drop_last(), f, k).push(s.last())
    }
}

/// A displaced entry put back: anything at its key leaves, and the entry returns to its position
/// (or the end, if the table has shrunk below it).
pub open spec fn put_back<T, K>(s: Seq<T>, f: spec_fn(T) -> K, k: K, prior: Option<(int, T)>) -> Seq<T> {
    let t = drop_key(s, f, k);
    match prior {
        Some((i, e)) => t.insert(if i < t.len() { i } else { t.len() as int }, e),
        None => t,
    }
}

/// The table with the entry at `k` removed.
pub open spec fn remove_key<T, K>(s: Seq<T>, f: spec_fn(T) -> K, k: K) -> Seq<T> {
    match key_at(s, f, k) {
        Some(i) => s.remove(i),
        None => s,
    }
}

/// On a table with one entry per key, the position of a key is the one entry carrying it.
pub proof fn lemma_key_at<T, K>(s: Seq<T>, f: spec_fn(T) -> K, i: int)
    requires
        unique_keys(s, f),
        0 <= i < s.len(),
    ensures
        key_at(s, f, f(s[i])) == Some(i),
{
    assert(has_key(s, f, f(s[i])));
    let j = choose|j: int| 0 <= j < s.len() && f(s[j]) == f(s[i]);
    if j < i {
        assert(f(s[j]) != f(s[i]));
    } else if j > i {
        assert(f(s[i]) != f(s[j]));
    }
}

/// Dropping a key no entry carries changes nothing.
pub proof fn lemma_drop_absent<T, K>(s: Seq<T>, f: spec_fn(T) -> K, k: K)
    requires
        !has_key(s, f, k),
    ensures
        drop_key(s, f, k) == s,
    decreases s.len(),
{
    if s.len() > 0 {
        assert(f(s[s.len() - 1]) != k);
        assert(!has_key(s.drop_last(), f, k)) by {
            if has_key(s.drop_last(), f, k) {
                let i = choose|i: int| 0 <= i < s.drop_last().len() && f(s.drop_last()[i]) == k;
                assert(f(s[i]) == k);
            }
        }
        lemma_drop_absent(s.drop_last(), f, k);
        assert(s.drop_last().push(s.last()) =~= s);
    }
}

/// Dropping the key only entry `i` carries removes that entry.
pub proof fn lemma_drop_one<T, K>(s: Seq<T>, f: spec_fn(T) -> K, i: int)
    requires
        0 <= i < s.len(),
        forall|j: int| 0 <= j < s.len() && j != i ==> f(s[j]) != f(s[i]),
    ensures
        drop_key(s, f, f(s[i])) == s.remove(i),
    decreases s.len(),
{
    let k = f(s[i]);
    let d = s.drop_last();
    if i == s.len() - 1 {
        assert(!has_key(d, f, k)) by {
            if has_key(d, f, k) {
                let j = choose|j: int| 0 <= j < d.len() && f(d[j]) == k;
                assert(f(s[j]) == k);
            }
        }
        lemma_drop_absent(d, f, k);
        assert(s.remove(i) =~= d);
    } else {
        assert(d[i] == s[i]);
        lemma_drop_one(d, f, i);
        assert(s.remove(i) =~= d.remove(i).push(s.last()));
    }
}

/// A table with one entry per key keeps that after losing an entry.
pub proof fn lemma_unique_remove<T, K>(s: Seq<T>, f: spec_fn(T) -> K, i: int)
    requires
        unique_keys(s, f),
        0 <= i < s.len(),
    ensures
        unique_keys(s.remove(i), f),
        !has_key(s.remove(i), f, f(s[i])),
{
    let t = s.remove(i);
    assert forall|a: int, b: int| 0 <= a < b < t.len() implies f(t[a]) != f(t[b]) by {
        let a2 = if a < i { a } else { a + 1 };
        let b2 = if b < i { b } else { b + 1 };
        assert(t[a] == s[a2] && t[b] == s[b2]);
    }
    if has_key(t, f, f(s[i])) {
        let j = choose|j: int| 0 <= j < t.len() && f(t[j]) == f(s[i]);
        let j2 = if j < i { j } else { j + 1 };
        assert(t[j] == s[j2]);
        if j2 < i {
            assert(f(s[j2]) != f(s[i]));
        } else {
            assert(f(s[i]) != f(s[j2]));
        }
    }
}

/// A table with one entry per key keeps that after gaining an entry at a key it lacked.
pub proof fn lemma_unique_push<T, K>(s: Seq<T>, f: spec_fn(T) -> K, e: T)
    requires
        unique_keys(s, f),
        !has_key(s, f, f(e)),
    ensures
        unique_keys(s.push(e), f),
{
    let t = s.push(e);
    assert forall|a: int, b: int| 0 <= a < b < t.len() implies f(t[a]) != f(t[b]) by {
        if b == s.len() {
            assert(t[a] == s[a]);
        }
    }
}

/// A table with one entry per key keeps that when an entry is overwritten by one with its key.
pub proof fn lemma_unique_update<T, K>(s: Seq<T>, f: spec_fn(T) -> K, i: int, e: T)
    requires
        unique_keys(s, f),
        0 <= i < s.len(),
        f(e) == f(s[i]),
    ensures
        unique_keys(s.update(i, e), f),
{
}

/// Putting back what a removal displaced restores the table.
pub proof fn lemma_remove_put_back<T, K>(s: Seq<T>, f: spec_fn(T) -> K, k: K)
    requires
        unique_keys(s, f),
    ensures
        put_back(remove_key(s, f, k), f, k, prior_at(s, f, k)) == s,
        unique_keys(remove_key(s, f, k), f),
        !has_key(remove_key(s, f, k), f, k),
{
    match key_at(s, f, k) {
        Some(i) => {
            let i = choose|i: int| 0 <= i < s.len() && f(s[i]) == k;
            lemma_unique_remove(s, f, i);
            lemma_drop_absent(s.remove(i), f, k);
            assert(s.remove(i).insert(i, s[i]) =~= s);
        },
        None => {
            lemma_drop_absent(s, f, k);
        },
    }
}

/// A held rewrite rule in wire fields, so a reconnect re-sends it byte for byte.
#[derive(Debug)]
pub struct StoredRewrite {
    pub class: u8,
    pub id: u16,
    pub direction: u8,
    pub action: u8,
    pub offset: u16,
    pub match_bytes: Vec<u8>,
    pub mask: Vec<u8>,
    pub payload: Vec<u8>,
}

/// A rewrite rule's wire fields as values.
pub type RewriteSpec = (u8, u16, u8, u8, u16, Seq<u8>, Seq<u8>, Seq<u8>);

/// The box's rule key: `(class, id, direction, match, mask)`; rules differing in any of these are
/// separate entries.
pub type RewriteKeySpec = (u8, u16, u8, Seq<u8>, Seq<u8>);

/// A stored rule's fields as values.
pub open spec fn rewrite_view(r: StoredRewrite) -> RewriteSpec {
    (r.class, r.id, r.direction, r.action, r.offset, r.match_bytes@, r.mask@, r.payload@)
}

/// A rule's key.
pub open spec fn rewrite_key_of(r: RewriteSpec) -> RewriteKeySpec {
    (r.0, r.1, r.2, r.5, r.6)
}

/// The key function of the rewrite table.
pub open spec fn rewrite_key_fn() -> spec_fn(RewriteSpec) -> RewriteKeySpec {
    |r: RewriteSpec| rewrite_key_of(r)
}

/// A rewrite rule key in wire fields.
#[derive(Debug)]
pub struct RewriteKey {
    pub class: u8,
    pub id: u16,
    pub direction: u8,
    pub match_bytes: Vec<u8>,
    pub mask: Vec<u8>,
}

/// A key's fields as values.
pub open spec fn rewrite_key_view(k: RewriteKey) -> RewriteKeySpec {
    (k.class, k.id, k.direction, k.match_bytes@, k.mask@)
}

impl Clone for StoredRewrite {
    fn clone(&self) -> (r: StoredRewrite)
        ensures
            rewrite_view(r) == rewrite_view(*self),
    {
        StoredRewrite {
            class: self.class,
            id: self.id,
            direction: self.direction,
            action: self.action,
            offset: self.offset,
            match_bytes: copy_bytes(&self.match_bytes),
            mask: copy_bytes(&self.mask),
            payload: copy_bytes(&self.payload),
        }
    }
}

impl StoredRewrite {
    /// The box's key of this rule.
    pub fn key(&self) -> (k: RewriteKey)
        ensures
            rewrite_key_view(k) == rewrite_key_of(rewrite_view(*self)),
    {
        RewriteKey {
            class: self.class,
            id: self.id,
            direction: self.direction,
            match_bytes: copy_bytes(&self.match_bytes),
            mask: copy_bytes(&self.mask),
        }
    }

    /// Whether this rule carries `key`.
    pub fn has_key(&self, key: &RewriteKey) -> (r: bool)
        ensures
            r == (rewrite_key_of(rewrite_view(*self)) == rewrite_key_view(*key)),
    {
        self.class == key.class && self.id == key.id && self.direction == key.direction
            && bytes_eq(&self.match_bytes, &key.match_bytes) && bytes_eq(&self.mask, &key.mask)
    }

    /// Whether this rule is `other`, field for field.
    pub fn same_as(&self, other: &StoredRewrite) -> (r: bool)
        ensures
            r == (rewrite_view(*self) == rewrite_view(*other)),
    {
        self.class == other.class && self.id == other.id && self.direction == other.direction
            && self.action == other.action && self.offset == other.offset && bytes_eq(
            &self.match_bytes,
            &other.match_bytes,
        ) && bytes_eq(&self.mask, &other.mask) && bytes_eq(&self.payload, &other.payload)
    }
}

/// The rewrite table after an add or overwrite: the same rule again keeps its place; a changed
/// rule leaves its place and joins the end, as the box re-adds it; a new key joins the end.
pub open spec fn rewrite_apply(s: Seq<RewriteSpec>, r: RewriteSpec) -> Seq<RewriteSpec> {
    match key_at(s, rewrite_key_fn(), rewrite_key_of(r)) {
        Some(i) => if s[i] == r {
            s
        } else {
            s.remove(i).push(r)
        },
        None => s.push(r),
    }
}

/// Putting back what a rewrite add or overwrite displaced restores the table.
pub proof fn lemma_rewrite_apply_put_back(s: Seq<RewriteSpec>, r: RewriteSpec)
    requires
        unique_keys(s, rewrite_key_fn()),
    ensures
        put_back(
            rewrite_apply(s, r),
            rewrite_key_fn(),
            rewrite_key_of(r),
            prior_at(s, rewrite_key_fn(), rewrite_key_of(r)),
        ) == s,
        unique_keys(rewrite_apply(s, r), rewrite_key_fn()),
{
    let f = rewrite_key_fn();
    let k = rewrite_key_of(r);
    assert(f(r) == k);
    match key_at(s, f, k) {
        Some(i) => {
            let i = choose|i: int| 0 <= i < s.len() && f(s[i]) == k;
            lemma_unique_remove(s, f, i);
            if s[i] == r {
                lemma_drop_one(s, f, i);
                assert(s.remove(i).insert(i, s[i]) =~= s);
            } else {
                let t = s.remove(i);
                assert(t.push(r).drop_last() =~= t);
                assert(drop_key(t.push(r), f, k) == drop_key(t, f, k));
                lemma_drop_absent(t, f, k);
                assert(t.insert(i, s[i]) =~= s);
                lemma_unique_push(t, f, r);
            }
        },
        None => {
            assert(s.push(r).drop_last() =~= s);
            lemma_drop_absent(s, f, k);
            lemma_unique_push(s, f, r);
        },
    }
}

/// A held field transform in wire fields.
#[derive(Debug, Clone, Copy, PartialEq, Eq, Structural)]
pub struct StoredTransform {
    pub op: u8,
    pub sclass: u8,
    pub sid: u16,
    pub dclass: u8,
    pub did: u16,
}

/// The box's transform key: `(sclass, sid, dclass, did)`; setting an existing key overwrites its op.
pub type TransformKey = (u8, u16, u8, u16);

/// A transform's key.
pub open spec fn transform_key_of(t: StoredTransform) -> TransformKey {
    (t.sclass, t.sid, t.dclass, t.did)
}

/// The key function of the transform table.
pub open spec fn transform_key_fn() -> spec_fn(StoredTransform) -> TransformKey {
    |t: StoredTransform| transform_key_of(t)
}

impl StoredTransform {
    /// The box's key of this transform.
    pub fn key(&self) -> (k: TransformKey)
        ensures
            k == transform_key_of(*self),
    {
        (self.sclass, self.sid, self.dclass, self.did)
    }

    /// Whether this transform carries `key`.
    pub fn has_key(&self, key: TransformKey) -> (r: bool)
        ensures
            r == (transform_key_of(*self) == key),
    {
        self.sclass == key.0 && self.sid == key.1 && self.dclass == key.2 && self.did == key.3
    }
}

/// The transform table after an add or overwrite: an overwrite keeps the entry's position, as the
/// box does; a new key joins the end.
pub open spec fn transform_apply(s: Seq<StoredTransform>, e: StoredTransform) -> Seq<StoredTransform> {
    match key_at(s, transform_key_fn(), transform_key_of(e)) {
        Some(i) => s.update(i, e),
        None => s.push(e),
    }
}

/// A displaced transform put back: an entry at its key is overwritten in place; with none there it
/// returns to its position; with nothing displaced, what is at the key leaves.
pub open spec fn transform_put_back(s: Seq<StoredTransform>, k: TransformKey, prior: Option<(int, StoredTransform)>) -> Seq<StoredTransform> {
    match prior {
        Some((i, e)) => match key_at(s, transform_key_fn(), k) {
            Some(cur) => s.update(cur, e),
            None => s.insert(if i < s.len() { i } else { s.len() as int }, e),
        },
        None => drop_key(s, transform_key_fn(), k),
    }
}

/// Putting back what a transform add or overwrite displaced restores the table.
pub proof fn lemma_transform_apply_put_back(s: Seq<StoredTransform>, e: StoredTransform)
    requires
        unique_keys(s, transform_key_fn()),
    ensures
        transform_put_back(
            transform_apply(s, e),
            transform_key_of(e),
            prior_at(s, transform_key_fn(), transform_key_of(e)),
        ) == s,
        unique_keys(transform_apply(s, e), transform_key_fn()),
{
    let f = transform_key_fn();
    let k = transform_key_of(e);
    assert(f(e) == k);
    match key_at(s, f, k) {
        Some(i) => {
            let i = choose|i: int| 0 <= i < s.len() && f(s[i]) == k;
            let t = s.update(i, e);
            lemma_unique_update(s, f, i, e);
            assert(f(t[i]) == k);
            lemma_key_at(t, f, i);
            assert(t.update(i, s[i]) =~= s);
        },
        None => {
            assert(s.push(e).drop_last() =~= s);
            lemma_drop_absent(s, f, k);
            lemma_unique_push(s, f, e);
        },
    }
}

/// Putting back what a transform removal displaced restores the table.
pub proof fn lemma_transform_remove_put_back(s: Seq<StoredTransform>, k: TransformKey)
    requires
        unique_keys(s, transform_key_fn()),
    ensures
        transform_put_back(remove_key(s, transform_key_fn(), k), k, prior_at(s, transform_key_fn(), k))
            == s,
        unique_keys(remove_key(s, transform_key_fn(), k), transform_key_fn()),
{
    let f = transform_key_fn();
    match key_at(s, f, k) {
        Some(i) => {
            let i = choose|i: int| 0 <= i < s.len() && f(s[i]) == k;
            lemma_unique_remove(s, f, i);
            assert(s.remove(i).insert(i, s[i]) =~= s);
        },
        None => {
            lemma_drop_absent(s, f, k);
        },
    }
}

/// The rewrite table after adding each rule of `rs` in turn.
pub open spec fn rewrites_applied(s: Seq<RewriteSpec>, rs: Seq<RewriteSpec>) -> Seq<RewriteSpec>
    decreases rs.len(),
{
    if rs.len() == 0 {
        s
    } else {
        rewrite_apply(rewrites_applied(s, rs.drop_last()), rs.last())
    }
}

/// The transform table after adding each entry of `ts` in turn.
pub open spec fn transforms_applied(s: Seq<StoredTransform>, ts: Seq<StoredTransform>) -> Seq<
    StoredTransform,
>
    decreases ts.len(),
{
    if ts.len() == 0 {
        s
    } else {
        transform_apply(transforms_applied(s, ts.drop_last()), ts.last())
    }
}

/// The last entry of a table with one entry per key carries a key no earlier entry carries.
proof fn lemma_last_key_fresh<T, K>(s: Seq<T>, f: spec_fn(T) -> K)
    requires
        unique_keys(s, f),
        s.len() > 0,
    ensures
        !has_key(s.drop_last(), f, f(s.last())),
        unique_keys(s.drop_last(), f),
{
    let d = s.drop_last();
    if has_key(d, f, f(s.last())) {
        let i = choose|i: int| 0 <= i < d.len() && f(d[i]) == f(s.last());
        assert(f(s[i]) == f(s[s.len() - 1]));
    }
    assert forall|i: int, j: int| 0 <= i < j < d.len() implies f(d[i]) != f(d[j]) by {
        assert(d[i] == s[i] && d[j] == s[j]);
    }
}

/// Adding back, in order, every rule of a table with one rule per key onto an empty table rebuilds
/// the table exactly.
pub proof fn lemma_rewrites_reapplied(s: Seq<RewriteSpec>)
    requires
        unique_keys(s, rewrite_key_fn()),
    ensures
        rewrites_applied(Seq::empty(), s) == s,
    decreases s.len(),
{
    if s.len() > 0 {
        let f = rewrite_key_fn();
        lemma_last_key_fresh(s, f);
        lemma_rewrites_reapplied(s.drop_last());
        assert(f(s.last()) == rewrite_key_of(s.last()));
        assert(s.drop_last().push(s.last()) =~= s);
    }
}

/// Adding back, in order, every entry of a transform table with one entry per key onto an empty
/// table rebuilds the table exactly.
pub proof fn lemma_transforms_reapplied(s: Seq<StoredTransform>)
    requires
        unique_keys(s, transform_key_fn()),
    ensures
        transforms_applied(Seq::empty(), s) == s,
    decreases s.len(),
{
    if s.len() > 0 {
        let f = transform_key_fn();
        lemma_last_key_fresh(s, f);
        lemma_transforms_reapplied(s.drop_last());
        assert(f(s.last()) == transform_key_of(s.last()));
        assert(s.drop_last().push(s.last()) =~= s);
    }
}

/// The first position of an entry carrying `k`, if any.
pub open spec fn first_at<T, K>(s: Seq<T>, f: spec_fn(T) -> K, k: K) -> Option<int>
    decreases s.len(),
{
    if s.len() == 0 {
        None
    } else {
        match first_at(s.drop_last(), f, k) {
            Some(i) => Some(i),
            None => if f(s.last()) == k {
                Some(s.len() - 1)
            } else {
                None
            },
        }
    }
}

/// A first match in a prefix is the first match in the whole.
pub proof fn lemma_first_at_prefix<T, K>(s: Seq<T>, f: spec_fn(T) -> K, k: K, n: int)
    requires
        0 <= n <= s.len(),
        first_at(s.take(n), f, k) is Some,
    ensures
        first_at(s, f, k) == first_at(s.take(n), f, k),
    decreases s.len() - n,
{
    if n < s.len() {
        assert(s.take(n + 1).drop_last() =~= s.take(n));
        lemma_first_at_prefix(s, f, k, n + 1);
    } else {
        assert(s.take(n) =~= s);
    }
}

/// The entries satisfying `p`, in order.
pub open spec fn select<T>(s: Seq<T>, p: spec_fn(T) -> bool) -> Seq<T>
    decreases s.len(),
{
    if s.len() == 0 {
        s
    } else if p(s.last()) {
        select(s.drop_last(), p).push(s.last())
    } else {
        select(s.drop_last(), p)
    }
}

/// An entry is selected just when it is in the sequence and satisfies `p`.
pub proof fn lemma_select_contains<T>(s: Seq<T>, p: spec_fn(T) -> bool, x: T)
    ensures
        select(s, p).contains(x) <==> (s.contains(x) && p(x)),
    decreases s.len(),
{
    if s.len() > 0 {
        let d = s.drop_last();
        lemma_select_contains(d, p, x);
        assert(s =~= d.push(s.last()));
        if s.contains(x) {
            let i = choose|i: int| 0 <= i < s.len() && s[i] == x;
            if i < d.len() {
                assert(d[i] == x);
            }
        }
        if d.contains(x) {
            let i = choose|i: int| 0 <= i < d.len() && d[i] == x;
            assert(s[i] == x);
        }
        if p(s.last()) {
            let t = select(d, p);
            if t.push(s.last()).contains(x) {
                let i = choose|i: int| 0 <= i < t.push(s.last()).len() && t.push(s.last())[i] == x;
                if i < t.len() {
                    assert(t[i] == x);
                } else {
                    assert(s[s.len() - 1] == x);
                }
            }
            if t.contains(x) {
                let i = choose|i: int| 0 <= i < t.len() && t[i] == x;
                assert(t.push(s.last())[i] == x);
            }
            if x == s.last() {
                assert(t.push(s.last())[t.len() as int] == x);
                assert(s[s.len() - 1] == x);
            }
        } else {
            if x == s.last() && p(x) {
                assert(false);
            }
            if s.contains(x) && p(x) && x != s.last() {
                let i = choose|i: int| 0 <= i < s.len() && s[i] == x;
                assert(i < d.len());
                assert(d[i] == x);
            }
        }
    }
}

} // verus!
