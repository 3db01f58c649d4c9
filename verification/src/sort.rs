use vstd::prelude::*;

use crate::text::{char_seq_lt, lemma_lt_asym, lemma_lt_total, lemma_lt_trans, str_lt};

verus! {

/// A value ordered by a string key.
pub trait Keyed {
    spec fn key(&self) -> Seq<char>;

    fn key_str(&self) -> (r: &str)
        ensures
            r@ == self.key(),
    ;
}

/// No element has a key before an earlier element's key.
pub open spec fn sorted_by_key<T: Keyed>(s: Seq<T>) -> bool {
    forall|i: int, j: int| 0 <= i < j < s.len() ==> !char_seq_lt(#[trigger] s[j].key(), #[trigger] s[i].key())
}

/// `x` put into `s` just before the first element whose key comes after
/// its own.
pub open spec fn insert_by<T>(s: Seq<T>, x: T, key: spec_fn(T) -> Seq<char>) -> Seq<T>
    decreases s.len(),
{
    if s.len() == 0 {
        seq![x]
    } else if char_seq_lt(key(x), key(s[0])) {
        seq![x] + s
    } else {
        seq![s[0]] + insert_by(s.drop_first(), x, key)
    }
}

/// `s` sorted by `key`, elements with equal keys in their order in `s`:
/// what a stable sort on the key gives.
pub open spec fn stable_sort<T>(s: Seq<T>, key: spec_fn(T) -> Seq<char>) -> Seq<T>
    decreases s.len(),
{
    if s.len() == 0 {
        s
    } else {
        insert_by(stable_sort(s.drop_last(), key), s.last(), key)
    }
}

/// The key of a `Keyed` value.
pub open spec fn key_of<T: Keyed>() -> spec_fn(T) -> Seq<char> {
    |x: T| x.key()
}

proof fn lemma_insert_at<T>(o: Seq<T>, x: T, k: int, key: spec_fn(T) -> Seq<char>)
    requires
        0 <= k <= o.len(),
        forall|i: int| 0 <= i < k ==> !char_seq_lt(key(x), #[trigger] key(o[i])),
        k < o.len() ==> char_seq_lt(key(x), key(o[k])),
    ensures
        o.insert(k, x) == insert_by(o, x, key),
    decreases k,
{
    if k == 0 {
        if o.len() == 0 {
            assert(o.insert(0, x) =~= seq![x]);
        } else {
            assert(o.insert(0, x) =~= seq![x] + o);
        }
    } else {
        let t = o.drop_first();
        assert forall|i: int| 0 <= i < k - 1 implies !char_seq_lt(key(x), #[trigger] key(t[i])) by {
            assert(t[i] == o[i + 1]);
        }
        assert(!char_seq_lt(key(x), key(o[0])));
        lemma_insert_at(t, x, k - 1, key);
        assert(o.insert(k, x) =~= seq![o[0]] + t.insert(k - 1, x));
    }
}

proof fn lemma_insert_map<A, B>(s: Seq<A>, x: A, ka: spec_fn(A) -> Seq<char>, f: spec_fn(A) -> B, kb: spec_fn(B) -> Seq<char>)
    requires
        forall|a: A| #[trigger] kb(f(a)) == ka(a),
    ensures
        insert_by(s, x, ka).map_values(f) == insert_by(s.map_values(f), f(x), kb),
    decreases s.len(),
{
    if s.len() == 0 {
        assert(insert_by(s, x, ka).map_values(f) =~= seq![f(x)]);
    } else {
        assert(kb(f(x)) == ka(x));
        assert(kb(f(s[0])) == ka(s[0]));
        assert(s.map_values(f)[0] == f(s[0]));
        if char_seq_lt(ka(x), ka(s[0])) {
            assert(insert_by(s, x, ka).map_values(f) =~= seq![f(x)] + s.map_values(f));
        } else {
            lemma_insert_map(s.drop_first(), x, ka, f, kb);
            assert(s.drop_first().map_values(f) =~= s.map_values(f).drop_first());
            assert(insert_by(s, x, ka).map_values(f) =~= seq![f(s[0])] + insert_by(s.drop_first(), x, ka).map_values(f));
        }
    }
}

/// Sorting commutes with a map that keeps the key.
pub proof fn lemma_sort_map<A, B>(s: Seq<A>, ka: spec_fn(A) -> Seq<char>, f: spec_fn(A) -> B, kb: spec_fn(B) -> Seq<char>)
    requires
        forall|a: A| #[trigger] kb(f(a)) == ka(a),
    ensures
        stable_sort(s, ka).map_values(f) == stable_sort(s.map_values(f), kb),
    decreases s.len(),
{
    if s.len() == 0 {
        assert(s.map_values(f) =~= Seq::<B>::empty());
        assert(stable_sort(s, ka).map_values(f) =~= Seq::<B>::empty());
    } else {
        lemma_sort_map(s.drop_last(), ka, f, kb);
        assert(s.drop_last().map_values(f) =~= s.map_values(f).drop_last());
        lemma_insert_map(stable_sort(s.drop_last(), ka), s.last(), ka, f, kb);
    }
}

/// The elements of `v` in key order; elements with equal keys keep their
/// order (the order of a stable `sort_by` on the key).
pub fn sort_by_key<T: Keyed>(v: Vec<T>) -> (r: Vec<T>)
    ensures
        r@ == stable_sort(v@, key_of::<T>()),
        sorted_by_key(r@),
        r@.to_multiset() == v@.to_multiset(),
{
    broadcast use vstd::seq_lib::group_to_multiset_ensures;
    let ghost orig = v@;
    let mut v = v;
    let mut out: Vec<T> = Vec::new();
    let ghost mut done: int = 0;
    assert(orig.skip(0) =~= orig);
    while v.len() > 0
        invariant
            sorted_by_key(out@),
            out@.to_multiset().add(v@.to_multiset()) == orig.to_multiset(),
            0 <= done <= orig.len(),
            v@ == orig.skip(done),
            out@ == stable_sort(orig.take(done), key_of::<T>()),
        decreases v.len(),
    {
        let ghost v0 = v@;
        let x = v.remove(0);
        assert(v0.remove(0) == v@);
        let mut k: usize = 0;
        while k < out.len() && !str_lt(x.key_str(), out[k].key_str())
            invariant
                k <= out.len(),
                forall|i: int| 0 <= i < k ==> !char_seq_lt(x.key(), #[trigger] out@[i].key()),
            decreases out.len() - k,
        {
            k = k + 1;
        }
        let ghost o = out@;
        proof {
            assert forall|i: int| k <= i < o.len() implies char_seq_lt(x.key(), #[trigger] o[i].key()) by {
                if i > k {
                    assert(!char_seq_lt(o[i].key(), o[k as int].key()));
                    lemma_lt_total(o[k as int].key(), o[i].key());
                    if o[k as int].key() != o[i].key() {
                        lemma_lt_trans(x.key(), o[k as int].key(), o[i].key());
                    }
                }
            }
        }
        out.insert(k, x);
        proof {
            assert forall|i: int| 0 <= i < k implies !char_seq_lt(key_of::<T>()(x), #[trigger] key_of::<T>()(o[i])) by {
                assert(!char_seq_lt(x.key(), o[i].key()));
            }
            lemma_insert_at(o, x, k as int, key_of::<T>());
            assert(x == orig[done]);
            assert(orig.take(done + 1).drop_last() =~= orig.take(done));
            assert(orig.take(done + 1).last() == x);
            done = done + 1;
            assert(v@ =~= orig.skip(done));
            assert forall|i: int, j: int| 0 <= i < j < out@.len() implies !char_seq_lt(#[trigger] out@[j].key(), #[trigger] out@[i].key()) by {
                if j == k {
                    assert(out@[i] == o[i]);
                } else if i == k {
                    assert(out@[j] == o[j - 1]);
                    lemma_lt_asym(x.key(), o[j - 1].key());
                } else {
                    let ii = if i < k { i } else { i - 1 };
                    let jj = if j < k { j } else { j - 1 };
                    assert(out@[i] == o[ii]);
                    assert(out@[j] == o[jj]);
                }
            }
            vstd::seq_lib::to_multiset_insert(o, k as int, x);
            assert(out@.to_multiset() == o.to_multiset().insert(x));
            vstd::seq_lib::to_multiset_remove(v0, 0);
            assert(v0[0] == x);
            assert(v@.to_multiset() == v0.to_multiset().remove(x));
            vstd::seq_lib::to_multiset_contains(v0, x);
            assert(v0.to_multiset().count(x) > 0);
            assert(v@.to_multiset().insert(x) =~= v0.to_multiset());
            assert(out@.to_multiset().add(v@.to_multiset()) =~= o.to_multiset().add(v0.to_multiset()));
        }
    }
    assert(orig.take(done) =~= orig);
    out
}

} // verus!

verus! {

/// Two sequences with the same elements (counted with multiplicity) keep
/// that property under any map.
pub proof fn lemma_multiset_map<A, B>(a: Seq<A>, b: Seq<A>, f: spec_fn(A) -> B)
    requires
        a.to_multiset() == b.to_multiset(),
    ensures
        a.map_values(f).to_multiset() == b.map_values(f).to_multiset(),
    decreases a.len(),
{
    broadcast use vstd::seq_lib::group_to_multiset_ensures;
    vstd::seq_lib::to_multiset_len(a);
    vstd::seq_lib::to_multiset_len(b);
    if a.len() == 0 {
        assert(a.map_values(f) =~= Seq::<B>::empty());
        assert(b.map_values(f) =~= Seq::<B>::empty());
    } else {
        let x = a[0];
        vstd::seq_lib::to_multiset_contains(a, x);
        vstd::seq_lib::to_multiset_contains(b, x);
        assert(a.contains(x));
        let k = choose|k: int| 0 <= k < b.len() && b[k] == x;
        let a2 = a.remove(0);
        let b2 = b.remove(k);
        vstd::seq_lib::to_multiset_remove(a, 0);
        vstd::seq_lib::to_multiset_remove(b, k);
        lemma_multiset_map(a2, b2, f);
        assert(a.map_values(f) =~= a2.map_values(f).insert(0, f(x)));
        assert(b.map_values(f) =~= b2.map_values(f).insert(k, f(x)));
        vstd::seq_lib::to_multiset_insert(a2.map_values(f), 0, f(x));
        vstd::seq_lib::to_multiset_insert(b2.map_values(f), k, f(x));
    }
}

} // verus!

verus! {

proof fn lemma_insert_contains<T>(s: Seq<T>, x: T, key: spec_fn(T) -> Seq<char>, y: T)
    ensures
        insert_by(s, x, key).contains(y) <==> (s.contains(y) || y == x),
    decreases s.len(),
{
    if s.len() == 0 {
        assert(insert_by(s, x, key) == seq![x]);
        assert(seq![x][0] == x);
    } else if char_seq_lt(key(x), key(s[0])) {
        let r = seq![x] + s;
        assert(r[0] == x);
        if s.contains(y) {
            let k = choose|k: int| 0 <= k < s.len() && s[k] == y;
            assert(r[k + 1] == y);
        }
        if r.contains(y) && y != x {
            let k = choose|k: int| 0 <= k < r.len() && r[k] == y;
            assert(s[k - 1] == y);
        }
    } else {
        let rest = s.drop_first();
        lemma_insert_contains(rest, x, key, y);
        let t = insert_by(rest, x, key);
        let r = seq![s[0]] + t;
        assert(r[0] == s[0]);
        if s.contains(y) {
            let k = choose|k: int| 0 <= k < s.len() && s[k] == y;
            if k > 0 {
                assert(rest[k - 1] == y);
            }
        }
        if t.contains(y) {
            let k = choose|k: int| 0 <= k < t.len() && t[k] == y;
            assert(r[k + 1] == y);
        }
        if r.contains(y) {
            let k = choose|k: int| 0 <= k < r.len() && r[k] == y;
            if k > 0 {
                assert(t[k - 1] == y);
            } else {
                assert(s[0] == y);
            }
        }
        if rest.contains(y) {
            let k = choose|k: int| 0 <= k < rest.len() && rest[k] == y;
            assert(s[k + 1] == y);
        }
    }
}

/// Sorting keeps exactly the elements it was given.
pub proof fn lemma_sort_contains<T>(s: Seq<T>, key: spec_fn(T) -> Seq<char>, y: T)
    ensures
        stable_sort(s, key).contains(y) <==> s.contains(y),
    decreases s.len(),
{
    if s.len() > 0 {
        lemma_sort_contains(s.drop_last(), key, y);
        lemma_insert_contains(stable_sort(s.drop_last(), key), s.last(), key, y);
        if s.contains(y) {
            let k = choose|k: int| 0 <= k < s.len() && s[k] == y;
            if k < s.len() - 1 {
                assert(s.drop_last()[k] == y);
            }
        }
        if s.drop_last().contains(y) {
            let k = choose|k: int| 0 <= k < s.drop_last().len() && s.drop_last()[k] == y;
            assert(s[k] == y);
        }
    }
}

} // verus!
