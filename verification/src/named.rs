//! Name-keyed tables: a list of `(name, value)` pairs kept in strictly
//! increasing name order, so that each name occurs once and iteration follows
//! name order, as in an ordered map keyed by `String`.
use crate::order::{lemma_lt_asymmetric, lemma_lt_total, lemma_lt_transitive, seq_lt, str_lt};
use crate::text::str_eq;
use vstd::prelude::*;

verus! {

/// Names strictly increase along the table (so no name occurs twice).
pub open spec fn keys_sorted<V>(s: Seq<(String, V)>) -> bool {
    forall|i: int, j: int| 0 <= i < j < s.len() ==> seq_lt(#[trigger] s[i].0@, #[trigger] s[j].0@)
}

/// The table with `v` stored under `k`: an entry with the same name is
/// replaced, otherwise the pair goes where its name sorts.
pub open spec fn put<V>(s: Seq<(String, V)>, k: String, v: V) -> Seq<(String, V)>
    decreases s.len(),
{
    if s.len() == 0 {
        seq![(k, v)]
    } else if s[0].0@ == k@ {
        s.update(0, (k, v))
    } else if seq_lt(k@, s[0].0@) {
        seq![(k, v)] + s
    } else {
        seq![s[0]] + put(s.drop_first(), k, v)
    }
}

/// Every pair of `ps`, stored in turn into `s`.
pub open spec fn put_all<V>(s: Seq<(String, V)>, ps: Seq<(String, V)>) -> Seq<(String, V)>
    decreases ps.len(),
{
    if ps.len() == 0 {
        s
    } else {
        let p = ps.last();
        put(put_all(s, ps.drop_last()), p.0, p.1)
    }
}

/// The value stored under name `k`.
pub open spec fn get_of<V>(s: Seq<(String, V)>, k: Seq<char>) -> Option<V> {
    if exists|i: int| 0 <= i < s.len() && #[trigger] s[i].0@ == k {
        Some(s[choose|i: int| 0 <= i < s.len() && #[trigger] s[i].0@ == k].1)
    } else {
        None
    }
}

/// In a sorted table, the value under a name is the one at its position.
pub proof fn lemma_get_at<V>(s: Seq<(String, V)>, i: int)
    requires
        keys_sorted(s),
        0 <= i < s.len(),
    ensures
        get_of(s, s[i].0@) == Some(s[i].1),
{
    let k = s[i].0@;
    let c = choose|c: int| 0 <= c < s.len() && #[trigger] s[c].0@ == k;
    if c < i {
        assert(seq_lt(s[c].0@, s[i].0@));
        crate::order::lemma_lt_irreflexive(k);
    } else if c > i {
        assert(seq_lt(s[i].0@, s[c].0@));
        crate::order::lemma_lt_irreflexive(k);
    }
}

proof fn lemma_put_skip<V>(s: Seq<(String, V)>, k: String, v: V, i: int)
    requires
        0 <= i <= s.len(),
        forall|j: int| 0 <= j < i ==> s[j].0@ != k@ && !seq_lt(k@, s[j].0@),
    ensures
        put(s, k, v) == s.take(i) + put(s.skip(i), k, v),
    decreases i,
{
    if i == 0 {
        assert(s.skip(0) =~= s);
        assert(s.take(0) + put(s, k, v) =~= put(s, k, v));
    } else {
        lemma_put_skip(s.drop_first(), k, v, i - 1);
        assert(s.drop_first().skip(i - 1) =~= s.skip(i));
        assert(seq![s[0]] + s.drop_first().take(i - 1) =~= s.take(i));
        assert(seq![s[0]] + (s.drop_first().take(i - 1) + put(s.skip(i), k, v)) =~= s.take(i) + put(
            s.skip(i),
            k,
            v,
        ));
    }
}

/// Storing into a sorted table keeps it sorted, holds the new pair under its
/// name, and keeps every pair of another name.
pub proof fn lemma_put_sorted<V>(s: Seq<(String, V)>, k: String, v: V)
    requires
        keys_sorted(s),
    ensures
        keys_sorted(put(s, k, v)),
        put(s, k, v).contains((k, v)),
        forall|i: int| 0 <= i < put(s, k, v).len() && #[trigger] put(s, k, v)[i].0@ == k@ ==> put(s, k, v)[i] == (k, v),
        forall|e: (String, V)| e.0@ != k@ ==> (put(s, k, v).contains(e) <==> s.contains(e)),
    decreases s.len(),
{
    let u = put(s, k, v);
    if s.len() == 0 {
        assert(u[0] == (k, v));
    } else if s[0].0@ == k@ {
        assert(u[0] == (k, v));
        assert forall|i: int, j: int| 0 <= i < j < u.len() implies seq_lt(#[trigger] u[i].0@, #[trigger] u[j].0@) by {
            assert(seq_lt(s[i].0@, s[j].0@));
        }
        assert forall|i: int| 0 <= i < u.len() && #[trigger] u[i].0@ == k@ implies u[i] == (k, v) by {
            if i > 0 {
                assert(seq_lt(s[0].0@, s[i].0@));
                lemma_lt_asymmetric(s[0].0@, s[i].0@);
            }
        }
        assert forall|e: (String, V)| e.0@ != k@ implies (u.contains(e) <==> s.contains(e)) by {
            if u.contains(e) {
                let i = choose|i: int| 0 <= i < u.len() && u[i] == e;
                assert(s[i] == e);
            }
            if s.contains(e) {
                let i = choose|i: int| 0 <= i < s.len() && s[i] == e;
                assert(u[i] == e);
            }
        }
    } else if seq_lt(k@, s[0].0@) {
        assert(u[0] == (k, v));
        assert forall|i: int, j: int| 0 <= i < j < u.len() implies seq_lt(#[trigger] u[i].0@, #[trigger] u[j].0@) by {
            if i == 0 {
                if j > 1 {
                    assert(seq_lt(s[0].0@, s[j - 1].0@));
                    lemma_lt_transitive(k@, s[0].0@, s[j - 1].0@);
                }
            } else {
                assert(seq_lt(s[i - 1].0@, s[j - 1].0@));
            }
        }
        assert forall|i: int| 0 <= i < u.len() && #[trigger] u[i].0@ == k@ implies u[i] == (k, v) by {
            if i > 0 {
                if i > 1 {
                    assert(seq_lt(s[0].0@, s[i - 1].0@));
                    lemma_lt_transitive(k@, s[0].0@, s[i - 1].0@);
                }
                lemma_lt_asymmetric(k@, s[i - 1].0@);
            }
        }
        assert forall|e: (String, V)| e.0@ != k@ implies (u.contains(e) <==> s.contains(e)) by {
            if u.contains(e) {
                let i = choose|i: int| 0 <= i < u.len() && u[i] == e;
                assert(s[i - 1] == e);
            }
            if s.contains(e) {
                let i = choose|i: int| 0 <= i < s.len() && s[i] == e;
                assert(u[i + 1] == e);
            }
        }
    } else {
        let t = s.drop_first();
        assert(keys_sorted(t)) by {
            assert forall|i: int, j: int| 0 <= i < j < t.len() implies seq_lt(#[trigger] t[i].0@, #[trigger] t[j].0@) by {
                assert(seq_lt(s[i + 1].0@, s[j + 1].0@));
            }
        }
        lemma_put_sorted(t, k, v);
        let r = put(t, k, v);
        lemma_lt_total(k@, s[0].0@);
        assert(seq_lt(s[0].0@, k@));
        assert(u =~= seq![s[0]] + r);
        assert forall|i: int, j: int| 0 <= i < j < u.len() implies seq_lt(#[trigger] u[i].0@, #[trigger] u[j].0@) by {
            if i == 0 {
                let e = u[j];
                assert(u.len() == r.len() + 1);
                assert(e == r[j - 1]);
                if e.0@ == k@ {
                } else {
                    assert(r.contains(e));
                    assert(t.contains(e));
                    let q = choose|q: int| 0 <= q < t.len() && t[q] == e;
                    assert(seq_lt(s[0].0@, s[q + 1].0@));
                }
            }
        }
        assert forall|i: int| 0 <= i < u.len() && #[trigger] u[i].0@ == k@ implies u[i] == (k, v) by {
            if i == 0 {
                lemma_lt_asymmetric(s[0].0@, k@);
            } else {
                assert(u[i] == r[i - 1]);
            }
        }
        let p = choose|p: int| 0 <= p < r.len() && r[p] == (k, v);
        assert(u[p + 1] == (k, v));
        assert forall|e: (String, V)| e.0@ != k@ implies (u.contains(e) <==> s.contains(e)) by {
            if u.contains(e) {
                let i = choose|i: int| 0 <= i < u.len() && u[i] == e;
                if i == 0 {
                    assert(s[0] == e);
                } else {
                    assert(r[i - 1] == e);
                    assert(t.contains(e));
                    let q = choose|q: int| 0 <= q < t.len() && t[q] == e;
                    assert(s[q + 1] == e);
                }
            }
            if s.contains(e) {
                let i = choose|i: int| 0 <= i < s.len() && s[i] == e;
                if i == 0 {
                    assert(u[0] == e);
                } else {
                    assert(t[i - 1] == e);
                    assert(t.contains(e));
                    assert(r.contains(e));
                    let q = choose|q: int| 0 <= q < r.len() && r[q] == e;
                    assert(u[q + 1] == e);
                }
            }
        }
    }
}

/// After storing `v` under `k`, looking `k` up gives `v` and every other name
/// gives what it gave before: the table behaves as a map.
pub proof fn lemma_get_after_put<V>(s: Seq<(String, V)>, k: String, v: V, n: Seq<char>)
    requires
        keys_sorted(s),
    ensures
        get_of(put(s, k, v), n) == (if n == k@ { Some(v) } else { get_of(s, n) }),
{
    lemma_put_sorted(s, k, v);
    let u = put(s, k, v);
    if n == k@ {
        let p = choose|p: int| 0 <= p < u.len() && u[p] == (k, v);
        lemma_get_at(u, p);
    } else {
        if exists|i: int| 0 <= i < s.len() && #[trigger] s[i].0@ == n {
            let i = choose|i: int| 0 <= i < s.len() && #[trigger] s[i].0@ == n;
            lemma_get_at(s, i);
            assert(s.contains(s[i]));
            assert(u.contains(s[i]));
            let q = choose|q: int| 0 <= q < u.len() && u[q] == s[i];
            lemma_get_at(u, q);
        } else {
            if exists|q: int| 0 <= q < u.len() && #[trigger] u[q].0@ == n {
                let q = choose|q: int| 0 <= q < u.len() && #[trigger] u[q].0@ == n;
                assert(u.contains(u[q]));
                assert(s.contains(u[q]));
                let i = choose|i: int| 0 <= i < s.len() && s[i] == u[q];
                assert(s[i].0@ == n);
            }
        }
    }
}

/// Finds the position of name `k`.
pub fn find_name<V>(s: &Vec<(String, V)>, k: &str) -> (r: Option<usize>)
    ensures
        match r {
            Some(i) => i < s@.len() && s@[i as int].0@ == k@,
            None => forall|i: int| 0 <= i < s@.len() ==> #[trigger] s@[i].0@ != k@,
        },
{
    let n: usize = s.len();
    for i in 0..n
        invariant
            n == s@.len(),
            forall|j: int| 0 <= j < i ==> #[trigger] s@[j].0@ != k@,
    {
        if str_eq(s[i].0.as_str(), k) {
            return Some(i);
        }
    }
    None
}

/// Looks up the value stored under `k`.
pub fn get_named<'a, V>(s: &'a Vec<(String, V)>, k: &str) -> (r: Option<&'a V>)
    requires
        keys_sorted(s@),
    ensures
        match get_of(s@, k@) {
            Some(v) => r matches Some(x) && *x == v,
            None => r is None,
        },
{
    match find_name(s, k) {
        Some(i) => {
            proof {
                lemma_get_at(s@, i as int);
            }
            Some(&s[i].1)
        },
        None => None,
    }
}

/// Stores `v` under `k`, replacing a pair of the same name.
pub fn put_named<V>(s: &mut Vec<(String, V)>, k: String, v: V)
    requires
        keys_sorted(old(s)@),
    ensures
        final(s)@ == put(old(s)@, k, v),
        keys_sorted(final(s)@),
{
    let ghost s0 = old(s)@;
    proof {
        lemma_put_sorted(s0, k, v);
    }
    let n: usize = s.len();
    let mut i: usize = 0;
    while i < n
        invariant
            n == s@.len(),
            s@ == s0,
            i <= n,
            keys_sorted(s0),
            forall|j: int| 0 <= j < i ==> s0[j].0@ != k@ && !seq_lt(k@, s0[j].0@),
        ensures
            i <= n,
            s@ == s0,
            forall|j: int| 0 <= j < i ==> s0[j].0@ != k@ && !seq_lt(k@, s0[j].0@),
            i < n ==> (s0[i as int].0@ == k@ || seq_lt(k@, s0[i as int].0@)),
        decreases n - i,
    {
        let same = str_eq(s[i].0.as_str(), k.as_str());
        let before = str_lt(k.as_str(), s[i].0.as_str());
        if same || before {
            break;
        }
        i = i + 1;
    }
    proof {
        lemma_put_skip(s0, k, v, i as int);
    }
    let same = i < n && str_eq(s[i].0.as_str(), k.as_str());
    let ghost kk = k;
    let ghost vv = v;
    if same {
        s.set(i, (k, v));
        proof {
            assert(s0.skip(i as int)[0].0@ == kk@);
            assert(put(s0.skip(i as int), kk, vv) =~= s0.skip(i as int).update(0, (kk, vv)));
            assert(s@ =~= s0.take(i as int) + put(s0.skip(i as int), kk, vv));
        }
    } else {
        s.insert(i, (k, v));
        proof {
            if i < n {
                assert(s0.skip(i as int)[0].0@ != kk@);
                assert(put(s0.skip(i as int), kk, vv) =~= seq![(kk, vv)] + s0.skip(i as int));
            } else {
                assert(s0.skip(i as int) =~= Seq::<(String, V)>::empty());
            }
            assert(s@ =~= s0.take(i as int) + put(s0.skip(i as int), kk, vv));
        }
    }
}

// ── Sorted sets of names ─────────────────────────────────────────────────────

/// Strictly increasing (so no name occurs twice).
pub open spec fn sorted_names(s: Seq<Seq<char>>) -> bool {
    forall|i: int, j: int| 0 <= i < j < s.len() ==> seq_lt(#[trigger] s[i], #[trigger] s[j])
}

/// `k` added where it sorts, unless present.
pub open spec fn ins(s: Seq<Seq<char>>, k: Seq<char>) -> Seq<Seq<char>>
    decreases s.len(),
{
    if s.len() == 0 {
        seq![k]
    } else if s[0] == k {
        s
    } else if seq_lt(k, s[0]) {
        seq![k] + s
    } else {
        seq![s[0]] + ins(s.drop_first(), k)
    }
}

/// The names of `s` as an ordered set: sorted, each once.
pub open spec fn set_of(s: Seq<Seq<char>>) -> Seq<Seq<char>>
    decreases s.len(),
{
    if s.len() == 0 {
        Seq::empty()
    } else {
        ins(set_of(s.drop_last()), s.last())
    }
}

proof fn lemma_ins_skip(s: Seq<Seq<char>>, k: Seq<char>, i: int)
    requires
        0 <= i <= s.len(),
        forall|j: int| 0 <= j < i ==> s[j] != k && !seq_lt(k, s[j]),
    ensures
        ins(s, k) == s.take(i) + ins(s.skip(i), k),
    decreases i,
{
    if i == 0 {
        assert(s.skip(0) =~= s);
        assert(s.take(0) + ins(s, k) =~= ins(s, k));
    } else {
        lemma_ins_skip(s.drop_first(), k, i - 1);
        assert(s.drop_first().skip(i - 1) =~= s.skip(i));
        assert(seq![s[0]] + s.drop_first().take(i - 1) =~= s.take(i));
        assert(seq![s[0]] + (s.drop_first().take(i - 1) + ins(s.skip(i), k)) =~= s.take(i) + ins(s.skip(i), k));
    }
}

/// Inserting keeps a sorted set sorted and adds exactly `k`.
pub proof fn lemma_ins(s: Seq<Seq<char>>, k: Seq<char>)
    requires
        sorted_names(s),
    ensures
        sorted_names(ins(s, k)),
        forall|x: Seq<char>| #[trigger] ins(s, k).contains(x) <==> (s.contains(x) || x == k),
    decreases s.len(),
{
    let u = ins(s, k);
    if s.len() == 0 {
        assert(u[0] == k);
    } else if s[0] == k {
    } else if seq_lt(k, s[0]) {
        assert forall|i: int, j: int| 0 <= i < j < u.len() implies seq_lt(#[trigger] u[i], #[trigger] u[j]) by {
            if i == 0 {
                if j > 1 {
                    assert(seq_lt(s[0], s[j - 1]));
                    lemma_lt_transitive(k, s[0], s[j - 1]);
                }
            } else {
                assert(seq_lt(s[i - 1], s[j - 1]));
            }
        }
        assert forall|x: Seq<char>| #[trigger] u.contains(x) <==> (s.contains(x) || x == k) by {
            if u.contains(x) {
                let i = choose|i: int| 0 <= i < u.len() && u[i] == x;
                if i > 0 {
                    assert(s[i - 1] == x);
                }
            }
            if s.contains(x) {
                let i = choose|i: int| 0 <= i < s.len() && s[i] == x;
                assert(u[i + 1] == x);
            }
            if x == k {
                assert(u[0] == x);
            }
        }
    } else {
        let t = s.drop_first();
        assert(sorted_names(t)) by {
            assert forall|i: int, j: int| 0 <= i < j < t.len() implies seq_lt(#[trigger] t[i], #[trigger] t[j]) by {
                assert(seq_lt(s[i + 1], s[j + 1]));
            }
        }
        lemma_ins(t, k);
        let r = ins(t, k);
        lemma_lt_total(k, s[0]);
        assert(u =~= seq![s[0]] + r);
        assert forall|i: int, j: int| 0 <= i < j < u.len() implies seq_lt(#[trigger] u[i], #[trigger] u[j]) by {
            if i == 0 {
                let e = u[j];
                assert(e == r[j - 1]);
                assert(r.contains(e));
                if e == k {
                } else {
                    assert(t.contains(e));
                    let q = choose|q: int| 0 <= q < t.len() && t[q] == e;
                    assert(seq_lt(s[0], s[q + 1]));
                }
            }
        }
        assert forall|x: Seq<char>| #[trigger] u.contains(x) <==> (s.contains(x) || x == k) by {
            if u.contains(x) {
                let i = choose|i: int| 0 <= i < u.len() && u[i] == x;
                if i == 0 {
                    assert(s[0] == x);
                } else {
                    assert(r[i - 1] == x);
                    assert(r.contains(x));
                    if x != k {
                        assert(t.contains(x));
                        let q = choose|q: int| 0 <= q < t.len() && t[q] == x;
                        assert(s[q + 1] == x);
                    }
                }
            }
            if s.contains(x) {
                let i = choose|i: int| 0 <= i < s.len() && s[i] == x;
                if i == 0 {
                    assert(u[0] == x);
                } else {
                    assert(t[i - 1] == x);
                    assert(t.contains(x));
                    assert(r.contains(x));
                    let q = choose|q: int| 0 <= q < r.len() && r[q] == x;
                    assert(u[q + 1] == x);
                }
            }
            if x == k {
                assert(r.contains(k));
                let q = choose|q: int| 0 <= q < r.len() && r[q] == k;
                assert(u[q + 1] == x);
            }
        }
    }
}

/// `set_of(s)` is sorted and holds exactly the names of `s`.
pub proof fn lemma_set_of(s: Seq<Seq<char>>)
    ensures
        sorted_names(set_of(s)),
        forall|x: Seq<char>| #[trigger] set_of(s).contains(x) <==> s.contains(x),
    decreases s.len(),
{
    if s.len() > 0 {
        lemma_set_of(s.drop_last());
        lemma_ins(set_of(s.drop_last()), s.last());
        assert forall|x: Seq<char>| #[trigger] set_of(s).contains(x) <==> s.contains(x) by {
            if s.drop_last().contains(x) {
                let i = choose|i: int| 0 <= i < s.drop_last().len() && s.drop_last()[i] == x;
                assert(s[i] == x);
            }
            if s.contains(x) {
                let i = choose|i: int| 0 <= i < s.len() && s[i] == x;
                if i < s.len() - 1 {
                    assert(s.drop_last()[i] == x);
                }
            }
        }
    }
}

/// Adds name `k` to a sorted set of names.
pub fn insert_name(v: &mut Vec<String>, k: &str)
    requires
        sorted_names(crate::text::views(old(v)@)),
    ensures
        crate::text::views(final(v)@) == ins(crate::text::views(old(v)@), k@),
        sorted_names(crate::text::views(final(v)@)),
{
    let ghost s0 = crate::text::views(old(v)@);
    proof {
        lemma_ins(s0, k@);
    }
    let n: usize = v.len();
    let mut i: usize = 0;
    while i < n
        invariant
            n == v@.len(),
            s0 == crate::text::views(v@),
            i <= n,
            sorted_names(s0),
            forall|j: int| 0 <= j < i ==> s0[j] != k@ && !seq_lt(k@, s0[j]),
        ensures
            i <= n,
            s0 == crate::text::views(v@),
            forall|j: int| 0 <= j < i ==> s0[j] != k@ && !seq_lt(k@, s0[j]),
            i < n ==> (s0[i as int] == k@ || seq_lt(k@, s0[i as int])),
        decreases n - i,
    {
        proof {
            assert(s0[i as int] == v@[i as int]@);
        }
        let same = str_eq(v[i].as_str(), k);
        let before = str_lt(k, v[i].as_str());
        if same || before {
            break;
        }
        i = i + 1;
    }
    proof {
        lemma_ins_skip(s0, k@, i as int);
    }
    if i < n && str_eq(v[i].as_str(), k) {
        proof {
            assert(s0[i as int] == v@[i as int]@);
            assert(ins(s0.skip(i as int), k@) =~= s0.skip(i as int));
            assert(s0.take(i as int) + s0.skip(i as int) =~= s0);
        }
        return;
    }
    v.insert(i, crate::text::owned(k));
    proof {
        if i < n {
            assert(s0[i as int] == v@[i + 1]@);
            assert(s0.skip(i as int)[0] != k@);
            assert(ins(s0.skip(i as int), k@) =~= seq![k@] + s0.skip(i as int));
        } else {
            assert(s0.skip(i as int) =~= Seq::<Seq<char>>::empty());
        }
        assert(crate::text::views(v@) =~= s0.take(i as int) + ins(s0.skip(i as int), k@));
    }
}

} // verus!
