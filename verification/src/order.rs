//! Lexicographic order on character sequences, the order in which
//! `String`s compare (UTF-8 byte order agrees with code-point order).
use crate::text::chars_of;
use vstd::prelude::*;

verus! {

/// `a` and `b` agree on their first `k` characters.
pub open spec fn agree_upto(a: Seq<char>, b: Seq<char>, k: int) -> bool {
    forall|j: int| 0 <= j < k ==> #[trigger] a[j] == b[j]
}

/// `k` witnesses that `a` sorts strictly before `b`.
pub open spec fn lt_at(a: Seq<char>, b: Seq<char>, k: int) -> bool {
    &&& 0 <= k <= a.len()
    &&& k < b.len()
    &&& agree_upto(a, b, k)
    &&& (k == a.len() || a[k] < b[k])
}

/// `a` sorts strictly before `b`.
pub open spec fn seq_lt(a: Seq<char>, b: Seq<char>) -> bool {
    exists|k: int| lt_at(a, b, k)
}

pub proof fn lemma_lt_irreflexive(a: Seq<char>)
    ensures
        !seq_lt(a, a),
{
}

pub proof fn lemma_lt_transitive(a: Seq<char>, b: Seq<char>, c: Seq<char>)
    requires
        seq_lt(a, b),
        seq_lt(b, c),
    ensures
        seq_lt(a, c),
{
    let k1 = choose|k: int| lt_at(a, b, k);
    let k2 = choose|k: int| lt_at(b, c, k);
    if k1 < k2 {
        assert(lt_at(a, c, k1));
    } else if k2 < k1 {
        assert(lt_at(a, c, k2));
    } else {
        assert(lt_at(a, c, k1));
    }
}

/// Two different sequences are ordered one way or the other.
pub proof fn lemma_lt_total(a: Seq<char>, b: Seq<char>)
    requires
        a != b,
    ensures
        seq_lt(a, b) || seq_lt(b, a),
{
    let m: int = if a.len() <= b.len() { a.len() as int } else { b.len() as int };
    if agree_upto(a, b, m) {
        if a.len() == b.len() {
            assert(a =~= b);
        } else if a.len() < b.len() {
            assert(lt_at(a, b, m));
        } else {
            assert(agree_upto(b, a, m));
            assert(lt_at(b, a, m));
        }
    } else {
        lemma_first_difference(a, b, m);
        let k = choose|k: int| 0 <= k < m && a[k] != b[k] && forall|j: int| 0 <= j < k ==> a[j] == b[j];
        if a[k] < b[k] {
            assert(agree_upto(a, b, k));
            assert(lt_at(a, b, k));
        } else {
            assert(agree_upto(b, a, k));
            assert(lt_at(b, a, k));
        }
    }
}

pub proof fn lemma_lt_asymmetric(a: Seq<char>, b: Seq<char>)
    requires
        seq_lt(a, b),
    ensures
        !seq_lt(b, a),
        a != b,
{
    if seq_lt(b, a) {
        lemma_lt_transitive(a, b, a);
    }
}

/// The first position at which `a` and `b` differ exists when they differ
/// within the shorter length.
proof fn lemma_first_difference(a: Seq<char>, b: Seq<char>, m: int)
    requires
        0 <= m <= a.len(),
        m <= b.len(),
        !agree_upto(a, b, m),
    ensures
        exists|k: int| 0 <= k < m && a[k] != b[k] && forall|j: int| 0 <= j < k ==> a[j] == b[j],
    decreases m,
{
    if agree_upto(a, b, m - 1) {
        assert(a[m - 1] != b[m - 1]);
    } else {
        lemma_first_difference(a, b, m - 1);
    }
}

/// Whether `a` sorts strictly before `b`.
pub fn str_lt(a: &str, b: &str) -> (r: bool)
    ensures
        r == seq_lt(a@, b@),
{
    let v = chars_of(a);
    let w = chars_of(b);
    let n: usize = v.len();
    let m: usize = w.len();
    let mut k: usize = 0;
    while k < n && k < m
        invariant
            n == v@.len(),
            m == w@.len(),
            v@ == a@,
            w@ == b@,
            k <= n,
            k <= m,
            agree_upto(v@, w@, k as int),
        decreases n - k,
    {
        let c: char = v[k];
        let d: char = w[k];
        if c != d {
            let less: bool = c < d;
            proof {
                assert(c == v@[k as int]);
                assert(less == (v@[k as int] < w@[k as int]));
                if v@[k as int] < w@[k as int] {
                    assert(lt_at(v@, w@, k as int));
                } else {
                    assert(w@[k as int] < v@[k as int]);
                    assert(agree_upto(w@, v@, k as int));
                    assert(lt_at(w@, v@, k as int));
                    lemma_lt_asymmetric(w@, v@);
                    assert(!seq_lt(v@, w@));
                }
                assert(less == seq_lt(v@, w@));
            }
            return less;
        }
        k = k + 1;
    }
    proof {
        if k == n && k < m {
            assert(lt_at(v@, w@, k as int));
        } else {
            if seq_lt(v@, w@) {
                let j = choose|j: int| lt_at(v@, w@, j);
                if j < k {
                    assert(v@[j] == w@[j]);
                }
            }
        }
    }
    k < m && k == n
}

} // verus!
