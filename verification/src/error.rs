//! Structured errors and secret redaction.
//!
//! `redact` removes, in this order: every registered secret (longest first),
//! `Bearer <token>` values, GitHub tokens with the `ghp_` and `github_pat_`
//! prefixes, and runs of 40 or more hexadecimal digits.  Each removed part is
//! replaced by `[REDACTED]`; everything else is kept as it was.
use crate::named::{keys_sorted, put, put_named};
use crate::text::{
    ascii_alnum, ascii_ws, chars_of, has_at, hex_digit, is_ascii_alnum, is_ascii_ws, is_hex,
    owned, push_char, seq_has_at, str_eq,
};
use vstd::prelude::*;

verus! {

// ── Character classes and runs ───────────────────────────────────────────────

/// The character classes the scanners consume runs of.
#[derive(Debug, Clone, Copy, PartialEq, Eq)]
pub enum CharClass {
    /// ASCII white space.
    Space,
    /// Characters of a bearer token: ASCII letters, digits and `-._~+/=`.
    BearerToken,
    /// ASCII letters and digits.
    Alnum,
    /// ASCII letters, digits and `_`.
    PatChar,
    /// ASCII hexadecimal digits.
    Hex,
}

pub open spec fn in_class(c: char, k: CharClass) -> bool {
    match k {
        CharClass::Space => is_ascii_ws(c),
        CharClass::BearerToken => is_ascii_alnum(c) || c == '-' || c == '.' || c == '_' || c == '~'
            || c == '+' || c == '/' || c == '=',
        CharClass::Alnum => is_ascii_alnum(c),
        CharClass::PatChar => is_ascii_alnum(c) || c == '_',
        CharClass::Hex => is_hex(c),
    }
}

fn class_has(c: char, k: CharClass) -> (b: bool)
    ensures
        b == in_class(c, k),
{
    match k {
        CharClass::Space => ascii_ws(c),
        CharClass::BearerToken => ascii_alnum(c) || c == '-' || c == '.' || c == '_' || c == '~'
            || c == '+' || c == '/' || c == '=',
        CharClass::Alnum => ascii_alnum(c),
        CharClass::PatChar => ascii_alnum(c) || c == '_',
        CharClass::Hex => hex_digit(c),
    }
}

/// The length of the run of class-`k` characters starting at `i`.
pub open spec fn run_len(s: Seq<char>, i: int, k: CharClass) -> nat
    decreases s.len() - i,
{
    if 0 <= i < s.len() && in_class(s[i], k) {
        1 + run_len(s, i + 1, k)
    } else {
        0
    }
}

pub proof fn lemma_run_len_bound(s: Seq<char>, i: int, k: CharClass)
    requires
        0 <= i <= s.len(),
    ensures
        i + run_len(s, i, k) <= s.len(),
    decreases s.len() - i,
{
    if i < s.len() && in_class(s[i], k) {
        lemma_run_len_bound(s, i + 1, k);
    }
}

fn run_len_at(v: &Vec<char>, i: usize, k: CharClass) -> (r: usize)
    requires
        i <= v@.len(),
    ensures
        r == run_len(v@, i as int, k),
        i + r <= v@.len(),
{
    let n: usize = v.len();
    let mut j: usize = i;
    while j < n && class_has(v[j], k)
        invariant
            n == v@.len(),
            i <= j <= n,
            run_len(v@, i as int, k) == (j - i) + run_len(v@, j as int, k),
        decreases n - j,
    {
        j = j + 1;
    }
    j - i
}

// ── Bearer tokens ────────────────────────────────────────────────────────────

/// Two characters that are equal up to ASCII case.
pub open spec fn eq_ignore_case(a: char, b: char) -> bool {
    a == b || (('a' <= a <= 'z' || 'A' <= a <= 'Z') && ('a' <= b <= 'z' || 'A' <= b <= 'Z') && (a
        as int - b as int == 32 || b as int - a as int == 32))
}

pub fn chars_eq_ignore_case(a: char, b: char) -> (r: bool)
    ensures
        r == eq_ignore_case(a, b),
{
    if a == b {
        return true;
    }
    let la = ('a' <= a && a <= 'z') || ('A' <= a && a <= 'Z');
    let lb = ('a' <= b && b <= 'z') || ('A' <= b && b <= 'Z');
    if !(la && lb) {
        return false;
    }
    let x = a as u32;
    let y = b as u32;
    x + 32 == y || y + 32 == x
}

/// `s[i..]` starts with "Bearer" in any ASCII case.
pub open spec fn bearer_word_at(s: Seq<char>, i: int) -> bool {
    0 <= i && i + 6 <= s.len() && forall|k: int| 0 <= k < 6 ==> eq_ignore_case(#[trigger] s[i + k], "Bearer"@[k])
}

/// The end of the token of a `Bearer` match at `i`.
pub open spec fn bearer_end(s: Seq<char>, i: int) -> int {
    let t = i + 6 + run_len(s, i + 6, CharClass::Space);
    t + run_len(s, t, CharClass::BearerToken)
}

/// A bearer token starts at `i` of the segment beginning at `seg`: the word
/// `Bearer` (any case) not preceded within the segment by a letter or digit,
/// then white space, then at least one token character.
pub open spec fn bearer_match(s: Seq<char>, seg: int, i: int) -> bool {
    let t = i + 6 + run_len(s, i + 6, CharClass::Space);
    &&& bearer_word_at(s, i)
    &&& (i == seg || !is_ascii_alnum(s[i - 1]))
    &&& i + 6 < s.len() && is_ascii_ws(s[i + 6])
    &&& run_len(s, t, CharClass::BearerToken) > 0
}

pub open spec fn bearer_scan(s: Seq<char>, seg: int, i: int) -> Seq<char>
    decreases s.len() - i,
{
    if i < 0 || i >= s.len() {
        Seq::empty()
    } else if bearer_match(s, seg, i) && bearer_end(s, i) > i {
        proof {
            lemma_run_len_bound(s, i + 6, CharClass::Space);
            lemma_run_len_bound(s, i + 6 + run_len(s, i + 6, CharClass::Space), CharClass::BearerToken);
        }
        "Bearer [REDACTED]"@ + bearer_scan(s, bearer_end(s, i), bearer_end(s, i))
    } else {
        seq![s[i]] + bearer_scan(s, seg, i + 1)
    }
}

/// `s` with each `Bearer <token>` replaced by `Bearer [REDACTED]`.
pub open spec fn scrub_bearer(s: Seq<char>) -> Seq<char> {
    bearer_scan(s, 0, 0)
}

fn bearer_at(v: &Vec<char>, seg: usize, i: usize) -> (b: bool)
    requires
        seg <= i < v@.len(),
    ensures
        b == bearer_match(v@, seg as int, i as int),
{
    let n: usize = v.len();
    if n - i < 6 {
        return false;
    }
    let word = chars_of("Bearer");
    proof {
        reveal_strlit("Bearer");
    }
    let mut k: usize = 0;
    while k < 6
        invariant
            n == v@.len(),
            i + 6 <= n,
            word@ == "Bearer"@,
            word@.len() == 6,
            k <= 6,
            forall|q: int| 0 <= q < k ==> eq_ignore_case(#[trigger] v@[i + q], "Bearer"@[q]),
        decreases 6 - k,
    {
        if !chars_eq_ignore_case(v[i + k], word[k]) {
            return false;
        }
        k = k + 1;
    }
    if i > seg && ascii_alnum(v[i - 1]) {
        return false;
    }
    if i + 6 >= n || !ascii_ws(v[i + 6]) {
        return false;
    }
    let sp = run_len_at(v, i + 6, CharClass::Space);
    let t = i + 6 + sp;
    let tok = run_len_at(v, t, CharClass::BearerToken);
    tok > 0
}

fn scrub_bearer_tokens(input: &str) -> (r: String)
    ensures
        r@ == scrub_bearer(input@),
{
    let v = chars_of(input);
    let n: usize = v.len();
    let mut out = String::new();
    let mut seg: usize = 0;
    let mut i: usize = 0;
    while i < n
        invariant
            n == v@.len(),
            v@ == input@,
            seg <= i <= n,
            out@ + bearer_scan(v@, seg as int, i as int) == scrub_bearer(v@),
        decreases n - i,
    {
        if bearer_at(&v, seg, i) {
            let sp = run_len_at(&v, i + 6, CharClass::Space);
            let tok = run_len_at(&v, i + 6 + sp, CharClass::BearerToken);
            let end = i + 6 + sp + tok;
            proof {
                assert(end == bearer_end(v@, i as int));
            }
            let ghost before = out@;
            out.append("Bearer [REDACTED]");
            proof {
                assert(out@ + bearer_scan(v@, end as int, end as int) =~= before + bearer_scan(v@, seg as int, i as int));
            }
            seg = end;
            i = end;
        } else {
            let ghost before = out@;
            push_char(&mut out, v[i]);
            proof {
                assert(out@ + bearer_scan(v@, seg as int, i + 1) =~= before + bearer_scan(v@, seg as int, i as int));
            }
            i = i + 1;
        }
    }
    proof {
        assert(out@ + bearer_scan(v@, seg as int, i as int) =~= out@);
    }
    out
}

// ── Prefixed tokens ──────────────────────────────────────────────────────────

pub open spec fn prefixed_scan(s: Seq<char>, p: Seq<char>, k: CharClass, i: int) -> Seq<char>
    decreases s.len() - i,
{
    if i < 0 || i >= s.len() {
        Seq::empty()
    } else if seq_has_at(s, i, p) && run_len(s, i + p.len(), k) >= 10 {
        proof {
            lemma_run_len_bound(s, i + p.len(), k);
        }
        "[REDACTED]"@ + prefixed_scan(s, p, k, i + p.len() + run_len(s, i + p.len(), k))
    } else {
        seq![s[i]] + prefixed_scan(s, p, k, i + 1)
    }
}

/// `s` with each occurrence of prefix `p` followed by at least ten class-`k`
/// characters replaced by `[REDACTED]`.
pub open spec fn scrub_prefixed(s: Seq<char>, p: Seq<char>, k: CharClass) -> Seq<char> {
    prefixed_scan(s, p, k, 0)
}

fn scrub_prefixed_tokens(input: &str, prefix: &str, k: CharClass) -> (r: String)
    ensures
        r@ == scrub_prefixed(input@, prefix@, k),
{
    let v = chars_of(input);
    let p = chars_of(prefix);
    let n: usize = v.len();
    let mut out = String::new();
    let mut i: usize = 0;
    while i < n
        invariant
            n == v@.len(),
            v@ == input@,
            p@ == prefix@,
            i <= n,
            out@ + prefixed_scan(v@, p@, k, i as int) == scrub_prefixed(v@, p@, k),
        decreases n - i,
    {
        let ghost before = out@;
        if has_at(&v, i, &p) {
            let run = run_len_at(&v, i + p.len(), k);
            if run >= 10 {
                out.append("[REDACTED]");
                let next = i + p.len() + run;
                proof {
                    assert(out@ + prefixed_scan(v@, p@, k, next as int) =~= before + prefixed_scan(v@, p@, k, i as int));
                }
                i = next;
                continue;
            }
        }
        push_char(&mut out, v[i]);
        proof {
            assert(out@ + prefixed_scan(v@, p@, k, i + 1) =~= before + prefixed_scan(v@, p@, k, i as int));
        }
        i = i + 1;
    }
    proof {
        assert(out@ + prefixed_scan(v@, p@, k, i as int) =~= out@);
    }
    out
}

// ── Long hexadecimal runs ────────────────────────────────────────────────────

pub open spec fn hex_scan(s: Seq<char>, seg: int, i: int) -> Seq<char>
    decreases s.len() - i,
{
    if i < 0 || i >= s.len() {
        Seq::empty()
    } else if is_hex(s[i]) && (i == seg || !is_hex(s[i - 1])) && run_len(s, i, CharClass::Hex) >= 40 {
        proof {
            lemma_run_len_bound(s, i, CharClass::Hex);
        }
        "[REDACTED]"@ + hex_scan(s, i + run_len(s, i, CharClass::Hex), i + run_len(s, i, CharClass::Hex))
    } else {
        seq![s[i]] + hex_scan(s, seg, i + 1)
    }
}

/// `s` with each maximal run of 40 or more hexadecimal digits replaced by
/// `[REDACTED]`.
pub open spec fn scrub_hex(s: Seq<char>) -> Seq<char> {
    hex_scan(s, 0, 0)
}

fn scrub_long_hex_tokens(input: &str) -> (r: String)
    ensures
        r@ == scrub_hex(input@),
{
    let v = chars_of(input);
    let n: usize = v.len();
    let mut out = String::new();
    let mut seg: usize = 0;
    let mut i: usize = 0;
    while i < n
        invariant
            n == v@.len(),
            v@ == input@,
            seg <= i <= n,
            out@ + hex_scan(v@, seg as int, i as int) == scrub_hex(v@),
        decreases n - i,
    {
        let ghost before = out@;
        let c = v[i];
        if hex_digit(c) && (i == seg || !hex_digit(v[i - 1])) {
            let run = run_len_at(&v, i, CharClass::Hex);
            if run >= 40 {
                out.append("[REDACTED]");
                let next = i + run;
                proof {
                    assert(out@ + hex_scan(v@, next as int, next as int) =~= before + hex_scan(v@, seg as int, i as int));
                }
                seg = next;
                i = next;
                continue;
            }
        }
        push_char(&mut out, c);
        proof {
            assert(out@ + hex_scan(v@, seg as int, i + 1) =~= before + hex_scan(v@, seg as int, i as int));
        }
        i = i + 1;
    }
    proof {
        assert(out@ + hex_scan(v@, seg as int, i as int) =~= out@);
    }
    out
}

// ── Registered secrets ───────────────────────────────────────────────────────

pub open spec fn replace_scan(s: Seq<char>, p: Seq<char>, i: int) -> Seq<char>
    decreases s.len() - i,
{
    if i < 0 || i >= s.len() {
        Seq::empty()
    } else if p.len() > 0 && seq_has_at(s, i, p) {
        "[REDACTED]"@ + replace_scan(s, p, i + p.len())
    } else {
        seq![s[i]] + replace_scan(s, p, i + 1)
    }
}

/// `s` with each occurrence of `p`, scanned left to right without overlap,
/// replaced by `[REDACTED]` (`str::replace`).
pub open spec fn replace_all(s: Seq<char>, p: Seq<char>) -> Seq<char> {
    replace_scan(s, p, 0)
}

fn replace_secret(input: &str, secret: &str) -> (r: String)
    ensures
        r@ == replace_all(input@, secret@),
{
    let v = chars_of(input);
    let p = chars_of(secret);
    let n: usize = v.len();
    let mut out = String::new();
    let mut i: usize = 0;
    while i < n
        invariant
            n == v@.len(),
            v@ == input@,
            p@ == secret@,
            i <= n,
            out@ + replace_scan(v@, p@, i as int) == replace_all(v@, p@),
        decreases n - i,
    {
        let ghost before = out@;
        if p.len() > 0 && has_at(&v, i, &p) {
            out.append("[REDACTED]");
            proof {
                assert(out@ + replace_scan(v@, p@, i + p@.len()) =~= before + replace_scan(v@, p@, i as int));
            }
            i = i + p.len();
        } else {
            push_char(&mut out, v[i]);
            proof {
                assert(out@ + replace_scan(v@, p@, i + 1) =~= before + replace_scan(v@, p@, i as int));
            }
            i = i + 1;
        }
    }
    proof {
        assert(out@ + replace_scan(v@, p@, i as int) =~= out@);
    }
    out
}

/// `x` placed after every element at least as long as it (a stable
/// insertion into a longest-first list).
pub open spec fn insert_by_len(s: Seq<Seq<char>>, x: Seq<char>) -> Seq<Seq<char>>
    decreases s.len(),
{
    if s.len() == 0 {
        seq![x]
    } else if s[0].len() < x.len() {
        seq![x] + s
    } else {
        seq![s[0]] + insert_by_len(s.drop_first(), x)
    }
}

/// The secrets ordered longest first; secrets of equal length keep their
/// registration order (a stable sort by decreasing length).
pub open spec fn longest_first(s: Seq<Seq<char>>) -> Seq<Seq<char>>
    decreases s.len(),
{
    if s.len() == 0 {
        Seq::empty()
    } else {
        insert_by_len(longest_first(s.drop_last()), s.last())
    }
}

/// `s` with each secret of `ps` replaced in turn.
pub open spec fn replace_each(s: Seq<char>, ps: Seq<Seq<char>>) -> Seq<char>
    decreases ps.len(),
{
    if ps.len() == 0 {
        s
    } else {
        replace_each(replace_all(s, ps[0]), ps.drop_first())
    }
}


/// `q` has none of the characters of `[REDACTED]`.
pub open spec fn avoids_mark(q: Seq<char>) -> bool {
    forall|k: int| 0 <= k < q.len() ==> !"[REDACTED]"@.contains(#[trigger] q[k])
}

/// A stretch of the scan's output that holds no character of `[REDACTED]`
/// is a stretch of the input copied unchanged.
proof fn lemma_scan_window(s: Seq<char>, p: Seq<char>, i: int, l: int)
    requires
        0 <= i <= s.len(),
        0 <= l <= replace_scan(s, p, i).len(),
        forall|k: int| 0 <= k < l ==> !"[REDACTED]"@.contains(#[trigger] replace_scan(s, p, i)[k]),
    ensures
        i + l <= s.len(),
        replace_scan(s, p, i).take(l) == s.subrange(i, i + l),
    decreases l,
{
    reveal_strlit("[REDACTED]");
    let r = replace_scan(s, p, i);
    if l == 0 {
        assert(r.take(0) =~= s.subrange(i, i));
    } else if i >= s.len() {
        assert(r.len() == 0);
    } else if p.len() > 0 && seq_has_at(s, i, p) {
        assert(r[0] == '[');
        assert("[REDACTED]"@[0] == '[');
        assert(!"[REDACTED]"@.contains(r[0]));
    } else {
        let t = replace_scan(s, p, i + 1);
        assert(r == seq![s[i]] + t);
        assert forall|k: int| 0 <= k < l - 1 implies !"[REDACTED]"@.contains(#[trigger] t[k]) by {
            assert(r[k + 1] == t[k]);
        }
        lemma_scan_window(s, p, i + 1, l - 1);
        assert(r.take(l) =~= seq![s[i]] + t.take(l - 1));
        assert(s.subrange(i, i + l) =~= seq![s[i]] + s.subrange(i + 1, i + l));
    }
}

/// An occurrence of a mark-free `q` in the scan's output from `i` is an
/// occurrence in the input at or after `i`, and `q` is not the replaced
/// string.
proof fn lemma_scan_occurrence(s: Seq<char>, p: Seq<char>, i: int, q: Seq<char>, k: int)
    requires
        0 <= i,
        q.len() > 0,
        avoids_mark(q),
        seq_has_at(replace_scan(s, p, i), k, q),
    ensures
        exists|j: int| i <= j && seq_has_at(s, j, q),
        !(p.len() > 0 && p == q),
    decreases s.len() - i,
{
    reveal_strlit("[REDACTED]");
    let r = replace_scan(s, p, i);
    if i >= s.len() {
        assert(r.len() == 0);
    } else if p.len() > 0 && seq_has_at(s, i, p) {
        let t = replace_scan(s, p, i + p.len());
        assert(r == "[REDACTED]"@ + t);
        if k < 10 {
            assert(r[k] == q[0]);
            assert(r[k] == "[REDACTED]"@[k]);
            assert("[REDACTED]"@.contains(q[0]));
        } else {
            assert(t.subrange(k - 10, k - 10 + q.len()) =~= r.subrange(k, k + q.len()));
            lemma_scan_occurrence(s, p, i + p.len(), q, k - 10);
        }
    } else {
        let t = replace_scan(s, p, i + 1);
        assert(r == seq![s[i]] + t);
        if k == 0 {
            assert forall|m: int| 0 <= m < q.len() - 1 implies !"[REDACTED]"@.contains(#[trigger] t[m]) by {
                assert(t[m] == r[m + 1]);
                assert(r[m + 1] == q[m + 1]);
            }
            lemma_scan_window(s, p, i + 1, q.len() - 1);
            assert(s.subrange(i, i + q.len()) =~= seq![s[i]] + s.subrange(i + 1, i + q.len()));
            assert(r.subrange(0, q.len() as int) =~= seq![s[i]] + t.take(q.len() - 1));
            assert(seq_has_at(s, i, q));
        } else {
            assert(t.subrange(k - 1, k - 1 + q.len()) =~= r.subrange(k, k + q.len()));
            lemma_scan_occurrence(s, p, i + 1, q, k - 1);
        }
    }
}

/// Replacing strings in turn never brings back a mark-free `q` that the
/// text no longer holds.
proof fn lemma_replace_each_keeps_out(s: Seq<char>, ps: Seq<Seq<char>>, q: Seq<char>)
    requires
        q.len() > 0,
        avoids_mark(q),
        forall|j: int| !seq_has_at(s, j, q),
    ensures
        forall|j: int| !seq_has_at(replace_each(s, ps), j, q),
    decreases ps.len(),
{
    if ps.len() > 0 {
        let s1 = replace_all(s, ps[0]);
        assert forall|j: int| !seq_has_at(s1, j, q) by {
            if seq_has_at(s1, j, q) {
                lemma_scan_occurrence(s, ps[0], 0, q, j);
            }
        }
        lemma_replace_each_keeps_out(s1, ps.drop_first(), q);
        assert(replace_each(s, ps) == replace_each(s1, ps.drop_first()));
    }
}

/// After each string of `ps` is replaced in turn, no mark-free non-empty
/// member of `ps` occurs.
proof fn lemma_replace_each_removes(s: Seq<char>, ps: Seq<Seq<char>>, q: Seq<char>)
    requires
        q.len() > 0,
        avoids_mark(q),
        ps.contains(q),
    ensures
        forall|j: int| !seq_has_at(replace_each(s, ps), j, q),
    decreases ps.len(),
{
    let s1 = replace_all(s, ps[0]);
    if ps[0] == q {
        assert forall|j: int| !seq_has_at(s1, j, q) by {
            if seq_has_at(s1, j, q) {
                lemma_scan_occurrence(s, ps[0], 0, q, j);
            }
        }
        lemma_replace_each_keeps_out(s1, ps.drop_first(), q);
    } else {
        let k = choose|k: int| 0 <= k < ps.len() && ps[k] == q;
        assert(ps.drop_first()[k - 1] == q);
        lemma_replace_each_removes(s1, ps.drop_first(), q);
    }
    assert(replace_each(s, ps) == replace_each(s1, ps.drop_first()));
}

proof fn lemma_insert_by_len_contains(s: Seq<Seq<char>>, x: Seq<char>, q: Seq<char>)
    requires
        s.contains(q) || q == x,
    ensures
        insert_by_len(s, x).contains(q),
    decreases s.len(),
{
    let u = insert_by_len(s, x);
    if s.len() == 0 {
        assert(u[0] == x);
    } else if s[0].len() < x.len() {
        if q == x {
            assert(u[0] == x);
        } else {
            let k = choose|k: int| 0 <= k < s.len() && s[k] == q;
            assert(u[k + 1] == q);
        }
    } else {
        if q == s[0] {
            assert(u[0] == q);
        } else {
            if q != x {
                let k = choose|k: int| 0 <= k < s.len() && s[k] == q;
                assert(s.drop_first()[k - 1] == q);
            }
            lemma_insert_by_len_contains(s.drop_first(), x, q);
            let t = insert_by_len(s.drop_first(), x);
            let k = choose|k: int| 0 <= k < t.len() && t[k] == q;
            assert(u[k + 1] == q);
        }
    }
}

proof fn lemma_longest_first_contains(s: Seq<Seq<char>>, q: Seq<char>)
    requires
        s.contains(q),
    ensures
        longest_first(s).contains(q),
    decreases s.len(),
{
    if s.last() == q {
        lemma_insert_by_len_contains(longest_first(s.drop_last()), s.last(), q);
    } else {
        let k = choose|k: int| 0 <= k < s.len() && s[k] == q;
        assert(s.drop_last()[k] == q);
        lemma_longest_first_contains(s.drop_last(), q);
        lemma_insert_by_len_contains(longest_first(s.drop_last()), s.last(), q);
    }
}

/// Replacing the registered secrets, longest first (the first stage of
/// `redact`), leaves no occurrence of any non-empty registered secret that
/// contains none of the characters of `[REDACTED]`.
pub proof fn lemma_registered_secrets_replaced(s: Seq<char>, secrets: Seq<Seq<char>>, q: Seq<char>)
    requires
        secrets.contains(q),
        q.len() > 0,
        avoids_mark(q),
    ensures
        forall|j: int| !seq_has_at(replace_each(s, longest_first(secrets)), j, q),
{
    lemma_longest_first_contains(secrets, q);
    lemma_replace_each_removes(s, longest_first(secrets), q);
}

// ── Access tokens left after redaction ──────────────────────────────────────

/// `t` holds `p` at `j` followed by at least ten class-`k` characters: an
/// access token of that shape (`ghp_…`, `github_pat_…`).
pub open spec fn token_at(t: Seq<char>, j: int, p: Seq<char>, k: CharClass) -> bool {
    seq_has_at(t, j, p) && run_len(t, j + p.len(), k) >= 10
}

/// No token of prefix `p` with ten or more class-`k` characters occurs in `t`.
pub open spec fn no_token(t: Seq<char>, p: Seq<char>, k: CharClass) -> bool {
    forall|j: int| !#[trigger] token_at(t, j, p, k)
}

/// A token shape that cannot run into a `[REDACTED]` mark: a non-empty prefix
/// without `[`, whose first character the mark does not hold, and a class
/// without `[`.
pub open spec fn mark_free_token(p: Seq<char>, k: CharClass) -> bool {
    &&& p.len() > 0
    &&& forall|x: int| 0 <= x < p.len() ==> p[x] != '['
    &&& forall|x: int| 0 <= x < "[REDACTED]"@.len() ==> "[REDACTED]"@[x] != p[0]
    &&& !in_class('[', k)
}

proof fn lemma_run_len_chars(t: Seq<char>, m: int, k: CharClass, r: int)
    requires
        0 <= r,
    ensures
        run_len(t, m, k) >= r <==> ((r == 0 || (0 <= m && m + r <= t.len())) && forall|y: int|
            m <= y && y < m + r ==> in_class(#[trigger] t[y], k)),
    decreases r,
{
    if r > 0 {
        lemma_run_len_chars(t, m + 1, k, r - 1);
        if run_len(t, m, k) >= r {
            assert forall|y: int| m <= y && y < m + r implies in_class(#[trigger] t[y], k) by {
                if y > m {
                    assert(m + 1 <= y && y < (m + 1) + (r - 1));
                }
            }
        }
    }
}

proof fn lemma_run_len_shift(a: Seq<char>, b: Seq<char>, m: int, k: CharClass)
    requires
        m >= a.len(),
    ensures
        run_len(a + b, m, k) == run_len(b, m - a.len(), k),
    decreases (a + b).len() - m,
{
    if m < (a + b).len() {
        assert((a + b)[m] == b[m - a.len()]);
        lemma_run_len_shift(a, b, m + 1, k);
    }
}

proof fn lemma_token_shift(a: Seq<char>, b: Seq<char>, j: int, p: Seq<char>, k: CharClass)
    requires
        j >= a.len(),
    ensures
        token_at(a + b, j, p, k) == token_at(b, j - a.len(), p, k),
{
    lemma_run_len_shift(a, b, j + p.len(), k);
    if j + p.len() <= (a + b).len() {
        assert((a + b).subrange(j, j + p.len()) =~= b.subrange(j - a.len(), j - a.len() + p.len()));
    }
}

/// A token at the start of `t` whose characters agree with `s` from `i` is a
/// token of `s` at `i`.
proof fn lemma_token_copied(t: Seq<char>, s: Seq<char>, i: int, p: Seq<char>, k: CharClass)
    requires
        token_at(t, 0, p, k),
        0 <= i,
        i + p.len() + 10 <= s.len(),
        forall|x: int| 0 <= x < p.len() + 10 ==> #[trigger] t[x] == s[i + x],
    ensures
        token_at(s, i, p, k),
{
    lemma_run_len_chars(t, p.len() as int, k, 10);
    assert(s.subrange(i, i + p.len()) =~= t.subrange(0, p.len() as int));
    assert forall|y: int| i + p.len() <= y && y < i + p.len() + 10 implies in_class(#[trigger] s[y], k) by {
        assert(t[y - i] == s[i + (y - i)]);
        assert(in_class(t[y - i], k));
    }
    lemma_run_len_chars(s, i + p.len(), k, 10);
}

/// The first `p.len() + 10` characters of a token hold no `[`.
proof fn lemma_token_mark_free(t: Seq<char>, p: Seq<char>, k: CharClass)
    requires
        token_at(t, 0, p, k),
        mark_free_token(p, k),
    ensures
        p.len() + 10 <= t.len(),
        forall|x: int| 0 <= x < p.len() + 10 ==> #[trigger] t[x] != '[',
{
    lemma_run_len_chars(t, p.len() as int, k, 10);
    assert forall|x: int| 0 <= x < p.len() + 10 implies #[trigger] t[x] != '[' by {
        if x < p.len() {
            assert(t.subrange(0, p.len() as int)[x] == p[x]);
        } else {
            assert(in_class(t[x], k));
        }
    }
}

/// No token starts inside a `[REDACTED]` mark at the head of `t`.
proof fn lemma_no_token_in_mark(rest: Seq<char>, j: int, p: Seq<char>, k: CharClass)
    requires
        mark_free_token(p, k),
        0 <= j < "[REDACTED]"@.len(),
    ensures
        !token_at("[REDACTED]"@ + rest, j, p, k),
{
    let t = "[REDACTED]"@ + rest;
    if seq_has_at(t, j, p) {
        assert(t.subrange(j, j + p.len())[0] == p[0]);
        assert(t[j] == "[REDACTED]"@[j]);
    }
}

/// Up to its first `[`, the output of a prefixed-token scan from `i` is a
/// copy of the input from `i`.
proof fn lemma_prefixed_copies(s: Seq<char>, q: Seq<char>, kq: CharClass, i: int, n: int)
    requires
        0 <= i <= s.len(),
        0 <= n <= prefixed_scan(s, q, kq, i).len(),
        forall|x: int| 0 <= x < n ==> #[trigger] prefixed_scan(s, q, kq, i)[x] != '[',
    ensures
        i + n <= s.len(),
        forall|x: int| 0 <= x < n ==> #[trigger] prefixed_scan(s, q, kq, i)[x] == s[i + x],
    decreases s.len() - i,
{
    reveal_strlit("[REDACTED]");
    let l = prefixed_scan(s, q, kq, i);
    if n > 0 && i < s.len() {
        if seq_has_at(s, i, q) && run_len(s, i + q.len(), kq) >= 10 {
            assert(l[0] == '[');
        } else {
            let r = prefixed_scan(s, q, kq, i + 1);
            assert(l == seq![s[i]] + r);
            assert forall|x: int| 0 <= x < n - 1 implies #[trigger] r[x] != '[' by {
                assert(l[x + 1] == r[x]);
            }
            lemma_prefixed_copies(s, q, kq, i + 1, n - 1);
            assert forall|x: int| 0 <= x < n implies #[trigger] l[x] == s[i + x] by {
                if x > 0 {
                    assert(l[x] == r[x - 1]);
                }
            }
        }
    }
}

/// A prefixed-token scan leaves no token of shape `(p, k)` in its output
/// when it scrubs that very shape, or when its input holds none.
proof fn lemma_prefixed_no_token(s: Seq<char>, q: Seq<char>, kq: CharClass, i: int, p: Seq<char>, k: CharClass)
    requires
        0 <= i,
        mark_free_token(p, k),
        (p == q && k == kq) || no_token(s, p, k),
    ensures
        no_token(prefixed_scan(s, q, kq, i), p, k),
    decreases s.len() - i,
{
    reveal_strlit("[REDACTED]");
    let l = prefixed_scan(s, q, kq, i);
    if i >= s.len() {
        assert forall|j: int| !#[trigger] token_at(l, j, p, k) by {}
    } else if seq_has_at(s, i, q) && run_len(s, i + q.len(), kq) >= 10 {
        lemma_run_len_bound(s, i + q.len(), kq);
        let nxt = i + q.len() + run_len(s, i + q.len(), kq);
        lemma_prefixed_no_token(s, q, kq, nxt, p, k);
        let r = prefixed_scan(s, q, kq, nxt);
        assert(l == "[REDACTED]"@ + r);
        assert forall|j: int| !#[trigger] token_at(l, j, p, k) by {
            if j >= 10 {
                lemma_token_shift("[REDACTED]"@, r, j, p, k);
                assert(!token_at(r, j - 10, p, k));
            } else if j >= 0 {
                lemma_no_token_in_mark(r, j, p, k);
            }
        }
    } else {
        lemma_prefixed_no_token(s, q, kq, i + 1, p, k);
        let r = prefixed_scan(s, q, kq, i + 1);
        assert(l == seq![s[i]] + r);
        assert forall|j: int| !#[trigger] token_at(l, j, p, k) by {
            if j >= 1 {
                lemma_token_shift(seq![s[i]], r, j, p, k);
                assert(!token_at(r, j - 1, p, k));
            } else if j == 0 && token_at(l, 0, p, k) {
                lemma_token_mark_free(l, p, k);
                lemma_prefixed_copies(s, q, kq, i, p.len() + 10int);
                lemma_token_copied(l, s, i, p, k);
                if !(p == q && k == kq) {
                    assert(!token_at(s, i, p, k));
                }
            }
        }
    }
}

/// Up to its first `[`, the output of the hexadecimal scan from `i` is a
/// copy of the input from `i`.
proof fn lemma_hex_copies(s: Seq<char>, seg: int, i: int, n: int)
    requires
        0 <= i <= s.len(),
        0 <= n <= hex_scan(s, seg, i).len(),
        forall|x: int| 0 <= x < n ==> #[trigger] hex_scan(s, seg, i)[x] != '[',
    ensures
        i + n <= s.len(),
        forall|x: int| 0 <= x < n ==> #[trigger] hex_scan(s, seg, i)[x] == s[i + x],
    decreases s.len() - i,
{
    reveal_strlit("[REDACTED]");
    let l = hex_scan(s, seg, i);
    if n > 0 && i < s.len() {
        if is_hex(s[i]) && (i == seg || !is_hex(s[i - 1])) && run_len(s, i, CharClass::Hex) >= 40 {
            assert(l[0] == '[');
        } else {
            let r = hex_scan(s, seg, i + 1);
            assert(l == seq![s[i]] + r);
            assert forall|x: int| 0 <= x < n - 1 implies #[trigger] r[x] != '[' by {
                assert(l[x + 1] == r[x]);
            }
            lemma_hex_copies(s, seg, i + 1, n - 1);
            assert forall|x: int| 0 <= x < n implies #[trigger] l[x] == s[i + x] by {
                if x > 0 {
                    assert(l[x] == r[x - 1]);
                }
            }
        }
    }
}

/// The hexadecimal scan creates no token of shape `(p, k)`.
proof fn lemma_hex_no_token(s: Seq<char>, seg: int, i: int, p: Seq<char>, k: CharClass)
    requires
        0 <= i,
        mark_free_token(p, k),
        no_token(s, p, k),
    ensures
        no_token(hex_scan(s, seg, i), p, k),
    decreases s.len() - i,
{
    reveal_strlit("[REDACTED]");
    let l = hex_scan(s, seg, i);
    if i >= s.len() {
        assert forall|j: int| !#[trigger] token_at(l, j, p, k) by {}
    } else if is_hex(s[i]) && (i == seg || !is_hex(s[i - 1])) && run_len(s, i, CharClass::Hex) >= 40 {
        lemma_run_len_bound(s, i, CharClass::Hex);
        let nxt = i + run_len(s, i, CharClass::Hex);
        lemma_hex_no_token(s, nxt, nxt, p, k);
        let r = hex_scan(s, nxt, nxt);
        assert(l == "[REDACTED]"@ + r);
        assert forall|j: int| !#[trigger] token_at(l, j, p, k) by {
            if j >= 10 {
                lemma_token_shift("[REDACTED]"@, r, j, p, k);
                assert(!token_at(r, j - 10, p, k));
            } else if j >= 0 {
                lemma_no_token_in_mark(r, j, p, k);
            }
        }
    } else {
        lemma_hex_no_token(s, seg, i + 1, p, k);
        let r = hex_scan(s, seg, i + 1);
        assert(l == seq![s[i]] + r);
        assert forall|j: int| !#[trigger] token_at(l, j, p, k) by {
            if j >= 1 {
                lemma_token_shift(seq![s[i]], r, j, p, k);
                assert(!token_at(r, j - 1, p, k));
            } else if j == 0 && token_at(l, 0, p, k) {
                lemma_token_mark_free(l, p, k);
                lemma_hex_copies(s, seg, i, p.len() + 10int);
                lemma_token_copied(l, s, i, p, k);
                assert(!token_at(s, i, p, k));
            }
        }
    }
}

/// No run of forty or more hexadecimal digits occurs in `t`.
pub open spec fn no_long_hex(t: Seq<char>) -> bool {
    forall|j: int| #[trigger] run_len(t, j, CharClass::Hex) < 40
}

/// A run stops before a character outside its class.
proof fn lemma_run_stops(t: Seq<char>, j: int, q: int, k: CharClass)
    requires
        j <= q < t.len(),
        !in_class(t[q], k),
    ensures
        run_len(t, j, k) <= q - j,
{
    lemma_run_len_chars(t, j, k, q - j + 1);
    if run_len(t, j, k) >= q - j + 1 {
        assert(j <= q && q < j + (q - j + 1));
        assert(in_class(t[q], k));
    }
}

/// The hexadecimal run at the head of the scan's output is no longer than
/// the input's run at the scan position.
proof fn lemma_hex_head_run(s: Seq<char>, seg: int, i: int)
    requires
        0 <= i <= s.len(),
    ensures
        run_len(hex_scan(s, seg, i), 0, CharClass::Hex) <= run_len(s, i, CharClass::Hex),
{
    let l = hex_scan(s, seg, i);
    let n = run_len(l, 0, CharClass::Hex) as int;
    lemma_run_len_bound(l, 0, CharClass::Hex);
    lemma_run_len_chars(l, 0, CharClass::Hex, n);
    assert forall|x: int| 0 <= x < n implies #[trigger] l[x] != '[' by {
        assert(in_class(l[x], CharClass::Hex));
    }
    lemma_hex_copies(s, seg, i, n);
    assert forall|y: int| i <= y && y < i + n implies in_class(#[trigger] s[y], CharClass::Hex) by {
        assert(l[y - i] == s[i + (y - i)]);
        assert(in_class(l[y - i], CharClass::Hex));
    }
    lemma_run_len_chars(s, i, CharClass::Hex, n);
}

/// The hexadecimal scan leaves no run of forty or more hexadecimal digits,
/// given that a position inside a run it has been copying lies in a short run.
proof fn lemma_hex_scan_no_long_run(s: Seq<char>, seg: int, i: int)
    requires
        0 <= seg <= i,
        (i > seg && i <= s.len() && is_hex(s[i - 1])) ==> run_len(s, i - 1, CharClass::Hex) < 40,
    ensures
        no_long_hex(hex_scan(s, seg, i)),
    decreases s.len() - i,
{
    reveal_strlit("[REDACTED]");
    let l = hex_scan(s, seg, i);
    if i >= s.len() {
        assert forall|j: int| #[trigger] run_len(l, j, CharClass::Hex) < 40 by {}
    } else if is_hex(s[i]) && (i == seg || !is_hex(s[i - 1])) && run_len(s, i, CharClass::Hex) >= 40 {
        lemma_run_len_bound(s, i, CharClass::Hex);
        let nxt = i + run_len(s, i, CharClass::Hex);
        lemma_hex_scan_no_long_run(s, nxt, nxt);
        let r = hex_scan(s, nxt, nxt);
        assert(l == "[REDACTED]"@ + r);
        assert forall|j: int| #[trigger] run_len(l, j, CharClass::Hex) < 40 by {
            if j >= 10 {
                lemma_run_len_shift("[REDACTED]"@, r, j, CharClass::Hex);
                assert(run_len(r, j - 10, CharClass::Hex) < 40);
            } else if j >= 0 {
                assert(l[9] == ']');
                lemma_run_stops(l, j, 9, CharClass::Hex);
            }
        }
    } else {
        if is_hex(s[i]) {
            if !(i == seg || !is_hex(s[i - 1])) {
                assert(run_len(s, i - 1, CharClass::Hex) == 1 + run_len(s, i, CharClass::Hex));
            }
            assert(run_len(s, i, CharClass::Hex) < 40);
        }
        lemma_hex_scan_no_long_run(s, seg, i + 1);
        let r = hex_scan(s, seg, i + 1);
        assert(l == seq![s[i]] + r);
        assert forall|j: int| #[trigger] run_len(l, j, CharClass::Hex) < 40 by {
            if j >= 1 {
                lemma_run_len_shift(seq![s[i]], r, j, CharClass::Hex);
                assert(run_len(r, j - 1, CharClass::Hex) < 40);
            } else if j == 0 {
                lemma_hex_head_run(s, seg, i);
                if !is_hex(s[i]) {
                    assert(run_len(l, 0, CharClass::Hex) == 0);
                }
            }
        }
    }
}

/// Whatever the input and the registered secrets, the redacted text holds
/// no run of forty or more hexadecimal digits.
pub proof fn lemma_redacted_leaves_no_long_hex(s: Seq<char>, secrets: Seq<Seq<char>>)
    ensures
        no_long_hex(redacted(s, secrets)),
{
    let a = replace_each(s, longest_first(secrets));
    let b = scrub_bearer(a);
    let c = scrub_prefixed(b, "ghp_"@, CharClass::Alnum);
    let d = scrub_prefixed(c, "github_pat_"@, CharClass::PatChar);
    lemma_hex_scan_no_long_run(d, 0, 0);
}

/// A `Bearer <token>` at `j` of `t`: the word `Bearer` in any ASCII case, not
/// preceded by a letter or digit (`start_ok` says whether the text before `t`
/// allows one at `j == 0`), then white space, then a token character.
pub open spec fn bearer_token_at(t: Seq<char>, j: int, start_ok: bool) -> bool {
    &&& bearer_word_at(t, j)
    &&& (if j == 0 {
        start_ok
    } else {
        !is_ascii_alnum(t[j - 1])
    })
    &&& j + 6 < t.len() && is_ascii_ws(t[j + 6])
    &&& run_len(t, j + 6 + run_len(t, j + 6, CharClass::Space), CharClass::BearerToken) > 0
}

/// No `Bearer <token>` occurs in `t`.
pub open spec fn no_bearer_token(t: Seq<char>) -> bool {
    forall|j: int| !#[trigger] bearer_token_at(t, j, true)
}

/// A character that can begin the word `Bearer`.
pub open spec fn b_like(c: char) -> bool {
    c == 'B' || c == 'b'
}

/// What the text before position `i` of a bearer scan allows there: the start
/// of a segment, or a character that is not a letter or digit.
pub open spec fn scan_ctx(s: Seq<char>, seg: int, i: int) -> bool {
    i == seg || !is_ascii_alnum(s[i - 1])
}

/// What the text before position `i` allows when `s[i]` can begin `Bearer`.
pub open spec fn copy_ctx(s: Seq<char>, i: int) -> bool {
    if 0 < i < s.len() && b_like(s[i]) {
        !is_ascii_alnum(s[i - 1])
    } else {
        true
    }
}

/// Two characters the bearer test cannot tell apart: equal up to ASCII case,
/// or both white space.
pub open spec fn bearer_alike(a: char, b: char) -> bool {
    eq_ignore_case(a, b) || (is_ascii_ws(a) && is_ascii_ws(b))
}

proof fn lemma_run_exact(t: Seq<char>, p: int, w: int, k: CharClass)
    requires
        0 <= p,
        0 <= w,
        p + w <= t.len(),
        forall|y: int| p <= y && y < p + w ==> in_class(#[trigger] t[y], k),
        p + w == t.len() || !in_class(t[p + w], k),
    ensures
        run_len(t, p, k) == w,
{
    lemma_run_len_chars(t, p, k, w);
    lemma_run_len_bound(t, p, k);
    if p + w < t.len() {
        lemma_run_stops(t, p, p + w, k);
    }
}

proof fn lemma_run_end_outside(t: Seq<char>, p: int, k: CharClass)
    requires
        0 <= p <= t.len(),
    ensures
        p + run_len(t, p, k) < t.len() ==> !in_class(t[p + run_len(t, p, k)], k),
{
    let r = run_len(t, p, k) as int;
    lemma_run_len_chars(t, p, k, r);
    lemma_run_len_chars(t, p, k, r + 1);
    if p + r < t.len() && in_class(t[p + r], k) {
        assert forall|y: int| p <= y && y < p + (r + 1) implies in_class(#[trigger] t[y], k) by {
            if y < p + r {
                assert(p <= y && y < p + r);
            }
        }
    }
}

/// The word `Bearer` begins with a `B` or `b`.
proof fn lemma_word_b_like(t: Seq<char>, j: int)
    requires
        bearer_word_at(t, j),
    ensures
        b_like(t[j]),
{
    reveal_strlit("Bearer");
    assert(eq_ignore_case(t[j + 0], "Bearer"@[0]));
    assert(t[j + 0] == t[j]);
}

/// The pieces of a `Bearer <token>` at `j`.
proof fn lemma_bearer_parts(t: Seq<char>, j: int, c: bool)
    requires
        bearer_token_at(t, j, c),
    ensures
        ({
            let e = j + 6 + run_len(t, j + 6, CharClass::Space);
            &&& e < t.len()
            &&& in_class(t[e], CharClass::BearerToken)
            &&& forall|y: int| j + 6 <= y && y < e ==> is_ascii_ws(#[trigger] t[y])
            &&& forall|y: int| j <= y && y <= e ==> #[trigger] t[y] != '['
        }),
{
    reveal_strlit("Bearer");
    let w = run_len(t, j + 6, CharClass::Space) as int;
    let e = j + 6 + w;
    lemma_run_len_chars(t, j + 6, CharClass::Space, w);
    lemma_run_len_chars(t, e, CharClass::BearerToken, 1);
    assert(e <= e && e < e + 1);
    assert forall|y: int| j <= y && y <= e implies #[trigger] t[y] != '[' by {
        if y < j + 6 {
            assert(eq_ignore_case(t[j + (y - j)], "Bearer"@[y - j]));
        } else if y < e {
            assert(j + 6 <= y && y < (j + 6) + w);
            assert(in_class(t[y], CharClass::Space));
        }
    }
}

/// A `Bearer <token>` at the head of `t`, whose characters the bearer test
/// cannot tell from those of `s` at `i`, is a bearer match of `s` at `i`
/// (but for what precedes `i`).
proof fn lemma_bearer_alike_transfer(t: Seq<char>, s: Seq<char>, i: int, c: bool)
    requires
        bearer_token_at(t, 0, c),
        0 <= i,
        i + 6 + run_len(t, 6, CharClass::Space) < s.len(),
        forall|x: int| 0 <= x <= 6 + run_len(t, 6, CharClass::Space) ==> bearer_alike(#[trigger] t[x], s[i + x]),
    ensures
        bearer_word_at(s, i),
        i + 6 < s.len() && is_ascii_ws(s[i + 6]),
        run_len(s, i + 6 + run_len(s, i + 6, CharClass::Space), CharClass::BearerToken) > 0,
{
    reveal_strlit("Bearer");
    lemma_bearer_parts(t, 0, c);
    let w = run_len(t, 6, CharClass::Space) as int;
    let e = 6 + w;
    assert forall|k: int| 0 <= k < 6 implies eq_ignore_case(#[trigger] s[i + k], "Bearer"@[k]) by {
        assert(eq_ignore_case(t[0 + k], "Bearer"@[k]));
        assert(bearer_alike(t[k], s[i + k]));
    }
    assert(bearer_alike(t[6], s[i + 6]));
    assert(is_ascii_ws(t[6]));
    assert forall|y: int| i + 6 <= y && y < i + e implies in_class(#[trigger] s[y], CharClass::Space) by {
        assert(is_ascii_ws(t[y - i]));
        assert(bearer_alike(t[y - i], s[i + (y - i)]));
    }
    assert(bearer_alike(t[e], s[i + e]));
    assert(in_class(t[e], CharClass::BearerToken));
    assert(in_class(s[i + e], CharClass::BearerToken));
    lemma_run_exact(s, i + 6, w, CharClass::Space);
    lemma_run_len_chars(s, i + e, CharClass::BearerToken, 1);
}

/// Shifting a bearer test past a prefix `a`: at `j >= a.len()` (and `j > 0`)
/// it is the test on `b`, with the character before as its context.
proof fn lemma_bearer_shift(a: Seq<char>, b: Seq<char>, j: int, c: bool)
    requires
        j >= 1,
        j >= a.len(),
    ensures
        bearer_token_at(a + b, j, c) == bearer_token_at(b, j - a.len(), !is_ascii_alnum((a + b)[j - 1])),
{
    let t = a + b;
    let jb = j - a.len();
    assert forall|k: int| 0 <= k < 6 && j + k < t.len() implies #[trigger] t[j + k] == b[jb + k] by {}
    if jb > 0 && j - 1 < t.len() {
        assert(t[j - 1] == b[jb - 1]);
    }
    if j + 6 < t.len() {
        assert(t[j + 6] == b[jb + 6]);
    }
    lemma_run_len_shift(a, b, j + 6, CharClass::Space);
    lemma_run_len_shift(a, b, j + 6 + run_len(t, j + 6, CharClass::Space), CharClass::BearerToken);
    if bearer_word_at(t, j) {
        assert forall|k: int| 0 <= k < 6 implies eq_ignore_case(#[trigger] b[jb + k], "Bearer"@[k]) by {
            assert(eq_ignore_case(t[j + k], "Bearer"@[k]));
        }
    }
    if bearer_word_at(b, jb) {
        assert forall|k: int| 0 <= k < 6 implies eq_ignore_case(#[trigger] t[j + k], "Bearer"@[k]) by {
            assert(eq_ignore_case(b[jb + k], "Bearer"@[k]));
        }
    }
}

/// No bearer test succeeds where the text does not hold a `B` or `b`.
proof fn lemma_no_bearer_without_b(t: Seq<char>, j: int, c: bool)
    requires
        !(0 <= j < t.len() && b_like(t[j])),
    ensures
        !bearer_token_at(t, j, c),
{
    if bearer_word_at(t, j) {
        lemma_word_b_like(t, j);
    }
}

/// Up to its first `[` (and seven characters more), the bearer scan's output
/// agrees with its input as far as the bearer test can tell.
proof fn lemma_bearer_scan_alike(s: Seq<char>, seg: int, i: int, n: int)
    requires
        0 <= i <= s.len(),
        0 <= n <= bearer_scan(s, seg, i).len(),
        forall|x: int| 0 <= x < n ==> #[trigger] bearer_scan(s, seg, i)[x] != '[',
    ensures
        i + n <= s.len(),
        forall|x: int| 0 <= x < n ==> bearer_alike(#[trigger] bearer_scan(s, seg, i)[x], s[i + x]),
    decreases s.len() - i,
{
    reveal_strlit("Bearer [REDACTED]");
    reveal_strlit("Bearer");
    let l = bearer_scan(s, seg, i);
    if n > 0 && i < s.len() {
        if bearer_match(s, seg, i) && bearer_end(s, i) > i {
            lemma_run_len_bound(s, i + 6, CharClass::Space);
            lemma_run_len_bound(s, i + 6 + run_len(s, i + 6, CharClass::Space), CharClass::BearerToken);
            let r = bearer_scan(s, bearer_end(s, i), bearer_end(s, i));
            assert(l == "Bearer [REDACTED]"@ + r);
            assert(l[7] == '[');
            assert forall|x: int| 0 <= x < n implies bearer_alike(#[trigger] l[x], s[i + x]) by {
                if x < 6 {
                    assert(eq_ignore_case(s[i + x], "Bearer"@[x]));
                    assert(l[x] == "Bearer"@[x]);
                } else {
                    assert(x == 6);
                    assert(l[6] == ' ');
                }
            }
        } else {
            let r = bearer_scan(s, seg, i + 1);
            assert(l == seq![s[i]] + r);
            assert forall|x: int| 0 <= x < n - 1 implies #[trigger] r[x] != '[' by {
                assert(l[x + 1] == r[x]);
            }
            lemma_bearer_scan_alike(s, seg, i + 1, n - 1);
            assert forall|x: int| 0 <= x < n implies bearer_alike(#[trigger] l[x], s[i + x]) by {
                if x > 0 {
                    assert(l[x] == r[x - 1]);
                    assert(bearer_alike(r[x - 1], s[(i + 1) + (x - 1)]));
                }
            }
        }
    }
}

/// Where the bearer scan copies a character, no `Bearer <token>` starts.
proof fn lemma_bearer_scan_head(s: Seq<char>, seg: int, i: int)
    requires
        0 <= seg <= i < s.len(),
        !(bearer_match(s, seg, i) && bearer_end(s, i) > i),
    ensures
        !bearer_token_at(bearer_scan(s, seg, i), 0, scan_ctx(s, seg, i)),
{
    let l = bearer_scan(s, seg, i);
    let ctx = scan_ctx(s, seg, i);
    if bearer_token_at(l, 0, ctx) {
        lemma_bearer_parts(l, 0, ctx);
        let e = 6int + run_len(l, 6, CharClass::Space);
        lemma_bearer_scan_alike(s, seg, i, e + 1);
        lemma_bearer_alike_transfer(l, s, i, ctx);
        lemma_run_len_bound(s, i + 6, CharClass::Space);
        assert(bearer_match(s, seg, i));
        assert(bearer_end(s, i) > i);
    }
}

/// The bearer scan leaves no `Bearer <token>` in its output.
proof fn lemma_bearer_scan_clean(s: Seq<char>, seg: int, i: int)
    requires
        0 <= seg <= i,
    ensures
        forall|j: int|
            !#[trigger] bearer_token_at(bearer_scan(s, seg, i), j, scan_ctx(s, seg, i)),
    decreases s.len() - i,
{
    reveal_strlit("Bearer [REDACTED]");
    reveal_strlit("Bearer");
    let l = bearer_scan(s, seg, i);
    let ctx = scan_ctx(s, seg, i);
    if i >= s.len() {
        assert forall|j: int| !#[trigger] bearer_token_at(l, j, ctx) by {
            lemma_no_bearer_without_b(l, j, ctx);
        }
    } else if bearer_match(s, seg, i) && bearer_end(s, i) > i {
        lemma_run_len_bound(s, i + 6, CharClass::Space);
        lemma_run_len_bound(s, i + 6 + run_len(s, i + 6, CharClass::Space), CharClass::BearerToken);
        let e = bearer_end(s, i);
        lemma_bearer_scan_clean(s, e, e);
        let r = bearer_scan(s, e, e);
        let bm = "Bearer [REDACTED]"@;
        assert(l == bm + r);
        assert forall|j: int| !#[trigger] bearer_token_at(l, j, ctx) by {
            if j >= 17 {
                lemma_bearer_shift(bm, r, j, ctx);
                assert(scan_ctx(s, e, e));
                if j == 17 {
                    assert(l[16] == bm[16]);
                    assert(l[16] == ']');
                    assert(!bearer_token_at(r, 0, scan_ctx(s, e, e)));
                } else {
                    assert(!bearer_token_at(r, j - 17, scan_ctx(s, e, e)));
                }
            } else if j == 0 {
                if bearer_token_at(l, 0, ctx) {
                    assert(l[6] == ' ' && l[7] == '[');
                    lemma_run_exact(l, 6, 1, CharClass::Space);
                    lemma_bearer_parts(l, 0, ctx);
                }
            } else {
                if 0 < j {
                    assert(l[j] == bm[j]);
                    assert(!b_like(bm[j]));
                }
                lemma_no_bearer_without_b(l, j, ctx);
            }
        }
    } else {
        lemma_bearer_scan_clean(s, seg, i + 1);
        let r = bearer_scan(s, seg, i + 1);
        assert(l == seq![s[i]] + r);
        assert(scan_ctx(s, seg, i + 1) == !is_ascii_alnum(s[i]));
        lemma_bearer_scan_head(s, seg, i);
        assert forall|j: int| !#[trigger] bearer_token_at(l, j, ctx) by {
            if j >= 1 {
                lemma_bearer_shift(seq![s[i]], r, j, ctx);
                assert(l[0] == s[i]);
                if j > 1 {
                    assert(!bearer_token_at(r, j - 1, scan_ctx(s, seg, i + 1)));
                } else {
                    assert(!bearer_token_at(r, 0, scan_ctx(s, seg, i + 1)));
                }
            }
        }
    }
}

/// A `Bearer <token>` at the head of a scan's output whose first characters
/// copy the input at `i` is one of the input.
proof fn lemma_copied_bearer(l: Seq<char>, s: Seq<char>, i: int)
    requires
        0 <= i < s.len(),
        bearer_token_at(l, 0, copy_ctx(s, i)),
        i + 7 + run_len(l, 6, CharClass::Space) <= s.len(),
        forall|x: int| 0 <= x <= 6 + run_len(l, 6, CharClass::Space) ==> #[trigger] l[x] == s[i + x],
    ensures
        bearer_token_at(s, i, true),
{
    let ctx = copy_ctx(s, i);
    assert forall|x: int| 0 <= x <= 6 + run_len(l, 6, CharClass::Space) implies bearer_alike(#[trigger] l[x], s[i + x]) by {
        assert(l[x] == s[i + x]);
    }
    lemma_bearer_alike_transfer(l, s, i, ctx);
    lemma_word_b_like(l, 0);
    assert(l[0] == s[i + 0]);
}

/// Where the prefixed-token scan copies a character, no `Bearer <token>`
/// starts, given none in its input.
proof fn lemma_prefixed_head_no_bearer(s: Seq<char>, q: Seq<char>, kq: CharClass, i: int)
    requires
        0 <= i,
        no_bearer_token(s),
    ensures
        i < s.len() && !(seq_has_at(s, i, q) && run_len(s, i + q.len(), kq) >= 10) ==> !bearer_token_at(
            prefixed_scan(s, q, kq, i),
            0,
            copy_ctx(s, i),
        ),
{
    let l = prefixed_scan(s, q, kq, i);
    if i < s.len() && !(seq_has_at(s, i, q) && run_len(s, i + q.len(), kq) >= 10) && bearer_token_at(l, 0, copy_ctx(s, i)) {
        lemma_bearer_parts(l, 0, copy_ctx(s, i));
        let e = 6int + run_len(l, 6, CharClass::Space);
        lemma_prefixed_copies(s, q, kq, i, e + 1);
        lemma_copied_bearer(l, s, i);
        assert(!bearer_token_at(s, i, true));
    }
}

/// Where the hexadecimal scan copies a character, no `Bearer <token>`
/// starts, given none in its input.
proof fn lemma_hex_head_no_bearer(s: Seq<char>, seg: int, i: int)
    requires
        0 <= i,
        no_bearer_token(s),
    ensures
        i < s.len() && !(is_hex(s[i]) && (i == seg || !is_hex(s[i - 1])) && run_len(s, i, CharClass::Hex) >= 40)
            ==> !bearer_token_at(hex_scan(s, seg, i), 0, copy_ctx(s, i)),
{
    let l = hex_scan(s, seg, i);
    if i < s.len() && !(is_hex(s[i]) && (i == seg || !is_hex(s[i - 1])) && run_len(s, i, CharClass::Hex) >= 40)
        && bearer_token_at(l, 0, copy_ctx(s, i)) {
        lemma_bearer_parts(l, 0, copy_ctx(s, i));
        let e = 6int + run_len(l, 6, CharClass::Space);
        lemma_hex_copies(s, seg, i, e + 1);
        lemma_copied_bearer(l, s, i);
        assert(!bearer_token_at(s, i, true));
    }
}

/// The prefixed-token scan creates no `Bearer <token>` when the characters
/// that begin `Bearer` belong to the class it redacts.
#[verifier::rlimit(40)]
proof fn lemma_prefixed_keeps_no_bearer(s: Seq<char>, q: Seq<char>, kq: CharClass, i: int)
    requires
        0 <= i,
        no_bearer_token(s),
        in_class('B', kq) && in_class('b', kq),
    ensures
        forall|j: int| !#[trigger] bearer_token_at(prefixed_scan(s, q, kq, i), j, copy_ctx(s, i)),
    decreases s.len() - i,
{
    reveal_strlit("[REDACTED]");
    let l = prefixed_scan(s, q, kq, i);
    let ctx = copy_ctx(s, i);
    if i >= s.len() {
        assert forall|j: int| !#[trigger] bearer_token_at(l, j, ctx) by {
            lemma_no_bearer_without_b(l, j, ctx);
        }
    } else if seq_has_at(s, i, q) && run_len(s, i + q.len(), kq) >= 10 {
        lemma_run_len_bound(s, i + q.len(), kq);
        let nxt = i + q.len() + run_len(s, i + q.len(), kq);
        lemma_run_end_outside(s, i + q.len(), kq);
        lemma_prefixed_keeps_no_bearer(s, q, kq, nxt);
        let r = prefixed_scan(s, q, kq, nxt);
        assert(l == "[REDACTED]"@ + r);
        assert(copy_ctx(s, nxt));
        assert forall|j: int| !#[trigger] bearer_token_at(l, j, ctx) by {
            if j >= 10 {
                lemma_bearer_shift("[REDACTED]"@, r, j, ctx);
                if j == 10 {
                    assert(l[9] == ']');
                    assert(!bearer_token_at(r, 0, copy_ctx(s, nxt)));
                } else {
                    assert(!bearer_token_at(r, j - 10, copy_ctx(s, nxt)));
                }
            } else {
                if 0 <= j {
                    assert(l[j] == "[REDACTED]"@[j]);
                }
                lemma_no_bearer_without_b(l, j, ctx);
            }
        }
    } else {
        lemma_prefixed_keeps_no_bearer(s, q, kq, i + 1);
        let r = prefixed_scan(s, q, kq, i + 1);
        assert(l == seq![s[i]] + r);
        lemma_prefixed_head_no_bearer(s, q, kq, i);
        assert forall|j: int| !#[trigger] bearer_token_at(l, j, ctx) by {
            if j >= 1 {
                lemma_bearer_shift(seq![s[i]], r, j, ctx);
                assert(l[0] == s[i]);
                if j == 1 {
                    if i + 1 < s.len() && b_like(s[i + 1]) {
                        assert(copy_ctx(s, i + 1) == !is_ascii_alnum(s[i]));
                        assert(!bearer_token_at(r, 0, copy_ctx(s, i + 1)));
                    } else {
                        if r.len() > 0 && r[0] != '[' {
                            lemma_prefixed_copies(s, q, kq, i + 1, 1);
                            assert(r[0] == s[(i + 1) + 0]);
                        }
                        lemma_no_bearer_without_b(r, 0, !is_ascii_alnum(l[0]));
                    }
                } else {
                    assert(!bearer_token_at(r, j - 1, copy_ctx(s, i + 1)));
                }
            }
        }
    }
}

/// The hexadecimal scan creates no `Bearer <token>`.
#[verifier::rlimit(40)]
proof fn lemma_hex_keeps_no_bearer(s: Seq<char>, seg: int, i: int)
    requires
        0 <= i,
        no_bearer_token(s),
    ensures
        forall|j: int| !#[trigger] bearer_token_at(hex_scan(s, seg, i), j, copy_ctx(s, i)),
    decreases s.len() - i,
{
    reveal_strlit("[REDACTED]");
    let l = hex_scan(s, seg, i);
    let ctx = copy_ctx(s, i);
    if i >= s.len() {
        assert forall|j: int| !#[trigger] bearer_token_at(l, j, ctx) by {
            lemma_no_bearer_without_b(l, j, ctx);
        }
    } else if is_hex(s[i]) && (i == seg || !is_hex(s[i - 1])) && run_len(s, i, CharClass::Hex) >= 40 {
        lemma_run_len_bound(s, i, CharClass::Hex);
        let nxt = i + run_len(s, i, CharClass::Hex);
        lemma_run_end_outside(s, i, CharClass::Hex);
        lemma_hex_keeps_no_bearer(s, nxt, nxt);
        let r = hex_scan(s, nxt, nxt);
        assert(l == "[REDACTED]"@ + r);
        assert(copy_ctx(s, nxt));
        assert forall|j: int| !#[trigger] bearer_token_at(l, j, ctx) by {
            if j >= 10 {
                lemma_bearer_shift("[REDACTED]"@, r, j, ctx);
                if j == 10 {
                    assert(l[9] == ']');
                    assert(!bearer_token_at(r, 0, copy_ctx(s, nxt)));
                } else {
                    assert(!bearer_token_at(r, j - 10, copy_ctx(s, nxt)));
                }
            } else {
                if 0 <= j {
                    assert(l[j] == "[REDACTED]"@[j]);
                }
                lemma_no_bearer_without_b(l, j, ctx);
            }
        }
    } else {
        lemma_hex_keeps_no_bearer(s, seg, i + 1);
        let r = hex_scan(s, seg, i + 1);
        assert(l == seq![s[i]] + r);
        lemma_hex_head_no_bearer(s, seg, i);
        assert forall|j: int| !#[trigger] bearer_token_at(l, j, ctx) by {
            if j >= 1 {
                lemma_bearer_shift(seq![s[i]], r, j, ctx);
                assert(l[0] == s[i]);
                if j == 1 {
                    if i + 1 < s.len() && b_like(s[i + 1]) {
                        assert(copy_ctx(s, i + 1) == !is_ascii_alnum(s[i]));
                        assert(!bearer_token_at(r, 0, copy_ctx(s, i + 1)));
                    } else {
                        if r.len() > 0 && r[0] != '[' {
                            lemma_hex_copies(s, seg, i + 1, 1);
                            assert(r[0] == s[(i + 1) + 0]);
                        }
                        lemma_no_bearer_without_b(r, 0, !is_ascii_alnum(l[0]));
                    }
                } else {
                    assert(!bearer_token_at(r, j - 1, copy_ctx(s, i + 1)));
                }
            }
        }
    }
}

/// Whatever the input and the registered secrets, the redacted text holds no
/// `Bearer <token>`: no word `Bearer` (in any case, not preceded by a letter
/// or digit) followed by white space and a token character.
pub proof fn lemma_redacted_leaves_no_bearer_token(s: Seq<char>, secrets: Seq<Seq<char>>)
    ensures
        no_bearer_token(redacted(s, secrets)),
{
    let a = replace_each(s, longest_first(secrets));
    let b = scrub_bearer(a);
    let c = scrub_prefixed(b, "ghp_"@, CharClass::Alnum);
    let d = scrub_prefixed(c, "github_pat_"@, CharClass::PatChar);
    reveal_strlit("ghp_");
    lemma_bearer_scan_clean(a, 0, 0);
    assert forall|j: int| !#[trigger] bearer_token_at(b, j, true) by {
        assert(scan_ctx(a, 0, 0));
        assert(!bearer_token_at(b, j, scan_ctx(a, 0, 0)));
    }
    lemma_prefixed_keeps_no_bearer(b, "ghp_"@, CharClass::Alnum, 0);
    assert forall|j: int| !#[trigger] bearer_token_at(c, j, true) by {
        assert(copy_ctx(b, 0));
        assert(!bearer_token_at(c, j, copy_ctx(b, 0)));
    }
    lemma_prefixed_keeps_no_bearer(c, "github_pat_"@, CharClass::PatChar, 0);
    assert forall|j: int| !#[trigger] bearer_token_at(d, j, true) by {
        assert(copy_ctx(c, 0));
        assert(!bearer_token_at(d, j, copy_ctx(c, 0)));
    }
    lemma_hex_keeps_no_bearer(d, 0, 0);
    assert forall|j: int| !#[trigger] bearer_token_at(scrub_hex(d), j, true) by {
        assert(copy_ctx(d, 0));
        assert(!bearer_token_at(scrub_hex(d), j, copy_ctx(d, 0)));
    }
}

/// `q` shares no character with the replacement text `Bearer [REDACTED]`.
pub open spec fn avoids_replacements(q: Seq<char>) -> bool {
    forall|k: int| 0 <= k < q.len() ==> !"Bearer [REDACTED]"@.contains(#[trigger] q[k])
}

/// `q` occurs nowhere in `t`.
pub open spec fn no_occurrence(t: Seq<char>, q: Seq<char>) -> bool {
    forall|j: int| !#[trigger] seq_has_at(t, j, q)
}

proof fn lemma_has_at_shift(a: Seq<char>, b: Seq<char>, j: int, q: Seq<char>)
    requires
        j >= a.len(),
    ensures
        seq_has_at(a + b, j, q) == seq_has_at(b, j - a.len(), q),
{
    if j + q.len() <= (a + b).len() {
        assert((a + b).subrange(j, j + q.len()) =~= b.subrange(j - a.len(), j - a.len() + q.len()));
    }
}

/// An occurrence of `q` cannot start inside a replacement text `m` whose
/// characters (from `off` on) are those of `Bearer [REDACTED]`.
proof fn lemma_no_occurrence_in_mark(m: Seq<char>, off: int, rest: Seq<char>, j: int, q: Seq<char>)
    requires
        q.len() > 0,
        avoids_replacements(q),
        0 <= j < m.len(),
        0 <= off,
        off + m.len() <= "Bearer [REDACTED]"@.len(),
        forall|x: int| 0 <= x < m.len() ==> #[trigger] m[x] == "Bearer [REDACTED]"@[off + x],
    ensures
        !seq_has_at(m + rest, j, q),
{
    if seq_has_at(m + rest, j, q) {
        assert((m + rest).subrange(j, j + q.len())[0] == q[0]);
        assert((m + rest)[j] == m[j]);
        assert("Bearer [REDACTED]"@[off + j] == q[0]);
        assert(!"Bearer [REDACTED]"@.contains(q[0]));
    }
}

/// Up to its first `B`, the bearer scan's output is an exact copy of its input.
proof fn lemma_bearer_scan_copies(s: Seq<char>, seg: int, i: int, n: int)
    requires
        0 <= i <= s.len(),
        0 <= n <= bearer_scan(s, seg, i).len(),
        forall|x: int| 0 <= x < n ==> #[trigger] bearer_scan(s, seg, i)[x] != 'B',
    ensures
        i + n <= s.len(),
        forall|x: int| 0 <= x < n ==> #[trigger] bearer_scan(s, seg, i)[x] == s[i + x],
    decreases s.len() - i,
{
    reveal_strlit("Bearer [REDACTED]");
    let l = bearer_scan(s, seg, i);
    if n > 0 && i < s.len() {
        if bearer_match(s, seg, i) && bearer_end(s, i) > i {
            lemma_run_len_bound(s, i + 6, CharClass::Space);
            lemma_run_len_bound(s, i + 6 + run_len(s, i + 6, CharClass::Space), CharClass::BearerToken);
            assert(l == "Bearer [REDACTED]"@ + bearer_scan(s, bearer_end(s, i), bearer_end(s, i)));
            assert(l[0] == 'B');
        } else {
            let r = bearer_scan(s, seg, i + 1);
            assert(l == seq![s[i]] + r);
            assert forall|x: int| 0 <= x < n - 1 implies #[trigger] r[x] != 'B' by {
                assert(l[x + 1] == r[x]);
            }
            lemma_bearer_scan_copies(s, seg, i + 1, n - 1);
            assert forall|x: int| 0 <= x < n implies #[trigger] l[x] == s[i + x] by {
                if x > 0 {
                    assert(l[x] == r[x - 1]);
                }
            }
        }
    }
}

/// A copied stretch holding `q` at the head of a scan's output is `q` in the
/// input.
proof fn lemma_copied_occurrence(l: Seq<char>, s: Seq<char>, i: int, q: Seq<char>)
    requires
        seq_has_at(l, 0, q),
        0 <= i,
        i + q.len() <= s.len(),
        forall|x: int| 0 <= x < q.len() ==> #[trigger] l[x] == s[i + x],
    ensures
        seq_has_at(s, i, q),
{
    assert forall|x: int| 0 <= x < q.len() implies #[trigger] s.subrange(i, i + q.len())[x] == q[x] by {
        assert(l.subrange(0, q.len() as int)[x] == q[x]);
        assert(l[x] == s[i + x]);
    }
    assert(s.subrange(i, i + q.len()) =~= q);
}

/// The characters of an occurrence of a secret that avoids the replacement
/// text are neither `[` nor `B`.
proof fn lemma_occurrence_chars(l: Seq<char>, q: Seq<char>)
    requires
        seq_has_at(l, 0, q),
        avoids_replacements(q),
    ensures
        forall|x: int| 0 <= x < q.len() ==> #[trigger] l[x] != '[' && l[x] != 'B',
{
    reveal_strlit("Bearer [REDACTED]");
    assert forall|x: int| 0 <= x < q.len() implies #[trigger] l[x] != '[' && l[x] != 'B' by {
        assert(l.subrange(0, q.len() as int)[x] == q[x]);
        assert(!"Bearer [REDACTED]"@.contains(q[x]));
        assert("Bearer [REDACTED]"@[7] == '[');
        assert("Bearer [REDACTED]"@[0] == 'B');
    }
}

/// The bearer scan creates no occurrence of a secret that avoids the
/// replacement text.
proof fn lemma_bearer_keeps_out(s: Seq<char>, seg: int, i: int, q: Seq<char>)
    requires
        0 <= i,
        q.len() > 0,
        avoids_replacements(q),
        no_occurrence(s, q),
    ensures
        no_occurrence(bearer_scan(s, seg, i), q),
    decreases s.len() - i,
{
    reveal_strlit("Bearer [REDACTED]");
    let l = bearer_scan(s, seg, i);
    if i >= s.len() {
        assert forall|j: int| !#[trigger] seq_has_at(l, j, q) by {}
    } else if bearer_match(s, seg, i) && bearer_end(s, i) > i {
        lemma_run_len_bound(s, i + 6, CharClass::Space);
        lemma_run_len_bound(s, i + 6 + run_len(s, i + 6, CharClass::Space), CharClass::BearerToken);
        let e = bearer_end(s, i);
        lemma_bearer_keeps_out(s, e, e, q);
        let r = bearer_scan(s, e, e);
        let bm = "Bearer [REDACTED]"@;
        assert(l == bm + r);
        assert forall|j: int| !#[trigger] seq_has_at(l, j, q) by {
            if j >= 17 {
                lemma_has_at_shift(bm, r, j, q);
                assert(!seq_has_at(r, j - 17, q));
            } else if j >= 0 {
                lemma_no_occurrence_in_mark(bm, 0, r, j, q);
            }
        }
    } else {
        lemma_bearer_keeps_out(s, seg, i + 1, q);
        let r = bearer_scan(s, seg, i + 1);
        assert(l == seq![s[i]] + r);
        assert forall|j: int| !#[trigger] seq_has_at(l, j, q) by {
            if j >= 1 {
                lemma_has_at_shift(seq![s[i]], r, j, q);
                assert(!seq_has_at(r, j - 1, q));
            } else if j == 0 && seq_has_at(l, 0, q) {
                lemma_occurrence_chars(l, q);
                lemma_bearer_scan_copies(s, seg, i, q.len() as int);
                lemma_copied_occurrence(l, s, i, q);
                assert(!seq_has_at(s, i, q));
            }
        }
    }
}

/// A prefixed-token scan creates no occurrence of a secret that avoids the
/// replacement text.
proof fn lemma_prefixed_keeps_out(s: Seq<char>, p: Seq<char>, k: CharClass, i: int, q: Seq<char>)
    requires
        0 <= i,
        q.len() > 0,
        avoids_replacements(q),
        no_occurrence(s, q),
    ensures
        no_occurrence(prefixed_scan(s, p, k, i), q),
    decreases s.len() - i,
{
    reveal_strlit("[REDACTED]");
    reveal_strlit("Bearer [REDACTED]");
    let l = prefixed_scan(s, p, k, i);
    if i >= s.len() {
        assert forall|j: int| !#[trigger] seq_has_at(l, j, q) by {}
    } else if seq_has_at(s, i, p) && run_len(s, i + p.len(), k) >= 10 {
        lemma_run_len_bound(s, i + p.len(), k);
        let nxt = i + p.len() + run_len(s, i + p.len(), k);
        lemma_prefixed_keeps_out(s, p, k, nxt, q);
        let r = prefixed_scan(s, p, k, nxt);
        let m = "[REDACTED]"@;
        assert(l == m + r);
        assert forall|x: int| 0 <= x < m.len() implies #[trigger] m[x] == "Bearer [REDACTED]"@[7 + x] by {}
        assert forall|j: int| !#[trigger] seq_has_at(l, j, q) by {
            if j >= 10 {
                lemma_has_at_shift(m, r, j, q);
                assert(!seq_has_at(r, j - 10, q));
            } else if j >= 0 {
                lemma_no_occurrence_in_mark(m, 7, r, j, q);
            }
        }
    } else {
        lemma_prefixed_keeps_out(s, p, k, i + 1, q);
        let r = prefixed_scan(s, p, k, i + 1);
        assert(l == seq![s[i]] + r);
        assert forall|j: int| !#[trigger] seq_has_at(l, j, q) by {
            if j >= 1 {
                lemma_has_at_shift(seq![s[i]], r, j, q);
                assert(!seq_has_at(r, j - 1, q));
            } else if j == 0 && seq_has_at(l, 0, q) {
                lemma_occurrence_chars(l, q);
                lemma_prefixed_copies(s, p, k, i, q.len() as int);
                lemma_copied_occurrence(l, s, i, q);
                assert(!seq_has_at(s, i, q));
            }
        }
    }
}

/// The hexadecimal scan creates no occurrence of a secret that avoids the
/// replacement text.
proof fn lemma_hex_keeps_out(s: Seq<char>, seg: int, i: int, q: Seq<char>)
    requires
        0 <= i,
        q.len() > 0,
        avoids_replacements(q),
        no_occurrence(s, q),
    ensures
        no_occurrence(hex_scan(s, seg, i), q),
    decreases s.len() - i,
{
    reveal_strlit("[REDACTED]");
    reveal_strlit("Bearer [REDACTED]");
    let l = hex_scan(s, seg, i);
    if i >= s.len() {
        assert forall|j: int| !#[trigger] seq_has_at(l, j, q) by {}
    } else if is_hex(s[i]) && (i == seg || !is_hex(s[i - 1])) && run_len(s, i, CharClass::Hex) >= 40 {
        lemma_run_len_bound(s, i, CharClass::Hex);
        let nxt = i + run_len(s, i, CharClass::Hex);
        lemma_hex_keeps_out(s, nxt, nxt, q);
        let r = hex_scan(s, nxt, nxt);
        let m = "[REDACTED]"@;
        assert(l == m + r);
        assert forall|x: int| 0 <= x < m.len() implies #[trigger] m[x] == "Bearer [REDACTED]"@[7 + x] by {}
        assert forall|j: int| !#[trigger] seq_has_at(l, j, q) by {
            if j >= 10 {
                lemma_has_at_shift(m, r, j, q);
                assert(!seq_has_at(r, j - 10, q));
            } else if j >= 0 {
                lemma_no_occurrence_in_mark(m, 7, r, j, q);
            }
        }
    } else {
        lemma_hex_keeps_out(s, seg, i + 1, q);
        let r = hex_scan(s, seg, i + 1);
        assert(l == seq![s[i]] + r);
        assert forall|j: int| !#[trigger] seq_has_at(l, j, q) by {
            if j >= 1 {
                lemma_has_at_shift(seq![s[i]], r, j, q);
                assert(!seq_has_at(r, j - 1, q));
            } else if j == 0 && seq_has_at(l, 0, q) {
                lemma_occurrence_chars(l, q);
                lemma_hex_copies(s, seg, i, q.len() as int);
                lemma_copied_occurrence(l, s, i, q);
                assert(!seq_has_at(s, i, q));
            }
        }
    }
}

/// A registered secret that shares no character with the replacement text
/// `Bearer [REDACTED]` occurs nowhere in the redacted text, whatever the
/// input.  (A secret that does can be re-created by the later stages: with
/// the secret `a Bearer`, the input `a bearer xyz` redacts to
/// `a Bearer [REDACTED]`.)
pub proof fn lemma_redacted_leaves_no_registered_secret(s: Seq<char>, secrets: Seq<Seq<char>>, q: Seq<char>)
    requires
        secrets.contains(q),
        q.len() > 0,
        avoids_replacements(q),
    ensures
        no_occurrence(redacted(s, secrets), q),
{
    reveal_strlit("[REDACTED]");
    reveal_strlit("Bearer [REDACTED]");
    assert forall|k: int| 0 <= k < q.len() implies !"[REDACTED]"@.contains(#[trigger] q[k]) by {
        if "[REDACTED]"@.contains(q[k]) {
            let x = choose|x: int| 0 <= x < "[REDACTED]"@.len() && "[REDACTED]"@[x] == q[k];
            assert("Bearer [REDACTED]"@[7 + x] == q[k]);
        }
    }
    lemma_registered_secrets_replaced(s, secrets, q);
    let a = replace_each(s, longest_first(secrets));
    let b = scrub_bearer(a);
    let c = scrub_prefixed(b, "ghp_"@, CharClass::Alnum);
    let d = scrub_prefixed(c, "github_pat_"@, CharClass::PatChar);
    lemma_bearer_keeps_out(a, 0, 0, q);
    lemma_prefixed_keeps_out(b, "ghp_"@, CharClass::Alnum, 0, q);
    lemma_prefixed_keeps_out(c, "github_pat_"@, CharClass::PatChar, 0, q);
    lemma_hex_keeps_out(d, 0, 0, q);
}

/// Whatever the input and the registered secrets, the redacted text holds no
/// fine-grained GitHub token (`github_pat_` followed by ten or more ASCII
/// letters, digits or underscores) and no classic one (`ghp_` followed by ten
/// or more ASCII letters or digits).
pub proof fn lemma_redacted_leaves_no_github_token(s: Seq<char>, secrets: Seq<Seq<char>>)
    ensures
        no_token(redacted(s, secrets), "github_pat_"@, CharClass::PatChar),
        no_token(redacted(s, secrets), "ghp_"@, CharClass::Alnum),
{
    reveal_strlit("[REDACTED]");
    reveal_strlit("github_pat_");
    reveal_strlit("ghp_");
    let gp = "github_pat_"@;
    let gh = "ghp_"@;
    assert(mark_free_token(gp, CharClass::PatChar));
    assert(mark_free_token(gh, CharClass::Alnum));
    let a = replace_each(s, longest_first(secrets));
    let b = scrub_bearer(a);
    let c = scrub_prefixed(b, gh, CharClass::Alnum);
    let d = scrub_prefixed(c, gp, CharClass::PatChar);
    lemma_prefixed_no_token(b, gh, CharClass::Alnum, 0, gh, CharClass::Alnum);
    lemma_prefixed_no_token(c, gp, CharClass::PatChar, 0, gh, CharClass::Alnum);
    lemma_prefixed_no_token(c, gp, CharClass::PatChar, 0, gp, CharClass::PatChar);
    lemma_hex_no_token(d, 0, 0, gp, CharClass::PatChar);
    lemma_hex_no_token(d, 0, 0, gh, CharClass::Alnum);
}

/// The full redaction of `s` given the registered secrets.
pub open spec fn redacted(s: Seq<char>, secrets: Seq<Seq<char>>) -> Seq<char> {
    let a = replace_each(s, longest_first(secrets));
    let b = scrub_bearer(a);
    let c = scrub_prefixed(b, "ghp_"@, CharClass::Alnum);
    let d = scrub_prefixed(c, "github_pat_"@, CharClass::PatChar);
    scrub_hex(d)
}

/// The secret values registered for redaction: non-empty and distinct, in
/// registration order.  Held in memory only, never serialised.
#[derive(Debug, Clone, Default)]
pub struct SecretRegistry {
    secrets: Vec<String>,
}

impl SecretRegistry {
    /// The registered secrets, in registration order.
    pub closed spec fn secrets(&self) -> Seq<Seq<char>> {
        crate::text::views(self.secrets@)
    }

    /// An empty registry.
    pub fn new() -> (r: SecretRegistry)
        ensures
            r.secrets() == Seq::<Seq<char>>::empty(),
    {
        let r = SecretRegistry { secrets: Vec::new() };
        proof {
            assert(r.secrets() =~= Seq::<Seq<char>>::empty());
        }
        r
    }
}

/// The registered secrets after registering `v`: unchanged when `v` is empty
/// or already present, otherwise `v` is appended.
pub open spec fn after_register(s: Seq<Seq<char>>, v: Seq<char>) -> Seq<Seq<char>> {
    if v.len() == 0 || s.contains(v) {
        s
    } else {
        s.push(v)
    }
}

/// Registering the same value twice has the effect of registering it once.
pub proof fn lemma_register_idempotent(s: Seq<Seq<char>>, v: Seq<char>)
    ensures
        after_register(after_register(s, v), v) == after_register(s, v),
{
    if !(v.len() == 0 || s.contains(v)) {
        assert(s.push(v)[s.len() as int] == v);
    }
}

/// Registers a secret to be scrubbed from all output.  An empty value, or
/// one already registered, leaves the registry unchanged.
pub fn register_secret(registry: &mut SecretRegistry, value: &str)
    ensures
        final(registry).secrets() == after_register(old(registry).secrets(), value@),
{
    if value.unicode_len() == 0 {
        return;
    }
    let n: usize = registry.secrets.len();
    for i in 0..n
        invariant
            n == registry.secrets@.len(),
            forall|k: int| 0 <= k < i ==> #[trigger] registry.secrets@[k]@ != value@,
    {
        if str_eq(registry.secrets[i].as_str(), value) {
            proof {
                assert(registry.secrets()[i as int] == value@);
            }
            return;
        }
    }
    proof {
        if registry.secrets().contains(value@) {
            let k = choose|k: int| 0 <= k < registry.secrets().len() && registry.secrets()[k] == value@;
            assert(registry.secrets@[k]@ == value@);
        }
    }
    let ghost before = registry.secrets@;
    registry.secrets.push(owned(value));
    proof {
        assert(crate::text::views(registry.secrets@) =~= crate::text::views(before).push(value@));
    }
}

/// The registered secrets, longest first.
fn secrets_longest_first(secrets: &Vec<String>) -> (r: Vec<&str>)
    ensures
        crate::blueprint_workflows::strs(r@) == longest_first(crate::text::views(secrets@)),
{
    let ghost all = crate::text::views(secrets@);
    let mut out: Vec<&str> = Vec::new();
    let n: usize = secrets.len();
    for i in 0..n
        invariant
            n == secrets@.len(),
            all == crate::text::views(secrets@),
            crate::blueprint_workflows::strs(out@) == longest_first(all.take(i as int)),
    {
        proof {
            assert(all.take(i + 1).drop_last() =~= all.take(i as int));
        }
        let x: &str = secrets[i].as_str();
        let xl: usize = x.unicode_len();
        let ghost s0 = crate::blueprint_workflows::strs(out@);
        let m: usize = out.len();
        let mut j: usize = 0;
        proof {
            assert(s0.skip(0) =~= s0);
            assert(s0.take(0) + insert_by_len(s0, x@) =~= insert_by_len(s0, x@));
        }
        while j < m && out[j].unicode_len() >= xl
            invariant
                m == out@.len(),
                j <= m,
                xl == x@.len(),
                s0 == crate::blueprint_workflows::strs(out@),
                insert_by_len(s0, x@) == s0.take(j as int) + insert_by_len(s0.skip(j as int), x@),
            decreases m - j,
        {
            proof {
                let t = s0.skip(j as int);
                assert(t[0] == s0[j as int]);
                assert(t.drop_first() =~= s0.skip(j + 1));
                assert(s0.take(j + 1) =~= s0.take(j as int).push(s0[j as int]));
                assert(insert_by_len(t, x@) =~= seq![t[0]] + insert_by_len(t.drop_first(), x@));
                assert(s0.take(j as int) + (seq![s0[j as int]] + insert_by_len(s0.skip(j + 1), x@))
                    =~= s0.take(j + 1) + insert_by_len(s0.skip(j + 1), x@));
            }
            j = j + 1;
        }
        out.insert(j, x);
        proof {
            let t = s0.skip(j as int);
            if j < m {
                assert(insert_by_len(t, x@) =~= seq![x@] + t);
            } else {
                assert(t =~= Seq::<Seq<char>>::empty());
            }
            assert(crate::blueprint_workflows::strs(out@) =~= s0.take(j as int) + insert_by_len(t, x@));
            assert(all.take(i + 1).last() == x@);
        }
    }
    proof {
        assert(all.take(n as int) =~= all);
    }
    out
}

/// Scrubs known secret patterns from `input`: the registered secrets (longest
/// first), `Bearer <token>`, `ghp_…` and `github_pat_…` tokens, and runs of
/// 40 or more hexadecimal digits, each replaced by `[REDACTED]`.
pub fn redact(input: &str, registry: &SecretRegistry) -> (r: String)
    ensures
        r@ == redacted(input@, registry.secrets()),
        no_token(r@, "github_pat_"@, CharClass::PatChar),
        no_token(r@, "ghp_"@, CharClass::Alnum),
        no_long_hex(r@),
        no_bearer_token(r@),
        forall|q: Seq<char>|
            #[trigger] registry.secrets().contains(q) && q.len() > 0 && avoids_replacements(q) ==> no_occurrence(
                r@,
                q,
            ),
{
    proof {
        assert forall|q: Seq<char>|
            #[trigger] registry.secrets().contains(q) && q.len() > 0 && avoids_replacements(q) implies no_occurrence(
            redacted(input@, registry.secrets()),
            q,
        ) by {
            lemma_redacted_leaves_no_registered_secret(input@, registry.secrets(), q);
        }
        lemma_redacted_leaves_no_github_token(input@, registry.secrets());
        lemma_redacted_leaves_no_long_hex(input@, registry.secrets());
        lemma_redacted_leaves_no_bearer_token(input@, registry.secrets());
    }
    let order = secrets_longest_first(&registry.secrets);
    let ghost ps = longest_first(registry.secrets());
    let mut output = owned(input);
    let n: usize = order.len();
    proof {
        assert(ps.skip(0) =~= ps);
    }
    for i in 0..n
        invariant
            n == order@.len(),
            crate::blueprint_workflows::strs(order@) == ps,
            replace_each(input@, ps) == replace_each(output@, ps.skip(i as int)),
    {
        proof {
            assert(ps.skip(i as int)[0] == order@[i as int]@);
            assert(ps.skip(i as int).drop_first() =~= ps.skip(i + 1));
        }
        output = replace_secret(output.as_str(), order[i]);
    }
    proof {
        assert(ps.skip(0) =~= ps);
        assert(ps.skip(n as int) =~= Seq::<Seq<char>>::empty());
    }
    let b = scrub_bearer_tokens(output.as_str());
    let c = scrub_prefixed_tokens(b.as_str(), "ghp_", CharClass::Alnum);
    let d = scrub_prefixed_tokens(c.as_str(), "github_pat_", CharClass::PatChar);
    scrub_long_hex_tokens(d.as_str())
}

// ── Recoverability and error codes ───────────────────────────────────────────

/// How an error may be recovered from.
#[derive(Debug, Clone, Copy, PartialEq, Eq, Structural)]
pub enum Recoverability {
    /// The operation may succeed if retried without any change.
    Recoverable,
    /// The user must act (re-authenticate, provide input) before retrying.
    UserActionRequired,
    /// Unrecoverable: the process should stop.
    Unrecoverable,
}

pub open spec fn recoverability_label(r: Recoverability) -> Seq<char> {
    match r {
        Recoverability::Recoverable => "recoverable"@,
        Recoverability::UserActionRequired => "user-action-required"@,
        Recoverability::Unrecoverable => "unrecoverable"@,
    }
}

impl Recoverability {
    /// The kebab-case label.
    pub fn as_str(&self) -> (r: &'static str)
        ensures
            r@ == recoverability_label(*self),
    {
        match self {
            Recoverability::Recoverable => "recoverable",
            Recoverability::UserActionRequired => "user-action-required",
            Recoverability::Unrecoverable => "unrecoverable",
        }
    }

    /// The kebab-case label as a `String`.
    pub fn to_string(&self) -> (r: String)
        ensures
            r@ == recoverability_label(*self),
    {
        owned(self.as_str())
    }
}

/// Machine-readable error code slugs.
pub const PROVIDER_AUTH: &'static str = "provider_auth";
pub const SUBPROCESS_SPAWN: &'static str = "subprocess_spawn";
pub const MALFORMED_PROVIDER_OUTPUT: &'static str = "malformed_provider_output";
pub const TRANSPORT: &'static str = "transport";
pub const GIT: &'static str = "git";
pub const GITHUB_API: &'static str = "github_api";
pub const INVALID_STATE_TRANSITION: &'static str = "invalid_state_transition";
pub const MISSING_CLARIFICATION: &'static str = "missing_clarification";
pub const STATE_CORRUPTION: &'static str = "state_corruption";
pub const STUDIO_LIFECYCLE: &'static str = "studio_lifecycle";
pub const REPO_ROOT_NOT_FOUND: &'static str = "repo_root_not_found";
pub const STATE_LOAD: &'static str = "state_load";
pub const WORKFLOW_NOT_FOUND: &'static str = "workflow_not_found";

// ── Structured errors ────────────────────────────────────────────────────────

/// A structured error: a machine-readable code, a human-readable message, a
/// recoverability class and key-value context (keys in increasing order, one
/// value per key).  Secrets must be redacted before they are stored here.
#[derive(Debug)]
pub struct CalypsoError {
    code: String,
    message: String,
    recoverability: Recoverability,
    context: Vec<(String, String)>,
}

impl Clone for CalypsoError {
    fn clone(&self) -> (r: Self)
        ensures
            r.code_text() == self.code_text(),
            r.message_text() == self.message_text(),
            r.class() == self.class(),
            r.context_pairs().map_values(|p: (String, String)| (p.0@, p.1@)) == self.context_pairs().map_values(
                |p: (String, String)| (p.0@, p.1@),
            ),
    {
        proof {
            use_type_invariant(self);
        }
        let mut context: Vec<(String, String)> = Vec::new();
        let n: usize = self.context.len();
        for i in 0..n
            invariant
                n == self.context@.len(),
                keys_sorted(self.context@),
                context@.len() == i,
                forall|k: int| 0 <= k < i ==> (#[trigger] context@[k]).0@ == self.context@[k].0@ && context@[k].1@
                    == self.context@[k].1@,
        {
            let (k, v) = &self.context[i];
            context.push((owned(k.as_str()), owned(v.as_str())));
        }
        proof {
            assert(keys_sorted(context@)) by {
                assert forall|a: int, b: int| 0 <= a < b < context@.len() implies crate::order::seq_lt(#[trigger] context@[a].0@, #[trigger] context@[b].0@) by {
                    assert(context@[a].0@ == self.context@[a].0@);
                    assert(context@[b].0@ == self.context@[b].0@);
                }
            }
            assert(context@.map_values(|p: (String, String)| (p.0@, p.1@)) =~= self.context@.map_values(
                |p: (String, String)| (p.0@, p.1@),
            ));
        }
        CalypsoError {
            code: owned(self.code.as_str()),
            message: owned(self.message.as_str()),
            recoverability: self.recoverability,
            context,
        }
    }
}

/// The value of an error without context.
pub open spec fn error_is(e: CalypsoError, code: Seq<char>, message: Seq<char>, r: Recoverability) -> bool {
    &&& e.code_text() == code
    &&& e.message_text() == message
    &&& e.class() == r
    &&& e.context_pairs().len() == 0
}

impl CalypsoError {
    #[verifier::type_invariant]
    spec fn well_formed(&self) -> bool {
        keys_sorted(self.context@)
    }

    /// The machine-readable code.
    pub closed spec fn code_text(&self) -> Seq<char> {
        self.code@
    }

    /// The human-readable message.
    pub closed spec fn message_text(&self) -> Seq<char> {
        self.message@
    }

    /// The recoverability class.
    pub closed spec fn class(&self) -> Recoverability {
        self.recoverability
    }

    /// The context pairs, keys in increasing order.
    pub closed spec fn context_pairs(&self) -> Seq<(String, String)> {
        self.context@
    }

    /// The context value recorded under `key`.
    pub open spec fn context_of(&self, key: Seq<char>) -> Option<String> {
        crate::named::get_of(self.context_pairs(), key)
    }

    /// The machine-readable code.
    pub fn code(&self) -> (r: &str)
        ensures
            r@ == self.code_text(),
    {
        self.code.as_str()
    }

    /// The human-readable message.
    pub fn message(&self) -> (r: &str)
        ensures
            r@ == self.message_text(),
    {
        self.message.as_str()
    }

    /// The recoverability class.
    pub fn recoverability(&self) -> (r: Recoverability)
        ensures
            r == self.class(),
    {
        self.recoverability
    }

    /// The context pairs, one per key, keys in increasing order.
    pub fn context(&self) -> (r: &Vec<(String, String)>)
        ensures
            r@ == self.context_pairs(),
            keys_sorted(r@),
    {
        proof {
            use_type_invariant(self);
        }
        &self.context
    }

    /// An error with no context.
    pub fn new(code: &str, message: &str, recoverability: Recoverability) -> (e: CalypsoError)
        ensures
            error_is(e, code@, message@, recoverability),
    {
        CalypsoError { code: owned(code), message: owned(message), recoverability, context: Vec::new() }
    }

    /// Attaches a context pair; a pair with the same key is replaced.
    pub fn with_context(self, key: &str, value: &str) -> (e: CalypsoError)
        ensures
            e.code_text() == self.code_text(),
            e.message_text() == self.message_text(),
            e.class() == self.class(),
            e.context_of(key@) matches Some(v) && v@ == value@,
            forall|k: Seq<char>| k != key@ ==> e.context_of(k) == self.context_of(k),
    {
        proof {
            use_type_invariant(&self);
        }
        let CalypsoError { code, message, recoverability, context } = self;
        let mut context = context;
        let ghost c0 = context@;
        let k = owned(key);
        let v = owned(value);
        proof {
            crate::named::lemma_get_after_put(c0, k, v, key@);
            assert forall|n: Seq<char>| n != key@ implies crate::named::get_of(put(c0, k, v), n) == crate::named::get_of(c0, n) by {
                crate::named::lemma_get_after_put(c0, k, v, n);
            }
        }
        put_named(&mut context, k, v);
        CalypsoError { code, message, recoverability, context }
    }

    /// `[code] message`.
    pub fn to_string(&self) -> (r: String)
        ensures
            r@ == "["@ + self.code_text() + "] "@ + self.message_text(),
    {
        let mut s = String::from_str("[");
        s.append(self.code.as_str());
        s.append("] ");
        s.append(self.message.as_str());
        s
    }

    pub fn provider_auth(message: &str) -> (e: CalypsoError)
        ensures
            error_is(e, "provider_auth"@, message@, Recoverability::UserActionRequired),
    {
        CalypsoError::new(PROVIDER_AUTH, message, Recoverability::UserActionRequired)
    }

    pub fn subprocess_spawn(message: &str) -> (e: CalypsoError)
        ensures
            error_is(e, "subprocess_spawn"@, message@, Recoverability::Unrecoverable),
    {
        CalypsoError::new(SUBPROCESS_SPAWN, message, Recoverability::Unrecoverable)
    }

    pub fn malformed_provider_output(message: &str) -> (e: CalypsoError)
        ensures
            error_is(e, "malformed_provider_output"@, message@, Recoverability::Recoverable),
    {
        CalypsoError::new(MALFORMED_PROVIDER_OUTPUT, message, Recoverability::Recoverable)
    }

    pub fn transport(message: &str) -> (e: CalypsoError)
        ensures
            error_is(e, "transport"@, message@, Recoverability::Recoverable),
    {
        CalypsoError::new(TRANSPORT, message, Recoverability::Recoverable)
    }

    pub fn git(message: &str) -> (e: CalypsoError)
        ensures
            error_is(e, "git"@, message@, Recoverability::Unrecoverable),
    {
        CalypsoError::new(GIT, message, Recoverability::Unrecoverable)
    }

    pub fn github_api(message: &str) -> (e: CalypsoError)
        ensures
            error_is(e, "github_api"@, message@, Recoverability::Recoverable),
    {
        CalypsoError::new(GITHUB_API, message, Recoverability::Recoverable)
    }

    pub fn invalid_state_transition(message: &str) -> (e: CalypsoError)
        ensures
            error_is(e, "invalid_state_transition"@, message@, Recoverability::UserActionRequired),
    {
        CalypsoError::new(INVALID_STATE_TRANSITION, message, Recoverability::UserActionRequired)
    }

    pub fn missing_clarification(message: &str) -> (e: CalypsoError)
        ensures
            error_is(e, "missing_clarification"@, message@, Recoverability::UserActionRequired),
    {
        CalypsoError::new(MISSING_CLARIFICATION, message, Recoverability::UserActionRequired)
    }

    pub fn state_corruption(message: &str) -> (e: CalypsoError)
        ensures
            error_is(e, "state_corruption"@, message@, Recoverability::Unrecoverable),
    {
        CalypsoError::new(STATE_CORRUPTION, message, Recoverability::Unrecoverable)
    }

    pub fn studio_lifecycle(message: &str) -> (e: CalypsoError)
        ensures
            error_is(e, "studio_lifecycle"@, message@, Recoverability::Unrecoverable),
    {
        CalypsoError::new(STUDIO_LIFECYCLE, message, Recoverability::Unrecoverable)
    }

    pub fn repo_root_not_found(message: &str) -> (e: CalypsoError)
        ensures
            error_is(e, "repo_root_not_found"@, message@, Recoverability::UserActionRequired),
    {
        CalypsoError::new(REPO_ROOT_NOT_FOUND, message, Recoverability::UserActionRequired)
    }

    pub fn state_load(message: &str) -> (e: CalypsoError)
        ensures
            error_is(e, "state_load"@, message@, Recoverability::Unrecoverable),
    {
        CalypsoError::new(STATE_LOAD, message, Recoverability::Unrecoverable)
    }

    pub fn workflow_not_found(message: &str) -> (e: CalypsoError)
        ensures
            error_is(e, "workflow_not_found"@, message@, Recoverability::UserActionRequired),
    {
        CalypsoError::new(WORKFLOW_NOT_FOUND, message, Recoverability::UserActionRequired)
    }
}

} // verus!
