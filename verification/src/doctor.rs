//! Doctor fix results: what applying the fixes for failing checks did, and
//! its rendering.
use crate::text::{owned, seq_join, views};
use vstd::prelude::*;

verus! {

/// The result of attempting to fix one doctor check.
#[derive(Debug, Clone, PartialEq, Eq)]
pub struct FixAttemptResult {
    pub check_label: String,
    pub applied: bool,
    pub output: String,
    /// Whether re-validation after the fix showed the check passing.
    pub validated: Option<bool>,
}

/// The status tag of a fix attempt.
pub open spec fn fix_tag(r: FixAttemptResult) -> Seq<char> {
    if r.applied {
        match r.validated {
            Some(true) => "FIXED"@,
            Some(false) => "FAILED"@,
            None => "APPLIED"@,
        }
    } else if r.output@ == "already passing"@ {
        "PASS"@
    } else {
        "SKIP"@
    }
}

/// The lines of a text as `str::lines` gives them: split at `\n`, a `\r`
/// before the `\n` removed, and no empty line after a final `\n`.
pub open spec fn lines_acc(s: Seq<char>, cur: Seq<char>) -> Seq<Seq<char>>
    decreases s.len(),
{
    if s.len() == 0 {
        if cur.len() == 0 {
            Seq::empty()
        } else {
            seq![cur]
        }
    } else if s[0] == '\n' {
        let line = if cur.len() > 0 && cur.last() == '\r' { cur.drop_last() } else { cur };
        seq![line] + lines_acc(s.drop_first(), Seq::empty())
    } else {
        lines_acc(s.drop_first(), cur.push(s[0]))
    }
}

pub open spec fn text_lines(s: Seq<char>) -> Seq<Seq<char>> {
    lines_acc(s, Seq::empty())
}

/// Each line indented by two spaces.
pub open spec fn indented(ls: Seq<Seq<char>>) -> Seq<Seq<char>> {
    ls.map_values(|l: Seq<char>| "  "@ + l)
}

/// The lines describing one result.
pub open spec fn result_lines(r: FixAttemptResult) -> Seq<Seq<char>> {
    seq!["- ["@ + fix_tag(r) + "] "@ + r.check_label@] + if r.output@.len() == 0 {
        Seq::<Seq<char>>::empty()
    } else {
        indented(text_lines(r.output@))
    }
}

pub open spec fn all_result_lines(rs: Seq<FixAttemptResult>) -> Seq<Seq<char>>
    decreases rs.len(),
{
    if rs.len() == 0 {
        Seq::empty()
    } else {
        all_result_lines(rs.drop_last()) + result_lines(rs.last())
    }
}

/// The rendered fix results.
pub open spec fn fix_results_text(rs: Seq<FixAttemptResult>) -> Seq<char> {
    if rs.len() == 0 {
        "All checks passing — nothing to fix."@
    } else {
        seq_join(seq!["Doctor fix results"@, crate::text::seq_repeat('─', 42)] + all_result_lines(rs), "\n"@)
    }
}

/// Appends the lines of `s`, each indented by two spaces.
pub(crate) fn push_indented_lines(out: &mut Vec<String>, s: &str)
    ensures
        views(final(out)@) == views(old(out)@) + indented(text_lines(s@)),
{
    let v = crate::text::chars_of(s);
    let n: usize = v.len();
    let mut start: usize = 0;
    let ghost o0 = views(out@);
    proof {
        assert(v@.subrange(0, 0) =~= Seq::<char>::empty());
        assert(v@.skip(0) =~= v@);
    }
    let mut i: usize = 0;
    while i < n
        invariant
            n == v@.len(),
            v@ == s@,
            start <= i <= n,
            o0 + indented(text_lines(s@)) == views(out@) + indented(lines_acc(v@.skip(i as int), v@.subrange(start as int, i as int))),
        decreases n - i,
    {
        let ghost rest = v@.skip(i as int);
        let ghost cur = v@.subrange(start as int, i as int);
        proof {
            assert(rest[0] == v@[i as int]);
            assert(rest.drop_first() =~= v@.skip(i + 1));
        }
        if v[i] == '\n' {
            let end = if i > start && v[i - 1] == '\r' { i - 1 } else { i };
            let mut line = String::from_str("  ");
            let piece = crate::text::string_of(&v, start, end);
            line.append(piece.as_str());
            let ghost before = views(out@);
            out.push(line);
            proof {
                let l = if cur.len() > 0 && cur.last() == '\r' { cur.drop_last() } else { cur };
                assert(v@.subrange(start as int, end as int) =~= l);
                assert(views(out@) =~= before.push("  "@ + l));
                assert(v@.subrange(i + 1, i + 1) =~= Seq::<char>::empty());
                assert(indented(seq![l] + lines_acc(v@.skip(i + 1), Seq::empty())) =~= seq!["  "@ + l] + indented(lines_acc(v@.skip(i + 1), Seq::empty())));
            }
            start = i + 1;
        } else {
            proof {
                assert(cur.push(v@[i as int]) =~= v@.subrange(start as int, i + 1));
            }
        }
        i = i + 1;
    }
    proof {
        assert(v@.skip(n as int) =~= Seq::<char>::empty());
    }
    if start < n {
        let mut line = String::from_str("  ");
        let piece = crate::text::string_of(&v, start, n);
        line.append(piece.as_str());
        let ghost before = views(out@);
        out.push(line);
        proof {
            assert(views(out@) =~= before.push("  "@ + v@.subrange(start as int, n as int)));
            assert(indented(seq![v@.subrange(start as int, n as int)]) =~= seq!["  "@ + v@.subrange(start as int, n as int)]);
        }
    } else {
        proof {
            assert(indented(Seq::<Seq<char>>::empty()) =~= Seq::<Seq<char>>::empty());
            assert(views(out@) + Seq::<Seq<char>>::empty() =~= views(out@));
        }
    }
}

/// Renders the results of applying doctor fixes: a header and one entry per
/// check with its status tag and the fix output, indented.
pub fn render_fix_results(results: &[FixAttemptResult]) -> (r: String)
    ensures
        r@ == fix_results_text(results@),
{
    if results.len() == 0 {
        return owned("All checks passing — nothing to fix.");
    }
    let mut lines: Vec<String> = Vec::new();
    lines.push(owned("Doctor fix results"));
    lines.push(crate::text::repeat_char('─', 42));
    let n: usize = results.len();
    for i in 0..n
        invariant
            n == results@.len(),
            views(lines@) == seq!["Doctor fix results"@, crate::text::seq_repeat('─', 42)] + all_result_lines(results@.take(i as int)),
    {
        proof {
            assert(results@.take(i + 1).drop_last() =~= results@.take(i as int));
            assert(results@.take(i + 1).last() == results@[i as int]);
        }
        let r = &results[i];
        let tag: &str = if r.applied {
            match r.validated {
                Some(true) => "FIXED",
                Some(false) => "FAILED",
                None => "APPLIED",
            }
        } else if crate::text::str_eq(r.output.as_str(), "already passing") {
            "PASS"
        } else {
            "SKIP"
        };
        let ghost before = views(lines@);
        let mut head = String::from_str("- [");
        head.append(tag);
        head.append("] ");
        head.append(r.check_label.as_str());
        lines.push(head);
        proof {
            assert(views(lines@) =~= before.push("- ["@ + fix_tag(*r) + "] "@ + r.check_label@));
        }
        if r.output.unicode_len() > 0 {
            push_indented_lines(&mut lines, r.output.as_str());
        }
        proof {
            assert(views(lines@) =~= before + result_lines(*r));
        }
    }
    proof {
        assert(results@.take(n as int) =~= results@);
    }
    crate::text::join(&lines, "\n")
}

/// The status of a prerequisite check.
#[derive(Debug, Clone, Copy, PartialEq, Eq, Structural)]
pub enum DoctorStatus {
    Passing,
    Warning,
    Failing,
}

/// The label and log level name logged for a check status.
pub open spec fn status_label(s: DoctorStatus) -> Seq<char> {
    match s {
        DoctorStatus::Passing => "pass"@,
        DoctorStatus::Warning => "warn"@,
        DoctorStatus::Failing => "fail"@,
    }
}

/// The label logged for a check status.
pub fn doctor_status_label(s: DoctorStatus) -> (r: &'static str)
    ensures
        r@ == status_label(s),
{
    match s {
        DoctorStatus::Passing => "pass",
        DoctorStatus::Warning => "warn",
        DoctorStatus::Failing => "fail",
    }
}

/// 1 when some check fails, 0 otherwise (warnings do not fail).
pub fn doctor_exit_code(statuses: &Vec<DoctorStatus>) -> (r: i32)
    ensures
        r == if exists|i: int| 0 <= i < statuses@.len() && statuses@[i] == DoctorStatus::Failing { 1i32 } else { 0i32 },
{
    let n: usize = statuses.len();
    for i in 0..n
        invariant
            n == statuses@.len(),
            forall|k: int| 0 <= k < i ==> statuses@[k] != DoctorStatus::Failing,
    {
        if statuses[i] == DoctorStatus::Failing {
            return 1;
        }
    }
    0
}

} // verus!
