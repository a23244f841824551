//! Diagnostics and the helpers that build lists of them.
use vstd::prelude::*;
use crate::stdlib::{decimal, decimal_string};

verus! {

/// How serious a coding-style violation is.
#[derive(Debug, Clone, Copy, PartialEq, Eq, Structural)]
pub enum Severity {
    Fatal,
    Major,
    Minor,
    Info,
}

/// One violation found in a file.
#[derive(Debug)]
pub struct Diagnostic {
    pub file: String,
    pub line: usize,
    pub severity: Severity,
    pub code: String,
    pub message: String,
}

/// The mathematical content of a diagnostic.
pub struct DiagView {
    pub file: Seq<char>,
    pub line: int,
    pub severity: Severity,
    pub code: Seq<char>,
    pub message: Seq<char>,
}

impl View for Diagnostic {
    type V = DiagView;

    open spec fn view(&self) -> DiagView {
        DiagView {
            file: self.file@,
            line: self.line as int,
            severity: self.severity,
            code: self.code@,
            message: self.message@,
        }
    }
}

pub open spec fn diag(
    file: Seq<char>,
    line: int,
    severity: Severity,
    code: Seq<char>,
    message: Seq<char>,
) -> DiagView {
    DiagView { file, line, severity, code, message }
}

/// The views of a sequence of diagnostics.
pub open spec fn views(v: Seq<Diagnostic>) -> Seq<DiagView> {
    v.map_values(|d: Diagnostic| d@)
}

pub proof fn lemma_views_push(v: Seq<Diagnostic>, d: Diagnostic)
    ensures
        views(v.push(d)) == views(v).push(d@),
{
    assert(views(v.push(d)) =~= views(v).push(d@));
}

pub proof fn lemma_views_concat(a: Seq<Diagnostic>, b: Seq<Diagnostic>)
    ensures
        views(a + b) == views(a) + views(b),
{
    assert(views(a + b) =~= views(a) + views(b));
}

/// Builds a diagnostic; the message is given as an owned string.
pub fn new_diag(file: &str, line: usize, severity: Severity, code: &str, message: String) -> (d:
    Diagnostic)
    ensures
        d@ == diag(file@, line as int, severity, code@, message@),
{
    Diagnostic {
        file: String::from_str(file),
        line,
        severity,
        code: String::from_str(code),
        message,
    }
}

/// Builds a diagnostic whose message is a fixed text.
pub fn fixed_diag(file: &str, line: usize, severity: Severity, code: &str, message: &str) -> (d:
    Diagnostic)
    ensures
        d@ == diag(file@, line as int, severity, code@, message@),
{
    new_diag(file, line, severity, code, String::from_str(message))
}

/// A message made of `prefix`, the decimal digits of `n` and `suffix`.
pub fn numbered_message(prefix: &str, n: usize, suffix: &str) -> (r: String)
    ensures
        r@ == prefix@ + decimal(n as nat) + suffix@,
{
    let mut m = String::from_str(prefix);
    let d = decimal_string(n);
    m.append(d.as_str());
    m.append(suffix);
    m
}

/// Pushes one diagnostic.
pub fn push_diag(out: &mut Vec<Diagnostic>, d: Diagnostic)
    ensures
        views(final(out)@) == views(old(out)@).push(d@),
{
    proof {
        lemma_views_push(old(out)@, d);
    }
    out.push(d);
}

/// Appends all diagnostics of `more` to `out`.
pub fn push_all(out: &mut Vec<Diagnostic>, more: Vec<Diagnostic>)
    ensures
        views(final(out)@) == views(old(out)@) + views(more@),
{
    let mut more = more;
    proof {
        lemma_views_concat(old(out)@, more@);
    }
    out.append(&mut more);
}

} // verus!

verus! {

/// The diagnostics of `f(lo)`, ..., `f(hi - 1)`, in order.
pub open spec fn concat_range(lo: int, hi: int, f: spec_fn(int) -> Seq<DiagView>) -> Seq<DiagView>
    decreases hi - lo,
{
    if hi <= lo {
        seq![]
    } else {
        concat_range(lo, hi - 1, f) + f(hi - 1)
    }
}

/// The items of `f(c)` for each `c` of `cs`, in order.
pub open spec fn concat_map<A>(cs: Seq<int>, f: spec_fn(int) -> Seq<A>) -> Seq<A>
    decreases cs.len(),
{
    if cs.len() == 0 {
        seq![]
    } else {
        concat_map(cs.drop_last(), f) + f(cs.last())
    }
}

pub proof fn lemma_concat_map_step<A>(cs: Seq<int>, k: int, f: spec_fn(int) -> Seq<A>)
    requires
        0 <= k < cs.len(),
    ensures
        concat_map(cs.take(k + 1), f) == concat_map(cs.take(k), f) + f(cs[k]),
{
    assert(cs.take(k + 1).drop_last() =~= cs.take(k));
}

pub proof fn lemma_concat_map_all<A>(cs: Seq<int>, f: spec_fn(int) -> Seq<A>)
    ensures
        concat_map(cs.take(cs.len() as int), f) == concat_map(cs, f),
{
    assert(cs.take(cs.len() as int) =~= cs);
}

/// What `f` gives for one of `cs` is among what `concat_map` gives.
pub proof fn lemma_concat_map_contains<A>(cs: Seq<int>, f: spec_fn(int) -> Seq<A>, k: int, x: A)
    requires
        0 <= k < cs.len(),
        f(cs[k]).contains(x),
    ensures
        concat_map(cs, f).contains(x),
    decreases cs.len(),
{
    let a = concat_map(cs.drop_last(), f);
    let b = f(cs.last());
    if k == cs.len() - 1 {
        let j = choose|j: int| 0 <= j < b.len() && b[j] == x;
        assert((a + b)[a.len() + j] == x);
    } else {
        assert(cs.drop_last()[k] == cs[k]);
        lemma_concat_map_contains(cs.drop_last(), f, k, x);
        let j = choose|j: int| 0 <= j < a.len() && a[j] == x;
        assert((a + b)[j] == x);
    }
}

/// What `f` gives for one of `lo .. hi` is among what `concat_range` gives.
pub proof fn lemma_concat_range_contains(lo: int, hi: int, f: spec_fn(int) -> Seq<DiagView>, k: int, x: DiagView)
    requires
        lo <= k < hi,
        f(k).contains(x),
    ensures
        concat_range(lo, hi, f).contains(x),
    decreases hi - lo,
{
    let a = concat_range(lo, hi - 1, f);
    let b = f(hi - 1);
    if k == hi - 1 {
        let j = choose|j: int| 0 <= j < b.len() && b[j] == x;
        assert((a + b)[a.len() + j] == x);
    } else {
        lemma_concat_range_contains(lo, hi - 1, f, k, x);
        let j = choose|j: int| 0 <= j < a.len() && a[j] == x;
        assert((a + b)[j] == x);
    }
}

/// An item of either part is an item of a concatenation.
pub proof fn lemma_concat_contains<A>(a: Seq<A>, b: Seq<A>, x: A)
    requires
        a.contains(x) || b.contains(x),
    ensures
        (a + b).contains(x),
{
    if a.contains(x) {
        let j = choose|j: int| 0 <= j < a.len() && a[j] == x;
        assert((a + b)[j] == x);
    } else {
        let j = choose|j: int| 0 <= j < b.len() && b[j] == x;
        assert((a + b)[a.len() + j] == x);
    }
}

/// A text put between a fixed prefix and a fixed suffix can be read back.
pub proof fn lemma_wrapped_injective(a: Seq<char>, x: Seq<char>, y: Seq<char>, c: Seq<char>)
    requires
        a + x + c == a + y + c,
    ensures
        x == y,
{
    assert((a + x + c).len() == a.len() + x.len() + c.len());
    assert((a + y + c).len() == a.len() + y.len() + c.len());
    assert(x.len() == y.len());
    assert forall|k: int| 0 <= k < x.len() implies x[k] == y[k] by {
        assert((a + x + c)[a.len() + k] == (a + x)[a.len() + k]);
        assert((a + x)[a.len() + k] == x[k]);
        assert((a + y + c)[a.len() + k] == (a + y)[a.len() + k]);
        assert((a + y)[a.len() + k] == y[k]);
    }
    assert(x =~= y);
}

/// Whether every item of `s` satisfies `p`.
pub open spec fn all_satisfy<A>(s: Seq<A>, p: spec_fn(A) -> bool) -> bool {
    forall|k: int| 0 <= k < s.len() ==> p(#[trigger] s[k])
}

/// A diagnostic that names `file` and a line numbered from 1 to `n`.
pub open spec fn placed_in(file: Seq<char>, n: int) -> spec_fn(DiagView) -> bool {
    |d: DiagView| d.file == file && 1 <= d.line <= n
}

pub proof fn lemma_all_concat<A>(a: Seq<A>, b: Seq<A>, p: spec_fn(A) -> bool)
    requires
        all_satisfy(a, p),
        all_satisfy(b, p),
    ensures
        all_satisfy(a + b, p),
{
    assert forall|k: int| 0 <= k < (a + b).len() implies p(#[trigger] (a + b)[k]) by {
        if k < a.len() {
            assert((a + b)[k] == a[k]);
        } else {
            assert((a + b)[k] == b[k - a.len()]);
        }
    }
}

pub proof fn lemma_all_range(lo: int, hi: int, f: spec_fn(int) -> Seq<DiagView>, p: spec_fn(DiagView) -> bool)
    requires
        forall|k: int| lo <= k < hi ==> all_satisfy(#[trigger] f(k), p),
    ensures
        all_satisfy(concat_range(lo, hi, f), p),
    decreases hi - lo,
{
    if hi > lo {
        lemma_all_range(lo, hi - 1, f, p);
        lemma_all_concat(concat_range(lo, hi - 1, f), f(hi - 1), p);
    }
}

pub proof fn lemma_all_map<A>(cs: Seq<int>, f: spec_fn(int) -> Seq<A>, p: spec_fn(A) -> bool)
    requires
        forall|k: int| 0 <= k < cs.len() ==> all_satisfy(#[trigger] f(cs[k]), p),
    ensures
        all_satisfy(concat_map(cs, f), p),
    decreases cs.len(),
{
    if cs.len() > 0 {
        assert forall|k: int| 0 <= k < cs.drop_last().len() implies all_satisfy(
            #[trigger] f(cs.drop_last()[k]),
            p,
        ) by {
            assert(cs.drop_last()[k] == cs[k]);
        }
        lemma_all_map(cs.drop_last(), f, p);
        assert(all_satisfy(f(cs[cs.len() - 1]), p));
        lemma_all_concat(concat_map(cs.drop_last(), f), f(cs.last()), p);
    }
}

pub proof fn lemma_all_weaken<A>(s: Seq<A>, p: spec_fn(A) -> bool, q: spec_fn(A) -> bool)
    requires
        all_satisfy(s, p),
        forall|d: A| #[trigger] p(d) ==> q(d),
    ensures
        all_satisfy(s, q),
{
    assert forall|k: int| 0 <= k < s.len() implies q(#[trigger] s[k]) by {
        assert(p(s[k]));
    }
}

/// A concatenation is empty exactly when each of its parts is.
pub proof fn lemma_range_empty(lo: int, hi: int, f: spec_fn(int) -> Seq<DiagView>)
    ensures
        concat_range(lo, hi, f).len() == 0 <==> forall|k: int| lo <= k < hi ==> #[trigger] f(k).len() == 0,
    decreases hi - lo,
{
    if hi > lo {
        lemma_range_empty(lo, hi - 1, f);
        if concat_range(lo, hi, f).len() == 0 {
            assert forall|k: int| lo <= k < hi implies #[trigger] f(k).len() == 0 by {
                if k < hi - 1 {
                    assert(concat_range(lo, hi - 1, f).len() == 0);
                }
            }
        }
    }
}

/// The diagnostic with its file replaced by `file`.
pub open spec fn with_file(d: DiagView, file: Seq<char>) -> DiagView {
    DiagView { file, line: d.line, severity: d.severity, code: d.code, message: d.message }
}

/// The diagnostics with their file replaced by `file`, in order.
pub open spec fn refile(s: Seq<DiagView>, file: Seq<char>) -> Seq<DiagView> {
    s.map_values(|d: DiagView| with_file(d, file))
}

pub proof fn lemma_refile_concat(a: Seq<DiagView>, b: Seq<DiagView>, file: Seq<char>)
    ensures
        refile(a + b, file) == refile(a, file) + refile(b, file),
{
    assert(refile(a + b, file) =~= refile(a, file) + refile(b, file));
}

pub proof fn lemma_refile_range(
    lo: int,
    hi: int,
    f: spec_fn(int) -> Seq<DiagView>,
    g: spec_fn(int) -> Seq<DiagView>,
    file: Seq<char>,
)
    requires
        forall|k: int| lo <= k < hi ==> #[trigger] g(k) == refile(f(k), file),
    ensures
        concat_range(lo, hi, g) == refile(concat_range(lo, hi, f), file),
    decreases hi - lo,
{
    if hi > lo {
        lemma_refile_range(lo, hi - 1, f, g, file);
        lemma_refile_concat(concat_range(lo, hi - 1, f), f(hi - 1), file);
        assert(g(hi - 1) == refile(f(hi - 1), file));
    } else {
        assert(refile(seq![], file) =~= seq![]);
    }
}

pub proof fn lemma_refile_map(
    cs: Seq<int>,
    f: spec_fn(int) -> Seq<DiagView>,
    g: spec_fn(int) -> Seq<DiagView>,
    file: Seq<char>,
)
    requires
        forall|k: int| 0 <= k < cs.len() ==> #[trigger] g(cs[k]) == refile(f(cs[k]), file),
    ensures
        concat_map(cs, g) == refile(concat_map(cs, f), file),
    decreases cs.len(),
{
    if cs.len() > 0 {
        assert forall|k: int| 0 <= k < cs.drop_last().len() implies #[trigger] g(cs.drop_last()[k])
            == refile(f(cs.drop_last()[k]), file) by {
            assert(cs.drop_last()[k] == cs[k]);
        }
        lemma_refile_map(cs.drop_last(), f, g, file);
        lemma_refile_concat(concat_map(cs.drop_last(), f), f(cs.last()), file);
        assert(g(cs[cs.len() - 1]) == refile(f(cs[cs.len() - 1]), file));
    } else {
        assert(refile(seq![], file) =~= seq![]);
    }
}

pub proof fn lemma_range_congruent(
    lo: int,
    hi: int,
    f: spec_fn(int) -> Seq<DiagView>,
    g: spec_fn(int) -> Seq<DiagView>,
)
    requires
        forall|k: int| lo <= k < hi ==> #[trigger] f(k) == g(k),
    ensures
        concat_range(lo, hi, f) == concat_range(lo, hi, g),
    decreases hi - lo,
{
    if hi > lo {
        lemma_range_congruent(lo, hi - 1, f, g);
        assert(f(hi - 1) == g(hi - 1));
    }
}

} // verus!
