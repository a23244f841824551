//! C-C: control structures.
#![verifier::loop_isolation(false)]
use vstd::prelude::*;
use crate::text::{
    lemma_std_lines_len, lemma_split_nl_len, split_nl, std_lines, line_ranges, trim, trimmed,
    bytes_eq,
};
use vstd::string::StringSliceAdditionalSpecFns;
use vstd::utf8::encode_utf8;
use crate::diagnostic::{
    DiagView, Diagnostic, Severity, diag, views, push_diag, push_all, fixed_diag, concat_range,
    concat_map, lemma_concat_map_step, lemma_concat_map_all, all_satisfy, placed_in,
    lemma_all_concat, lemma_all_range, lemma_all_map, lemma_range_empty, refile, lemma_refile_concat,
    lemma_refile_range, lemma_refile_map,
};
use crate::syntax::{
    NodeView, SyntaxTree, c_syntax, parse, children, children_of, has_kind, kind_is, field_child,
    child_by_field, sub_end, subtree_end, contains_kind, subtree_has_kind, parent, parent_of,
    text_or_empty, text_or_nothing, tree_fits, node_fits, fits, node_count,
    lemma_field_child_after,
    syntax_in_text, rows_below, lemma_syntax_rows,
};

verus! {

// ---------------------------------------------------------------------------
// C-C3: no goto.

/// Whether one of the first `k` nodes is a `goto` keyword that starts on
/// row `i`.
pub open spec fn goto_before(ns: Seq<NodeView>, k: int, i: int) -> bool {
    exists|j: int| 0 <= j < k && #[trigger] has_kind(ns, j, "goto"@) && ns[j].start_row == i
}

/// Whether a `goto` keyword starts on row `i`.
pub open spec fn goto_on_row(ns: Seq<NodeView>, i: int) -> bool {
    goto_before(ns, ns.len() as int, i)
}

/// Each line on which a `goto` keyword starts is reported once.
pub open spec fn goto_at(file: Seq<char>, ns: Seq<NodeView>) -> spec_fn(int) -> Seq<DiagView> {
    |i: int|
        if goto_on_row(ns, i) {
            seq![diag(file, i + 1, Severity::Major, "C-C3"@, "goto keyword is forbidden"@)]
        } else {
            seq![]
        }
}

pub open spec fn goto_diags(file: Seq<char>, src: Seq<char>) -> Seq<DiagView> {
    match c_syntax(src) {
        Some(ns) => if tree_fits(ns) {
            concat_range(0, std_lines(encode_utf8(src)).len() as int, goto_at(file, ns))
        } else {
            seq![]
        },
        None => seq![],
    }
}

/// For each of the first `n` rows, whether a `goto` keyword starts on it.
fn goto_rows(t: &SyntaxTree, n: usize) -> (r: Vec<bool>)
    ensures
        r@.len() == n,
        forall|i: int| 0 <= i < n ==> r@[i] == goto_on_row(t@, i),
{
    let mut marks: Vec<bool> = Vec::new();
    let mut m: usize = 0;
    while m < n
        invariant
            m <= n,
            marks@.len() == m,
            forall|i: int| 0 <= i < m ==> !marks@[i],
        decreases n - m,
    {
        marks.push(false);
        m = m + 1;
    }
    let len = node_count(t);
    let mut k: usize = 0;
    while k < len
        invariant
            k <= len == t@.len(),
            marks@.len() == n,
            forall|i: int| 0 <= i < n ==> marks@[i] == goto_before(t@, k as int, i),
        decreases len - k,
    {
        let ghost prev = marks@;
        if kind_is(t, k, "goto") {
            assert(t@[k as int] == t.nodes@[k as int]@);
            let row = t.nodes[k].start_row;
            if row < n {
                marks.set(row, true);
            }
            assert forall|i: int| 0 <= i < n implies marks@[i] == goto_before(t@, k + 1, i) by {
                if i == row {
                    assert(has_kind(t@, k as int, "goto"@));
                } else if goto_before(t@, k + 1, i) {
                    let j = choose|j: int| 0 <= j < k + 1 && #[trigger] has_kind(t@, j, "goto"@)
                        && t@[j].start_row == i;
                    assert(j != k);
                }
            }
        } else {
            assert forall|i: int| 0 <= i < n implies marks@[i] == goto_before(t@, k + 1, i) by {
                if goto_before(t@, k + 1, i) {
                    let j = choose|j: int| 0 <= j < k + 1 && #[trigger] has_kind(t@, j, "goto"@)
                        && t@[j].start_row == i;
                    assert(j != k);
                }
            }
        }
        k = k + 1;
    }
    marks
}

/// The C-C3 diagnostics of a text whose tree is `t`.
pub fn goto_in_tree(filename: &str, content: &str, t: &SyntaxTree) -> (r: Vec<Diagnostic>)
    requires
        tree_fits(t@),
    ensures
        views(r@) == concat_range(0, std_lines(content.spec_bytes()).len() as int, goto_at(filename@, t@)),
{
    let b = content.as_bytes();
    let n = line_ranges(b).len();
    let marks = goto_rows(t, n);
    let mut out: Vec<Diagnostic> = Vec::new();
    let mut i: usize = 0;
    while i < n
        invariant
            i <= n == std_lines(b@).len(),
            marks@.len() == n,
            forall|m: int| 0 <= m < n ==> marks@[m] == goto_on_row(t@, m),
            views(out@) == concat_range(0, i as int, goto_at(filename@, t@)),
        decreases n - i,
    {
        if marks[i] {
            push_diag(
                &mut out,
                fixed_diag(filename, i + 1, Severity::Major, "C-C3", "goto keyword is forbidden"),
            );
        }
        i = i + 1;
    }
    out
}

pub fn check_goto(filename: &str, content: &str) -> (r: Vec<Diagnostic>)
    ensures
        views(r@) == goto_diags(filename@, content@),
        syntax_in_text(content@),
{
    match parse(content) {
        Some(t) => if fits(&t) {
            goto_in_tree(filename, content, &t)
        } else {
            Vec::new()
        },
        None => Vec::new(),
    }
}

// ---------------------------------------------------------------------------
// C-C1: conditional branching depth.

pub open spec fn is_control(ns: Seq<NodeView>, i: int) -> bool {
    has_kind(ns, i, "if_statement"@) || has_kind(ns, i, "for_statement"@) || has_kind(
        ns,
        i,
        "while_statement"@,
    ) || has_kind(ns, i, "do_statement"@) || has_kind(ns, i, "switch_statement"@)
}

/// Whether node `a` is node `j` or one of its ancestors.
pub open spec fn covers(ns: Seq<NodeView>, a: int, j: int) -> bool {
    0 <= a <= j < ns.len() && j < a + ns[a].size
}

/// The number of control statements among the nodes `lo < a <= hi` that
/// cover node `j`.
pub open spec fn controls_covering(ns: Seq<NodeView>, lo: int, hi: int, j: int) -> int
    decreases hi - lo,
{
    if hi <= lo {
        0
    } else {
        controls_covering(ns, lo, hi - 1, j) + if is_control(ns, hi) && covers(ns, hi, j) {
            1int
        } else {
            0int
        }
    }
}

/// A control statement nested in more than two control statements of a
/// function body (itself counted) is reported.
pub open spec fn branching_at(file: Seq<char>, ns: Seq<NodeView>, body: int) -> spec_fn(int) -> Seq<
    DiagView,
> {
    |j: int|
        if is_control(ns, j) && controls_covering(ns, body, j, j) > 2 {
            seq![
                diag(
                    file,
                    ns[j].start_row + 1,
                    Severity::Major,
                    "C-C1"@,
                    "Conditional branching is nested too deeply"@,
                ),
            ]
        } else {
            seq![]
        }
}

pub open spec fn branching_top(file: Seq<char>, ns: Seq<NodeView>) -> spec_fn(int) -> Seq<DiagView> {
    |i: int|
        if has_kind(ns, i, "function_definition"@) && field_child(ns, i, "body"@) is Some {
            let body = field_child(ns, i, "body"@)->0;
            concat_range(body + 1, sub_end(ns, body), branching_at(file, ns, body))
        } else {
            seq![]
        }
}

pub open spec fn branching_in_tree(file: Seq<char>, ns: Seq<NodeView>) -> Seq<DiagView> {
    concat_map(children(ns, 0), branching_top(file, ns))
}

pub open spec fn branching_diags(file: Seq<char>, src: Seq<char>) -> Seq<DiagView> {
    match c_syntax(src) {
        Some(ns) => if tree_fits(ns) {
            branching_in_tree(file, ns)
        } else {
            seq![]
        },
        None => seq![],
    }
}

fn is_control_exec(t: &SyntaxTree, i: usize) -> (r: bool)
    ensures
        r == is_control(t@, i as int),
{
    kind_is(t, i, "if_statement") || kind_is(t, i, "for_statement") || kind_is(
        t,
        i,
        "while_statement",
    ) || kind_is(t, i, "do_statement") || kind_is(t, i, "switch_statement")
}

fn count_controls(t: &SyntaxTree, body: usize, j: usize) -> (r: usize)
    requires
        body < j < t@.len(),
    ensures
        r == controls_covering(t@, body as int, j as int, j as int),
{
    let _n = node_count(t);
    let mut a: usize = body + 1;
    let mut c: usize = 0;
    while a <= j
        invariant
            body < a <= j + 1,
            c <= a - body - 1,
            c == controls_covering(t@, body as int, a - 1, j as int),
        decreases j + 1 - a,
    {
        if is_control_exec(t, a) && t.nodes[a].size > j - a {
            c = c + 1;
        }
        a = a + 1;
    }
    c
}

fn branching_in_body(filename: &str, t: &SyntaxTree, body: usize) -> (r: Vec<Diagnostic>)
    requires
        body < t@.len(),
        tree_fits(t@),
    ensures
        views(r@) == concat_range(body + 1, sub_end(t@, body as int), branching_at(filename@, t@, body as int)),
{
    let end = subtree_end(t, body);
    let _n = node_count(t);
    let mut out: Vec<Diagnostic> = Vec::new();
    if end <= body + 1 {
        assert(views(out@) =~= concat_range(body + 1, sub_end(t@, body as int), branching_at(filename@, t@, body as int)));
        return out;
    }
    let mut j: usize = body + 1;
    while j < end
        invariant
            body < j <= end,
            end == sub_end(t@, body as int) <= t@.len(),
            views(out@) == concat_range(body + 1, j as int, branching_at(filename@, t@, body as int)),
        decreases end - j,
    {
        if is_control_exec(t, j) && count_controls(t, body, j) > 2 {
            assert(node_fits(t@[j as int]));
            assert(t@[j as int] == t.nodes@[j as int]@);
            let row = t.nodes[j].start_row;
            push_diag(
                &mut out,
                fixed_diag(filename, row + 1, Severity::Major, "C-C1", "Conditional branching is nested too deeply"),
            );
        }
        j = j + 1;
    }
    out
}

pub fn branching_in_tree_exec(filename: &str, t: &SyntaxTree) -> (r: Vec<Diagnostic>)
    requires
        tree_fits(t@),
    ensures
        views(r@) == branching_in_tree(filename@, t@),
{
    let cs = children_of(t, 0);
    let ghost all = children(t@, 0);
    let ghost f = branching_top(filename@, t@);
    let mut out: Vec<Diagnostic> = Vec::new();
    let mut k: usize = 0;
    while k < cs.len()
        invariant
            k <= cs@.len(),
            cs@.map_values(|c: usize| c as int) == all,
            views(out@) == concat_map(all.take(k as int), f),
        decreases cs@.len() - k,
    {
        proof {
            lemma_concat_map_step(all, k as int, f);
        }
        let i = cs[k];
        if kind_is(t, i, "function_definition") {
            match child_by_field(t, i, "body") {
                Some(body) => {
                    push_all(&mut out, branching_in_body(filename, t, body));
                },
                None => {},
            }
        }
        k = k + 1;
    }
    proof {
        lemma_concat_map_all(all, f);
    }
    out
}

pub fn check_conditional_branching(filename: &str, content: &str) -> (r: Vec<Diagnostic>)
    ensures
        views(r@) == branching_diags(filename@, content@),
{
    match parse(content) {
        Some(t) => if fits(&t) {
            branching_in_tree_exec(filename, &t)
        } else {
            Vec::new()
        },
        None => Vec::new(),
    }
}

// ---------------------------------------------------------------------------
// C-C2: use of the ternary operator.

pub open spec fn ternary_report(file: Seq<char>, ns: Seq<NodeView>, x: int) -> Seq<DiagView> {
    seq![diag(file, ns[x].start_row + 1, Severity::Major, "C-C2"@, "Misuse of the ternary operator"@)]
}

/// Whether a branch of a ternary holds a ternary or an assignment.
pub open spec fn branch_misused(ns: Seq<NodeView>, x: Option<int>) -> bool {
    x matches Some(c) && (contains_kind(ns, c, "conditional_expression"@) || contains_kind(
        ns,
        c,
        "assignment_expression"@,
    ))
}

/// The diagnostics for a conditional expression: used as a statement; nested
/// or assigning in a branch; assigning in its condition; with equal branches.
pub open spec fn ternary_node(file: Seq<char>, b: Seq<u8>, ns: Seq<NodeView>, j: int) -> Seq<DiagView> {
    let cons = field_child(ns, j, "consequence"@);
    let alt = field_child(ns, j, "alternative"@);
    let cond = field_child(ns, j, "condition"@);
    if parent(ns, j) matches Some(p) && has_kind(ns, p, "expression_statement"@) {
        ternary_report(file, ns, j)
    } else {
        (if branch_misused(ns, cons) {
            ternary_report(file, ns, cons->0)
        } else {
            seq![]
        }) + (if branch_misused(ns, alt) {
            ternary_report(file, ns, alt->0)
        } else {
            seq![]
        }) + (if cond matches Some(c) && contains_kind(ns, c, "assignment_expression"@) {
            ternary_report(file, ns, cond->0)
        } else {
            seq![]
        }) + (if cons is Some && alt is Some && trim(text_or_empty(b, ns[cons->0])) == trim(
            text_or_empty(b, ns[alt->0]),
        ) && trim(text_or_empty(b, ns[cons->0])).len() > 0 {
            ternary_report(file, ns, j)
        } else {
            seq![]
        })
    }
}

pub open spec fn ternary_at(file: Seq<char>, b: Seq<u8>, ns: Seq<NodeView>) -> spec_fn(int) -> Seq<
    DiagView,
> {
    |j: int|
        if has_kind(ns, j, "conditional_expression"@) {
            ternary_node(file, b, ns, j)
        } else {
            seq![]
        }
}

pub open spec fn ternary_top(file: Seq<char>, b: Seq<u8>, ns: Seq<NodeView>) -> spec_fn(int) -> Seq<
    DiagView,
> {
    |i: int|
        if has_kind(ns, i, "function_definition"@) && field_child(ns, i, "body"@) is Some {
            let body = field_child(ns, i, "body"@)->0;
            concat_range(body, sub_end(ns, body), ternary_at(file, b, ns))
        } else {
            seq![]
        }
}

pub open spec fn ternary_in_tree(file: Seq<char>, b: Seq<u8>, ns: Seq<NodeView>) -> Seq<DiagView> {
    concat_map(children(ns, 0), ternary_top(file, b, ns))
}

pub open spec fn ternary_diags(file: Seq<char>, src: Seq<char>) -> Seq<DiagView> {
    match c_syntax(src) {
        Some(ns) => if tree_fits(ns) {
            ternary_in_tree(file, encode_utf8(src), ns)
        } else {
            seq![]
        },
        None => seq![],
    }
}

fn report_ternary(out: &mut Vec<Diagnostic>, filename: &str, t: &SyntaxTree, x: usize)
    requires
        x < t@.len(),
        tree_fits(t@),
    ensures
        views(final(out)@) == views(old(out)@) + ternary_report(filename@, t@, x as int),
{
    assert(node_fits(t@[x as int]));
    assert(t@[x as int] == t.nodes@[x as int]@);
    let row = t.nodes[x].start_row;
    push_diag(out, fixed_diag(filename, row + 1, Severity::Major, "C-C2", "Misuse of the ternary operator"));
}

fn branch_misused_exec(t: &SyntaxTree, x: Option<usize>) -> (r: bool)
    ensures
        r == branch_misused(t@, match x {
            Some(c) => Some(c as int),
            None => None,
        }),
{
    match x {
        Some(c) => subtree_has_kind(t, c, "conditional_expression") || subtree_has_kind(
            t,
            c,
            "assignment_expression",
        ),
        None => false,
    }
}

fn ternary_node_exec(filename: &str, b: &[u8], t: &SyntaxTree, j: usize) -> (r: Vec<Diagnostic>)
    requires
        j < t@.len(),
        tree_fits(t@),
    ensures
        views(r@) == ternary_node(filename@, b@, t@, j as int),
{
    let mut out: Vec<Diagnostic> = Vec::new();
    let cons = child_by_field(t, j, "consequence");
    let alt = child_by_field(t, j, "alternative");
    let cond = child_by_field(t, j, "condition");
    let in_statement = match parent_of(t, j) {
        Some(p) => kind_is(t, p, "expression_statement"),
        None => false,
    };
    if in_statement {
        report_ternary(&mut out, filename, t, j);
        assert(views(out@) =~= ternary_node(filename@, b@, t@, j as int));
        return out;
    }
    if branch_misused_exec(t, cons) {
        report_ternary(&mut out, filename, t, cons.unwrap());
    }
    let ghost d1 = views(out@);
    if branch_misused_exec(t, alt) {
        report_ternary(&mut out, filename, t, alt.unwrap());
    }
    let ghost d2 = views(out@);
    match cond {
        Some(c) => {
            if subtree_has_kind(t, c, "assignment_expression") {
                report_ternary(&mut out, filename, t, c);
            }
        },
        None => {},
    }
    let ghost d3 = views(out@);
    match (cons, alt) {
        (Some(c), Some(a)) => {
            let ct = trimmed(text_or_nothing(b, t, c).as_slice());
            let at = trimmed(text_or_nothing(b, t, a).as_slice());
            if bytes_eq(ct.as_slice(), at.as_slice()) && ct.len() > 0 {
                report_ternary(&mut out, filename, t, j);
            }
        },
        _ => {},
    }
    assert(views(out@) =~= ternary_node(filename@, b@, t@, j as int));
    out
}

fn ternary_in_body(filename: &str, b: &[u8], t: &SyntaxTree, body: usize) -> (r: Vec<Diagnostic>)
    requires
        body < t@.len(),
        tree_fits(t@),
    ensures
        views(r@) == concat_range(body as int, sub_end(t@, body as int), ternary_at(filename@, b@, t@)),
{
    let end = subtree_end(t, body);
    let mut out: Vec<Diagnostic> = Vec::new();
    if end <= body {
        assert(views(out@) =~= concat_range(body as int, sub_end(t@, body as int), ternary_at(filename@, b@, t@)));
        return out;
    }
    let mut j: usize = body;
    while j < end
        invariant
            body <= j <= end,
            end == sub_end(t@, body as int) <= t@.len(),
            views(out@) == concat_range(body as int, j as int, ternary_at(filename@, b@, t@)),
        decreases end - j,
    {
        if kind_is(t, j, "conditional_expression") {
            push_all(&mut out, ternary_node_exec(filename, b, t, j));
        }
        j = j + 1;
    }
    out
}

pub fn ternary_in_tree_exec(filename: &str, content: &str, t: &SyntaxTree) -> (r: Vec<Diagnostic>)
    requires
        tree_fits(t@),
    ensures
        views(r@) == ternary_in_tree(filename@, content.spec_bytes(), t@),
{
    let b = content.as_bytes();
    let cs = children_of(t, 0);
    let ghost all = children(t@, 0);
    let ghost f = ternary_top(filename@, b@, t@);
    let mut out: Vec<Diagnostic> = Vec::new();
    let mut k: usize = 0;
    while k < cs.len()
        invariant
            k <= cs@.len(),
            cs@.map_values(|c: usize| c as int) == all,
            views(out@) == concat_map(all.take(k as int), f),
        decreases cs@.len() - k,
    {
        proof {
            lemma_concat_map_step(all, k as int, f);
        }
        let i = cs[k];
        if kind_is(t, i, "function_definition") {
            match child_by_field(t, i, "body") {
                Some(body) => {
                    push_all(&mut out, ternary_in_body(filename, b, t, body));
                },
                None => {},
            }
        }
        k = k + 1;
    }
    proof {
        lemma_concat_map_all(all, f);
    }
    out
}

pub fn check_ternary_operator(filename: &str, content: &str) -> (r: Vec<Diagnostic>)
    ensures
        views(r@) == ternary_diags(filename@, content@),
{
    match parse(content) {
        Some(t) => if fits(&t) {
            ternary_in_tree_exec(filename, content, &t)
        } else {
            Vec::new()
        },
        None => Vec::new(),
    }
}

// ---------------------------------------------------------------------------

pub open spec fn spec_check(file: Seq<char>, src: Seq<char>) -> Seq<DiagView> {
    goto_diags(file, src) + branching_diags(file, src) + ternary_diags(file, src)
}

/// Runs every C-C rule.
pub fn check(filename: &str, content: &str) -> (r: Vec<Diagnostic>)
    ensures
        views(r@) == spec_check(filename@, content@),
        syntax_in_text(content@),
{
    let mut diagnostics: Vec<Diagnostic> = Vec::new();
    push_all(&mut diagnostics, check_goto(filename, content));
    push_all(&mut diagnostics, check_conditional_branching(filename, content));
    push_all(&mut diagnostics, check_ternary_operator(filename, content));
    assert(views(diagnostics@) =~= spec_check(filename@, content@));
    diagnostics
}

pub proof fn lemma_goto_placed(file: Seq<char>, src: Seq<char>)
    ensures
        all_satisfy(goto_diags(file, src), placed_in(file, split_nl(encode_utf8(src)).len() as int)),
{
    let p = placed_in(file, split_nl(encode_utf8(src)).len() as int);
    lemma_split_nl_len(encode_utf8(src));
    lemma_std_lines_len(encode_utf8(src));
    let lines = std_lines(encode_utf8(src));
    if let Some(ns) = c_syntax(src) {
        if tree_fits(ns) {
            assert forall|k: int| 0 <= k < lines.len() implies all_satisfy(#[trigger] goto_at(file, ns)(k), p) by {}
            lemma_all_range(0, lines.len() as int, goto_at(file, ns), p);
        }
    }
}

pub proof fn lemma_branching_placed(file: Seq<char>, src: Seq<char>)
    requires
        syntax_in_text(src),
    ensures
        all_satisfy(branching_diags(file, src), placed_in(file, split_nl(encode_utf8(src)).len() as int)),
{
    let p = placed_in(file, split_nl(encode_utf8(src)).len() as int);
    lemma_syntax_rows(src);
    if let Some(ns) = c_syntax(src) {
        if tree_fits(ns) {
            let cs = children(ns, 0);
            assert forall|k: int| 0 <= k < cs.len() implies all_satisfy(#[trigger] branching_top(file, ns)(cs[k]), p) by {
                let i = cs[k];
                if has_kind(ns, i, "function_definition"@) && field_child(ns, i, "body"@) is Some {
                    let body = field_child(ns, i, "body"@)->0;
                    assert forall|j: int| body + 1 <= j < sub_end(ns, body) implies all_satisfy(
                        #[trigger] branching_at(file, ns, body)(j),
                        p,
                    ) by {
                        if is_control(ns, j) {
                            assert(node_fits(ns[j]));
                        }
                    }
                    lemma_all_range(body + 1, sub_end(ns, body), branching_at(file, ns, body), p);
                }
            }
            lemma_all_map(cs, branching_top(file, ns), p);
        }
    }
}

proof fn lemma_ternary_at_placed(file: Seq<char>, b: Seq<u8>, ns: Seq<NodeView>, j: int, m: int)
    requires
        tree_fits(ns),
        rows_below(ns, m),
    ensures
        all_satisfy(ternary_at(file, b, ns)(j), placed_in(file, m)),
{
    if has_kind(ns, j, "conditional_expression"@) {
        assert(node_fits(ns[j]));
        lemma_field_child_after(ns, j, "consequence"@);
        lemma_field_child_after(ns, j, "alternative"@);
        lemma_field_child_after(ns, j, "condition"@);
        if let Some(c) = field_child(ns, j, "consequence"@) {
            assert(node_fits(ns[c]));
        }
        if let Some(c) = field_child(ns, j, "alternative"@) {
            assert(node_fits(ns[c]));
        }
        if let Some(c) = field_child(ns, j, "condition"@) {
            assert(node_fits(ns[c]));
        }
    }
}

pub proof fn lemma_ternary_placed(file: Seq<char>, src: Seq<char>)
    requires
        syntax_in_text(src),
    ensures
        all_satisfy(ternary_diags(file, src), placed_in(file, split_nl(encode_utf8(src)).len() as int)),
{
    let p = placed_in(file, split_nl(encode_utf8(src)).len() as int);
    lemma_syntax_rows(src);
    let b = encode_utf8(src);
    if let Some(ns) = c_syntax(src) {
        if tree_fits(ns) {
            let cs = children(ns, 0);
            assert forall|k: int| 0 <= k < cs.len() implies all_satisfy(#[trigger] ternary_top(file, b, ns)(cs[k]), p) by {
                let i = cs[k];
                if has_kind(ns, i, "function_definition"@) && field_child(ns, i, "body"@) is Some {
                    let body = field_child(ns, i, "body"@)->0;
                    assert forall|j: int| body <= j < sub_end(ns, body) implies all_satisfy(
                        #[trigger] ternary_at(file, b, ns)(j),
                        p,
                    ) by {
                        lemma_ternary_at_placed(file, b, ns, j, split_nl(b).len() as int);
                    }
                    lemma_all_range(body, sub_end(ns, body), ternary_at(file, b, ns), p);
                }
            }
            lemma_all_map(cs, ternary_top(file, b, ns), p);
        }
    }
}

pub proof fn lemma_placed(file: Seq<char>, src: Seq<char>)
    requires
        syntax_in_text(src),
    ensures
        all_satisfy(spec_check(file, src), placed_in(file, split_nl(encode_utf8(src)).len() as int)),
{
    let p = placed_in(file, split_nl(encode_utf8(src)).len() as int);
    lemma_goto_placed(file, src);
    lemma_branching_placed(file, src);
    lemma_ternary_placed(file, src);
    lemma_all_concat(goto_diags(file, src), branching_diags(file, src), p);
    lemma_all_concat(goto_diags(file, src) + branching_diags(file, src), ternary_diags(file, src), p);
}

/// A file gets no C-C3 diagnostic exactly when no `goto` keyword of its
/// tree starts on one of its lines.
pub proof fn law_goto(file: Seq<char>, src: Seq<char>, ns: Seq<NodeView>)
    requires
        c_syntax(src) == Some(ns),
        tree_fits(ns),
    ensures
        goto_diags(file, src).len() == 0 <==> forall|i: int|
            0 <= i < std_lines(encode_utf8(src)).len() ==> !#[trigger] goto_on_row(ns, i),
{
    let n = std_lines(encode_utf8(src)).len() as int;
    lemma_range_empty(0, n, goto_at(file, ns));
    if goto_diags(file, src).len() == 0 {
        assert forall|i: int| 0 <= i < n implies !#[trigger] goto_on_row(ns, i) by {
            assert(goto_at(file, ns)(i).len() == 0);
        }
    }
}

/// A C-C diagnostic of `file`: Major, with one of the three codes.
pub open spec fn cc_diag(file: Seq<char>) -> spec_fn(DiagView) -> bool {
    |d: DiagView|
        d.file == file && d.severity == Severity::Major && (d.code == "C-C1"@ || d.code == "C-C2"@
            || d.code == "C-C3"@)
}

pub proof fn lemma_cc_kinds(file: Seq<char>, src: Seq<char>)
    ensures
        all_satisfy(spec_check(file, src), cc_diag(file)),
{
    let p = cc_diag(file);
    let b = encode_utf8(src);
    let lines = std_lines(b);
    if let Some(ns) = c_syntax(src) {
        if tree_fits(ns) {
            assert forall|k: int| 0 <= k < lines.len() implies all_satisfy(#[trigger] goto_at(file, ns)(k), p) by {}
            lemma_all_range(0, lines.len() as int, goto_at(file, ns), p);
            let cs = children(ns, 0);
            assert forall|k: int| 0 <= k < cs.len() implies all_satisfy(#[trigger] branching_top(file, ns)(cs[k]), p) by {
                let i = cs[k];
                if has_kind(ns, i, "function_definition"@) && field_child(ns, i, "body"@) is Some {
                    let body = field_child(ns, i, "body"@)->0;
                    assert forall|j: int| body + 1 <= j < sub_end(ns, body) implies all_satisfy(
                        #[trigger] branching_at(file, ns, body)(j),
                        p,
                    ) by {}
                    lemma_all_range(body + 1, sub_end(ns, body), branching_at(file, ns, body), p);
                }
            }
            lemma_all_map(cs, branching_top(file, ns), p);
            assert forall|k: int| 0 <= k < cs.len() implies all_satisfy(#[trigger] ternary_top(file, b, ns)(cs[k]), p) by {
                let i = cs[k];
                if has_kind(ns, i, "function_definition"@) && field_child(ns, i, "body"@) is Some {
                    let body = field_child(ns, i, "body"@)->0;
                    assert forall|j: int| body <= j < sub_end(ns, body) implies all_satisfy(
                        #[trigger] ternary_at(file, b, ns)(j),
                        p,
                    ) by {}
                    lemma_all_range(body, sub_end(ns, body), ternary_at(file, b, ns), p);
                }
            }
            lemma_all_map(cs, ternary_top(file, b, ns), p);
        }
    }
    lemma_all_concat(goto_diags(file, src), branching_diags(file, src), p);
    lemma_all_concat(goto_diags(file, src) + branching_diags(file, src), ternary_diags(file, src), p);
}

pub proof fn lemma_ternary_refile(f1: Seq<char>, f2: Seq<char>, b: Seq<u8>, ns: Seq<NodeView>, j: int)
    ensures
        ternary_at(f2, b, ns)(j) == refile(ternary_at(f1, b, ns)(j), f2),
{
    let cons = field_child(ns, j, "consequence"@);
    let alt = field_child(ns, j, "alternative"@);
    let cond = field_child(ns, j, "condition"@);
    let part = |f: Seq<char>, which: int|
        if which == 0 {
            if branch_misused(ns, cons) {
                ternary_report(f, ns, cons->0)
            } else {
                seq![]
            }
        } else if which == 1 {
            if branch_misused(ns, alt) {
                ternary_report(f, ns, alt->0)
            } else {
                seq![]
            }
        } else if which == 2 {
            if cond matches Some(c) && contains_kind(ns, c, "assignment_expression"@) {
                ternary_report(f, ns, cond->0)
            } else {
                seq![]
            }
        } else {
            if cons is Some && alt is Some && trim(text_or_empty(b, ns[cons->0])) == trim(
                text_or_empty(b, ns[alt->0]),
            ) && trim(text_or_empty(b, ns[cons->0])).len() > 0 {
                ternary_report(f, ns, j)
            } else {
                seq![]
            }
        };
    assert forall|w: int| 0 <= w < 4 implies #[trigger] part(f2, w) == refile(part(f1, w), f2) by {
        assert(refile(seq![], f2) =~= seq![]);
        assert(refile(ternary_report(f1, ns, j), f2) =~= ternary_report(f2, ns, j));
        assert(refile(ternary_report(f1, ns, cons->0), f2) =~= ternary_report(f2, ns, cons->0));
        assert(refile(ternary_report(f1, ns, alt->0), f2) =~= ternary_report(f2, ns, alt->0));
        assert(refile(ternary_report(f1, ns, cond->0), f2) =~= ternary_report(f2, ns, cond->0));
    }
    assert(part(f2, 0) == refile(part(f1, 0), f2));
    assert(part(f2, 1) == refile(part(f1, 1), f2));
    assert(part(f2, 2) == refile(part(f1, 2), f2));
    assert(part(f2, 3) == refile(part(f1, 3), f2));
    lemma_refile_concat(part(f1, 0), part(f1, 1), f2);
    lemma_refile_concat(part(f1, 0) + part(f1, 1), part(f1, 2), f2);
    lemma_refile_concat(part(f1, 0) + part(f1, 1) + part(f1, 2), part(f1, 3), f2);
    assert(refile(seq![], f2) =~= seq![]);
    assert(refile(ternary_report(f1, ns, j), f2) =~= ternary_report(f2, ns, j));
}

/// The C-C rules do not depend on the file's name: for two names, the
/// diagnostics are the same but for the file they name. Each is Major, with
/// code C-C1, C-C2 or C-C3.
pub proof fn law_name_independent(f1: Seq<char>, f2: Seq<char>, src: Seq<char>)
    ensures
        spec_check(f2, src) == refile(spec_check(f1, src), f2),
        spec_check(f2, src).len() == spec_check(f1, src).len(),
        forall|k: int|
            0 <= k < spec_check(f1, src).len() ==> {
                let (d1, d2) = (#[trigger] spec_check(f1, src)[k], spec_check(f2, src)[k]);
                &&& d1.line == d2.line && d1.code == d2.code && d1.message == d2.message
                &&& d1.file == f1 && d2.file == f2
                &&& d1.severity == Severity::Major
                &&& d1.code == "C-C1"@ || d1.code == "C-C2"@ || d1.code == "C-C3"@
            },
{
    lemma_cc_kinds(f1, src);
    let b = encode_utf8(src);
    let lines = std_lines(b);
    if let Some(ns) = c_syntax(src) {
        if tree_fits(ns) {
            assert forall|k: int| 0 <= k < lines.len() implies #[trigger] goto_at(f2, ns)(k) == refile(
                goto_at(f1, ns)(k),
                f2,
            ) by {
                assert(refile(goto_at(f1, ns)(k), f2) =~= goto_at(f2, ns)(k));
            }
            lemma_refile_range(0, lines.len() as int, goto_at(f1, ns), goto_at(f2, ns), f2);
            let cs = children(ns, 0);
            assert forall|k: int| 0 <= k < cs.len() implies #[trigger] branching_top(f2, ns)(cs[k]) == refile(
                branching_top(f1, ns)(cs[k]),
                f2,
            ) by {
                let i = cs[k];
                if has_kind(ns, i, "function_definition"@) && field_child(ns, i, "body"@) is Some {
                    let body = field_child(ns, i, "body"@)->0;
                    assert forall|j: int| body + 1 <= j < sub_end(ns, body) implies #[trigger] branching_at(
                        f2,
                        ns,
                        body,
                    )(j) == refile(branching_at(f1, ns, body)(j), f2) by {
                        assert(refile(branching_at(f1, ns, body)(j), f2) =~= branching_at(f2, ns, body)(j));
                    }
                    lemma_refile_range(
                        body + 1,
                        sub_end(ns, body),
                        branching_at(f1, ns, body),
                        branching_at(f2, ns, body),
                        f2,
                    );
                } else {
                    assert(refile(seq![], f2) =~= seq![]);
                }
            }
            lemma_refile_map(cs, branching_top(f1, ns), branching_top(f2, ns), f2);
            assert forall|k: int| 0 <= k < cs.len() implies #[trigger] ternary_top(f2, b, ns)(cs[k]) == refile(
                ternary_top(f1, b, ns)(cs[k]),
                f2,
            ) by {
                let i = cs[k];
                if has_kind(ns, i, "function_definition"@) && field_child(ns, i, "body"@) is Some {
                    let body = field_child(ns, i, "body"@)->0;
                    assert forall|j: int| body <= j < sub_end(ns, body) implies #[trigger] ternary_at(
                        f2,
                        b,
                        ns,
                    )(j) == refile(ternary_at(f1, b, ns)(j), f2) by {
                        lemma_ternary_refile(f1, f2, b, ns, j);
                    }
                    lemma_refile_range(body, sub_end(ns, body), ternary_at(f1, b, ns), ternary_at(f2, b, ns), f2);
                } else {
                    assert(refile(seq![], f2) =~= seq![]);
                }
            }
            lemma_refile_map(cs, ternary_top(f1, b, ns), ternary_top(f2, b, ns), f2);
        } else {
            assert(refile(seq![], f2) =~= seq![]);
        }
    } else {
        assert(refile(seq![], f2) =~= seq![]);
    }
    lemma_refile_concat(goto_diags(f1, src), branching_diags(f1, src), f2);
    lemma_refile_concat(goto_diags(f1, src) + branching_diags(f1, src), ternary_diags(f1, src), f2);
    let p = cc_diag(f1);
    assert forall|k: int| 0 <= k < spec_check(f1, src).len() implies p(#[trigger] spec_check(f1, src)[k]) by {}
}

} // verus!
