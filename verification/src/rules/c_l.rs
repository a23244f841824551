//! C-L: layout inside functions.
#![verifier::loop_isolation(false)]
use vstd::prelude::*;
use vstd::string::StringSliceAdditionalSpecFns;
use vstd::utf8::encode_utf8;
use crate::diagnostic::{
    DiagView, Diagnostic, Severity, diag, views, push_diag, push_all, fixed_diag, concat_range,
    concat_map, lemma_concat_map_step, lemma_concat_map_all, all_satisfy, placed_in, lemma_all_concat,
    lemma_all_range, lemma_all_map, lemma_concat_range_contains, lemma_concat_contains,
};
use crate::text::{
    std_lines, line_ranges, range_texts, valid_ranges, copy_range, trim, trim_start, trim_end,
    trimmed, trimmed_start, trim_end_index, starts_with, starts_with_exec, ends_with,
    ends_with_exec, find_exec,
    lemma_std_lines_len, lemma_split_nl_len, split_nl, occurs_at, find, lemma_find_from_contains,
    lemma_ascii_len,
};
use crate::pattern::{regex_search, regex_is_match};
use crate::syntax::{
    NodeView, SyntaxTree, c_syntax, parse, children, children_of, has_kind, kind_is, field_child,
    child_by_field, contains_kind, subtree_has_kind, parent, parent_of, tree_fits, node_fits, fits,
    row_line, node_count, lemma_children_after, lemma_field_child_after,
    syntax_in_text, lemma_syntax_rows,
};
use crate::rules::c_f::over_top;
use crate::rules::c_h::without_line_comment;

verus! {

// ---------------------------------------------------------------------------
// Statements of a block.

/// Punctuation (and, where `comments` holds, comments) that is no statement.
pub open spec fn skipped(k: Seq<char>, comments: bool) -> bool {
    k == "{"@ || k == "}"@ || (comments && k == "comment"@)
}

/// The nodes of `cs` that are statements, in order.
pub open spec fn statements_of(ns: Seq<NodeView>, cs: Seq<int>, comments: bool) -> Seq<int>
    decreases cs.len(),
{
    if cs.len() == 0 {
        seq![]
    } else {
        statements_of(ns, cs.drop_last(), comments) + if skipped(ns[cs.last()].kind, comments) {
            seq![]
        } else {
            seq![cs.last()]
        }
    }
}

/// The statements among the children of node `i`.
pub open spec fn block_statements(ns: Seq<NodeView>, i: int, comments: bool) -> Seq<int> {
    statements_of(ns, children(ns, i), comments)
}

pub proof fn lemma_statements_of_bounds(ns: Seq<NodeView>, cs: Seq<int>, comments: bool, lo: int)
    requires
        forall|k: int| 0 <= k < cs.len() ==> lo < #[trigger] cs[k] < ns.len(),
    ensures
        forall|k: int|
            0 <= k < statements_of(ns, cs, comments).len() ==> lo < #[trigger] statements_of(
                ns,
                cs,
                comments,
            )[k] < ns.len(),
    decreases cs.len(),
{
    if cs.len() > 0 {
        lemma_statements_of_bounds(ns, cs.drop_last(), comments, lo);
        let prev = statements_of(ns, cs.drop_last(), comments);
        assert forall|k: int| 0 <= k < statements_of(ns, cs, comments).len() implies lo
            < #[trigger] statements_of(ns, cs, comments)[k] < ns.len() by {
            if k < prev.len() {
                assert(statements_of(ns, cs, comments)[k] == prev[k]);
            } else {
                assert(statements_of(ns, cs, comments)[k] == cs.last());
            }
        }
    }
}

fn block_statements_exec(t: &SyntaxTree, i: usize, comments: bool) -> (r: Vec<usize>)
    ensures
        r@.map_values(|c: usize| c as int) == block_statements(t@, i as int, comments),
        forall|k: int| 0 <= k < r@.len() ==> i < #[trigger] r@[k] < t@.len(),
{
    let cs = children_of(t, i);
    let ghost all = children(t@, i as int);
    let mut r: Vec<usize> = Vec::new();
    let mut k: usize = 0;
    while k < cs.len()
        invariant
            k <= cs@.len(),
            cs@.map_values(|c: usize| c as int) == all,
            r@.map_values(|c: usize| c as int) == statements_of(t@, all.take(k as int), comments),
            forall|m: int| 0 <= m < r@.len() ==> i < #[trigger] r@[m] < t@.len(),
        decreases cs@.len() - k,
    {
        let c = cs[k];
        assert(all.take(k + 1).drop_last() =~= all.take(k as int));
        assert(all.take(k + 1).last() == c as int);
        assert(t@[c as int] == t.nodes@[c as int]@);
        let skip = kind_is(t, c, "{") || kind_is(t, c, "}") || (comments && kind_is(t, c, "comment"));
        if !skip {
            let ghost prev = r@;
            r.push(c);
            assert(r@.map_values(|x: usize| x as int) =~= prev.map_values(|x: usize| x as int).push(
                c as int,
            ));
        } else {
            assert(statements_of(t@, all.take(k + 1), comments) =~= statements_of(
                t@,
                all.take(k as int),
                comments,
            ));
        }
        k = k + 1;
    }
    assert(all.take(cs@.len() as int) =~= all);
    r
}

// ---------------------------------------------------------------------------
// C-L1: one statement per line.

pub open spec fn l1_report(file: Seq<char>, line: int) -> Seq<DiagView> {
    seq![
        diag(
            file,
            line,
            Severity::Major,
            "C-L1"@,
            "Multiple statements or a chained assignment on a single line"@,
        ),
    ]
}

/// A statement of a block that starts on the row where the one before it ends.
pub open spec fn same_row_at(file: Seq<char>, ns: Seq<NodeView>, st: Seq<int>) -> spec_fn(int) -> Seq<
    DiagView,
> {
    |k: int|
        if ns[st[k]].start_row == ns[st[k - 1]].end_row {
            l1_report(file, ns[st[k]].start_row + 1)
        } else {
            seq![]
        }
}

pub open spec fn assigning_child(file: Seq<char>, ns: Seq<NodeView>, j: int) -> spec_fn(int) -> Seq<
    DiagView,
> {
    |c: int|
        if contains_kind(ns, c, "assignment_expression"@) {
            l1_report(file, ns[j].start_row + 1)
        } else {
            seq![]
        }
}

pub open spec fn comma_child(file: Seq<char>, ns: Seq<NodeView>, j: int) -> spec_fn(int) -> Seq<
    DiagView,
> {
    |c: int|
        if has_kind(ns, c, "comma_expression"@) {
            l1_report(file, ns[j].start_row + 1)
        } else {
            seq![]
        }
}

/// For a block, its statements that share a row; for a condition, an
/// assignment in it; for a return, an assignment in it; for an expression
/// statement, a comma expression.
pub open spec fn l1_at(file: Seq<char>, ns: Seq<NodeView>) -> spec_fn(int) -> Seq<DiagView> {
    |j: int|
        (if has_kind(ns, j, "compound_statement"@) {
            concat_range(
                1,
                block_statements(ns, j, false).len() as int,
                same_row_at(file, ns, block_statements(ns, j, false)),
            )
        } else {
            seq![]
        }) + (if has_kind(ns, j, "if_statement"@) || has_kind(ns, j, "while_statement"@) || has_kind(
            ns,
            j,
            "switch_statement"@,
        ) {
            match field_child(ns, j, "condition"@) {
                Some(c) => if contains_kind(ns, c, "assignment_expression"@) {
                    l1_report(file, ns[j].start_row + 1)
                } else {
                    seq![]
                },
                None => seq![],
            }
        } else if has_kind(ns, j, "return_statement"@) {
            concat_map(children(ns, j), assigning_child(file, ns, j))
        } else if has_kind(ns, j, "expression_statement"@) {
            concat_map(children(ns, j), comma_child(file, ns, j))
        } else {
            seq![]
        })
}

pub open spec fn multiple_statements_diags(file: Seq<char>, src: Seq<char>) -> Seq<DiagView> {
    match c_syntax(src) {
        Some(ns) => if tree_fits(ns) {
            concat_range(0, ns.len() as int, l1_at(file, ns))
        } else {
            seq![]
        },
        None => seq![],
    }
}

fn l1_report_exec(out: &mut Vec<Diagnostic>, filename: &str, line: usize)
    ensures
        views(final(out)@) == views(old(out)@) + l1_report(filename@, line as int),
{
    push_diag(
        out,
        fixed_diag(
            filename,
            line,
            Severity::Major,
            "C-L1",
            "Multiple statements or a chained assignment on a single line",
        ),
    );
}

fn same_row_in_block(filename: &str, t: &SyntaxTree, j: usize) -> (r: Vec<Diagnostic>)
    requires
        j < t@.len(),
        tree_fits(t@),
    ensures
        views(r@) == concat_range(
            1,
            block_statements(t@, j as int, false).len() as int,
            same_row_at(filename@, t@, block_statements(t@, j as int, false)),
        ),
{
    let st = block_statements_exec(t, j, false);
    let ghost sts = block_statements(t@, j as int, false);
    let mut out: Vec<Diagnostic> = Vec::new();
    if st.len() <= 1 {
        assert(views(out@) =~= concat_range(1, sts.len() as int, same_row_at(filename@, t@, sts)));
        return out;
    }
    let mut k: usize = 1;
    while k < st.len()
        invariant
            1 <= k <= st@.len(),
            st@.map_values(|c: usize| c as int) == sts,
            views(out@) == concat_range(1, k as int, same_row_at(filename@, t@, sts)),
        decreases st@.len() - k,
    {
        let a = st[k - 1];
        let c = st[k];
        assert(sts[k - 1] == a as int && sts[k as int] == c as int);
        assert(t@[a as int] == t.nodes@[a as int]@);
        assert(t@[c as int] == t.nodes@[c as int]@);
        if t.nodes[c].start_row == t.nodes[a].end_row {
            l1_report_exec(&mut out, filename, row_line(t, c));
        }
        k = k + 1;
    }
    out
}

fn assigning_children(filename: &str, t: &SyntaxTree, j: usize, comma: bool) -> (r: Vec<Diagnostic>)
    requires
        j < t@.len(),
        tree_fits(t@),
    ensures
        views(r@) == concat_map(
            children(t@, j as int),
            if comma {
                comma_child(filename@, t@, j as int)
            } else {
                assigning_child(filename@, t@, j as int)
            },
        ),
{
    let cs = children_of(t, j);
    let ghost all = children(t@, j as int);
    let ghost f = if comma {
        comma_child(filename@, t@, j as int)
    } else {
        assigning_child(filename@, t@, j as int)
    };
    let line = row_line(t, j);
    let mut out: Vec<Diagnostic> = Vec::new();
    let mut k: usize = 0;
    while k < cs.len()
        invariant
            k <= cs@.len(),
            cs@.map_values(|c: usize| c as int) == all,
            views(out@) == concat_map(all.take(k as int), f),
        decreases cs@.len() - k,
    {
        proof {
            lemma_concat_map_step(all, k as int, f);
        }
        let c = cs[k];
        let hit = if comma {
            kind_is(t, c, "comma_expression")
        } else {
            subtree_has_kind(t, c, "assignment_expression")
        };
        if hit {
            l1_report_exec(&mut out, filename, line);
        }
        k = k + 1;
    }
    proof {
        lemma_concat_map_all(all, f);
    }
    out
}

fn l1_node(filename: &str, t: &SyntaxTree, j: usize) -> (r: Vec<Diagnostic>)
    requires
        j < t@.len(),
        tree_fits(t@),
    ensures
        views(r@) == l1_at(filename@, t@)(j as int),
{
    let mut out: Vec<Diagnostic> = Vec::new();
    if kind_is(t, j, "compound_statement") {
        out = same_row_in_block(filename, t, j);
    }
    let ghost first = views(out@);
    if kind_is(t, j, "if_statement") || kind_is(t, j, "while_statement") || kind_is(
        t,
        j,
        "switch_statement",
    ) {
        match child_by_field(t, j, "condition") {
            Some(c) => {
                if subtree_has_kind(t, c, "assignment_expression") {
                    l1_report_exec(&mut out, filename, row_line(t, j));
                }
            },
            None => {},
        }
    } else if kind_is(t, j, "return_statement") {
        push_all(&mut out, assigning_children(filename, t, j, false));
    } else if kind_is(t, j, "expression_statement") {
        push_all(&mut out, assigning_children(filename, t, j, true));
    }
    assert(views(out@) =~= l1_at(filename@, t@)(j as int));
    out
}

pub fn multiple_statements_in_tree(filename: &str, t: &SyntaxTree) -> (r: Vec<Diagnostic>)
    requires
        tree_fits(t@),
    ensures
        views(r@) == concat_range(0, t@.len() as int, l1_at(filename@, t@)),
{
    let n = node_count(t);
    let mut out: Vec<Diagnostic> = Vec::new();
    let mut j: usize = 0;
    while j < n
        invariant
            j <= n == t@.len(),
            tree_fits(t@),
            views(out@) == concat_range(0, j as int, l1_at(filename@, t@)),
        decreases n - j,
    {
        push_all(&mut out, l1_node(filename, t, j));
        j = j + 1;
    }
    out
}

pub fn check_multiple_statements(filename: &str, content: &str) -> (r: Vec<Diagnostic>)
    ensures
        views(r@) == multiple_statements_diags(filename@, content@),
{
    match parse(content) {
        Some(t) => if fits(&t) {
            multiple_statements_in_tree(filename, &t)
        } else {
            Vec::new()
        },
        None => Vec::new(),
    }
}

// ---------------------------------------------------------------------------
// C-L5: one declaration per line, at the top of the block.

pub open spec fn has_comma_child(ns: Seq<NodeView>, i: int) -> bool {
    exists|k: int| 0 <= k < children(ns, i).len() && has_kind(ns, #[trigger] children(ns, i)[k], ","@)
}

/// A declaration of a block that declares several names, or that follows a
/// statement which is no declaration.
pub open spec fn l5_at(file: Seq<char>, ns: Seq<NodeView>, st: Seq<int>) -> spec_fn(int) -> Seq<
    DiagView,
> {
    |k: int|
        if has_kind(ns, st[k], "declaration"@) && (has_comma_child(ns, st[k]) || exists|m: int|
            0 <= m < k && !has_kind(ns, #[trigger] st[m], "declaration"@)) {
            seq![
                diag(
                    file,
                    ns[st[k]].start_row + 1,
                    Severity::Major,
                    "C-L5"@,
                    "Only one variable must be declared per line, at the top of the scope"@,
                ),
            ]
        } else {
            seq![]
        }
}

pub open spec fn l5_node(file: Seq<char>, ns: Seq<NodeView>) -> spec_fn(int) -> Seq<DiagView> {
    |j: int|
        if has_kind(ns, j, "compound_statement"@) {
            concat_range(
                0,
                block_statements(ns, j, true).len() as int,
                l5_at(file, ns, block_statements(ns, j, true)),
            )
        } else {
            seq![]
        }
}

pub open spec fn variable_declarations_diags(file: Seq<char>, src: Seq<char>) -> Seq<DiagView> {
    match c_syntax(src) {
        Some(ns) => if tree_fits(ns) {
            concat_range(0, ns.len() as int, l5_node(file, ns))
        } else {
            seq![]
        },
        None => seq![],
    }
}

fn has_comma_child_exec(t: &SyntaxTree, i: usize) -> (r: bool)
    ensures
        r == has_comma_child(t@, i as int),
{
    let cs = children_of(t, i);
    let ghost all = children(t@, i as int);
    let mut k: usize = 0;
    while k < cs.len()
        invariant
            k <= cs@.len(),
            cs@.map_values(|c: usize| c as int) == all,
            forall|m: int| 0 <= m < k ==> !has_kind(t@, #[trigger] all[m], ","@),
        decreases cs@.len() - k,
    {
        assert(all[k as int] == cs@[k as int] as int);
        if kind_is(t, cs[k], ",") {
            return true;
        }
        k = k + 1;
    }
    false
}

fn l5_block(filename: &str, t: &SyntaxTree, j: usize) -> (r: Vec<Diagnostic>)
    requires
        j < t@.len(),
        tree_fits(t@),
    ensures
        views(r@) == l5_node(filename@, t@)(j as int),
{
    let mut out: Vec<Diagnostic> = Vec::new();
    if !kind_is(t, j, "compound_statement") {
        assert(views(out@) =~= l5_node(filename@, t@)(j as int));
        return out;
    }
    let st = block_statements_exec(t, j, true);
    let ghost sts = block_statements(t@, j as int, true);
    let mut zone = true;
    let mut k: usize = 0;
    while k < st.len()
        invariant
            k <= st@.len(),
            st@.map_values(|c: usize| c as int) == sts,
            zone == (forall|m: int| 0 <= m < k ==> has_kind(t@, #[trigger] sts[m], "declaration"@)),
            views(out@) == concat_range(0, k as int, l5_at(filename@, t@, sts)),
        decreases st@.len() - k,
    {
        let c = st[k];
        assert(sts[k as int] == c as int);
        if kind_is(t, c, "declaration") {
            if has_comma_child_exec(t, c) || !zone {
                push_diag(
                    &mut out,
                    fixed_diag(
                        filename,
                        row_line(t, c),
                        Severity::Major,
                        "C-L5",
                        "Only one variable must be declared per line, at the top of the scope",
                    ),
                );
            }
        } else {
            zone = false;
        }
        k = k + 1;
    }
    out
}

pub fn variable_declarations_in_tree(filename: &str, t: &SyntaxTree) -> (r: Vec<Diagnostic>)
    requires
        tree_fits(t@),
    ensures
        views(r@) == concat_range(0, t@.len() as int, l5_node(filename@, t@)),
{
    let n = node_count(t);
    let mut out: Vec<Diagnostic> = Vec::new();
    let mut j: usize = 0;
    while j < n
        invariant
            j <= n == t@.len(),
            tree_fits(t@),
            views(out@) == concat_range(0, j as int, l5_node(filename@, t@)),
        decreases n - j,
    {
        push_all(&mut out, l5_block(filename, t, j));
        j = j + 1;
    }
    out
}

pub fn check_variable_declarations(filename: &str, content: &str) -> (r: Vec<Diagnostic>)
    ensures
        views(r@) == variable_declarations_diags(filename@, content@),
{
    match parse(content) {
        Some(t) => if fits(&t) {
            variable_declarations_in_tree(filename, &t)
        } else {
            Vec::new()
        },
        None => Vec::new(),
    }
}

// ---------------------------------------------------------------------------
// C-L2: indentation by groups of four spaces.

/// The 1-based first and last lines of the body of each function definition,
/// among the first `n` nodes, in order.
pub open spec fn body_rows(ns: Seq<NodeView>, n: int) -> Seq<(int, int)>
    decreases n,
{
    if n <= 0 {
        seq![]
    } else {
        body_rows(ns, n - 1) + if has_kind(ns, n - 1, "function_definition"@) && field_child(
            ns,
            n - 1,
            "body"@,
        ) is Some {
            let bd = field_child(ns, n - 1, "body"@)->0;
            seq![(ns[bd].start_row + 1, ns[bd].end_row + 1)]
        } else {
            seq![]
        }
    }
}

/// Whether line `ln` lies strictly inside one of `rows`.
pub open spec fn in_rows(rows: Seq<(int, int)>, ln: int) -> bool {
    exists|k: int| 0 <= k < rows.len() && (#[trigger] rows[k]).0 < ln < rows[k].1
}

/// The number of spaces that start `b`.
pub open spec fn leading_spaces(b: Seq<u8>) -> int
    decreases b.len(),
{
    if b.len() > 0 && b[0] == 32u8 {
        1 + leading_spaces(b.skip(1))
    } else {
        0
    }
}

/// A line of code (not blank, not the end of a comment, not a directive)
/// whose indentation is not a multiple of four, or, inside a function body,
/// is zero.
pub open spec fn indent_at(file: Seq<char>, lines: Seq<Seq<u8>>, rows: Seq<(int, int)>) -> spec_fn(
    int,
) -> Seq<DiagView> {
    |i: int|
        {
            let line = lines[i];
            let ind = leading_spaces(line);
            if trim(line).len() == 0 || ends_with(trim_end(line), "*/".spec_bytes()) || starts_with(
                trim_start(line),
                "#".spec_bytes(),
            ) {
                seq![]
            } else if (if in_rows(rows, i + 1) {
                ind >= 4 && ind % 4 == 0
            } else {
                ind % 4 == 0
            }) {
                seq![]
            } else {
                seq![
                    diag(
                        file,
                        i + 1,
                        Severity::Minor,
                        "C-L2"@,
                        "Line is not indented with 4-space groups"@,
                    ),
                ]
            }
        }
}

pub open spec fn indentation_diags(file: Seq<char>, src: Seq<char>) -> Seq<DiagView> {
    match c_syntax(src) {
        Some(ns) => if tree_fits(ns) {
            let lines = std_lines(encode_utf8(src));
            concat_range(0, lines.len() as int, indent_at(file, lines, body_rows(ns, ns.len() as int)))
        } else {
            seq![]
        },
        None => seq![],
    }
}

pub open spec fn rows_view(r: Seq<(usize, usize)>) -> Seq<(int, int)> {
    r.map_values(|p: (usize, usize)| (p.0 as int, p.1 as int))
}

fn body_rows_exec(t: &SyntaxTree) -> (r: Vec<(usize, usize)>)
    requires
        tree_fits(t@),
    ensures
        rows_view(r@) == body_rows(t@, t@.len() as int),
{
    let n = node_count(t);
    let mut r: Vec<(usize, usize)> = Vec::new();
    let mut j: usize = 0;
    while j < n
        invariant
            j <= n == t@.len(),
            rows_view(r@) == body_rows(t@, j as int),
        decreases n - j,
    {
        if kind_is(t, j, "function_definition") {
            match child_by_field(t, j, "body") {
                Some(bd) => {
                    assert(t@[bd as int] == t.nodes@[bd as int]@);
                    assert(node_fits(t@[bd as int]));
                    let ghost prev = r@;
                    r.push((t.nodes[bd].start_row + 1, t.nodes[bd].end_row + 1));
                    assert(rows_view(r@) =~= rows_view(prev).push(
                        (t@[bd as int].start_row + 1, t@[bd as int].end_row + 1),
                    ));
                },
                None => {
                    assert(body_rows(t@, j + 1) =~= body_rows(t@, j as int));
                },
            }
        } else {
            assert(body_rows(t@, j + 1) =~= body_rows(t@, j as int));
        }
        j = j + 1;
    }
    r
}

fn in_rows_exec(rows: &Vec<(usize, usize)>, ln: usize) -> (r: bool)
    ensures
        r == in_rows(rows_view(rows@), ln as int),
{
    let ghost rv = rows_view(rows@);
    let mut k: usize = 0;
    while k < rows.len()
        invariant
            k <= rows@.len() == rv.len(),
            rv == rows_view(rows@),
            forall|m: int| 0 <= m < k ==> !((#[trigger] rv[m]).0 < ln < rv[m].1),
        decreases rows@.len() - k,
    {
        let (a, b) = rows[k];
        assert(rv[k as int] == (a as int, b as int));
        if a < ln && ln < b {
            return true;
        }
        k = k + 1;
    }
    false
}

fn leading_spaces_exec(b: &[u8]) -> (r: usize)
    ensures
        r == leading_spaces(b@),
{
    let mut k: usize = 0;
    assert(b@.skip(0) =~= b@);
    while k < b.len() && b[k] == 32u8
        invariant
            k <= b@.len(),
            leading_spaces(b@) == k + leading_spaces(b@.skip(k as int)),
        decreases b@.len() - k,
    {
        assert(b@.skip(k as int).skip(1) =~= b@.skip(k + 1));
        k = k + 1;
    }
    k
}

pub fn indentation_in_tree(filename: &str, content: &str, t: &SyntaxTree) -> (r: Vec<Diagnostic>)
    requires
        tree_fits(t@),
    ensures
        views(r@) == concat_range(0, std_lines(content.spec_bytes()).len() as int, indent_at(filename@, std_lines(content.spec_bytes()), body_rows(t@, t@.len() as int))),
{
    let rows = body_rows_exec(t);
    let b = content.as_bytes();
    let ranges = line_ranges(b);
    let ghost lines = std_lines(b@);
    let ghost rv = rows_view(rows@);
    let mut out: Vec<Diagnostic> = Vec::new();
    let mut i: usize = 0;
    while i < ranges.len()
        invariant
            i <= ranges@.len() == lines.len(),
            rv == body_rows(t@, t@.len() as int),
            views(out@) == concat_range(0, i as int, indent_at(filename@, lines, rv)),
        decreases ranges@.len() - i,
    {
        let (s, e) = ranges[i];
        let line = copy_range(b, s, e);
        assert(line@ == lines[i as int]);
        let t_all = trimmed(line.as_slice());
        let te = trim_end_index(line.as_slice());
        let end_part = copy_range(line.as_slice(), 0, te);
        let start_part = trimmed_start(line.as_slice());
        let skip = t_all.len() == 0 || ends_with_exec(end_part.as_slice(), "*/".as_bytes())
            || starts_with_exec(start_part.as_slice(), "#".as_bytes());
        if !skip {
            let ind = leading_spaces_exec(line.as_slice());
            let ok = if in_rows_exec(&rows, i + 1) {
                ind >= 4 && ind % 4 == 0
            } else {
                ind % 4 == 0
            };
            if !ok {
                push_diag(
                    &mut out,
                    fixed_diag(
                        filename,
                        i + 1,
                        Severity::Minor,
                        "C-L2",
                        "Line is not indented with 4-space groups",
                    ),
                );
            }
        }
        i = i + 1;
    }
    out
}

pub fn check_line_indentation(filename: &str, content: &str) -> (r: Vec<Diagnostic>)
    ensures
        views(r@) == indentation_diags(filename@, content@),
{
    match parse(content) {
        Some(t) => if fits(&t) {
            indentation_in_tree(filename, content, &t)
        } else {
            Vec::new()
        },
        None => Vec::new(),
    }
}

// ---------------------------------------------------------------------------
// C-L3: spaces around operators and keywords.

/// The patterns looked for in the code part of each line: a keyword glued to
/// what follows, a comma without a space after it, a space before a comma or
/// semicolon, a space inside parentheses, spaces around `->`, a semicolon
/// glued to a word.
pub open spec fn spacing_patterns() -> Seq<Seq<char>> {
    seq![
        r"\b(if|switch|case|for|do|while|return|struct)(\(|;|\{)"@,
        r",[^\s\n\)]"@,
        r"[ \t](,|;)"@,
        r"\([ \t]|[ \t]\)"@,
        r"[ \t]->|->[ \t]"@,
        r";[A-Za-z0-9_]"@,
    ]
}

/// Two spaces or more between words, looked for after the indentation.
pub open spec fn double_space_pattern() -> Seq<char> {
    r"\S(  +)\S"@
}

pub open spec fn l3_if(file: Seq<char>, ln: int, m: Option<bool>) -> Seq<DiagView> {
    if m == Some(true) {
        seq![
            diag(
                file,
                ln,
                Severity::Minor,
                "C-L3"@,
                "Incorrect spacing around an operator or keyword"@,
            ),
        ]
    } else {
        seq![]
    }
}

/// One diagnostic per pattern that matches the line, comment left out.
pub open spec fn spacing_at(file: Seq<char>, lines: Seq<Seq<u8>>) -> spec_fn(int) -> Seq<DiagView> {
    |i: int|
        {
            let code = without_line_comment(lines[i]);
            concat_range(
                0,
                spacing_patterns().len() as int,
                |k: int| l3_if(file, i + 1, regex_search(spacing_patterns()[k], code)),
            ) + l3_if(file, i + 1, regex_search(double_space_pattern(), trim_start(code)))
        }
}

pub open spec fn spaces_diags(file: Seq<char>, b: Seq<u8>) -> Seq<DiagView> {
    concat_range(0, std_lines(b).len() as int, spacing_at(file, std_lines(b)))
}

/// The C-L3 diagnostics of line `ln` for the answer `m` of one spacing
/// pattern.
pub fn spacing_verdict(filename: &str, ln: usize, m: Option<bool>) -> (r: Vec<Diagnostic>)
    ensures
        views(r@) == l3_if(filename@, ln as int, m),
{
    let mut out: Vec<Diagnostic> = Vec::new();
    if m == Some(true) {
        push_diag(
            &mut out,
            fixed_diag(
                filename,
                ln,
                Severity::Minor,
                "C-L3",
                "Incorrect spacing around an operator or keyword",
            ),
        );
    }
    assert(views(out@) =~= l3_if(filename@, ln as int, m));
    out
}

fn l3_if_exec(out: &mut Vec<Diagnostic>, filename: &str, ln: usize, m: Option<bool>)
    ensures
        views(final(out)@) == views(old(out)@) + l3_if(filename@, ln as int, m),
{
    push_all(out, spacing_verdict(filename, ln, m));
}

fn code_part(line: &[u8]) -> (r: Vec<u8>)
    ensures
        r@ == without_line_comment(line@),
{
    match find_exec(line, "//".as_bytes()) {
        Some(i) => copy_range(line, 0, i),
        None => copy_range(line, 0, line.len()),
    }
}

pub fn check_spaces(filename: &str, content: &str) -> (r: Vec<Diagnostic>)
    ensures
        views(r@) == spaces_diags(filename@, content.spec_bytes()),
{
    let pats: Vec<&str> = vec![
        r"\b(if|switch|case|for|do|while|return|struct)(\(|;|\{)",
        r",[^\s\n\)]",
        r"[ \t](,|;)",
        r"\([ \t]|[ \t]\)",
        r"[ \t]->|->[ \t]",
        r";[A-Za-z0-9_]",
    ];
    assert(pats@.map_values(|p: &str| p@) =~= spacing_patterns());
    let b = content.as_bytes();
    let ranges = line_ranges(b);
    let ghost lines = std_lines(b@);
    let mut out: Vec<Diagnostic> = Vec::new();
    let mut i: usize = 0;
    while i < ranges.len()
        invariant
            i <= ranges@.len() == lines.len(),
            pats@.map_values(|p: &str| p@) == spacing_patterns(),
            views(out@) == concat_range(0, i as int, spacing_at(filename@, lines)),
        decreases ranges@.len() - i,
    {
        let (s, e) = ranges[i];
        let line = copy_range(b, s, e);
        assert(line@ == lines[i as int]);
        let code = code_part(line.as_slice());
        let ghost f = |k: int| l3_if(filename@, i + 1, regex_search(spacing_patterns()[k], code@));
        let ghost before = views(out@);
        let mut k: usize = 0;
        while k < pats.len()
            invariant
                k <= pats@.len(),
                views(out@) == before + concat_range(0, k as int, f),
            decreases pats@.len() - k,
        {
            assert(pats@[k as int]@ == spacing_patterns()[k as int]);
            let m = regex_is_match(pats[k], code.as_slice());
            l3_if_exec(&mut out, filename, i + 1, m);
            assert(views(out@) =~= before + concat_range(0, k + 1, f));
            k = k + 1;
        }
        let rest = trimmed_start(code.as_slice());
        let m = regex_is_match(r"\S(  +)\S", rest.as_slice());
        l3_if_exec(&mut out, filename, i + 1, m);
        assert(views(out@) =~= before + spacing_at(filename@, lines)(i as int));
        i = i + 1;
    }
    out
}

// ---------------------------------------------------------------------------
// C-L4: curly brackets.

pub open spec fn clamp(col: int, n: int) -> int {
    if col < n {
        col
    } else {
        n
    }
}

/// The text of `line` before column `col`, trimmed.
pub open spec fn text_before(line: Seq<u8>, col: int) -> Seq<u8> {
    trim(line.take(clamp(col, line.len() as int)))
}

/// The code of `line` after column `col`, comment left out, trimmed.
pub open spec fn code_after(line: Seq<u8>, col: int) -> Seq<u8> {
    trim(without_line_comment(line.skip(clamp(col, line.len() as int))))
}

/// An opening bracket of a function body stands alone on its line; any other
/// ends a line that holds something before it.
pub open spec fn open_misplaced(line: Seq<u8>, ob: NodeView, function_body: bool) -> bool {
    let p = text_before(line, ob.start_col);
    let s = code_after(line, ob.end_col);
    if function_body {
        p.len() > 0 || s.len() > 0
    } else {
        p.len() == 0 || s.len() > 0
    }
}

/// A closing bracket starts its line and is followed by nothing, or by
/// `else` or `while`.
pub open spec fn close_misplaced(line: Seq<u8>, cb: NodeView) -> bool {
    let p = text_before(line, cb.start_col);
    let s = code_after(line, cb.end_col);
    p.len() > 0 || (s.len() > 0 && !starts_with(s, "else".spec_bytes()) && !starts_with(
        s,
        "while".spec_bytes(),
    ))
}

pub open spec fn l4_report(file: Seq<char>, row: int) -> Seq<DiagView> {
    seq![diag(file, row + 1, Severity::Minor, "C-L4"@, "Curly bracket is misplaced"@)]
}

/// The first and last children of a block are its brackets.
pub open spec fn l4_at(file: Seq<char>, lines: Seq<Seq<u8>>, ns: Seq<NodeView>) -> spec_fn(int) -> Seq<
    DiagView,
> {
    |j: int|
        if has_kind(ns, j, "compound_statement"@) && children(ns, j).len() > 0 {
            let fb = parent(ns, j) matches Some(p) && has_kind(ns, p, "function_definition"@);
            let ob = ns[children(ns, j)[0]];
            let cb = ns[children(ns, j).last()];
            (if ob.start_row < lines.len() && open_misplaced(lines[ob.start_row], ob, fb) {
                l4_report(file, ob.start_row)
            } else {
                seq![]
            }) + (if cb.start_row < lines.len() && close_misplaced(lines[cb.start_row], cb) {
                l4_report(file, cb.start_row)
            } else {
                seq![]
            })
        } else {
            seq![]
        }
}

pub open spec fn brace_diags(file: Seq<char>, src: Seq<char>) -> Seq<DiagView> {
    match c_syntax(src) {
        Some(ns) => if tree_fits(ns) {
            concat_range(0, ns.len() as int, l4_at(file, std_lines(encode_utf8(src)), ns))
        } else {
            seq![]
        },
        None => seq![],
    }
}

fn text_before_exec(line: &[u8], col: usize) -> (r: Vec<u8>)
    ensures
        r@ == text_before(line@, col as int),
{
    let c = if col < line.len() {
        col
    } else {
        line.len()
    };
    let head = copy_range(line, 0, c);
    assert(head@ =~= line@.take(c as int));
    trimmed(head.as_slice())
}

fn code_after_exec(line: &[u8], col: usize) -> (r: Vec<u8>)
    ensures
        r@ == code_after(line@, col as int),
{
    let c = if col < line.len() {
        col
    } else {
        line.len()
    };
    let tail = copy_range(line, c, line.len());
    assert(tail@ =~= line@.skip(c as int));
    let code = code_part(tail.as_slice());
    trimmed(code.as_slice())
}

fn line_at(b: &[u8], ranges: &Vec<(usize, usize)>, row: usize) -> (r: Vec<u8>)
    requires
        valid_ranges(ranges@, b@.len() as int),
        row < ranges@.len(),
    ensures
        r@ == range_texts(ranges@, b@)[row as int],
{
    let (s, e) = ranges[row];
    copy_range(b, s, e)
}

fn l4_block(filename: &str, b: &[u8], ranges: &Vec<(usize, usize)>, t: &SyntaxTree, j: usize) -> (r:
    Vec<Diagnostic>)
    requires
        j < t@.len(),
        tree_fits(t@),
        valid_ranges(ranges@, b@.len() as int),
        range_texts(ranges@, b@) == std_lines(b@),
    ensures
        views(r@) == l4_at(filename@, std_lines(b@), t@)(j as int),
{
    let ghost lines = std_lines(b@);
    let mut out: Vec<Diagnostic> = Vec::new();
    if !kind_is(t, j, "compound_statement") {
        assert(views(out@) =~= l4_at(filename@, lines, t@)(j as int));
        return out;
    }
    let cs = children_of(t, j);
    if cs.len() == 0 {
        assert(views(out@) =~= l4_at(filename@, lines, t@)(j as int));
        return out;
    }
    let fb = match parent_of(t, j) {
        Some(p) => kind_is(t, p, "function_definition"),
        None => false,
    };
    let o = cs[0];
    let c = cs[cs.len() - 1];
    assert(children(t@, j as int)[0] == o as int);
    assert(children(t@, j as int).last() == c as int);
    assert(t@[o as int] == t.nodes@[o as int]@);
    assert(t@[c as int] == t.nodes@[c as int]@);
    let orow = t.nodes[o].start_row;
    if orow < ranges.len() {
        let line = line_at(b, ranges, orow);
        let p = text_before_exec(line.as_slice(), t.nodes[o].start_col);
        let s = code_after_exec(line.as_slice(), t.nodes[o].end_col);
        let misplaced = if fb {
            p.len() > 0 || s.len() > 0
        } else {
            p.len() == 0 || s.len() > 0
        };
        if misplaced {
            push_diag(&mut out, fixed_diag(filename, orow + 1, Severity::Minor, "C-L4", "Curly bracket is misplaced"));
        }
    }
    let ghost first = views(out@);
    let crow = t.nodes[c].start_row;
    if crow < ranges.len() {
        let line = line_at(b, ranges, crow);
        let p = text_before_exec(line.as_slice(), t.nodes[c].start_col);
        let s = code_after_exec(line.as_slice(), t.nodes[c].end_col);
        if p.len() > 0 || (s.len() > 0 && !starts_with_exec(s.as_slice(), "else".as_bytes())
            && !starts_with_exec(s.as_slice(), "while".as_bytes())) {
            push_diag(&mut out, fixed_diag(filename, crow + 1, Severity::Minor, "C-L4", "Curly bracket is misplaced"));
        }
    }
    assert(views(out@) =~= l4_at(filename@, lines, t@)(j as int));
    out
}

pub fn brace_placement_in_tree(filename: &str, content: &str, t: &SyntaxTree) -> (r: Vec<Diagnostic>)
    requires
        tree_fits(t@),
    ensures
        views(r@) == concat_range(0, t@.len() as int, l4_at(filename@, std_lines(content.spec_bytes()), t@)),
{
    let b = content.as_bytes();
    let ranges = line_ranges(b);
    let n = node_count(t);
    let mut out: Vec<Diagnostic> = Vec::new();
    let mut j: usize = 0;
    while j < n
        invariant
            j <= n == t@.len(),
            tree_fits(t@),
            views(out@) == concat_range(0, j as int, l4_at(filename@, std_lines(b@), t@)),
        decreases n - j,
    {
        push_all(&mut out, l4_block(filename, b, &ranges, t, j));
        j = j + 1;
    }
    out
}

pub fn check_brace_placement(filename: &str, content: &str) -> (r: Vec<Diagnostic>)
    ensures
        views(r@) == brace_diags(filename@, content@),
{
    match parse(content) {
        Some(t) => if fits(&t) {
            brace_placement_in_tree(filename, content, &t)
        } else {
            Vec::new()
        },
        None => Vec::new(),
    }
}

// ---------------------------------------------------------------------------
// C-L6: blank lines in functions.

/// How many statements of `st` from `k` on are declarations, in a row.
pub open spec fn leading_declarations(ns: Seq<NodeView>, st: Seq<int>, k: int) -> int
    decreases st.len() - k,
{
    if k < 0 || k >= st.len() || !has_kind(ns, st[k], "declaration"@) {
        0
    } else {
        1 + leading_declarations(ns, st, k + 1)
    }
}

pub open spec fn blank(line: Seq<u8>) -> bool {
    trim(line).len() == 0
}

/// A blank row of the body, reported unless it is the 1-based line `keep`.
pub open spec fn blank_row_at(file: Seq<char>, lines: Seq<Seq<u8>>, keep: Option<int>) -> spec_fn(
    int,
) -> Seq<DiagView> {
    |r: int|
        if r < lines.len() && blank(lines[r]) && keep != Some(r + 1) {
            seq![
                diag(
                    file,
                    r + 1,
                    Severity::Minor,
                    "C-L6"@,
                    "Unnecessary blank line inside function"@,
                ),
            ]
        } else {
            seq![]
        }
}

/// In a function body whose declarations are followed by statements, the
/// line before the first statement must be blank; every other blank line of
/// the body is reported.
pub open spec fn l6_top(file: Seq<char>, lines: Seq<Seq<u8>>, ns: Seq<NodeView>) -> spec_fn(int) -> Seq<
    DiagView,
> {
    |i: int|
        if has_kind(ns, i, "function_definition"@) && field_child(ns, i, "body"@) is Some {
            let body = field_child(ns, i, "body"@)->0;
            let st = block_statements(ns, body, true);
            let dc = leading_declarations(ns, st, 0);
            let rows = concat_range(
                ns[body].start_row,
                ns[body].end_row + 1,
                blank_row_at(file, lines, if 0 < dc < st.len() {
                    Some(ns[st[dc]].start_row)
                } else {
                    None
                }),
            );
            if 0 < dc < st.len() {
                let m = ns[st[dc]].start_row;
                let has_blank = ns[body].start_row <= m - 1 <= ns[body].end_row && 0 <= m - 1
                    < lines.len() && blank(lines[m - 1]);
                (if !has_blank {
                    seq![
                        diag(
                            file,
                            m + 1,
                            Severity::Minor,
                            "C-L6"@,
                            "Missing blank line after variable declarations"@,
                        ),
                    ]
                } else {
                    seq![]
                }) + rows
            } else {
                rows
            }
        } else {
            seq![]
        }
}

pub open spec fn line_breaks_diags(file: Seq<char>, src: Seq<char>) -> Seq<DiagView> {
    match c_syntax(src) {
        Some(ns) => if tree_fits(ns) {
            over_top(ns, l6_top(file, std_lines(encode_utf8(src)), ns))
        } else {
            seq![]
        },
        None => seq![],
    }
}

fn blank_rows_exec(
    filename: &str,
    b: &[u8],
    ranges: &Vec<(usize, usize)>,
    start: usize,
    end: usize,
    keep: Option<usize>,
) -> (r: Vec<Diagnostic>)
    requires
        valid_ranges(ranges@, b@.len() as int),
        range_texts(ranges@, b@) == std_lines(b@),
        end < usize::MAX,
    ensures
        views(r@) == concat_range(
            start as int,
            end + 1,
            blank_row_at(filename@, std_lines(b@), match keep {
                Some(k) => Some(k as int),
                None => None,
            }),
        ),
{
    let ghost lines = std_lines(b@);
    let ghost kp = match keep {
        Some(k) => Some(k as int),
        None => None,
    };
    let ghost f = blank_row_at(filename@, lines, kp);
    let mut out: Vec<Diagnostic> = Vec::new();
    if start > end {
        assert(views(out@) =~= concat_range(start as int, end + 1, f));
        return out;
    }
    let mut r: usize = start;
    while r <= end
        invariant
            start <= r <= end + 1,
            end < usize::MAX,
            views(out@) == concat_range(start as int, r as int, f),
        decreases end + 1 - r,
    {
        if r < ranges.len() {
            let line = line_at(b, ranges, r);
            let keep_this = match keep {
                Some(k) => k == r + 1,
                None => false,
            };
            if !keep_this && trimmed(line.as_slice()).len() == 0 {
                push_diag(
                    &mut out,
                    fixed_diag(filename, r + 1, Severity::Minor, "C-L6", "Unnecessary blank line inside function"),
                );
            }
        }
        r = r + 1;
    }
    out
}

fn leading_declarations_exec(t: &SyntaxTree, st: &Vec<usize>) -> (r: usize)
    ensures
        r == leading_declarations(t@, st@.map_values(|c: usize| c as int), 0),
        r <= st@.len(),
{
    let ghost sts = st@.map_values(|c: usize| c as int);
    let mut k: usize = 0;
    while k < st.len() && kind_is(t, st[k], "declaration")
        invariant
            k <= st@.len(),
            leading_declarations(t@, sts, 0) == k + leading_declarations(t@, sts, k as int),
        decreases st@.len() - k,
    {
        assert(sts[k as int] == st@[k as int] as int);
        k = k + 1;
    }
    if k < st.len() {
        assert(sts[k as int] == st@[k as int] as int);
    }
    k
}

fn l6_of_function(filename: &str, b: &[u8], ranges: &Vec<(usize, usize)>, t: &SyntaxTree, i: usize) -> (r:
    Vec<Diagnostic>)
    requires
        i < t@.len(),
        tree_fits(t@),
        valid_ranges(ranges@, b@.len() as int),
        range_texts(ranges@, b@) == std_lines(b@),
    ensures
        views(r@) == l6_top(filename@, std_lines(b@), t@)(i as int),
{
    let ghost lines = std_lines(b@);
    let mut out: Vec<Diagnostic> = Vec::new();
    if !kind_is(t, i, "function_definition") {
        assert(views(out@) =~= l6_top(filename@, lines, t@)(i as int));
        return out;
    }
    let body = match child_by_field(t, i, "body") {
        Some(body) => body,
        None => {
            assert(views(out@) =~= l6_top(filename@, lines, t@)(i as int));
            return out;
        },
    };
    assert(t@[body as int] == t.nodes@[body as int]@);
    assert(node_fits(t@[body as int]));
    let start = t.nodes[body].start_row;
    let end = t.nodes[body].end_row;
    let st = block_statements_exec(t, body, true);
    let dc = leading_declarations_exec(t, &st);
    if dc > 0 && dc < st.len() {
        let first = st[dc];
        assert(t@[first as int] == t.nodes@[first as int]@);
        let m = t.nodes[first].start_row;
        let has_blank = m >= 1 && start <= m - 1 && m - 1 <= end && m - 1 < ranges.len() && trimmed(
            line_at(b, ranges, m - 1).as_slice(),
        ).len() == 0;
        if !has_blank {
            assert(node_fits(t@[first as int]));
            push_diag(
                &mut out,
                fixed_diag(
                    filename,
                    m + 1,
                    Severity::Minor,
                    "C-L6",
                    "Missing blank line after variable declarations",
                ),
            );
        }
        push_all(&mut out, blank_rows_exec(filename, b, ranges, start, end, Some(m)));
    } else {
        push_all(&mut out, blank_rows_exec(filename, b, ranges, start, end, None));
    }
    assert(views(out@) =~= l6_top(filename@, lines, t@)(i as int));
    out
}

pub fn line_breaks_in_tree(filename: &str, content: &str, t: &SyntaxTree) -> (r: Vec<Diagnostic>)
    requires
        tree_fits(t@),
    ensures
        views(r@) == over_top(t@, l6_top(filename@, std_lines(content.spec_bytes()), t@)),
{
    let b = content.as_bytes();
    let ranges = line_ranges(b);
    let cs = children_of(t, 0);
    let ghost all = children(t@, 0);
    let ghost f = l6_top(filename@, std_lines(b@), t@);
    let mut out: Vec<Diagnostic> = Vec::new();
    let mut k: usize = 0;
    while k < cs.len()
        invariant
            k <= cs@.len(),
            tree_fits(t@),
            cs@.map_values(|c: usize| c as int) == all,
            views(out@) == concat_map(all.take(k as int), f),
        decreases cs@.len() - k,
    {
        proof {
            lemma_concat_map_step(all, k as int, f);
        }
        push_all(&mut out, l6_of_function(filename, b, &ranges, t, cs[k]));
        k = k + 1;
    }
    proof {
        lemma_concat_map_all(all, f);
    }
    out
}

pub fn check_line_breaks(filename: &str, content: &str) -> (r: Vec<Diagnostic>)
    ensures
        views(r@) == line_breaks_diags(filename@, content@),
{
    match parse(content) {
        Some(t) => if fits(&t) {
            line_breaks_in_tree(filename, content, &t)
        } else {
            Vec::new()
        },
        None => Vec::new(),
    }
}

// ---------------------------------------------------------------------------

pub open spec fn spec_check(file: Seq<char>, src: Seq<char>) -> Seq<DiagView> {
    multiple_statements_diags(file, src) + indentation_diags(file, src) + spaces_diags(
        file,
        encode_utf8(src),
    ) + brace_diags(file, src) + variable_declarations_diags(file, src) + line_breaks_diags(
        file,
        src,
    )
}

/// Runs every C-L rule.
pub fn check(filename: &str, content: &str) -> (r: Vec<Diagnostic>)
    ensures
        views(r@) == spec_check(filename@, content@),
{
    let mut diagnostics: Vec<Diagnostic> = Vec::new();
    push_all(&mut diagnostics, check_multiple_statements(filename, content));
    push_all(&mut diagnostics, check_line_indentation(filename, content));
    push_all(&mut diagnostics, check_spaces(filename, content));
    push_all(&mut diagnostics, check_brace_placement(filename, content));
    push_all(&mut diagnostics, check_variable_declarations(filename, content));
    push_all(&mut diagnostics, check_line_breaks(filename, content));
    assert(views(diagnostics@) =~= spec_check(filename@, content@));
    diagnostics
}

/// The statements of a block stand after it in the node list.
pub proof fn lemma_block_statements_after(ns: Seq<NodeView>, i: int, comments: bool)
    ensures
        forall|k: int|
            0 <= k < block_statements(ns, i, comments).len() ==> i < #[trigger] block_statements(
                ns,
                i,
                comments,
            )[k] < ns.len(),
{
    lemma_children_after(ns, i);
    lemma_statements_of_bounds(ns, children(ns, i), comments, i);
}

pub proof fn lemma_placed(file: Seq<char>, src: Seq<char>)
    requires
        syntax_in_text(src),
    ensures
        all_satisfy(spec_check(file, src), placed_in(file, split_nl(encode_utf8(src)).len() as int)),
{
    let p = placed_in(file, split_nl(encode_utf8(src)).len() as int);
    lemma_split_nl_len(encode_utf8(src));
    lemma_std_lines_len(encode_utf8(src));
    lemma_syntax_rows(src);
    let b = encode_utf8(src);
    let lines = std_lines(b);
    assert forall|i: int| 0 <= i < lines.len() implies all_satisfy(#[trigger] spacing_at(file, lines)(i), p) by {
        let code = without_line_comment(lines[i]);
        let f = |k: int| l3_if(file, i + 1, regex_search(spacing_patterns()[k], code));
        assert forall|k: int| 0 <= k < spacing_patterns().len() implies all_satisfy(#[trigger] f(k), p) by {}
        lemma_all_range(0, spacing_patterns().len() as int, f, p);
        lemma_all_concat(
            concat_range(0, spacing_patterns().len() as int, f),
            l3_if(file, i + 1, regex_search(double_space_pattern(), trim_start(code))),
            p,
        );
    }
    lemma_all_range(0, lines.len() as int, spacing_at(file, lines), p);
    if let Some(ns) = c_syntax(src) {
        if tree_fits(ns) {
            assert forall|j: int| 0 <= j < ns.len() implies all_satisfy(#[trigger] l1_at(file, ns)(j), p) by {
                let st = block_statements(ns, j, false);
                lemma_block_statements_after(ns, j, false);
                assert forall|k: int| 1 <= k < st.len() implies all_satisfy(
                    #[trigger] same_row_at(file, ns, st)(k),
                    p,
                ) by {
                    assert(0 <= st[k] < ns.len());
                }
                lemma_all_range(1, st.len() as int, same_row_at(file, ns, st), p);
                let cs = children(ns, j);
                assert forall|k: int| 0 <= k < cs.len() implies all_satisfy(
                    #[trigger] assigning_child(file, ns, j)(cs[k]),
                    p,
                ) by {}
                lemma_all_map(cs, assigning_child(file, ns, j), p);
                assert forall|k: int| 0 <= k < cs.len() implies all_satisfy(
                    #[trigger] comma_child(file, ns, j)(cs[k]),
                    p,
                ) by {}
                lemma_all_map(cs, comma_child(file, ns, j), p);
                let first = if has_kind(ns, j, "compound_statement"@) {
                    concat_range(1, st.len() as int, same_row_at(file, ns, st))
                } else {
                    seq![]
                };
                let rest = if has_kind(ns, j, "if_statement"@) || has_kind(ns, j, "while_statement"@)
                    || has_kind(ns, j, "switch_statement"@) {
                    match field_child(ns, j, "condition"@) {
                        Some(c) => if contains_kind(ns, c, "assignment_expression"@) {
                            l1_report(file, ns[j].start_row + 1)
                        } else {
                            seq![]
                        },
                        None => seq![],
                    }
                } else if has_kind(ns, j, "return_statement"@) {
                    concat_map(cs, assigning_child(file, ns, j))
                } else if has_kind(ns, j, "expression_statement"@) {
                    concat_map(cs, comma_child(file, ns, j))
                } else {
                    seq![]
                };
                lemma_all_concat(first, rest, p);
            }
            lemma_all_range(0, ns.len() as int, l1_at(file, ns), p);
            let rows = body_rows(ns, ns.len() as int);
            assert forall|i: int| 0 <= i < lines.len() implies all_satisfy(#[trigger] indent_at(file, lines, rows)(i), p) by {}
            lemma_all_range(0, lines.len() as int, indent_at(file, lines, rows), p);
            assert forall|j: int| 0 <= j < ns.len() implies all_satisfy(#[trigger] l4_at(file, lines, ns)(j), p) by {
                lemma_children_after(ns, j);
                if has_kind(ns, j, "compound_statement"@) && children(ns, j).len() > 0 {
                    assert(0 <= children(ns, j)[0] < ns.len());
                    assert(0 <= children(ns, j).last() < ns.len());
                }
            }
            lemma_all_range(0, ns.len() as int, l4_at(file, lines, ns), p);
            assert forall|j: int| 0 <= j < ns.len() implies all_satisfy(#[trigger] l5_node(file, ns)(j), p) by {
                let st = block_statements(ns, j, true);
                assert forall|k: int| 0 <= k < st.len() implies all_satisfy(#[trigger] l5_at(file, ns, st)(k), p) by {}
                lemma_all_range(0, st.len() as int, l5_at(file, ns, st), p);
            }
            lemma_all_range(0, ns.len() as int, l5_node(file, ns), p);
            let cs = children(ns, 0);
            assert forall|k: int| 0 <= k < cs.len() implies all_satisfy(#[trigger] l6_top(file, lines, ns)(cs[k]), p) by {
                let i = cs[k];
                if has_kind(ns, i, "function_definition"@) && field_child(ns, i, "body"@) is Some {
                    let body = field_child(ns, i, "body"@)->0;
                    lemma_field_child_after(ns, i, "body"@);
                    let st = block_statements(ns, body, true);
                    lemma_block_statements_after(ns, body, true);
                    let dc = leading_declarations(ns, st, 0);
                    let keep = if 0 < dc < st.len() {
                        Some(ns[st[dc]].start_row)
                    } else {
                        None
                    };
                    let f = blank_row_at(file, lines, keep);
                    assert forall|r: int| ns[body].start_row <= r < ns[body].end_row + 1 implies all_satisfy(
                        #[trigger] f(r),
                        p,
                    ) by {}
                    lemma_all_range(ns[body].start_row, ns[body].end_row + 1, f, p);
                    if 0 < dc < st.len() {
                        assert(0 <= st[dc] < ns.len());
                        let m = ns[st[dc]].start_row;
                        let missing = seq![
                            diag(
                                file,
                                m + 1,
                                Severity::Minor,
                                "C-L6"@,
                                "Missing blank line after variable declarations"@,
                            ),
                        ];
                        lemma_all_concat(missing, concat_range(ns[body].start_row, ns[body].end_row + 1, f), p);
                        lemma_all_concat(seq![], concat_range(ns[body].start_row, ns[body].end_row + 1, f), p);
                    }
                }
            }
            lemma_all_map(cs, l6_top(file, lines, ns), p);
        }
    }
    let d1 = multiple_statements_diags(file, src);
    let d2 = d1 + indentation_diags(file, src);
    let d3 = d2 + spaces_diags(file, b);
    let d4 = d3 + brace_diags(file, src);
    let d5 = d4 + variable_declarations_diags(file, src);
    lemma_all_concat(d1, indentation_diags(file, src), p);
    lemma_all_concat(d2, spaces_diags(file, b), p);
    lemma_all_concat(d3, brace_diags(file, src), p);
    lemma_all_concat(d4, variable_declarations_diags(file, src), p);
    lemma_all_concat(d5, line_breaks_diags(file, src), p);
}

/// A line whose code part (its bytes before the first `//`, all of them
/// where there is none) has `(` followed by a space or tab, or a space or tab
/// followed by `)`, as the pattern `\([ \t]|[ \t]\)` finds it, gets a C-L3
/// diagnostic on that line.
pub proof fn law_space_inside_parentheses(file: Seq<char>, b: Seq<u8>, i: int, k: int)
    requires
        0 <= i < std_lines(b).len(),
        0 <= k <= std_lines(b)[i].len(),
        forall|m: int| 0 <= m < k ==> !occurs_at(std_lines(b)[i], "//".spec_bytes(), m),
        k == std_lines(b)[i].len() || occurs_at(std_lines(b)[i], "//".spec_bytes(), k),
        regex_search(r"\([ \t]|[ \t]\)"@, std_lines(b)[i].take(k)) == Some(true),
    ensures
        spaces_diags(file, b).contains(
            diag(file, i + 1, Severity::Minor, "C-L3"@, "Incorrect spacing around an operator or keyword"@),
        ),
{
    let lines = std_lines(b);
    let line = lines[i];
    let p = "//".spec_bytes();
    reveal_strlit("//");
    lemma_ascii_len("//");
    lemma_find_from_contains(line, p, 0);
    if k == line.len() {
        assert(find(line, p) is None) by {
            if exists|m: int| 0 <= m && occurs_at(line, p, m) {
                let m = choose|m: int| 0 <= m && occurs_at(line, p, m);
                assert(m < k);
            }
        }
        assert(line.take(k) =~= line);
    } else {
        assert(find(line, p) == Some(k));
    }
    assert(without_line_comment(line) == line.take(k));
    let code = without_line_comment(line);
    let d = diag(file, i + 1, Severity::Minor, "C-L3"@, "Incorrect spacing around an operator or keyword"@);
    let f = |q: int| l3_if(file, i + 1, regex_search(spacing_patterns()[q], code));
    assert(spacing_patterns()[3] == r"\([ \t]|[ \t]\)"@);
    assert(f(3)[0] == d);
    lemma_concat_range_contains(0, spacing_patterns().len() as int, f, 3, d);
    lemma_concat_contains(
        concat_range(0, spacing_patterns().len() as int, f),
        l3_if(file, i + 1, regex_search(double_space_pattern(), trim_start(code))),
        d,
    );
    assert(spacing_at(file, lines)(i) == concat_range(0, spacing_patterns().len() as int, f) + l3_if(
        file,
        i + 1,
        regex_search(double_space_pattern(), trim_start(code)),
    ));
    lemma_concat_range_contains(0, lines.len() as int, spacing_at(file, lines), i, d);
}

/// A line whose code part (its bytes before the first `//`, all of them
/// where there is none) matches none of the spacing patterns (a keyword glued
/// to `(`, `;` or `{`; a comma followed by something other than white space
/// or `)`; white space before `,` or `;`; white space just inside
/// parentheses; white space around `->`; `;` glued to a word) and, after its
/// indentation, has no run of two spaces or more between two other
/// characters, gets no C-L3 diagnostic.
pub proof fn law_spacing_clean_line_not_reported(file: Seq<char>, b: Seq<u8>, i: int, k: int)
    requires
        0 <= i < std_lines(b).len(),
        0 <= k <= std_lines(b)[i].len(),
        forall|m: int| 0 <= m < k ==> !occurs_at(std_lines(b)[i], "//".spec_bytes(), m),
        k == std_lines(b)[i].len() || occurs_at(std_lines(b)[i], "//".spec_bytes(), k),
        regex_search(r"\b(if|switch|case|for|do|while|return|struct)(\(|;|\{)"@, std_lines(b)[i].take(k))
            != Some(true),
        regex_search(r",[^\s\n\)]"@, std_lines(b)[i].take(k)) != Some(true),
        regex_search(r"[ \t](,|;)"@, std_lines(b)[i].take(k)) != Some(true),
        regex_search(r"\([ \t]|[ \t]\)"@, std_lines(b)[i].take(k)) != Some(true),
        regex_search(r"[ \t]->|->[ \t]"@, std_lines(b)[i].take(k)) != Some(true),
        regex_search(r";[A-Za-z0-9_]"@, std_lines(b)[i].take(k)) != Some(true),
        regex_search(r"\S(  +)\S"@, trim_start(std_lines(b)[i].take(k))) != Some(true),
    ensures
        forall|q: int| 0 <= q < spaces_diags(file, b).len() ==> (#[trigger] spaces_diags(file, b)[q]).line != i + 1,
{
    let lines = std_lines(b);
    let line = lines[i];
    let p = "//".spec_bytes();
    reveal_strlit("//");
    lemma_ascii_len("//");
    lemma_find_from_contains(line, p, 0);
    if k == line.len() {
        assert(find(line, p) is None) by {
            if exists|m: int| 0 <= m && occurs_at(line, p, m) {
                let m = choose|m: int| 0 <= m && occurs_at(line, p, m);
                assert(m < k);
            }
        }
        assert(line.take(k) =~= line);
    } else {
        assert(find(line, p) == Some(k));
    }
    assert(without_line_comment(line) == line.take(k));
    let code = without_line_comment(line);
    let pr = |d: DiagView| d.line != i + 1;
    assert forall|j: int| 0 <= j < lines.len() implies all_satisfy(#[trigger] spacing_at(file, lines)(j), pr) by {
        let cj = without_line_comment(lines[j]);
        let f = |q: int| l3_if(file, j + 1, regex_search(spacing_patterns()[q], cj));
        let last = l3_if(file, j + 1, regex_search(double_space_pattern(), trim_start(cj)));
        assert forall|q: int| 0 <= q < spacing_patterns().len() implies all_satisfy(#[trigger] f(q), pr) by {
            if j == i {
                assert(f(q).len() == 0);
            }
        }
        lemma_all_range(0, spacing_patterns().len() as int, f, pr);
        if j == i {
            assert(last.len() == 0);
        }
        lemma_all_concat(concat_range(0, spacing_patterns().len() as int, f), last, pr);
        assert(spacing_at(file, lines)(j) == concat_range(0, spacing_patterns().len() as int, f) + last);
    }
    lemma_all_range(0, lines.len() as int, spacing_at(file, lines), pr);
    assert forall|q: int| 0 <= q < spaces_diags(file, b).len() implies (#[trigger] spaces_diags(file, b)[q]).line
        != i + 1 by {
        assert(pr(spaces_diags(file, b)[q]));
    }
}

} // verus!
