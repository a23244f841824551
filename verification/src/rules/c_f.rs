//! C-F: functions.
#![verifier::loop_isolation(false)]
use vstd::prelude::*;
use vstd::string::StringSliceAdditionalSpecFns;
use vstd::utf8::encode_utf8;
use crate::diagnostic::{
    DiagView, Diagnostic, Severity, diag, views, push_diag, push_all, fixed_diag, new_diag,
    concat_range, concat_map, lemma_concat_map_step, lemma_concat_map_all, numbered_message,
    all_satisfy, placed_in, lemma_all_concat, lemma_all_range, lemma_all_map, lemma_range_empty,
    lemma_concat_map_contains, lemma_wrapped_injective,
};
use crate::text::{
    std_lines, line_ranges, copy_range, contains, contains_exec, count_byte, count_byte_upto,
    lemma_count_byte_le, bytes_eq,
    lemma_std_lines_len, lemma_split_nl_len, split_nl,
};
use crate::syntax::{
    NodeView, SyntaxTree, c_syntax, parse, children, children_of, has_kind, kind_is, field_child,
    child_by_field, sub_end, subtree_end, text_or_empty, text_or_nothing, tree_fits, fits,
    node_count, row_line,
    syntax_in_text, lemma_syntax_rows,
};
use crate::stdlib::{
    decimal, text_chars, text_string, chars_of, unicode_lowercase, is_lowercase,
    lemma_text_chars_injective,
};

verus! {

/// The children of a top-level function definition's declarator.
pub open spec fn declarator_children(ns: Seq<NodeView>, i: int) -> Seq<int> {
    match field_child(ns, i, "declarator"@) {
        Some(d) => children(ns, d),
        None => seq![],
    }
}

/// Whether node `i` is a function definition.
pub open spec fn is_function(ns: Seq<NodeView>, i: int) -> bool {
    has_kind(ns, i, "function_definition"@)
}

/// The children of the declarator of node `i` (none unless `i` is a function
/// definition with a declarator).
fn declarator_children_exec(t: &SyntaxTree, i: usize) -> (r: Vec<usize>)
    ensures
        r@.map_values(|c: usize| c as int) == declarator_children(t@, i as int),
        forall|k: int| 0 <= k < r@.len() ==> #[trigger] r@[k] < t@.len(),
{
    match child_by_field(t, i, "declarator") {
        Some(d) => children_of(t, d),
        None => {
            let r: Vec<usize> = Vec::new();
            assert(r@.map_values(|c: usize| c as int) =~= Seq::<int>::empty());
            r
        },
    }
}

// ---------------------------------------------------------------------------
// C-F3: line length.

/// The number of columns of a line: its characters.
pub open spec fn columns(line: Seq<u8>) -> nat {
    text_chars(line).len()
}

pub open spec fn line_length_at(file: Seq<char>, lines: Seq<Seq<u8>>) -> spec_fn(int) -> Seq<DiagView> {
    |i: int|
        if columns(lines[i]) > 80 {
            seq![
                diag(
                    file,
                    i + 1,
                    Severity::Major,
                    "C-F3"@,
                    "Line exceeds 80 columns ("@ + decimal(columns(lines[i])) + ")"@,
                ),
            ]
        } else {
            seq![]
        }
}

pub open spec fn line_length_diags(file: Seq<char>, b: Seq<u8>) -> Seq<DiagView> {
    concat_range(0, std_lines(b).len() as int, line_length_at(file, std_lines(b)))
}

pub fn check_line_length(filename: &str, content: &str) -> (r: Vec<Diagnostic>)
    ensures
        views(r@) == line_length_diags(filename@, content.spec_bytes()),
{
    let b = content.as_bytes();
    let ranges = line_ranges(b);
    let ghost lines = std_lines(b@);
    let mut out: Vec<Diagnostic> = Vec::new();
    let mut i: usize = 0;
    while i < ranges.len()
        invariant
            i <= ranges@.len() == lines.len(),
            views(out@) == concat_range(0, i as int, line_length_at(filename@, lines)),
        decreases ranges@.len() - i,
    {
        let (s, e) = ranges[i];
        let line = copy_range(b, s, e);
        assert(line@ == lines[i as int]);
        let text = text_string(line.as_slice());
        let len = chars_of(text.as_str()).len();
        if len > 80 {
            let msg = numbered_message("Line exceeds 80 columns (", len, ")");
            push_diag(&mut out, new_diag(filename, i + 1, Severity::Major, "C-F3", msg));
        }
        i = i + 1;
    }
    out
}

// ---------------------------------------------------------------------------
// C-F2: function names.

pub open spec fn snake_char(c: char) -> bool {
    unicode_lowercase(c) || ('0' <= c && c <= '9') || c == '_'
}

pub open spec fn all_snake(cs: Seq<char>) -> bool {
    forall|k: int| 0 <= k < cs.len() ==> snake_char(#[trigger] cs[k])
}

/// A name that is not snake case, or has at most two bytes besides `_`.
pub open spec fn bad_function_name(name: Seq<u8>) -> bool {
    !all_snake(text_chars(name)) || name.len() - count_byte(name, 95u8) <= 2
}

pub open spec fn name_child(file: Seq<char>, b: Seq<u8>, ns: Seq<NodeView>, i: int) -> spec_fn(int) -> Seq<
    DiagView,
> {
    |c: int|
        if has_kind(ns, c, "identifier"@) && bad_function_name(text_or_empty(b, ns[c])) {
            seq![
                diag(
                    file,
                    ns[i].start_row + 1,
                    Severity::Minor,
                    "C-F2"@,
                    "Function name '"@ + text_chars(text_or_empty(b, ns[c])) + "' must be in snake_case"@,
                ),
            ]
        } else {
            seq![]
        }
}

pub open spec fn names_top(file: Seq<char>, b: Seq<u8>, ns: Seq<NodeView>) -> spec_fn(int) -> Seq<DiagView> {
    |i: int|
        if is_function(ns, i) {
            concat_map(declarator_children(ns, i), name_child(file, b, ns, i))
        } else {
            seq![]
        }
}

pub open spec fn names_in_tree(file: Seq<char>, b: Seq<u8>, ns: Seq<NodeView>) -> Seq<DiagView> {
    concat_map(children(ns, 0), names_top(file, b, ns))
}

pub open spec fn names_diags(file: Seq<char>, src: Seq<char>) -> Seq<DiagView> {
    match c_syntax(src) {
        Some(ns) => if tree_fits(ns) {
            names_in_tree(file, encode_utf8(src), ns)
        } else {
            seq![]
        },
        None => seq![],
    }
}

pub fn all_snake_exec(cs: &Vec<char>) -> (r: bool)
    ensures
        r == all_snake(cs@),
{
    let mut k: usize = 0;
    while k < cs.len()
        invariant
            k <= cs@.len(),
            forall|m: int| 0 <= m < k ==> snake_char(#[trigger] cs@[m]),
        decreases cs@.len() - k,
    {
        let c = cs[k];
        if !(is_lowercase(c) || ('0' <= c && c <= '9') || c == '_') {
            return false;
        }
        k = k + 1;
    }
    true
}

fn bad_function_name_exec(name: &[u8]) -> (r: bool)
    ensures
        r == bad_function_name(name@),
{
    let s = text_string(name);
    let cs = chars_of(s.as_str());
    let n = count_byte_upto(name, 95u8, name.len());
    proof {
        lemma_count_byte_le(name@, 95u8);
        assert(name@.take(name@.len() as int) =~= name@);
    }
    !all_snake_exec(&cs) || name.len() - n <= 2
}

fn names_of_function(filename: &str, b: &[u8], t: &SyntaxTree, i: usize) -> (r: Vec<Diagnostic>)
    requires
        i < t@.len(),
        tree_fits(t@),
    ensures
        views(r@) == names_top(filename@, b@, t@)(i as int),
{
    let mut out: Vec<Diagnostic> = Vec::new();
    if !kind_is(t, i, "function_definition") {
        return out;
    }
    let cs = declarator_children_exec(t, i);
    let ghost all = declarator_children(t@, i as int);
    let ghost f = name_child(filename@, b@, t@, i as int);
    let mut k: usize = 0;
    while k < cs.len()
        invariant
            k <= cs@.len(),
            cs@.map_values(|c: usize| c as int) == all,
            views(out@) == concat_map(all.take(k as int), f),
        decreases cs@.len() - k,
    {
        proof {
            lemma_concat_map_step(all, k as int, f);
        }
        let c = cs[k];
        assert(c < t@.len());
        if kind_is(t, c, "identifier") {
            let name = text_or_nothing(b, t, c);
            if bad_function_name_exec(name.as_slice()) {
                let mut msg = String::from_str("Function name '");
                let shown = text_string(name.as_slice());
                msg.append(shown.as_str());
                msg.append("' must be in snake_case");
                push_diag(&mut out, new_diag(filename, row_line(t, i), Severity::Minor, "C-F2", msg));
            }
        }
        k = k + 1;
    }
    proof {
        lemma_concat_map_all(all, f);
    }
    out
}

pub fn names_in_tree_exec(filename: &str, content: &str, t: &SyntaxTree) -> (r: Vec<Diagnostic>)
    requires
        tree_fits(t@),
    ensures
        views(r@) == names_in_tree(filename@, content.spec_bytes(), t@),
{
    let b = content.as_bytes();
    let cs = children_of(t, 0);
    let ghost all = children(t@, 0);
    let ghost f = names_top(filename@, b@, t@);
    let mut out: Vec<Diagnostic> = Vec::new();
    let mut k: usize = 0;
    while k < cs.len()
        invariant
            k <= cs@.len(),
            cs@.map_values(|c: usize| c as int) == all,
            views(out@) == concat_map(all.take(k as int), f),
        decreases cs@.len() - k,
    {
        proof {
            lemma_concat_map_step(all, k as int, f);
        }
        push_all(&mut out, names_of_function(filename, b, t, cs[k]));
        k = k + 1;
    }
    proof {
        lemma_concat_map_all(all, f);
    }
    out
}

pub fn check_function_names(filename: &str, content: &str) -> (r: Vec<Diagnostic>)
    ensures
        views(r@) == names_diags(filename@, content@),
{
    match parse(content) {
        Some(t) => if fits(&t) {
            names_in_tree_exec(filename, content, &t)
        } else {
            Vec::new()
        },
        None => Vec::new(),
    }
}


/// The diagnostics of `f` over the top-level nodes of a tree.
pub open spec fn over_top(ns: Seq<NodeView>, f: spec_fn(int) -> Seq<DiagView>) -> Seq<DiagView> {
    concat_map(children(ns, 0), f)
}

// ---------------------------------------------------------------------------
// C-F4: function length.

/// The number of rows strictly between the rows of a body's opening and
/// closing brackets (none when they share a row).
pub open spec fn body_rows_between(start: int, end: int) -> int {
    if end - start - 1 >= 0 {
        end - start - 1
    } else {
        0
    }
}

/// A function whose body holds more than 20 lines between its brackets.
pub open spec fn length_top(file: Seq<char>, ns: Seq<NodeView>) -> spec_fn(int) -> Seq<DiagView> {
    |i: int|
        if is_function(ns, i) && field_child(ns, i, "body"@) is Some && body_rows_between(
            ns[field_child(ns, i, "body"@)->0].start_row,
            ns[field_child(ns, i, "body"@)->0].end_row,
        ) > 20 {
            seq![
                diag(
                    file,
                    ns[i].start_row + 1,
                    Severity::Major,
                    "C-F4"@,
                    "Function exceeds 20 lines ("@ + decimal(
                        body_rows_between(
                            ns[field_child(ns, i, "body"@)->0].start_row,
                            ns[field_child(ns, i, "body"@)->0].end_row,
                        ) as nat,
                    ) + ")"@,
                ),
            ]
        } else {
            seq![]
        }
}

pub open spec fn length_diags(file: Seq<char>, src: Seq<char>) -> Seq<DiagView> {
    match c_syntax(src) {
        Some(ns) => if tree_fits(ns) {
            over_top(ns, length_top(file, ns))
        } else {
            seq![]
        },
        None => seq![],
    }
}

fn length_of_function(filename: &str, t: &SyntaxTree, i: usize) -> (r: Vec<Diagnostic>)
    requires
        i < t@.len(),
        tree_fits(t@),
    ensures
        views(r@) == length_top(filename@, t@)(i as int),
{
    let mut out: Vec<Diagnostic> = Vec::new();
    if kind_is(t, i, "function_definition") {
        match child_by_field(t, i, "body") {
            Some(bd) => {
                assert(t@[bd as int] == t.nodes@[bd as int]@);
                let start = t.nodes[bd].start_row;
                let end = t.nodes[bd].end_row;
                let line_count = if end > start {
                    end - start - 1
                } else {
                    0
                };
                if line_count > 20 {
                    let msg = numbered_message("Function exceeds 20 lines (", line_count, ")");
                    push_diag(&mut out, new_diag(filename, row_line(t, i), Severity::Major, "C-F4", msg));
                }
            },
            None => {},
        }
    }
    assert(views(out@) =~= length_top(filename@, t@)(i as int));
    out
}

pub fn length_in_tree(filename: &str, t: &SyntaxTree) -> (r: Vec<Diagnostic>)
    requires
        tree_fits(t@),
    ensures
        views(r@) == over_top(t@, length_top(filename@, t@)),
{
    let cs = children_of(t, 0);
    let ghost all = children(t@, 0);
    let ghost f = length_top(filename@, t@);
    let mut out: Vec<Diagnostic> = Vec::new();
    let mut k: usize = 0;
    while k < cs.len()
        invariant
            k <= cs@.len(),
            cs@.map_values(|c: usize| c as int) == all,
            views(out@) == concat_map(all.take(k as int), f),
        decreases cs@.len() - k,
    {
        proof {
            lemma_concat_map_step(all, k as int, f);
        }
        push_all(&mut out, length_of_function(filename, t, cs[k]));
        k = k + 1;
    }
    proof {
        lemma_concat_map_all(all, f);
    }
    out
}

pub fn check_function_length(filename: &str, content: &str) -> (r: Vec<Diagnostic>)
    ensures
        views(r@) == length_diags(filename@, content@),
{
    match parse(content) {
        Some(t) => if fits(&t) {
            length_in_tree(filename, &t)
        } else {
            Vec::new()
        },
        None => Vec::new(),
    }
}

// ---------------------------------------------------------------------------
// Parameter lists.

/// How many of `cs` have kind `k`.
pub open spec fn count_kind(ns: Seq<NodeView>, cs: Seq<int>, k: Seq<char>) -> nat
    decreases cs.len(),
{
    if cs.len() == 0 {
        0
    } else {
        count_kind(ns, cs.drop_last(), k) + if has_kind(ns, cs.last(), k) {
            1nat
        } else {
            0nat
        }
    }
}

fn count_kind_exec(t: &SyntaxTree, cs: &Vec<usize>, k: &str) -> (r: usize)
    ensures
        r == count_kind(t@, cs@.map_values(|c: usize| c as int), k@),
{
    let ghost all = cs@.map_values(|c: usize| c as int);
    let mut j: usize = 0;
    let mut n: usize = 0;
    while j < cs.len()
        invariant
            j <= cs@.len(),
            n <= j,
            n == count_kind(t@, all.take(j as int), k@),
        decreases cs@.len() - j,
    {
        assert(all.take(j + 1).drop_last() =~= all.take(j as int));
        if kind_is(t, cs[j], k) {
            n = n + 1;
        }
        j = j + 1;
    }
    assert(all.take(cs@.len() as int) =~= all);
    n
}

// C-F5: at most four parameters.

pub open spec fn params_child(file: Seq<char>, ns: Seq<NodeView>, i: int) -> spec_fn(int) -> Seq<DiagView> {
    |c: int|
        if has_kind(ns, c, "parameter_list"@) && count_kind(
            ns,
            children(ns, c),
            "parameter_declaration"@,
        ) > 4 {
            seq![
                diag(
                    file,
                    ns[i].start_row + 1,
                    Severity::Major,
                    "C-F5"@,
                    "Function has too many parameters ("@ + decimal(
                        count_kind(ns, children(ns, c), "parameter_declaration"@),
                    ) + ")"@,
                ),
            ]
        } else {
            seq![]
        }
}

pub open spec fn params_top(file: Seq<char>, ns: Seq<NodeView>) -> spec_fn(int) -> Seq<DiagView> {
    |i: int|
        if is_function(ns, i) {
            concat_map(declarator_children(ns, i), params_child(file, ns, i))
        } else {
            seq![]
        }
}

pub open spec fn params_diags(file: Seq<char>, src: Seq<char>) -> Seq<DiagView> {
    match c_syntax(src) {
        Some(ns) => if tree_fits(ns) {
            over_top(ns, params_top(file, ns))
        } else {
            seq![]
        },
        None => seq![],
    }
}

fn params_of_function(filename: &str, t: &SyntaxTree, i: usize) -> (r: Vec<Diagnostic>)
    requires
        i < t@.len(),
        tree_fits(t@),
    ensures
        views(r@) == params_top(filename@, t@)(i as int),
{
    let mut out: Vec<Diagnostic> = Vec::new();
    if !kind_is(t, i, "function_definition") {
        return out;
    }
    let cs = declarator_children_exec(t, i);
    let ghost all = declarator_children(t@, i as int);
    let ghost f = params_child(filename@, t@, i as int);
    let mut k: usize = 0;
    while k < cs.len()
        invariant
            k <= cs@.len(),
            cs@.map_values(|c: usize| c as int) == all,
            views(out@) == concat_map(all.take(k as int), f),
        decreases cs@.len() - k,
    {
        proof {
            lemma_concat_map_step(all, k as int, f);
        }
        let c = cs[k];
        if kind_is(t, c, "parameter_list") {
            let params = children_of(t, c);
            let n = count_kind_exec(t, &params, "parameter_declaration");
            if n > 4 {
                let msg = numbered_message("Function has too many parameters (", n, ")");
                push_diag(&mut out, new_diag(filename, row_line(t, i), Severity::Major, "C-F5", msg));
            }
        }
        k = k + 1;
    }
    proof {
        lemma_concat_map_all(all, f);
    }
    out
}

pub fn params_in_tree(filename: &str, t: &SyntaxTree) -> (r: Vec<Diagnostic>)
    requires
        tree_fits(t@),
    ensures
        views(r@) == over_top(t@, params_top(filename@, t@)),
{
    let cs = children_of(t, 0);
    let ghost all = children(t@, 0);
    let ghost f = params_top(filename@, t@);
    let mut out: Vec<Diagnostic> = Vec::new();
    let mut k: usize = 0;
    while k < cs.len()
        invariant
            k <= cs@.len(),
            cs@.map_values(|c: usize| c as int) == all,
            views(out@) == concat_map(all.take(k as int), f),
        decreases cs@.len() - k,
    {
        proof {
            lemma_concat_map_step(all, k as int, f);
        }
        push_all(&mut out, params_of_function(filename, t, cs[k]));
        k = k + 1;
    }
    proof {
        lemma_concat_map_all(all, f);
    }
    out
}

pub fn check_function_params(filename: &str, content: &str) -> (r: Vec<Diagnostic>)
    ensures
        views(r@) == params_diags(filename@, content@),
{
    match parse(content) {
        Some(t) => if fits(&t) {
            params_in_tree(filename, &t)
        } else {
            Vec::new()
        },
        None => Vec::new(),
    }
}

// C-F6: an empty parameter list takes `void`.

/// Whether node `x` says `void`: the keyword itself, or a parameter
/// declaration that reads `void`.
pub open spec fn says_void(b: Seq<u8>, ns: Seq<NodeView>, x: int) -> bool {
    has_kind(ns, x, "void"@) || (has_kind(ns, x, "parameter_declaration"@) && text_or_empty(b, ns[x])
        == "void".spec_bytes())
}

pub open spec fn has_void(b: Seq<u8>, ns: Seq<NodeView>, c: int) -> bool {
    exists|k: int| 0 <= k < children(ns, c).len() && #[trigger] says_void(b, ns, children(ns, c)[k])
}

pub open spec fn empty_child(file: Seq<char>, b: Seq<u8>, ns: Seq<NodeView>, i: int) -> spec_fn(int) -> Seq<
    DiagView,
> {
    |c: int|
        if has_kind(ns, c, "parameter_list"@) && count_kind(ns, children(ns, c), "parameter_declaration"@)
            == 0 && !has_void(b, ns, c) {
            seq![
                diag(
                    file,
                    ns[i].start_row + 1,
                    Severity::Major,
                    "C-F6"@,
                    "Function with no parameters must take void"@,
                ),
            ]
        } else {
            seq![]
        }
}

pub open spec fn empty_top(file: Seq<char>, b: Seq<u8>, ns: Seq<NodeView>) -> spec_fn(int) -> Seq<DiagView> {
    |i: int|
        if is_function(ns, i) {
            concat_map(declarator_children(ns, i), empty_child(file, b, ns, i))
        } else {
            seq![]
        }
}

pub open spec fn empty_params_diags(file: Seq<char>, src: Seq<char>) -> Seq<DiagView> {
    match c_syntax(src) {
        Some(ns) => if tree_fits(ns) {
            over_top(ns, empty_top(file, encode_utf8(src), ns))
        } else {
            seq![]
        },
        None => seq![],
    }
}

fn has_void_exec(b: &[u8], t: &SyntaxTree, c: usize) -> (r: bool)
    ensures
        r == has_void(b@, t@, c as int),
{
    let cs = children_of(t, c);
    let ghost all = children(t@, c as int);
    let mut k: usize = 0;
    while k < cs.len()
        invariant
            k <= cs@.len(),
            cs@.map_values(|x: usize| x as int) == all,
            forall|m: int| 0 <= m < k ==> !#[trigger] says_void(b@, t@, all[m]),
        decreases cs@.len() - k,
    {
        let x = cs[k];
        assert(all[k as int] == x as int);
        if kind_is(t, x, "void") {
            assert(says_void(b@, t@, all[k as int]));
            return true;
        }
        if kind_is(t, x, "parameter_declaration") {
            let text = text_or_nothing(b, t, x);
            if bytes_eq(text.as_slice(), "void".as_bytes()) {
                assert(says_void(b@, t@, all[k as int]));
                return true;
            }
        }
        k = k + 1;
    }
    false
}

fn empty_of_function(filename: &str, b: &[u8], t: &SyntaxTree, i: usize) -> (r: Vec<Diagnostic>)
    requires
        i < t@.len(),
        tree_fits(t@),
    ensures
        views(r@) == empty_top(filename@, b@, t@)(i as int),
{
    let mut out: Vec<Diagnostic> = Vec::new();
    if !kind_is(t, i, "function_definition") {
        return out;
    }
    let cs = declarator_children_exec(t, i);
    let ghost all = declarator_children(t@, i as int);
    let ghost f = empty_child(filename@, b@, t@, i as int);
    let mut k: usize = 0;
    while k < cs.len()
        invariant
            k <= cs@.len(),
            cs@.map_values(|c: usize| c as int) == all,
            views(out@) == concat_map(all.take(k as int), f),
        decreases cs@.len() - k,
    {
        proof {
            lemma_concat_map_step(all, k as int, f);
        }
        let c = cs[k];
        if kind_is(t, c, "parameter_list") {
            let params = children_of(t, c);
            let n = count_kind_exec(t, &params, "parameter_declaration");
            if n == 0 && !has_void_exec(b, t, c) {
                push_diag(
                    &mut out,
                    fixed_diag(
                        filename,
                        row_line(t, i),
                        Severity::Major,
                        "C-F6",
                        "Function with no parameters must take void",
                    ),
                );
            }
        }
        k = k + 1;
    }
    proof {
        lemma_concat_map_all(all, f);
    }
    out
}

pub fn empty_params_in_tree(filename: &str, content: &str, t: &SyntaxTree) -> (r: Vec<Diagnostic>)
    requires
        tree_fits(t@),
    ensures
        views(r@) == over_top(t@, empty_top(filename@, content.spec_bytes(), t@)),
{
    let b = content.as_bytes();
    let cs = children_of(t, 0);
    let ghost all = children(t@, 0);
    let ghost f = empty_top(filename@, b@, t@);
    let mut out: Vec<Diagnostic> = Vec::new();
    let mut k: usize = 0;
    while k < cs.len()
        invariant
            k <= cs@.len(),
            cs@.map_values(|c: usize| c as int) == all,
            views(out@) == concat_map(all.take(k as int), f),
        decreases cs@.len() - k,
    {
        proof {
            lemma_concat_map_step(all, k as int, f);
        }
        push_all(&mut out, empty_of_function(filename, b, t, cs[k]));
        k = k + 1;
    }
    proof {
        lemma_concat_map_all(all, f);
    }
    out
}

pub fn check_empty_params(filename: &str, content: &str) -> (r: Vec<Diagnostic>)
    ensures
        views(r@) == empty_params_diags(filename@, content@),
{
    match parse(content) {
        Some(t) => if fits(&t) {
            empty_params_in_tree(filename, content, &t)
        } else {
            Vec::new()
        },
        None => Vec::new(),
    }
}

// C-F7: structures are passed by pointer.

pub open spec fn struct_param(file: Seq<char>, b: Seq<u8>, ns: Seq<NodeView>) -> spec_fn(int) -> Seq<DiagView> {
    |p: int|
        if has_kind(ns, p, "parameter_declaration"@) && contains(
            text_or_empty(b, ns[p]),
            "struct".spec_bytes(),
        ) && !contains(text_or_empty(b, ns[p]), "*".spec_bytes()) {
            seq![
                diag(
                    file,
                    ns[p].start_row + 1,
                    Severity::Major,
                    "C-F7"@,
                    "Structures must be passed by pointer"@,
                ),
            ]
        } else {
            seq![]
        }
}

pub open spec fn struct_child(file: Seq<char>, b: Seq<u8>, ns: Seq<NodeView>) -> spec_fn(int) -> Seq<DiagView> {
    |c: int|
        if has_kind(ns, c, "parameter_list"@) {
            concat_map(children(ns, c), struct_param(file, b, ns))
        } else {
            seq![]
        }
}

pub open spec fn struct_top(file: Seq<char>, b: Seq<u8>, ns: Seq<NodeView>) -> spec_fn(int) -> Seq<DiagView> {
    |i: int|
        if is_function(ns, i) {
            concat_map(declarator_children(ns, i), struct_child(file, b, ns))
        } else {
            seq![]
        }
}

pub open spec fn struct_diags(file: Seq<char>, src: Seq<char>) -> Seq<DiagView> {
    match c_syntax(src) {
        Some(ns) => if tree_fits(ns) {
            over_top(ns, struct_top(file, encode_utf8(src), ns))
        } else {
            seq![]
        },
        None => seq![],
    }
}

fn struct_of_list(filename: &str, b: &[u8], t: &SyntaxTree, c: usize) -> (r: Vec<Diagnostic>)
    requires
        tree_fits(t@),
    ensures
        views(r@) == struct_child(filename@, b@, t@)(c as int),
{
    let mut out: Vec<Diagnostic> = Vec::new();
    if !kind_is(t, c, "parameter_list") {
        return out;
    }
    let ps = children_of(t, c);
    let ghost all = children(t@, c as int);
    let ghost f = struct_param(filename@, b@, t@);
    let mut k: usize = 0;
    while k < ps.len()
        invariant
            k <= ps@.len(),
            ps@.map_values(|x: usize| x as int) == all,
            views(out@) == concat_map(all.take(k as int), f),
        decreases ps@.len() - k,
    {
        proof {
            lemma_concat_map_step(all, k as int, f);
        }
        let p = ps[k];
        if kind_is(t, p, "parameter_declaration") {
            let text = text_or_nothing(b, t, p);
            if contains_exec(text.as_slice(), "struct".as_bytes()) && !contains_exec(
                text.as_slice(),
                "*".as_bytes(),
            ) {
                push_diag(
                    &mut out,
                    fixed_diag(
                        filename,
                        row_line(t, p),
                        Severity::Major,
                        "C-F7",
                        "Structures must be passed by pointer",
                    ),
                );
            }
        }
        k = k + 1;
    }
    proof {
        lemma_concat_map_all(all, f);
    }
    out
}

fn struct_of_function(filename: &str, b: &[u8], t: &SyntaxTree, i: usize) -> (r: Vec<Diagnostic>)
    requires
        tree_fits(t@),
    ensures
        views(r@) == struct_top(filename@, b@, t@)(i as int),
{
    let mut out: Vec<Diagnostic> = Vec::new();
    if !kind_is(t, i, "function_definition") {
        return out;
    }
    let cs = declarator_children_exec(t, i);
    let ghost all = declarator_children(t@, i as int);
    let ghost f = struct_child(filename@, b@, t@);
    let mut k: usize = 0;
    while k < cs.len()
        invariant
            k <= cs@.len(),
            cs@.map_values(|c: usize| c as int) == all,
            views(out@) == concat_map(all.take(k as int), f),
        decreases cs@.len() - k,
    {
        proof {
            lemma_concat_map_step(all, k as int, f);
        }
        push_all(&mut out, struct_of_list(filename, b, t, cs[k]));
        k = k + 1;
    }
    proof {
        lemma_concat_map_all(all, f);
    }
    out
}

pub fn struct_in_tree(filename: &str, content: &str, t: &SyntaxTree) -> (r: Vec<Diagnostic>)
    requires
        tree_fits(t@),
    ensures
        views(r@) == over_top(t@, struct_top(filename@, content.spec_bytes(), t@)),
{
    let b = content.as_bytes();
    let cs = children_of(t, 0);
    let ghost all = children(t@, 0);
    let ghost f = struct_top(filename@, b@, t@);
    let mut out: Vec<Diagnostic> = Vec::new();
    let mut k: usize = 0;
    while k < cs.len()
        invariant
            k <= cs@.len(),
            cs@.map_values(|c: usize| c as int) == all,
            views(out@) == concat_map(all.take(k as int), f),
        decreases cs@.len() - k,
    {
        proof {
            lemma_concat_map_step(all, k as int, f);
        }
        push_all(&mut out, struct_of_function(filename, b, t, cs[k]));
        k = k + 1;
    }
    proof {
        lemma_concat_map_all(all, f);
    }
    out
}

pub fn check_struct_by_copy(filename: &str, content: &str) -> (r: Vec<Diagnostic>)
    ensures
        views(r@) == struct_diags(filename@, content@),
{
    match parse(content) {
        Some(t) => if fits(&t) {
            struct_in_tree(filename, content, &t)
        } else {
            Vec::new()
        },
        None => Vec::new(),
    }
}

// ---------------------------------------------------------------------------
// C-F9 and C-F8: inside function bodies.

/// The body of a top-level function definition.
pub open spec fn body_of(ns: Seq<NodeView>, i: int) -> Option<int> {
    if is_function(ns, i) {
        field_child(ns, i, "body"@)
    } else {
        None
    }
}

fn body_of_exec(t: &SyntaxTree, i: usize) -> (r: Option<usize>)
    ensures
        match r {
            Some(x) => body_of(t@, i as int) == Some(x as int),
            None => body_of(t@, i as int) is None,
        },
        r matches Some(x) ==> x < t@.len(),
{
    if kind_is(t, i, "function_definition") {
        child_by_field(t, i, "body")
    } else {
        None
    }
}

pub open spec fn nested_child(file: Seq<char>, ns: Seq<NodeView>) -> spec_fn(int) -> Seq<DiagView> {
    |c: int|
        if is_function(ns, c) {
            seq![diag(file, ns[c].start_row + 1, Severity::Major, "C-F9"@, "Nested functions are not allowed"@)]
        } else {
            seq![]
        }
}

pub open spec fn nested_top(file: Seq<char>, ns: Seq<NodeView>) -> spec_fn(int) -> Seq<DiagView> {
    |i: int|
        match body_of(ns, i) {
            Some(body) => concat_map(children(ns, body), nested_child(file, ns)),
            None => seq![],
        }
}

pub open spec fn nested_diags(file: Seq<char>, src: Seq<char>) -> Seq<DiagView> {
    match c_syntax(src) {
        Some(ns) => if tree_fits(ns) {
            over_top(ns, nested_top(file, ns))
        } else {
            seq![]
        },
        None => seq![],
    }
}

fn nested_of_function(filename: &str, t: &SyntaxTree, i: usize) -> (r: Vec<Diagnostic>)
    requires
        tree_fits(t@),
    ensures
        views(r@) == nested_top(filename@, t@)(i as int),
{
    let mut out: Vec<Diagnostic> = Vec::new();
    let body = match body_of_exec(t, i) {
        Some(x) => x,
        None => {
            return out;
        },
    };
    let cs = children_of(t, body);
    let ghost all = children(t@, body as int);
    let ghost f = nested_child(filename@, t@);
    let mut k: usize = 0;
    while k < cs.len()
        invariant
            k <= cs@.len(),
            cs@.map_values(|c: usize| c as int) == all,
            views(out@) == concat_map(all.take(k as int), f),
        decreases cs@.len() - k,
    {
        proof {
            lemma_concat_map_step(all, k as int, f);
        }
        let c = cs[k];
        if kind_is(t, c, "function_definition") {
            push_diag(
                &mut out,
                fixed_diag(filename, row_line(t, c), Severity::Major, "C-F9", "Nested functions are not allowed"),
            );
        }
        k = k + 1;
    }
    proof {
        lemma_concat_map_all(all, f);
    }
    out
}

pub fn nested_in_tree(filename: &str, t: &SyntaxTree) -> (r: Vec<Diagnostic>)
    requires
        tree_fits(t@),
    ensures
        views(r@) == over_top(t@, nested_top(filename@, t@)),
{
    let cs = children_of(t, 0);
    let ghost all = children(t@, 0);
    let ghost f = nested_top(filename@, t@);
    let mut out: Vec<Diagnostic> = Vec::new();
    let mut k: usize = 0;
    while k < cs.len()
        invariant
            k <= cs@.len(),
            cs@.map_values(|c: usize| c as int) == all,
            views(out@) == concat_map(all.take(k as int), f),
        decreases cs@.len() - k,
    {
        proof {
            lemma_concat_map_step(all, k as int, f);
        }
        push_all(&mut out, nested_of_function(filename, t, cs[k]));
        k = k + 1;
    }
    proof {
        lemma_concat_map_all(all, f);
    }
    out
}

pub fn check_nested_functions(filename: &str, content: &str) -> (r: Vec<Diagnostic>)
    ensures
        views(r@) == nested_diags(filename@, content@),
{
    match parse(content) {
        Some(t) => if fits(&t) {
            nested_in_tree(filename, &t)
        } else {
            Vec::new()
        },
        None => Vec::new(),
    }
}

pub open spec fn comment_at(file: Seq<char>, ns: Seq<NodeView>) -> spec_fn(int) -> Seq<DiagView> {
    |j: int|
        if has_kind(ns, j, "comment"@) {
            seq![diag(file, ns[j].start_row + 1, Severity::Minor, "C-F8"@, "No comments inside a function"@)]
        } else {
            seq![]
        }
}

/// Every comment below a function body, in pre-order, is reported.
pub open spec fn comments_top(file: Seq<char>, ns: Seq<NodeView>) -> spec_fn(int) -> Seq<DiagView> {
    |i: int|
        match body_of(ns, i) {
            Some(body) => concat_range(body + 1, sub_end(ns, body), comment_at(file, ns)),
            None => seq![],
        }
}

pub open spec fn comments_diags(file: Seq<char>, src: Seq<char>) -> Seq<DiagView> {
    match c_syntax(src) {
        Some(ns) => if tree_fits(ns) {
            over_top(ns, comments_top(file, ns))
        } else {
            seq![]
        },
        None => seq![],
    }
}

fn comments_of_function(filename: &str, t: &SyntaxTree, i: usize) -> (r: Vec<Diagnostic>)
    requires
        tree_fits(t@),
    ensures
        views(r@) == comments_top(filename@, t@)(i as int),
{
    let mut out: Vec<Diagnostic> = Vec::new();
    let body = match body_of_exec(t, i) {
        Some(x) => x,
        None => {
            return out;
        },
    };
    let end = subtree_end(t, body);
    let _n = node_count(t);
    if end <= body + 1 {
        assert(views(out@) =~= comments_top(filename@, t@)(i as int));
        return out;
    }
    let mut j: usize = body + 1;
    while j < end
        invariant
            body < j <= end,
            end == sub_end(t@, body as int) <= t@.len(),
            views(out@) == concat_range(body + 1, j as int, comment_at(filename@, t@)),
        decreases end - j,
    {
        if kind_is(t, j, "comment") {
            push_diag(
                &mut out,
                fixed_diag(filename, row_line(t, j), Severity::Minor, "C-F8", "No comments inside a function"),
            );
        }
        j = j + 1;
    }
    out
}

pub fn comments_in_tree(filename: &str, t: &SyntaxTree) -> (r: Vec<Diagnostic>)
    requires
        tree_fits(t@),
    ensures
        views(r@) == over_top(t@, comments_top(filename@, t@)),
{
    let cs = children_of(t, 0);
    let ghost all = children(t@, 0);
    let ghost f = comments_top(filename@, t@);
    let mut out: Vec<Diagnostic> = Vec::new();
    let mut k: usize = 0;
    while k < cs.len()
        invariant
            k <= cs@.len(),
            cs@.map_values(|c: usize| c as int) == all,
            views(out@) == concat_map(all.take(k as int), f),
        decreases cs@.len() - k,
    {
        proof {
            lemma_concat_map_step(all, k as int, f);
        }
        push_all(&mut out, comments_of_function(filename, t, cs[k]));
        k = k + 1;
    }
    proof {
        lemma_concat_map_all(all, f);
    }
    out
}

pub fn check_comments_in_functions(filename: &str, content: &str) -> (r: Vec<Diagnostic>)
    ensures
        views(r@) == comments_diags(filename@, content@),
{
    match parse(content) {
        Some(t) => if fits(&t) {
            comments_in_tree(filename, &t)
        } else {
            Vec::new()
        },
        None => Vec::new(),
    }
}

// ---------------------------------------------------------------------------

pub open spec fn spec_check(file: Seq<char>, src: Seq<char>) -> Seq<DiagView> {
    line_length_diags(file, encode_utf8(src)) + names_diags(file, src) + length_diags(file, src)
        + params_diags(file, src) + empty_params_diags(file, src) + nested_diags(file, src)
        + comments_diags(file, src) + struct_diags(file, src)
}

/// Runs every C-F rule.
pub fn check(filename: &str, content: &str) -> (r: Vec<Diagnostic>)
    ensures
        views(r@) == spec_check(filename@, content@),
{
    let mut diagnostics: Vec<Diagnostic> = Vec::new();
    push_all(&mut diagnostics, check_line_length(filename, content));
    push_all(&mut diagnostics, check_function_names(filename, content));
    push_all(&mut diagnostics, check_function_length(filename, content));
    push_all(&mut diagnostics, check_function_params(filename, content));
    push_all(&mut diagnostics, check_empty_params(filename, content));
    push_all(&mut diagnostics, check_nested_functions(filename, content));
    push_all(&mut diagnostics, check_comments_in_functions(filename, content));
    push_all(&mut diagnostics, check_struct_by_copy(filename, content));
    assert(views(diagnostics@) =~= spec_check(filename@, content@));
    diagnostics
}

pub proof fn lemma_placed(file: Seq<char>, src: Seq<char>)
    requires
        syntax_in_text(src),
    ensures
        all_satisfy(spec_check(file, src), placed_in(file, split_nl(encode_utf8(src)).len() as int)),
{
    let p = placed_in(file, split_nl(encode_utf8(src)).len() as int);
    lemma_split_nl_len(encode_utf8(src));
    lemma_std_lines_len(encode_utf8(src));
    lemma_syntax_rows(src);
    let b = encode_utf8(src);
    let lines = std_lines(b);
    assert forall|k: int| 0 <= k < lines.len() implies all_satisfy(#[trigger] line_length_at(file, lines)(k), p) by {}
    lemma_all_range(0, lines.len() as int, line_length_at(file, lines), p);
    if let Some(ns) = c_syntax(src) {
        if tree_fits(ns) {
            let cs = children(ns, 0);
            assert forall|k: int| 0 <= k < cs.len() implies all_satisfy(#[trigger] names_top(file, b, ns)(cs[k]), p) by {
                let i = cs[k];
                if is_function(ns, i) {
                    let dc = declarator_children(ns, i);
                    assert forall|m: int| 0 <= m < dc.len() implies all_satisfy(
                        #[trigger] name_child(file, b, ns, i)(dc[m]),
                        p,
                    ) by {}
                    lemma_all_map(dc, name_child(file, b, ns, i), p);
                }
            }
            lemma_all_map(cs, names_top(file, b, ns), p);
            assert forall|k: int| 0 <= k < cs.len() implies all_satisfy(#[trigger] length_top(file, ns)(cs[k]), p) by {}
            lemma_all_map(cs, length_top(file, ns), p);
            assert forall|k: int| 0 <= k < cs.len() implies all_satisfy(#[trigger] params_top(file, ns)(cs[k]), p) by {
                let i = cs[k];
                if is_function(ns, i) {
                    let dc = declarator_children(ns, i);
                    assert forall|m: int| 0 <= m < dc.len() implies all_satisfy(
                        #[trigger] params_child(file, ns, i)(dc[m]),
                        p,
                    ) by {}
                    lemma_all_map(dc, params_child(file, ns, i), p);
                }
            }
            lemma_all_map(cs, params_top(file, ns), p);
            assert forall|k: int| 0 <= k < cs.len() implies all_satisfy(#[trigger] empty_top(file, b, ns)(cs[k]), p) by {
                let i = cs[k];
                if is_function(ns, i) {
                    let dc = declarator_children(ns, i);
                    assert forall|m: int| 0 <= m < dc.len() implies all_satisfy(
                        #[trigger] empty_child(file, b, ns, i)(dc[m]),
                        p,
                    ) by {}
                    lemma_all_map(dc, empty_child(file, b, ns, i), p);
                }
            }
            lemma_all_map(cs, empty_top(file, b, ns), p);
            assert forall|k: int| 0 <= k < cs.len() implies all_satisfy(#[trigger] nested_top(file, ns)(cs[k]), p) by {
                if let Some(body) = body_of(ns, cs[k]) {
                    let bc = children(ns, body);
                    assert forall|m: int| 0 <= m < bc.len() implies all_satisfy(
                        #[trigger] nested_child(file, ns)(bc[m]),
                        p,
                    ) by {}
                    lemma_all_map(bc, nested_child(file, ns), p);
                }
            }
            lemma_all_map(cs, nested_top(file, ns), p);
            assert forall|k: int| 0 <= k < cs.len() implies all_satisfy(#[trigger] comments_top(file, ns)(cs[k]), p) by {
                if let Some(body) = body_of(ns, cs[k]) {
                    assert forall|j: int| body + 1 <= j < sub_end(ns, body) implies all_satisfy(
                        #[trigger] comment_at(file, ns)(j),
                        p,
                    ) by {}
                    lemma_all_range(body + 1, sub_end(ns, body), comment_at(file, ns), p);
                }
            }
            lemma_all_map(cs, comments_top(file, ns), p);
            assert forall|k: int| 0 <= k < cs.len() implies all_satisfy(#[trigger] struct_top(file, b, ns)(cs[k]), p) by {
                let i = cs[k];
                if is_function(ns, i) {
                    let dc = declarator_children(ns, i);
                    assert forall|m: int| 0 <= m < dc.len() implies all_satisfy(
                        #[trigger] struct_child(file, b, ns)(dc[m]),
                        p,
                    ) by {
                        let c = dc[m];
                        if has_kind(ns, c, "parameter_list"@) {
                            let pc = children(ns, c);
                            assert forall|q: int| 0 <= q < pc.len() implies all_satisfy(
                                #[trigger] struct_param(file, b, ns)(pc[q]),
                                p,
                            ) by {}
                            lemma_all_map(pc, struct_param(file, b, ns), p);
                        }
                    }
                    lemma_all_map(dc, struct_child(file, b, ns), p);
                }
            }
            lemma_all_map(cs, struct_top(file, b, ns), p);
        }
    }
    let d1 = line_length_diags(file, b);
    let d2 = d1 + names_diags(file, src);
    let d3 = d2 + length_diags(file, src);
    let d4 = d3 + params_diags(file, src);
    let d5 = d4 + empty_params_diags(file, src);
    let d6 = d5 + nested_diags(file, src);
    let d7 = d6 + comments_diags(file, src);
    lemma_all_concat(d1, names_diags(file, src), p);
    lemma_all_concat(d2, length_diags(file, src), p);
    lemma_all_concat(d3, params_diags(file, src), p);
    lemma_all_concat(d4, empty_params_diags(file, src), p);
    lemma_all_concat(d5, nested_diags(file, src), p);
    lemma_all_concat(d6, comments_diags(file, src), p);
    lemma_all_concat(d7, struct_diags(file, src), p);
}

/// A file gets no C-F3 diagnostic exactly when none of its lines is longer
/// than 80 columns.
pub proof fn law_line_length(file: Seq<char>, b: Seq<u8>)
    ensures
        line_length_diags(file, b).len() == 0 <==> forall|i: int|
            0 <= i < std_lines(b).len() ==> #[trigger] columns(std_lines(b)[i]) <= 80,
{
    let lines = std_lines(b);
    lemma_range_empty(0, lines.len() as int, line_length_at(file, lines));
    if line_length_diags(file, b).len() == 0 {
        assert forall|i: int| 0 <= i < lines.len() implies #[trigger] columns(lines[i]) <= 80 by {
            assert(line_length_at(file, lines)(i).len() == 0);
        }
    }
}

/// A function defined at the top level whose name holds, at any position, a
/// character that is not lowercase, not an ASCII digit and not `_` is
/// reported by C-F2, on the line where the definition starts, with its name.
pub proof fn law_function_name_characters(
    file: Seq<char>,
    src: Seq<char>,
    ns: Seq<NodeView>,
    k: int,
    m: int,
    j: int,
)
    requires
        c_syntax(src) == Some(ns),
        tree_fits(ns),
        0 <= k < children(ns, 0).len(),
        has_kind(ns, children(ns, 0)[k], "function_definition"@),
        0 <= m < declarator_children(ns, children(ns, 0)[k]).len(),
        has_kind(ns, declarator_children(ns, children(ns, 0)[k])[m], "identifier"@),
        0 <= j < text_chars(
            text_or_empty(encode_utf8(src), ns[declarator_children(ns, children(ns, 0)[k])[m]]),
        ).len(),
        ({
            let c = text_chars(
                text_or_empty(encode_utf8(src), ns[declarator_children(ns, children(ns, 0)[k])[m]]),
            )[j];
            !(unicode_lowercase(c) || ('0' <= c && c <= '9') || c == '_')
        }),
    ensures
        names_diags(file, src).contains(
            diag(
                file,
                ns[children(ns, 0)[k]].start_row + 1,
                Severity::Minor,
                "C-F2"@,
                "Function name '"@ + text_chars(
                    text_or_empty(encode_utf8(src), ns[declarator_children(ns, children(ns, 0)[k])[m]]),
                ) + "' must be in snake_case"@,
            ),
        ),
{
    let b = encode_utf8(src);
    let i = children(ns, 0)[k];
    let dc = declarator_children(ns, i);
    let c = dc[m];
    let name = text_chars(text_or_empty(b, ns[c]));
    assert(!snake_char(name[j]));
    assert(!all_snake(name));
    let d = diag(file, ns[i].start_row + 1, Severity::Minor, "C-F2"@, "Function name '"@ + name + "' must be in snake_case"@);
    assert(name_child(file, b, ns, i)(c) =~= seq![d]);
    assert(name_child(file, b, ns, i)(dc[m])[0] == d);
    lemma_concat_map_contains(dc, name_child(file, b, ns, i), m, d);
    assert(names_top(file, b, ns)(i) == concat_map(dc, name_child(file, b, ns, i)));
    lemma_concat_map_contains(children(ns, 0), names_top(file, b, ns), k, d);
}

/// The message C-F2 gives for a function named `cs`.
pub open spec fn function_name_message(cs: Seq<char>) -> Seq<char> {
    "Function name '"@ + cs + "' must be in snake_case"@
}

/// A function name (a UTF-8 text) whose characters are all lowercase, ASCII
/// digits or `_`, and that has more than two bytes besides `_`, is never
/// named by a C-F2 diagnostic.
pub proof fn law_snake_function_name_not_reported(file: Seq<char>, src: Seq<char>, name: Seq<u8>)
    requires
        vstd::utf8::valid_utf8(name),
        forall|j: int|
            0 <= j < text_chars(name).len() ==> {
                let c = #[trigger] text_chars(name)[j];
                unicode_lowercase(c) || ('0' <= c && c <= '9') || c == '_'
            },
        name.len() - count_byte(name, 95u8) > 2,
    ensures
        forall|q: int|
            0 <= q < names_diags(file, src).len() ==> (#[trigger] names_diags(file, src)[q]).message
                != function_name_message(text_chars(name)),
{
    let p = |d: DiagView| d.message != function_name_message(text_chars(name));
    assert(!bad_function_name(name)) by {
        assert(all_snake(text_chars(name)));
    }
    if let Some(ns) = c_syntax(src) {
        if tree_fits(ns) {
            let b = encode_utf8(src);
            let cs = children(ns, 0);
            assert forall|k: int| 0 <= k < cs.len() implies all_satisfy(#[trigger] names_top(file, b, ns)(cs[k]), p) by {
                let i = cs[k];
                if is_function(ns, i) {
                    let dc = declarator_children(ns, i);
                    assert forall|m: int| 0 <= m < dc.len() implies all_satisfy(
                        #[trigger] name_child(file, b, ns, i)(dc[m]),
                        p,
                    ) by {
                        let c = dc[m];
                        let n = text_or_empty(b, ns[c]);
                        if has_kind(ns, c, "identifier"@) && bad_function_name(n) {
                            if function_name_message(text_chars(n)) == function_name_message(text_chars(name)) {
                                lemma_wrapped_injective(
                                    "Function name '"@,
                                    text_chars(n),
                                    text_chars(name),
                                    "' must be in snake_case"@,
                                );
                                lemma_count_byte_le(name, 95u8);
                                lemma_text_chars_injective(name, n);
                            }
                            assert(p(name_child(file, b, ns, i)(c)[0]));
                        }
                    }
                    lemma_all_map(dc, name_child(file, b, ns, i), p);
                }
            }
            lemma_all_map(cs, names_top(file, b, ns), p);
        }
    }
    assert forall|q: int| 0 <= q < names_diags(file, src).len() implies (#[trigger] names_diags(file, src)[q]).message
        != function_name_message(text_chars(name)) by {
        assert(p(names_diags(file, src)[q]));
    }
}

} // verus!
