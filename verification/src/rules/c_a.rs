//! C-A: advanced rules (constness, typing, file end, linkage).
#![verifier::loop_isolation(false)]
use vstd::prelude::*;
use vstd::string::StringSliceAdditionalSpecFns;
use vstd::utf8::encode_utf8;
use crate::diagnostic::{
    DiagView, Diagnostic, Severity, diag, views, push_diag, push_all, fixed_diag, new_diag,
    concat_range, concat_map, lemma_concat_map_step, lemma_concat_map_all, all_satisfy, placed_in,
    lemma_all_concat, lemma_all_range, lemma_all_map, lemma_all_weaken, lemma_range_congruent,
    lemma_concat_map_contains, lemma_concat_range_contains, lemma_wrapped_injective,
};
use crate::text::{
    nl, std_lines, line_ranges, contains, contains_exec, starts_with, starts_with_exec, ends_with,
    ends_with_exec, occurs_at, occurs_at_exec, trim, trimmed, bytes_eq, ws_words, ws_words_exec,
    lemma_std_lines_len, lemma_split_nl_len, split_nl,
};
use crate::stdlib::{has_suffix, str_ends_with, text_chars, text_string, lemma_text_chars_injective};
use crate::pattern::{
    regex_search, regex_compiles, regex_is_match, regex_valid, escaped, regex_escape,
};
use crate::syntax::{
    NodeView, SyntaxTree, c_syntax, parse, children, children_of, has_kind, kind_is, field_child,
    child_by_field, field_is, sub_end, subtree_end, node_text, text_of, text_or_empty,
    text_or_nothing, tree_fits, fits, row_line, lemma_field_child_after, node_count,
    lemma_children_after,
    syntax_in_text, lemma_syntax_rows,
};
use crate::rules::c_f::over_top;

verus! {

// ---------------------------------------------------------------------------
// C-A3: a file ends with a line break.

/// A file that does not end with `\n` is reported on its last line (line 1
/// when it has none).
pub open spec fn file_end_diags(file: Seq<char>, b: Seq<u8>) -> Seq<DiagView> {
    if b.len() > 0 && b.last() == nl() {
        seq![]
    } else {
        seq![
            diag(
                file,
                if std_lines(b).len() >= 1 {
                    std_lines(b).len() as int
                } else {
                    1
                },
                Severity::Info,
                "C-A3"@,
                "File must end with a line break"@,
            ),
        ]
    }
}

pub fn check_file_end(filename: &str, content: &str) -> (r: Vec<Diagnostic>)
    ensures
        views(r@) == file_end_diags(filename@, content.spec_bytes()),
{
    let b = content.as_bytes();
    let mut out: Vec<Diagnostic> = Vec::new();
    if b.len() > 0 && b[b.len() - 1] == 10u8 {
        assert(views(out@) =~= file_end_diags(filename@, content.spec_bytes()));
        return out;
    }
    let n = line_ranges(b).len();
    let line = if n >= 1 {
        n
    } else {
        1
    };
    push_diag(
        &mut out,
        fixed_diag(filename, line, Severity::Info, "C-A3", "File must end with a line break"),
    );
    assert(views(out@) =~= file_end_diags(filename@, content.spec_bytes()));
    out
}

// ---------------------------------------------------------------------------
// Declarators.

pub open spec fn is_name_kind(k: Seq<char>) -> bool {
    k == "identifier"@ || k == "field_identifier"@
}

/// The declarators that wrap another one in their `declarator` field.
pub open spec fn is_wrapping_declarator(k: Seq<char>) -> bool {
    k == "pointer_declarator"@ || k == "init_declarator"@ || k == "array_declarator"@ || k
        == "parenthesized_declarator"@ || k == "function_declarator"@
}

/// The identifier at the bottom of the declarator `i`, and whether a function
/// declarator lies on the way (the declarator names a function).
pub open spec fn declarator_name(b: Seq<u8>, ns: Seq<NodeView>, i: int) -> Option<(Seq<u8>, bool)>
    decreases ns.len() - i,
{
    if !(0 <= i < ns.len()) {
        None
    } else if is_name_kind(ns[i].kind) {
        Some((text_or_empty(b, ns[i]), false))
    } else if is_wrapping_declarator(ns[i].kind) {
        match field_child(ns, i, "declarator"@) {
            Some(c) => {
                proof {
                    lemma_field_child_after(ns, i, "declarator"@);
                }
                match declarator_name(b, ns, c) {
                    Some(r) => Some((r.0, r.1 || ns[i].kind == "function_declarator"@)),
                    None => None,
                }
            },
            None => None,
        }
    } else {
        None
    }
}

pub fn declarator_name_exec(b: &[u8], t: &SyntaxTree, i: usize) -> (r: Option<(Vec<u8>, bool)>)
    ensures
        match r {
            Some((n, f)) => declarator_name(b@, t@, i as int) == Some((n@, f)),
            None => declarator_name(b@, t@, i as int) is None,
        },
    decreases t@.len() - i,
{
    if i >= node_count(t) {
        return None;
    }
    if kind_is(t, i, "identifier") || kind_is(t, i, "field_identifier") {
        return Some((text_or_nothing(b, t, i), false));
    }
    let fd = kind_is(t, i, "function_declarator");
    if fd || kind_is(t, i, "pointer_declarator") || kind_is(t, i, "init_declarator") || kind_is(
        t,
        i,
        "array_declarator",
    ) || kind_is(t, i, "parenthesized_declarator") {
        match child_by_field(t, i, "declarator") {
            Some(c) => {
                proof {
                    lemma_field_child_after(t@, i as int, "declarator"@);
                }
                match declarator_name_exec(b, t, c) {
                    Some((n, f)) => Some((n, f || fd)),
                    None => None,
                }
            },
            None => None,
        }
    } else {
        None
    }
}

/// The text of the child of `i` in field `f`, or nothing.
pub open spec fn field_text(b: Seq<u8>, ns: Seq<NodeView>, i: int, f: Seq<char>) -> Seq<u8> {
    match field_child(ns, i, f) {
        Some(c) => text_or_empty(b, ns[c]),
        None => seq![],
    }
}

fn field_text_exec(b: &[u8], t: &SyntaxTree, i: usize, f: &str) -> (r: Vec<u8>)
    ensures
        r@ == field_text(b@, t@, i as int, f@),
{
    match child_by_field(t, i, f) {
        Some(c) => text_or_nothing(b, t, c),
        None => Vec::new(),
    }
}

/// Whether the white-space separated words of `b` are exactly `w`.
fn words_are(b: &[u8], w: &Vec<&str>) -> (r: bool)
    ensures
        r == (ws_words(b@) == w@.map_values(|s: &str| s.spec_bytes())),
{
    let words = ws_words_exec(b);
    let ghost ws = words@.map_values(|v: Vec<u8>| v@);
    let ghost expected = w@.map_values(|s: &str| s.spec_bytes());
    if words.len() != w.len() {
        assert(ws.len() != expected.len());
        return false;
    }
    let mut k: usize = 0;
    while k < words.len()
        invariant
            k <= words@.len() == w@.len(),
            ws == ws_words(b@),
            forall|m: int| 0 <= m < k ==> ws[m] == expected[m],
        decreases words@.len() - k,
    {
        if !bytes_eq(words[k].as_slice(), w[k].as_bytes()) {
            assert(ws[k as int] != expected[k as int]);
            return false;
        }
        k = k + 1;
    }
    assert(ws =~= expected);
    true
}

/// `'` + the name + `suffix`, as characters.
pub fn quoted_message(prefix: &str, name: &[u8], suffix: &str) -> (r: String)
    ensures
        r@ == prefix@ + text_chars(name@) + suffix@,
{
    let mut m = String::from_str(prefix);
    let n = text_string(name);
    m.append(n.as_str());
    m.append(suffix);
    m
}

// ---------------------------------------------------------------------------
// C-A2: types of counters and sizes.

pub open spec fn counter_name(n: Seq<u8>) -> bool {
    n == "counter".spec_bytes() || contains(n, "count".spec_bytes()) || ends_with(
        n,
        "_count".spec_bytes(),
    ) || starts_with(n, "nb_".spec_bytes())
}

/// Whether `w` is one of the pieces of `n` split at `_`.
pub open spec fn underscore_part(n: Seq<u8>, w: Seq<u8>) -> bool {
    exists|k: int|
        occurs_at(n, w, k) && (k == 0 || n[k - 1] == 95u8) && (k + w.len() == n.len() || n[k
            + w.len()] == 95u8)
}

pub open spec fn size_like_name(n: Seq<u8>) -> bool {
    underscore_part(n, "size".spec_bytes()) || underscore_part(n, "len".spec_bytes())
        || underscore_part(n, "length".spec_bytes())
}

pub open spec fn counter_declarator(file: Seq<char>, b: Seq<u8>, ns: Seq<NodeView>, j: int) -> spec_fn(
    int,
) -> Seq<DiagView> {
    |c: int|
        if ns[c].field == Some("declarator"@) {
            match declarator_name(b, ns, c) {
                Some((name, false)) => if counter_name(name) {
                    seq![
                        diag(
                            file,
                            ns[j].start_row + 1,
                            Severity::Info,
                            "C-A2"@,
                            "Variable '"@ + text_chars(name)
                                + "' looks like a counter and should use an unsigned type"@,
                        ),
                    ]
                } else {
                    seq![]
                },
                _ => seq![],
            }
        } else {
            seq![]
        }
}

/// Whether the words of a return type are `int` or `unsigned int`.
pub open spec fn int_return(t: Seq<u8>) -> bool {
    ws_words(t) == seq!["int".spec_bytes()] || ws_words(t) == seq![
        "unsigned".spec_bytes(),
        "int".spec_bytes(),
    ]
}

pub open spec fn size_function(file: Seq<char>, b: Seq<u8>, ns: Seq<NodeView>, j: int) -> Seq<DiagView> {
    match field_child(ns, j, "declarator"@) {
        Some(d) => if has_kind(ns, d, "function_declarator"@) {
            match declarator_name(b, ns, d) {
                Some((name, _)) => if size_like_name(name) {
                    seq![
                        diag(
                            file,
                            ns[j].start_row + 1,
                            Severity::Info,
                            "C-A2"@,
                            "Function '"@ + text_chars(name)
                                + "' returns a size-like value and should return size_t"@,
                        ),
                    ]
                } else {
                    seq![]
                },
                None => seq![],
            }
        } else {
            seq![]
        },
        None => seq![],
    }
}

/// An `int` declaration of a counter-like variable; an `int` or
/// `unsigned int` function with a size-like name.
pub open spec fn typing_at(file: Seq<char>, b: Seq<u8>, ns: Seq<NodeView>) -> spec_fn(int) -> Seq<
    DiagView,
> {
    |j: int|
        if has_kind(ns, j, "declaration"@) && trim(field_text(b, ns, j, "type"@)) == "int".spec_bytes() {
            concat_map(children(ns, j), counter_declarator(file, b, ns, j))
        } else if has_kind(ns, j, "function_definition"@) && int_return(
            field_text(b, ns, j, "type"@),
        ) {
            size_function(file, b, ns, j)
        } else {
            seq![]
        }
}

pub open spec fn typing_in_tree(file: Seq<char>, b: Seq<u8>, ns: Seq<NodeView>) -> Seq<DiagView> {
    concat_range(0, ns.len() as int, typing_at(file, b, ns))
}

pub open spec fn typing_diags(file: Seq<char>, src: Seq<char>) -> Seq<DiagView> {
    match c_syntax(src) {
        Some(ns) => if tree_fits(ns) {
            typing_in_tree(file, encode_utf8(src), ns)
        } else {
            seq![]
        },
        None => seq![],
    }
}

fn counter_name_exec(n: &[u8]) -> (r: bool)
    ensures
        r == counter_name(n@),
{
    bytes_eq(n, "counter".as_bytes()) || contains_exec(n, "count".as_bytes()) || ends_with_exec(
        n,
        "_count".as_bytes(),
    ) || starts_with_exec(n, "nb_".as_bytes())
}

fn underscore_part_exec(n: &[u8], w: &[u8]) -> (r: bool)
    ensures
        r == underscore_part(n@, w@),
{
    if w.len() > n.len() {
        return false;
    }
    let last = n.len() - w.len();
    let mut k: usize = 0;
    while k <= last
        invariant
            last + w@.len() == n@.len(),
            forall|m: int|
                0 <= m < k ==> !(occurs_at(n@, w@, m) && (m == 0 || n@[m - 1] == 95u8) && (m
                    + w@.len() == n@.len() || n@[m + w@.len()] == 95u8)),
        decreases last + 1 - k,
    {
        if occurs_at_exec(n, w, k) && (k == 0 || n[k - 1] == 95u8) && (k == last || n[k + w.len()]
            == 95u8) {
            return true;
        }
        if k == last {
            return false;
        }
        k = k + 1;
    }
    false
}

fn size_like_name_exec(n: &[u8]) -> (r: bool)
    ensures
        r == size_like_name(n@),
{
    underscore_part_exec(n, "size".as_bytes()) || underscore_part_exec(n, "len".as_bytes())
        || underscore_part_exec(n, "length".as_bytes())
}

fn counter_declarators(filename: &str, b: &[u8], t: &SyntaxTree, j: usize) -> (r: Vec<Diagnostic>)
    requires
        j < t@.len(),
        tree_fits(t@),
    ensures
        views(r@) == concat_map(children(t@, j as int), counter_declarator(filename@, b@, t@, j as int)),
{
    let cs = children_of(t, j);
    let ghost all = children(t@, j as int);
    let ghost f = counter_declarator(filename@, b@, t@, j as int);
    let mut out: Vec<Diagnostic> = Vec::new();
    let mut k: usize = 0;
    while k < cs.len()
        invariant
            k <= cs@.len(),
            cs@.map_values(|c: usize| c as int) == all,
            views(out@) == concat_map(all.take(k as int), f),
        decreases cs@.len() - k,
    {
        proof {
            lemma_concat_map_step(all, k as int, f);
        }
        let c = cs[k];
        let ghost before = views(out@);
        if field_is(t, c, "declarator") {
            match declarator_name_exec(b, t, c) {
                Some((name, false)) => {
                    if counter_name_exec(name.as_slice()) {
                        let msg = quoted_message(
                            "Variable '",
                            name.as_slice(),
                            "' looks like a counter and should use an unsigned type",
                        );
                        push_diag(&mut out, new_diag(filename, row_line(t, j), Severity::Info, "C-A2", msg));
                    }
                },
                _ => {},
            }
        }
        assert(views(out@) =~= before + f(c as int));
        k = k + 1;
    }
    proof {
        lemma_concat_map_all(all, f);
    }
    out
}

fn size_function_exec(filename: &str, b: &[u8], t: &SyntaxTree, j: usize) -> (r: Vec<Diagnostic>)
    requires
        j < t@.len(),
        tree_fits(t@),
    ensures
        views(r@) == size_function(filename@, b@, t@, j as int),
{
    let mut out: Vec<Diagnostic> = Vec::new();
    match child_by_field(t, j, "declarator") {
        Some(d) => {
            if kind_is(t, d, "function_declarator") {
                match declarator_name_exec(b, t, d) {
                    Some((name, _)) => {
                        if size_like_name_exec(name.as_slice()) {
                            let msg = quoted_message(
                                "Function '",
                                name.as_slice(),
                                "' returns a size-like value and should return size_t",
                            );
                            push_diag(
                                &mut out,
                                new_diag(filename, row_line(t, j), Severity::Info, "C-A2", msg),
                            );
                        }
                    },
                    None => {},
                }
            }
        },
        None => {},
    }
    assert(views(out@) =~= size_function(filename@, b@, t@, j as int));
    out
}

pub fn typing_in_tree_exec(filename: &str, content: &str, t: &SyntaxTree) -> (r: Vec<Diagnostic>)
    requires
        tree_fits(t@),
    ensures
        views(r@) == typing_in_tree(filename@, content.spec_bytes(), t@),
{
    let b = content.as_bytes();
    let n = node_count(t);
    let ints: Vec<&str> = vec!["int"];
    let unsigned_ints: Vec<&str> = vec!["unsigned", "int"];
    assert(ints@.map_values(|s: &str| s.spec_bytes()) =~= seq!["int".spec_bytes()]);
    assert(unsigned_ints@.map_values(|s: &str| s.spec_bytes()) =~= seq![
        "unsigned".spec_bytes(),
        "int".spec_bytes(),
    ]);
    let mut out: Vec<Diagnostic> = Vec::new();
    let mut j: usize = 0;
    while j < n
        invariant
            j <= n == t@.len(),
            views(out@) == concat_range(0, j as int, typing_at(filename@, b@, t@)),
        decreases n - j,
    {
        if kind_is(t, j, "declaration") && bytes_eq(
            trimmed(field_text_exec(b, t, j, "type").as_slice()).as_slice(),
            "int".as_bytes(),
        ) {
            push_all(&mut out, counter_declarators(filename, b, t, j));
        } else if kind_is(t, j, "function_definition") {
            let ty = field_text_exec(b, t, j, "type");
            if words_are(ty.as_slice(), &ints) || words_are(ty.as_slice(), &unsigned_ints) {
                push_all(&mut out, size_function_exec(filename, b, t, j));
            }
        }
        j = j + 1;
    }
    out
}

pub fn check_typing(filename: &str, content: &str) -> (r: Vec<Diagnostic>)
    ensures
        views(r@) == typing_diags(filename@, content@),
{
    match parse(content) {
        Some(t) => if fits(&t) {
            typing_in_tree_exec(filename, content, &t)
        } else {
            Vec::new()
        },
        None => Vec::new(),
    }
}

// ---------------------------------------------------------------------------
// C-A1: pointer parameters that are only read.

/// The parameter list of a function declarator, looking through a pointer
/// declarator (a function returning a pointer).
pub open spec fn parameter_list(ns: Seq<NodeView>, i: int) -> Option<int>
    decreases ns.len() - i,
{
    if has_kind(ns, i, "function_declarator"@) {
        field_child(ns, i, "parameters"@)
    } else if has_kind(ns, i, "pointer_declarator"@) {
        match field_child(ns, i, "declarator"@) {
            Some(c) => {
                proof {
                    lemma_field_child_after(ns, i, "declarator"@);
                }
                parameter_list(ns, c)
            },
            None => None,
        }
    } else {
        None
    }
}

fn parameter_list_exec(t: &SyntaxTree, i: usize) -> (r: Option<usize>)
    ensures
        match r {
            Some(c) => parameter_list(t@, i as int) == Some(c as int),
            None => parameter_list(t@, i as int) is None,
        },
        r matches Some(c) ==> c < t@.len(),
    decreases t@.len() - i,
{
    if kind_is(t, i, "function_declarator") {
        child_by_field(t, i, "parameters")
    } else if kind_is(t, i, "pointer_declarator") {
        match child_by_field(t, i, "declarator") {
            Some(c) => {
                proof {
                    lemma_field_child_after(t@, i as int, "declarator"@);
                }
                parameter_list_exec(t, c)
            },
            None => None,
        }
    } else {
        None
    }
}

/// Whether node `x`, when there is one, has the text `name`.
pub open spec fn names(b: Seq<u8>, ns: Seq<NodeView>, x: Option<int>, name: Seq<u8>) -> bool {
    x matches Some(a) && node_text(b, ns[a]) == Some(name)
}

/// The expression inside parentheses, looked through to any depth: the
/// child that follows the opening parenthesis.
pub open spec fn unparen(ns: Seq<NodeView>, x: int) -> int
    decreases ns.len() - x,
{
    if has_kind(ns, x, "parenthesized_expression"@) && children(ns, x).len() >= 2 {
        proof {
            lemma_children_after(ns, x);
        }
        unparen(ns, children(ns, x)[1])
    } else {
        x
    }
}

/// The place that node `j` writes: the left side of an assignment, the
/// operand of `++` or `--`.
pub open spec fn written_place(ns: Seq<NodeView>, j: int) -> Option<int> {
    if has_kind(ns, j, "assignment_expression"@) {
        field_child(ns, j, "left"@)
    } else if has_kind(ns, j, "update_expression"@) {
        field_child(ns, j, "argument"@)
    } else {
        None
    }
}

/// An assignment, or an increment or decrement, of `*name`, `name[..]` or
/// `name->..`.
pub open spec fn writes_through(b: Seq<u8>, ns: Seq<NodeView>, j: int, name: Seq<u8>) -> bool {
    match written_place(ns, j) {
        Some(l0) => {
            let l = unparen(ns, l0);
            let arg = field_child(ns, l, "argument"@);
            if has_kind(ns, l, "pointer_expression"@) || has_kind(ns, l, "subscript_expression"@) {
                names(b, ns, arg, name)
            } else if has_kind(ns, l, "field_expression"@) {
                (field_child(ns, l, "operator"@) matches Some(o) && ns[o].kind == "->"@) && names(
                    b,
                    ns,
                    arg,
                    name,
                )
            } else {
                false
            }
        },
        None => false,
    }
}

/// A call that has `name` itself among its arguments.
pub open spec fn passes_to_call(b: Seq<u8>, ns: Seq<NodeView>, j: int, name: Seq<u8>) -> bool {
    has_kind(ns, j, "call_expression"@) && match field_child(ns, j, "arguments"@) {
        Some(a) => exists|k: int|
            0 <= k < children(ns, a).len() && has_kind(ns, #[trigger] children(ns, a)[k], "identifier"@)
                && node_text(b, ns[children(ns, a)[k]]) == Some(name),
        None => false,
    }
}

/// Whether the body `body` writes through `name` or hands it to a call.
pub open spec fn pointer_used(b: Seq<u8>, ns: Seq<NodeView>, body: int, name: Seq<u8>) -> bool {
    exists|j: int|
        body <= j < sub_end(ns, body) && (writes_through(b, ns, j, name) || passes_to_call(
            b,
            ns,
            j,
            name,
        ))
}

/// Whether a `const` qualifier stands among the children of parameter `p`
/// before its declarator `pd`.
pub open spec fn const_before(b: Seq<u8>, ns: Seq<NodeView>, p: int, pd: int) -> bool {
    exists|k: int|
        0 <= k < children(ns, p).len() && has_kind(ns, #[trigger] children(ns, p)[k], "type_qualifier"@)
            && ns[children(ns, p)[k]].start_byte < ns[pd].start_byte && node_text(
            b,
            ns[children(ns, p)[k]],
        ) == Some("const".spec_bytes())
}

/// A pointer parameter, not const, not `void *`, not a function pointer,
/// that the body neither writes through nor passes on.
pub open spec fn param_report(file: Seq<char>, b: Seq<u8>, ns: Seq<NodeView>, body: int) -> spec_fn(
    int,
) -> Seq<DiagView> {
    |p: int|
        match field_child(ns, p, "declarator"@) {
            Some(pd) => if has_kind(ns, p, "parameter_declaration"@) && has_kind(
                ns,
                pd,
                "pointer_declarator"@,
            ) && !const_before(b, ns, p, pd) && ws_words(field_text(b, ns, p, "type"@)) != seq![
                "void".spec_bytes(),
            ] {
                match declarator_name(b, ns, pd) {
                    Some((name, false)) => if !pointer_used(b, ns, body, name) {
                        seq![
                            diag(
                                file,
                                ns[p].start_row + 1,
                                Severity::Info,
                                "C-A1"@,
                                "Pointer parameter '"@ + text_chars(name) + "' should be const"@,
                            ),
                        ]
                    } else {
                        seq![]
                    },
                    _ => seq![],
                }
            } else {
                seq![]
            },
            None => seq![],
        }
}

pub open spec fn const_pointers_top(file: Seq<char>, b: Seq<u8>, ns: Seq<NodeView>) -> spec_fn(
    int,
) -> Seq<DiagView> {
    |i: int|
        if has_kind(ns, i, "function_definition"@) {
            match field_child(ns, i, "declarator"@) {
                Some(d) => match parameter_list(ns, d) {
                    Some(pl) => match field_child(ns, i, "body"@) {
                        Some(body) => concat_map(children(ns, pl), param_report(file, b, ns, body)),
                        None => seq![],
                    },
                    None => seq![],
                },
                None => seq![],
            }
        } else {
            seq![]
        }
}

pub open spec fn const_pointers_diags(file: Seq<char>, src: Seq<char>) -> Seq<DiagView> {
    match c_syntax(src) {
        Some(ns) => if tree_fits(ns) {
            over_top(ns, const_pointers_top(file, encode_utf8(src), ns))
        } else {
            seq![]
        },
        None => seq![],
    }
}

fn names_exec(b: &[u8], t: &SyntaxTree, x: Option<usize>, name: &[u8]) -> (r: bool)
    requires
        x matches Some(a) ==> a < t@.len(),
    ensures
        r == names(b@, t@, match x {
            Some(a) => Some(a as int),
            None => None,
        }, name@),
{
    match x {
        Some(a) => match text_of(b, t, a) {
            Some(v) => bytes_eq(v.as_slice(), name),
            None => false,
        },
        None => false,
    }
}

fn unparen_exec(t: &SyntaxTree, x: usize) -> (r: usize)
    ensures
        r == unparen(t@, x as int),
    decreases t@.len() - x,
{
    if kind_is(t, x, "parenthesized_expression") {
        let cs = children_of(t, x);
        if cs.len() >= 2 {
            proof {
                lemma_children_after(t@, x as int);
            }
            assert(cs@[1] as int == children(t@, x as int)[1]);
            return unparen_exec(t, cs[1]);
        }
        assert(children(t@, x as int).len() < 2);
    }
    x
}

fn writes_through_exec(b: &[u8], t: &SyntaxTree, j: usize, name: &[u8]) -> (r: bool)
    ensures
        r == writes_through(b@, t@, j as int, name@),
{
    let place = if kind_is(t, j, "assignment_expression") {
        child_by_field(t, j, "left")
    } else if kind_is(t, j, "update_expression") {
        child_by_field(t, j, "argument")
    } else {
        None
    };
    match place {
        Some(l0) => {
            let l = unparen_exec(t, l0);
            let arg = child_by_field(t, l, "argument");
            if kind_is(t, l, "pointer_expression") || kind_is(t, l, "subscript_expression") {
                names_exec(b, t, arg, name)
            } else if kind_is(t, l, "field_expression") {
                let arrow = match child_by_field(t, l, "operator") {
                    Some(o) => kind_is(t, o, "->"),
                    None => false,
                };
                arrow && names_exec(b, t, arg, name)
            } else {
                false
            }
        },
        None => false,
    }
}

fn passes_to_call_exec(b: &[u8], t: &SyntaxTree, j: usize, name: &[u8]) -> (r: bool)
    ensures
        r == passes_to_call(b@, t@, j as int, name@),
{
    if !kind_is(t, j, "call_expression") {
        return false;
    }
    match child_by_field(t, j, "arguments") {
        Some(a) => {
            let cs = children_of(t, a);
            let ghost all = children(t@, a as int);
            let mut k: usize = 0;
            while k < cs.len()
                invariant
                    k <= cs@.len(),
                    cs@.map_values(|c: usize| c as int) == all,
                    forall|m: int|
                        0 <= m < k ==> !(has_kind(t@, #[trigger] all[m], "identifier"@) && node_text(
                            b@,
                            t@[all[m]],
                        ) == Some(name@)),
                decreases cs@.len() - k,
            {
                let c = cs[k];
                assert(all[k as int] == c as int);
                if kind_is(t, c, "identifier") && names_exec(b, t, Some(c), name) {
                    return true;
                }
                k = k + 1;
            }
            false
        },
        None => false,
    }
}

fn pointer_used_exec(b: &[u8], t: &SyntaxTree, body: usize, name: &[u8]) -> (r: bool)
    requires
        body < t@.len(),
    ensures
        r == pointer_used(b@, t@, body as int, name@),
{
    let end = subtree_end(t, body);
    let mut j: usize = body;
    while j < end
        invariant
            body <= j,
            end == sub_end(t@, body as int),
            forall|m: int|
                body <= m < j ==> !(writes_through(b@, t@, m, name@) || passes_to_call(
                    b@,
                    t@,
                    m,
                    name@,
                )),
        decreases end - j,
    {
        if writes_through_exec(b, t, j, name) || passes_to_call_exec(b, t, j, name) {
            return true;
        }
        j = j + 1;
    }
    false
}

fn const_before_exec(b: &[u8], t: &SyntaxTree, p: usize, pd: usize) -> (r: bool)
    requires
        pd < t@.len(),
    ensures
        r == const_before(b@, t@, p as int, pd as int),
{
    let cs = children_of(t, p);
    let ghost all = children(t@, p as int);
    assert(t@[pd as int] == t.nodes@[pd as int]@);
    let pd_start = t.nodes[pd].start_byte;
    let mut k: usize = 0;
    while k < cs.len()
        invariant
            k <= cs@.len(),
            cs@.map_values(|c: usize| c as int) == all,
            pd_start == t@[pd as int].start_byte,
            forall|m: int|
                0 <= m < k ==> !(has_kind(t@, #[trigger] all[m], "type_qualifier"@)
                    && t@[all[m]].start_byte < t@[pd as int].start_byte && node_text(b@, t@[all[m]])
                    == Some("const".spec_bytes())),
        decreases cs@.len() - k,
    {
        let c = cs[k];
        assert(all[k as int] == c as int);
        assert(t@[c as int] == t.nodes@[c as int]@);
        if kind_is(t, c, "type_qualifier") && t.nodes[c].start_byte < pd_start && names_exec(
            b,
            t,
            Some(c),
            "const".as_bytes(),
        ) {
            return true;
        }
        k = k + 1;
    }
    false
}

fn param_report_exec(filename: &str, b: &[u8], t: &SyntaxTree, body: usize, p: usize) -> (r: Vec<
    Diagnostic,
>)
    requires
        body < t@.len(),
        p < t@.len(),
        tree_fits(t@),
    ensures
        views(r@) == param_report(filename@, b@, t@, body as int)(p as int),
{
    let mut out: Vec<Diagnostic> = Vec::new();
    let voids: Vec<&str> = vec!["void"];
    assert(voids@.map_values(|s: &str| s.spec_bytes()) =~= seq!["void".spec_bytes()]);
    match child_by_field(t, p, "declarator") {
        Some(pd) => {
            if kind_is(t, p, "parameter_declaration") && kind_is(t, pd, "pointer_declarator")
                && !const_before_exec(b, t, p, pd) && !words_are(
                field_text_exec(b, t, p, "type").as_slice(),
                &voids,
            ) {
                match declarator_name_exec(b, t, pd) {
                    Some((name, false)) => {
                        if !pointer_used_exec(b, t, body, name.as_slice()) {
                            let msg = quoted_message(
                                "Pointer parameter '",
                                name.as_slice(),
                                "' should be const",
                            );
                            push_diag(
                                &mut out,
                                new_diag(filename, row_line(t, p), Severity::Info, "C-A1", msg),
                            );
                        }
                    },
                    _ => {},
                }
            }
        },
        None => {},
    }
    assert(views(out@) =~= param_report(filename@, b@, t@, body as int)(p as int));
    out
}

fn const_pointers_of_node(filename: &str, b: &[u8], t: &SyntaxTree, i: usize) -> (r: Vec<Diagnostic>)
    requires
        i < t@.len(),
        tree_fits(t@),
    ensures
        views(r@) == const_pointers_top(filename@, b@, t@)(i as int),
{
    let mut out: Vec<Diagnostic> = Vec::new();
    if !kind_is(t, i, "function_definition") {
        assert(views(out@) =~= const_pointers_top(filename@, b@, t@)(i as int));
        return out;
    }
    let d = match child_by_field(t, i, "declarator") {
        Some(d) => d,
        None => {
            assert(views(out@) =~= const_pointers_top(filename@, b@, t@)(i as int));
            return out;
        },
    };
    let pl = match parameter_list_exec(t, d) {
        Some(pl) => pl,
        None => {
            assert(views(out@) =~= const_pointers_top(filename@, b@, t@)(i as int));
            return out;
        },
    };
    let body = match child_by_field(t, i, "body") {
        Some(body) => body,
        None => {
            assert(views(out@) =~= const_pointers_top(filename@, b@, t@)(i as int));
            return out;
        },
    };
    let cs = children_of(t, pl);
    let ghost all = children(t@, pl as int);
    let ghost f = param_report(filename@, b@, t@, body as int);
    let mut k: usize = 0;
    while k < cs.len()
        invariant
            k <= cs@.len(),
            cs@.map_values(|c: usize| c as int) == all,
            views(out@) == concat_map(all.take(k as int), f),
        decreases cs@.len() - k,
    {
        proof {
            lemma_concat_map_step(all, k as int, f);
        }
        push_all(&mut out, param_report_exec(filename, b, t, body, cs[k]));
        k = k + 1;
    }
    proof {
        lemma_concat_map_all(all, f);
    }
    out
}

pub fn const_pointers_in_tree(filename: &str, content: &str, t: &SyntaxTree) -> (r: Vec<Diagnostic>)
    requires
        tree_fits(t@),
    ensures
        views(r@) == over_top(t@, const_pointers_top(filename@, content.spec_bytes(), t@)),
{
    let b = content.as_bytes();
    let cs = children_of(t, 0);
    let ghost all = children(t@, 0);
    let ghost f = const_pointers_top(filename@, b@, t@);
    let mut out: Vec<Diagnostic> = Vec::new();
    let mut k: usize = 0;
    while k < cs.len()
        invariant
            k <= cs@.len(),
            cs@.map_values(|c: usize| c as int) == all,
            views(out@) == concat_map(all.take(k as int), f),
        decreases cs@.len() - k,
    {
        proof {
            lemma_concat_map_step(all, k as int, f);
        }
        push_all(&mut out, const_pointers_of_node(filename, b, t, cs[k]));
        k = k + 1;
    }
    proof {
        lemma_concat_map_all(all, f);
    }
    out
}

pub fn check_const_pointers(filename: &str, content: &str) -> (r: Vec<Diagnostic>)
    ensures
        views(r@) == const_pointers_diags(filename@, content@),
{
    match parse(content) {
        Some(t) => if fits(&t) {
            const_pointers_in_tree(filename, content, &t)
        } else {
            Vec::new()
        },
        None => Vec::new(),
    }
}

// ---------------------------------------------------------------------------

pub open spec fn spec_check(file: Seq<char>, src: Seq<char>) -> Seq<DiagView> {
    file_end_diags(file, encode_utf8(src)) + const_pointers_diags(file, src) + typing_diags(file, src)
}

/// Runs the C-A rules that look at one file (C-A4 looks at a whole project:
/// see `check_static_usage`).
pub fn check(filename: &str, content: &str) -> (r: Vec<Diagnostic>)
    ensures
        views(r@) == spec_check(filename@, content@),
{
    let mut diagnostics: Vec<Diagnostic> = Vec::new();
    push_all(&mut diagnostics, check_file_end(filename, content));
    push_all(&mut diagnostics, check_const_pointers(filename, content));
    push_all(&mut diagnostics, check_typing(filename, content));
    assert(views(diagnostics@) =~= spec_check(filename@, content@));
    diagnostics
}

pub proof fn lemma_placed(file: Seq<char>, src: Seq<char>)
    requires
        syntax_in_text(src),
    ensures
        all_satisfy(spec_check(file, src), placed_in(file, split_nl(encode_utf8(src)).len() as int)),
{
    let p = placed_in(file, split_nl(encode_utf8(src)).len() as int);
    lemma_split_nl_len(encode_utf8(src));
    lemma_std_lines_len(encode_utf8(src));
    lemma_syntax_rows(src);
    let b = encode_utf8(src);
    if let Some(ns) = c_syntax(src) {
        if tree_fits(ns) {
            let cs = children(ns, 0);
            assert forall|k: int| 0 <= k < cs.len() implies all_satisfy(
                #[trigger] const_pointers_top(file, b, ns)(cs[k]),
                p,
            ) by {
                let i = cs[k];
                if has_kind(ns, i, "function_definition"@) {
                    if let Some(d) = field_child(ns, i, "declarator"@) {
                        if let Some(pl) = parameter_list(ns, d) {
                            if let Some(body) = field_child(ns, i, "body"@) {
                                let pc = children(ns, pl);
                                let f = param_report(file, b, ns, body);
                                assert forall|m: int| 0 <= m < pc.len() implies all_satisfy(#[trigger] f(pc[m]), p) by {}
                                lemma_all_map(pc, f, p);
                            }
                        }
                    }
                }
            }
            lemma_all_map(cs, const_pointers_top(file, b, ns), p);
            assert forall|j: int| 0 <= j < ns.len() implies all_satisfy(#[trigger] typing_at(file, b, ns)(j), p) by {
                if has_kind(ns, j, "declaration"@) && trim(field_text(b, ns, j, "type"@)) == "int".spec_bytes() {
                    let dc = children(ns, j);
                    let f = counter_declarator(file, b, ns, j);
                    assert forall|m: int| 0 <= m < dc.len() implies all_satisfy(#[trigger] f(dc[m]), p) by {}
                    lemma_all_map(dc, f, p);
                }
            }
            lemma_all_range(0, ns.len() as int, typing_at(file, b, ns), p);
        }
    }
    lemma_all_concat(file_end_diags(file, b), const_pointers_diags(file, src), p);
    lemma_all_concat(file_end_diags(file, b) + const_pointers_diags(file, src), typing_diags(file, src), p);
}

// ---------------------------------------------------------------------------
// C-A4: definitions that no other file uses should be static.

/// The name and the text of each file of a project.
pub open spec fn file_views(files: Seq<(String, String)>) -> Seq<(Seq<char>, Seq<char>)> {
    files.map_values(|f: (String, String)| (f.0@, f.1@))
}

/// The UTF-8 contents of each file.
pub open spec fn contents_of(files: Seq<(Seq<char>, Seq<char>)>) -> Seq<Seq<u8>> {
    files.map_values(|f: (Seq<char>, Seq<char>)| encode_utf8(f.1))
}

/// The pattern that finds `name` as a whole word: `\b` + `regex::escape(name)` + `\b`.
pub open spec fn usage_pattern(name: Seq<u8>) -> Seq<char> {
    "\\b"@ + escaped(text_chars(name)) + "\\b"@
}

/// Whether a file other than number `idx` mentions `name` as a word; an empty
/// name, or one whose pattern does not compile, counts as used.
pub open spec fn used_elsewhere(name: Seq<u8>, contents: Seq<Seq<u8>>, idx: int) -> bool {
    name.len() == 0 || !regex_compiles(usage_pattern(name)) || exists|i: int|
        0 <= i < contents.len() && i != idx && regex_search(usage_pattern(name), #[trigger] contents[i])
            == Some(true)
}

/// Whether one of the storage-class children of `i` reads `kw`.
pub open spec fn has_storage_class(b: Seq<u8>, ns: Seq<NodeView>, i: int, kw: Seq<u8>) -> bool {
    exists|k: int|
        0 <= k < children(ns, i).len() && has_kind(ns, #[trigger] children(ns, i)[k], "storage_class_specifier"@)
            && text_or_empty(b, ns[children(ns, i)[k]]) == kw
}

/// A definition that C-A4 looks at: the line it starts on and the name it
/// defines.
pub struct Definition {
    pub line: usize,
    pub name: Vec<u8>,
}

impl View for Definition {
    type V = (int, Seq<u8>);

    open spec fn view(&self) -> (int, Seq<u8>) {
        (self.line as int, self.name@)
    }
}

pub open spec fn definitions_view(defs: Seq<Definition>) -> Seq<(int, Seq<u8>)> {
    defs.map_values(|d: Definition| d@)
}

/// The variables that a declaration `i` defines.
pub open spec fn declarator_definitions(b: Seq<u8>, ns: Seq<NodeView>, i: int) -> spec_fn(int) -> Seq<
    (int, Seq<u8>),
> {
    |c: int|
        if ns[c].field == Some("declarator"@) {
            match declarator_name(b, ns, c) {
                Some((name, false)) => seq![(ns[i].start_row + 1, name)],
                _ => seq![],
            }
        } else {
            seq![]
        }
}

/// A top-level function other than `main`, not static; the variables of a
/// top-level declaration, neither static nor extern.
pub open spec fn definitions_top(b: Seq<u8>, ns: Seq<NodeView>) -> spec_fn(int) -> Seq<(int, Seq<u8>)> {
    |i: int|
        if has_kind(ns, i, "function_definition"@) {
            if has_storage_class(b, ns, i, "static".spec_bytes()) {
                seq![]
            } else {
                match field_child(ns, i, "declarator"@) {
                    Some(d) => match declarator_name(b, ns, d) {
                        Some((name, _)) => if name != "main".spec_bytes() {
                            seq![(ns[i].start_row + 1, name)]
                        } else {
                            seq![]
                        },
                        None => seq![],
                    },
                    None => seq![],
                }
            }
        } else if has_kind(ns, i, "declaration"@) {
            if has_storage_class(b, ns, i, "static".spec_bytes()) || has_storage_class(
                b,
                ns,
                i,
                "extern".spec_bytes(),
            ) {
                seq![]
            } else {
                concat_map(children(ns, i), declarator_definitions(b, ns, i))
            }
        } else {
            seq![]
        }
}

/// The definitions of a file that could be static, in order.
pub open spec fn definitions(b: Seq<u8>, ns: Seq<NodeView>) -> Seq<(int, Seq<u8>)> {
    concat_map(children(ns, 0), definitions_top(b, ns))
}

pub open spec fn unused_report(file: Seq<char>, line: int, name: Seq<u8>) -> Seq<DiagView> {
    seq![
        diag(
            file,
            line,
            Severity::Info,
            "C-A4"@,
            "'"@ + text_chars(name) + "' is not used outside this file and should be marked static"@,
        ),
    ]
}

/// One diagnostic for each definition that `used` does not mark as used
/// elsewhere, in order.
pub open spec fn unused_reports(file: Seq<char>, defs: Seq<(int, Seq<u8>)>, used: Seq<bool>) -> Seq<
    DiagView,
> {
    concat_range(
        0,
        defs.len() as int,
        |k: int|
            if !used[k] {
                unused_report(file, defs[k].0, defs[k].1)
            } else {
                seq![]
            },
    )
}

/// For each definition, whether a file other than number `idx` mentions it.
pub open spec fn uses_elsewhere(defs: Seq<(int, Seq<u8>)>, contents: Seq<Seq<u8>>, idx: int) -> Seq<bool> {
    Seq::new(defs.len(), |k: int| used_elsewhere(defs[k].1, contents, idx))
}

/// The diagnostics for file `idx` of a project; headers are skipped.
pub open spec fn usage_of_file(files: Seq<(Seq<char>, Seq<char>)>, idx: int) -> Seq<DiagView> {
    let name = files[idx].0;
    let src = files[idx].1;
    if has_suffix(name, ".h"@) {
        seq![]
    } else {
        match c_syntax(src) {
            Some(ns) => if tree_fits(ns) {
                let defs = definitions(encode_utf8(src), ns);
                unused_reports(name, defs, uses_elsewhere(defs, contents_of(files), idx))
            } else {
                seq![]
            },
            None => seq![],
        }
    }
}

pub open spec fn static_usage_diags(files: Seq<(Seq<char>, Seq<char>)>) -> Seq<DiagView> {
    concat_range(0, files.len() as int, |idx: int| usage_of_file(files, idx))
}

pub fn has_storage_class_exec(b: &[u8], t: &SyntaxTree, i: usize, kw: &str) -> (r: bool)
    ensures
        r == has_storage_class(b@, t@, i as int, kw.spec_bytes()),
{
    let cs = children_of(t, i);
    let ghost all = children(t@, i as int);
    let mut k: usize = 0;
    while k < cs.len()
        invariant
            k <= cs@.len(),
            cs@.map_values(|c: usize| c as int) == all,
            forall|m: int|
                0 <= m < k ==> !(has_kind(t@, #[trigger] all[m], "storage_class_specifier"@)
                    && text_or_empty(b@, t@[all[m]]) == kw.spec_bytes()),
        decreases cs@.len() - k,
    {
        let c = cs[k];
        assert(all[k as int] == c as int);
        if kind_is(t, c, "storage_class_specifier") && bytes_eq(
            text_or_nothing(b, t, c).as_slice(),
            kw.as_bytes(),
        ) {
            return true;
        }
        k = k + 1;
    }
    false
}

fn declarator_definitions_exec(b: &[u8], t: &SyntaxTree, i: usize, out: &mut Vec<Definition>)
    requires
        i < t@.len(),
        tree_fits(t@),
    ensures
        definitions_view(final(out)@) == definitions_view(old(out)@) + concat_map(
            children(t@, i as int),
            declarator_definitions(b@, t@, i as int),
        ),
{
    let cs = children_of(t, i);
    let ghost all = children(t@, i as int);
    let ghost f = declarator_definitions(b@, t@, i as int);
    let ghost start = definitions_view(out@);
    let mut k: usize = 0;
    while k < cs.len()
        invariant
            k <= cs@.len(),
            cs@.map_values(|c: usize| c as int) == all,
            definitions_view(out@) == start + concat_map(all.take(k as int), f),
        decreases cs@.len() - k,
    {
        proof {
            lemma_concat_map_step(all, k as int, f);
        }
        let c = cs[k];
        let ghost before = definitions_view(out@);
        if field_is(t, c, "declarator") {
            match declarator_name_exec(b, t, c) {
                Some((name, false)) => {
                    out.push(Definition { line: row_line(t, i), name });
                    assert(definitions_view(out@) =~= before + f(c as int));
                },
                _ => {
                    assert(definitions_view(out@) =~= before + f(c as int));
                },
            }
        } else {
            assert(definitions_view(out@) =~= before + f(c as int));
        }
        k = k + 1;
    }
    proof {
        lemma_concat_map_all(all, f);
    }
}

fn definitions_of_node(b: &[u8], t: &SyntaxTree, i: usize, out: &mut Vec<Definition>)
    requires
        i < t@.len(),
        tree_fits(t@),
    ensures
        definitions_view(final(out)@) == definitions_view(old(out)@) + definitions_top(b@, t@)(i as int),
{
    let ghost before = definitions_view(out@);
    if kind_is(t, i, "function_definition") {
        if !has_storage_class_exec(b, t, i, "static") {
            match child_by_field(t, i, "declarator") {
                Some(d) => match declarator_name_exec(b, t, d) {
                    Some((name, _)) => {
                        if !bytes_eq(name.as_slice(), "main".as_bytes()) {
                            out.push(Definition { line: row_line(t, i), name });
                        }
                    },
                    None => {},
                },
                None => {},
            }
        }
        assert(definitions_view(out@) =~= before + definitions_top(b@, t@)(i as int));
    } else if kind_is(t, i, "declaration") {
        if !has_storage_class_exec(b, t, i, "static") && !has_storage_class_exec(b, t, i, "extern") {
            declarator_definitions_exec(b, t, i, out);
        } else {
            assert(definitions_view(out@) =~= before + definitions_top(b@, t@)(i as int));
        }
    } else {
        assert(definitions_view(out@) =~= before + definitions_top(b@, t@)(i as int));
    }
}

/// The definitions of a file that C-A4 looks at.
pub fn definitions_in_tree(content: &str, t: &SyntaxTree) -> (r: Vec<Definition>)
    requires
        tree_fits(t@),
    ensures
        definitions_view(r@) == definitions(content.spec_bytes(), t@),
{
    let b = content.as_bytes();
    let cs = children_of(t, 0);
    let ghost all = children(t@, 0);
    let ghost f = definitions_top(b@, t@);
    let mut out: Vec<Definition> = Vec::new();
    let mut k: usize = 0;
    assert(definitions_view(out@) =~= Seq::<(int, Seq<u8>)>::empty());
    while k < cs.len()
        invariant
            k <= cs@.len(),
            cs@.map_values(|c: usize| c as int) == all,
            definitions_view(out@) == concat_map(all.take(k as int), f),
        decreases cs@.len() - k,
    {
        proof {
            lemma_concat_map_step(all, k as int, f);
        }
        definitions_of_node(b, t, cs[k], &mut out);
        k = k + 1;
    }
    proof {
        lemma_concat_map_all(all, f);
    }
    out
}

/// The C-A4 diagnostics of a file, given for each of its definitions whether
/// another file uses it.
pub fn unused_definitions(filename: &str, defs: &Vec<Definition>, used: &Vec<bool>) -> (r: Vec<
    Diagnostic,
>)
    requires
        used@.len() == defs@.len(),
    ensures
        views(r@) == unused_reports(filename@, definitions_view(defs@), used@),
{
    let ghost dv = definitions_view(defs@);
    let mut out: Vec<Diagnostic> = Vec::new();
    let mut k: usize = 0;
    while k < defs.len()
        invariant
            k <= defs@.len() == used@.len(),
            dv == definitions_view(defs@),
            views(out@) == concat_range(
                0,
                k as int,
                |m: int|
                    if !used@[m] {
                        unused_report(filename@, dv[m].0, dv[m].1)
                    } else {
                        seq![]
                    },
            ),
        decreases defs@.len() - k,
    {
        if !used[k] {
            let d = &defs[k];
            assert(dv[k as int] == (d.line as int, d.name@));
            let msg = quoted_message(
                "'",
                d.name.as_slice(),
                "' is not used outside this file and should be marked static",
            );
            push_diag(&mut out, new_diag(filename, d.line, Severity::Info, "C-A4", msg));
        }
        k = k + 1;
    }
    out
}

/// Whether one of the answers other than number `idx` is a match.
pub open spec fn matched_elsewhere(answers: Seq<Option<bool>>, idx: int) -> bool {
    exists|i: int| 0 <= i < answers.len() && i != idx && #[trigger] answers[i] == Some(true)
}

/// Whether a name counts as used, given whether it is empty, whether its
/// word pattern compiles, and what that pattern answered for each file
/// (the answer for file number `idx`, its own, is not looked at).
pub fn usage_verdict(empty: bool, compiles: bool, answers: &Vec<Option<bool>>, idx: usize) -> (r: bool)
    ensures
        r == (empty || !compiles || matched_elsewhere(answers@, idx as int)),
{
    if empty || !compiles {
        return true;
    }
    let mut i: usize = 0;
    while i < answers.len()
        invariant
            i <= answers@.len(),
            forall|m: int| 0 <= m < i && m != idx ==> #[trigger] answers@[m] != Some(true),
        decreases answers@.len() - i,
    {
        if i != idx && answers[i] == Some(true) {
            return true;
        }
        i = i + 1;
    }
    false
}

/// Whether a file of `files` other than number `idx` uses `name`.
pub fn used_in_other_files(name: &[u8], files: &[(String, String)], idx: usize) -> (r: bool)
    ensures
        r == used_elsewhere(name@, contents_of(file_views(files@)), idx as int),
{
    let ghost contents = contents_of(file_views(files@));
    let mut answers: Vec<Option<bool>> = Vec::new();
    if name.len() == 0 {
        return usage_verdict(true, true, &answers, idx);
    }
    let text = text_string(name);
    let escaped_name = regex_escape(text.as_str());
    let mut pattern = String::from_str("\\b");
    pattern.append(escaped_name.as_str());
    pattern.append("\\b");
    assert(pattern@ == usage_pattern(name@));
    let compiles = regex_valid(pattern.as_str());
    if !compiles {
        return usage_verdict(false, false, &answers, idx);
    }
    let mut i: usize = 0;
    while i < files.len()
        invariant
            i <= files@.len() == contents.len(),
            contents == contents_of(file_views(files@)),
            pattern@ == usage_pattern(name@),
            answers@.len() == i,
            forall|m: int|
                0 <= m < i && m != idx ==> #[trigger] answers@[m] == regex_search(usage_pattern(name@), contents[m]),
        decreases files@.len() - i,
    {
        if i != idx {
            let content = files[i].1.as_str();
            assert(content.spec_bytes() == contents[i as int]);
            answers.push(regex_is_match(pattern.as_str(), content.as_bytes()));
        } else {
            answers.push(None);
        }
        i = i + 1;
    }
    let r = usage_verdict(false, true, &answers, idx);
    assert(r == used_elsewhere(name@, contents, idx as int)) by {
        if r {
            let m = choose|m: int| 0 <= m < answers@.len() && m != idx && #[trigger] answers@[m] == Some(true);
            assert(regex_search(usage_pattern(name@), contents[m]) == Some(true));
        }
        if used_elsewhere(name@, contents, idx as int) {
            let m = choose|m: int|
                0 <= m < contents.len() && m != idx && regex_search(usage_pattern(name@), #[trigger] contents[m])
                    == Some(true);
            assert(answers@[m] == Some(true));
        }
    }
    r
}

/// The C-A4 diagnostics of file number `idx` of `files`, whose text is
/// `content` and whose tree is `t`.
pub fn static_usage_in_tree(
    filename: &str,
    content: &str,
    t: &SyntaxTree,
    files: &[(String, String)],
    idx: usize,
) -> (r: Vec<Diagnostic>)
    requires
        tree_fits(t@),
    ensures
        views(r@) == unused_reports(
            filename@,
            definitions(content.spec_bytes(), t@),
            uses_elsewhere(definitions(content.spec_bytes(), t@), contents_of(file_views(files@)), idx as int),
        ),
{
    let defs = definitions_in_tree(content, t);
    let ghost dv = definitions_view(defs@);
    let ghost contents = contents_of(file_views(files@));
    let mut used: Vec<bool> = Vec::new();
    let mut k: usize = 0;
    while k < defs.len()
        invariant
            k <= defs@.len(),
            dv == definitions_view(defs@),
            used@ == uses_elsewhere(dv, contents, idx as int).take(k as int),
        decreases defs@.len() - k,
    {
        assert(dv[k as int].1 == defs@[k as int].name@);
        used.push(used_in_other_files(defs[k].name.as_slice(), files, idx));
        assert(used@ =~= uses_elsewhere(dv, contents, idx as int).take(k + 1));
        k = k + 1;
    }
    assert(used@ =~= uses_elsewhere(dv, contents, idx as int));
    unused_definitions(filename, &defs, &used)
}

/// C-A4 over a whole project: each file is given by its name and its text.
pub fn check_static_usage(files: &[(String, String)]) -> (r: Vec<Diagnostic>)
    ensures
        views(r@) == static_usage_diags(file_views(files@)),
{
    let ghost fv = file_views(files@);
    let mut out: Vec<Diagnostic> = Vec::new();
    let mut idx: usize = 0;
    while idx < files.len()
        invariant
            idx <= files@.len() == fv.len(),
            fv == file_views(files@),
            views(out@) == concat_range(0, idx as int, |k: int| usage_of_file(fv, k)),
        decreases files@.len() - idx,
    {
        let filename = files[idx].0.as_str();
        let content = files[idx].1.as_str();
        assert(filename@ == fv[idx as int].0 && content@ == fv[idx as int].1);
        let ghost before = views(out@);
        if !str_ends_with(filename, ".h") {
            match parse(content) {
                Some(t) => if fits(&t) {
                    push_all(&mut out, static_usage_in_tree(filename, content, &t, files, idx));
                },
                None => {},
            }
        }
        assert(views(out@) =~= before + usage_of_file(fv, idx as int));
        idx = idx + 1;
    }
    out
}

/// A file gets no C-A3 diagnostic exactly when it ends with a line break.
pub proof fn law_file_end(file: Seq<char>, b: Seq<u8>)
    ensures
        file_end_diags(file, b).len() == 0 <==> (b.len() > 0 && b.last() == nl()),
{
}

/// Whether `d` is a C-A4 diagnostic on a line of a file of the project that
/// is no header.
pub open spec fn names_a_source_of(files: Seq<(Seq<char>, Seq<char>)>) -> spec_fn(DiagView) -> bool {
    |d: DiagView|
        exists|i: int|
            0 <= i < files.len() && d.file == files[i].0 && !has_suffix(files[i].0, ".h"@) && d.line
                >= 1 && d.code == "C-A4"@
}

/// The lines of the definitions of a file are numbered from 1.
pub proof fn lemma_definition_lines(b: Seq<u8>, ns: Seq<NodeView>)
    requires
        tree_fits(ns),
    ensures
        all_satisfy(definitions(b, ns), |d: (int, Seq<u8>)| d.0 >= 1),
{
    let p = |d: (int, Seq<u8>)| d.0 >= 1;
    let cs = children(ns, 0);
    assert forall|k: int| 0 <= k < cs.len() implies all_satisfy(#[trigger] definitions_top(b, ns)(cs[k]), p) by {
        let i = cs[k];
        if has_kind(ns, i, "declaration"@) {
            let dc = children(ns, i);
            let h = declarator_definitions(b, ns, i);
            assert forall|m: int| 0 <= m < dc.len() implies all_satisfy(#[trigger] h(dc[m]), p) by {}
            lemma_all_map(dc, h, p);
        }
    }
    lemma_all_map(cs, definitions_top(b, ns), p);
}

/// Every diagnostic of the project-wide check names a file of the project
/// that is not a header, a line numbered from 1, and the rule C-A4.
pub proof fn law_static_usage_reports_sources(files: Seq<(Seq<char>, Seq<char>)>)
    ensures
        all_satisfy(static_usage_diags(files), names_a_source_of(files)),
{
    let q = names_a_source_of(files);
    let f = |idx: int| usage_of_file(files, idx);
    assert forall|idx: int| 0 <= idx < files.len() implies all_satisfy(#[trigger] f(idx), q) by {
        let name = files[idx].0;
        let src = files[idx].1;
        let p = |d: DiagView| d.file == name && d.line >= 1 && d.code == "C-A4"@;
        if !has_suffix(name, ".h"@) {
            if let Some(ns) = c_syntax(src) {
                if tree_fits(ns) {
                    let b = encode_utf8(src);
                    let defs = definitions(b, ns);
                    let used = uses_elsewhere(defs, contents_of(files), idx);
                    lemma_definition_lines(b, ns);
                    let g = |k: int|
                        if !used[k] {
                            unused_report(name, defs[k].0, defs[k].1)
                        } else {
                            seq![]
                        };
                    assert forall|k: int| 0 <= k < defs.len() implies all_satisfy(#[trigger] g(k), p) by {
                        assert(defs[k].0 >= 1);
                    }
                    lemma_all_range(0, defs.len() as int, g, p);
                    assert(f(idx) == concat_range(0, defs.len() as int, g));
                }
            }
            assert(all_satisfy(f(idx), p));
            assert forall|d: DiagView| #[trigger] p(d) implies q(d) by {
                assert(0 <= idx < files.len() && d.file == files[idx].0 && !has_suffix(files[idx].0, ".h"@));
            }
            lemma_all_weaken(f(idx), p, q);
        }
    }
    lemma_all_range(0, files.len() as int, f, q);
}

/// Whether `text` mentions `name` as a whole word.
pub open spec fn mentions(name: Seq<u8>, text: Seq<u8>) -> bool {
    regex_search(usage_pattern(name), text) == Some(true)
}

/// The C-A4 diagnostics of file `idx` of `files` once one more file, of text
/// `extra`, has joined the project: each definition that `extra` mentions
/// counts as used.
pub open spec fn usage_with(files: Seq<(Seq<char>, Seq<char>)>, idx: int, extra: Seq<u8>) -> Seq<DiagView> {
    let name = files[idx].0;
    let src = files[idx].1;
    if has_suffix(name, ".h"@) {
        seq![]
    } else {
        match c_syntax(src) {
            Some(ns) => if tree_fits(ns) {
                let defs = definitions(encode_utf8(src), ns);
                let used = uses_elsewhere(defs, contents_of(files), idx);
                unused_reports(
                    name,
                    defs,
                    Seq::new(defs.len(), |k: int| used[k] || mentions(defs[k].1, extra)),
                )
            } else {
                seq![]
            },
            None => seq![],
        }
    }
}

/// Adding a header to a project takes away exactly the C-A4 diagnostics of
/// the definitions that the header mentions as a whole word; the others stay,
/// in order, and the header gets none.
pub proof fn law_header_added(files: Seq<(Seq<char>, Seq<char>)>, h: Seq<char>, c: Seq<char>)
    requires
        has_suffix(h, ".h"@),
    ensures
        static_usage_diags(files.push((h, c))) == concat_range(
            0,
            files.len() as int,
            |idx: int| usage_with(files, idx, encode_utf8(c)),
        ),
{
    let files2 = files.push((h, c));
    let n = files.len() as int;
    let x = encode_utf8(c);
    let f2 = |idx: int| usage_of_file(files2, idx);
    let g = |idx: int| usage_with(files, idx, x);
    assert(contents_of(files2) =~= contents_of(files).push(x));
    assert forall|idx: int| 0 <= idx < n implies #[trigger] f2(idx) == g(idx) by {
        assert(files2[idx] == files[idx]);
        let name = files[idx].0;
        let src = files[idx].1;
        if !has_suffix(name, ".h"@) {
            if let Some(ns) = c_syntax(src) {
                if tree_fits(ns) {
                    let defs = definitions(encode_utf8(src), ns);
                    let used = uses_elsewhere(defs, contents_of(files), idx);
                    let used2 = uses_elsewhere(defs, contents_of(files2), idx);
                    let both = Seq::new(defs.len(), |k: int| used[k] || mentions(defs[k].1, x));
                    assert forall|k: int| 0 <= k < defs.len() implies used2[k] == both[k] by {
                        let nm = defs[k].1;
                        let cs = contents_of(files);
                        let cs2 = contents_of(files2);
                        if nm.len() > 0 && regex_compiles(usage_pattern(nm)) {
                            if mentions(nm, x) {
                                assert(cs2[n] == x);
                            }
                            if exists|i: int|
                                0 <= i < cs2.len() && i != idx && regex_search(usage_pattern(nm), #[trigger] cs2[i])
                                    == Some(true) {
                                let i = choose|i: int|
                                    0 <= i < cs2.len() && i != idx && regex_search(usage_pattern(nm), #[trigger] cs2[i])
                                        == Some(true);
                                if i < n {
                                    assert(cs2[i] == cs[i]);
                                }
                            }
                            if exists|i: int|
                                0 <= i < cs.len() && i != idx && regex_search(usage_pattern(nm), #[trigger] cs[i])
                                    == Some(true) {
                                let i = choose|i: int|
                                    0 <= i < cs.len() && i != idx && regex_search(usage_pattern(nm), #[trigger] cs[i])
                                        == Some(true);
                                assert(cs2[i] == cs[i]);
                            }
                        }
                    }
                    assert(used2 =~= both);
                }
            }
        }
    }
    lemma_range_congruent(0, n, f2, g);
    assert(files2[n] == (h, c));
    assert(f2(n) =~= Seq::<DiagView>::empty());
}

/// A function definition whose return type's words are `int` or
/// `unsigned int`, and whose name has a piece, between `_`s or the ends of
/// the name, that reads `size`, `len` or `length`, is reported by C-A2 with
/// its name.
pub proof fn law_size_like_function(
    file: Seq<char>,
    src: Seq<char>,
    ns: Seq<NodeView>,
    j: int,
    d: int,
    name: Seq<u8>,
    pointer: bool,
    w: Seq<u8>,
    k: int,
)
    requires
        c_syntax(src) == Some(ns),
        tree_fits(ns),
        has_kind(ns, j, "function_definition"@),
        ({
            let t = ws_words(field_text(encode_utf8(src), ns, j, "type"@));
            t == seq!["int".spec_bytes()] || t == seq!["unsigned".spec_bytes(), "int".spec_bytes()]
        }),
        field_child(ns, j, "declarator"@) == Some(d),
        has_kind(ns, d, "function_declarator"@),
        declarator_name(encode_utf8(src), ns, d) == Some((name, pointer)),
        w == "size".spec_bytes() || w == "len".spec_bytes() || w == "length".spec_bytes(),
        0 <= k && k + w.len() <= name.len(),
        name.subrange(k, k + w.len()) == w,
        k == 0 || name[k - 1] == 95u8,
        k + w.len() == name.len() || name[k + w.len()] == 95u8,
    ensures
        typing_diags(file, src).contains(
            diag(
                file,
                ns[j].start_row + 1,
                Severity::Info,
                "C-A2"@,
                "Function '"@ + text_chars(name) + "' returns a size-like value and should return size_t"@,
            ),
        ),
{
    let b = encode_utf8(src);
    assert(occurs_at(name, w, k));
    if w == "size".spec_bytes() {
        assert(underscore_part(name, "size".spec_bytes()));
    } else if w == "len".spec_bytes() {
        assert(underscore_part(name, "len".spec_bytes()));
    } else {
        assert(underscore_part(name, "length".spec_bytes()));
    }
    assert(size_like_name(name));
    let r = diag(
        file,
        ns[j].start_row + 1,
        Severity::Info,
        "C-A2"@,
        "Function '"@ + text_chars(name) + "' returns a size-like value and should return size_t"@,
    );
    reveal_strlit("declaration");
    reveal_strlit("function_definition");
    assert("declaration"@.len() != "function_definition"@.len());
    assert(!has_kind(ns, j, "declaration"@));
    assert(size_function(file, b, ns, j) =~= seq![r]);
    assert(typing_at(file, b, ns)(j) =~= seq![r]);
    assert(typing_at(file, b, ns)(j)[0] == r);
    lemma_concat_range_contains(0, ns.len() as int, typing_at(file, b, ns), j, r);
}

/// A definition of a source file is reported by C-A4 when no other file of
/// the project mentions its name as a whole word: where the pattern `\b`,
/// the escaped name, `\b` compiles and matches none of the other files.
pub proof fn law_unmentioned_definition_reported(
    files: Seq<(Seq<char>, Seq<char>)>,
    idx: int,
    ns: Seq<NodeView>,
    k: int,
)
    requires
        0 <= idx < files.len(),
        !has_suffix(files[idx].0, ".h"@),
        c_syntax(files[idx].1) == Some(ns),
        tree_fits(ns),
        0 <= k < definitions(encode_utf8(files[idx].1), ns).len(),
        definitions(encode_utf8(files[idx].1), ns)[k].1.len() > 0,
        regex_compiles(
            "\\b"@ + escaped(text_chars(definitions(encode_utf8(files[idx].1), ns)[k].1)) + "\\b"@,
        ),
        forall|i: int|
            0 <= i < files.len() && i != idx ==> regex_search(
                "\\b"@ + escaped(text_chars(definitions(encode_utf8(files[idx].1), ns)[k].1)) + "\\b"@,
                encode_utf8(#[trigger] files[i].1),
            ) != Some(true),
    ensures
        static_usage_diags(files).contains(
            diag(
                files[idx].0,
                definitions(encode_utf8(files[idx].1), ns)[k].0,
                Severity::Info,
                "C-A4"@,
                "'"@ + text_chars(definitions(encode_utf8(files[idx].1), ns)[k].1)
                    + "' is not used outside this file and should be marked static"@,
            ),
        ),
{
    let file = files[idx].0;
    let defs = definitions(encode_utf8(files[idx].1), ns);
    let contents = contents_of(files);
    let used = uses_elsewhere(defs, contents, idx);
    let name = defs[k].1;
    assert(!used_elsewhere(name, contents, idx)) by {
        assert forall|i: int| 0 <= i < contents.len() && i != idx implies regex_search(
            usage_pattern(name),
            #[trigger] contents[i],
        ) != Some(true) by {
            assert(contents[i] == encode_utf8(files[i].1));
        }
    }
    assert(!used[k]);
    let r = diag(
        file,
        defs[k].0,
        Severity::Info,
        "C-A4"@,
        "'"@ + text_chars(name) + "' is not used outside this file and should be marked static"@,
    );
    let f = |m: int|
        if !used[m] {
            unused_report(file, defs[m].0, defs[m].1)
        } else {
            seq![]
        };
    assert(f(k)[0] == r);
    lemma_concat_range_contains(0, defs.len() as int, f, k, r);
    assert(usage_of_file(files, idx) == unused_reports(file, defs, used));
    assert(unused_reports(file, defs, used) == concat_range(0, defs.len() as int, f));
    let g = |i: int| usage_of_file(files, i);
    lemma_concat_range_contains(0, files.len() as int, g, idx, r);
}

/// The message C-A2 gives for a function named `cs` with a size-like name.
pub open spec fn size_function_message(cs: Seq<char>) -> Seq<char> {
    "Function '"@ + cs + "' returns a size-like value and should return size_t"@
}

/// A function name (a non-empty UTF-8 text) none of whose pieces between
/// `_`s or the ends of the name reads `size`, `len` or `length` is never
/// named by a C-A2 size-like diagnostic.
pub proof fn law_other_function_name_not_size_like(file: Seq<char>, src: Seq<char>, name: Seq<u8>)
    requires
        vstd::utf8::valid_utf8(name),
        name.len() > 0,
        forall|w: Seq<u8>, k: int|
            (w == "size".spec_bytes() || w == "len".spec_bytes() || w == "length".spec_bytes()) && 0 <= k
                && k + w.len() <= name.len() && #[trigger] name.subrange(k, k + w.len()) == w ==> !((k == 0
                || name[k - 1] == 95u8) && (k + w.len() == name.len() || name[k + w.len()] == 95u8)),
    ensures
        forall|q: int|
            0 <= q < typing_diags(file, src).len() ==> (#[trigger] typing_diags(file, src)[q]).message
                != size_function_message(text_chars(name)),
{
    let p = |d: DiagView| d.message != size_function_message(text_chars(name));
    assert(!size_like_name(name)) by {
        assert forall|w: Seq<u8>| #![auto]
            w == "size".spec_bytes() || w == "len".spec_bytes() || w == "length".spec_bytes() implies !underscore_part(
            name,
            w,
        ) by {
            if underscore_part(name, w) {
                let k = choose|k: int|
                    occurs_at(name, w, k) && (k == 0 || name[k - 1] == 95u8) && (k + w.len() == name.len()
                        || name[k + w.len()] == 95u8);
                assert(name.subrange(k, k + w.len()) == w);
            }
        }
    }
    reveal_strlit("Variable '");
    reveal_strlit("Function '");
    if let Some(ns) = c_syntax(src) {
        if tree_fits(ns) {
            let b = encode_utf8(src);
            assert forall|j: int| 0 <= j < ns.len() implies all_satisfy(#[trigger] typing_at(file, b, ns)(j), p) by {
                if has_kind(ns, j, "declaration"@) && trim(field_text(b, ns, j, "type"@)) == "int".spec_bytes() {
                    let cs = children(ns, j);
                    assert forall|m: int| 0 <= m < cs.len() implies all_satisfy(
                        #[trigger] counter_declarator(file, b, ns, j)(cs[m]),
                        p,
                    ) by {
                        let c = cs[m];
                        if ns[c].field == Some("declarator"@) {
                            if let Some((n, false)) = declarator_name(b, ns, c) {
                                if counter_name(n) {
                                    let msg = "Variable '"@ + text_chars(n)
                                        + "' looks like a counter and should use an unsigned type"@;
                                    assert(msg[0] == 'V');
                                    assert(size_function_message(text_chars(name))[0] == 'F');
                                    assert(p(counter_declarator(file, b, ns, j)(c)[0]));
                                }
                            }
                        }
                    }
                    lemma_all_map(cs, counter_declarator(file, b, ns, j), p);
                } else if has_kind(ns, j, "function_definition"@) && int_return(field_text(b, ns, j, "type"@)) {
                    if let Some(d) = field_child(ns, j, "declarator"@) {
                        if has_kind(ns, d, "function_declarator"@) {
                            if let Some((n, _)) = declarator_name(b, ns, d) {
                                if size_like_name(n) {
                                    if size_function_message(text_chars(n)) == size_function_message(
                                        text_chars(name),
                                    ) {
                                        lemma_wrapped_injective(
                                            "Function '"@,
                                            text_chars(n),
                                            text_chars(name),
                                            "' returns a size-like value and should return size_t"@,
                                        );
                                        lemma_text_chars_injective(name, n);
                                    }
                                    assert(p(size_function(file, b, ns, j)[0]));
                                }
                            }
                        }
                    }
                }
            }
            lemma_all_range(0, ns.len() as int, typing_at(file, b, ns), p);
        }
    }
    assert forall|q: int| 0 <= q < typing_diags(file, src).len() implies (#[trigger] typing_diags(file, src)[q]).message
        != size_function_message(text_chars(name)) by {
        assert(p(typing_diags(file, src)[q]));
    }
}

/// The message C-A4 gives for a definition named `cs`.
pub open spec fn unused_message(cs: Seq<char>) -> Seq<char> {
    "'"@ + cs + "' is not used outside this file and should be marked static"@
}

proof fn lemma_unused_reports_all(
    file: Seq<char>,
    defs: Seq<(int, Seq<u8>)>,
    used: Seq<bool>,
    p: spec_fn(DiagView) -> bool,
)
    requires
        forall|k: int| 0 <= k < defs.len() && !used[k] ==> #[trigger] p(unused_report(file, defs[k].0, defs[k].1)[0]),
    ensures
        all_satisfy(unused_reports(file, defs, used), p),
{
    let f = |m: int|
        if !used[m] {
            unused_report(file, defs[m].0, defs[m].1)
        } else {
            seq![]
        };
    assert forall|k: int| 0 <= k < defs.len() implies all_satisfy(#[trigger] f(k), p) by {
        if !used[k] {
            assert(p(unused_report(file, defs[k].0, defs[k].1)[0]));
        }
    }
    lemma_all_range(0, defs.len() as int, f, p);
    assert(unused_reports(file, defs, used) == concat_range(0, defs.len() as int, f));
}

/// In a project whose file names differ, a name (a non-empty UTF-8 text)
/// that another file mentions as a whole word, where the pattern `\b`, the
/// escaped name, `\b` matches it, is never reported by C-A4 for a source file.
pub proof fn law_mentioned_definition_not_reported(
    files: Seq<(Seq<char>, Seq<char>)>,
    idx: int,
    i: int,
    name: Seq<u8>,
)
    requires
        0 <= idx < files.len(),
        0 <= i < files.len(),
        i != idx,
        forall|j: int| 0 <= j < files.len() && j != idx ==> #[trigger] files[j].0 != files[idx].0,
        vstd::utf8::valid_utf8(name),
        name.len() > 0,
        regex_search("\\b"@ + escaped(text_chars(name)) + "\\b"@, encode_utf8(files[i].1)) == Some(true),
    ensures
        forall|q: int|
            0 <= q < static_usage_diags(files).len() ==> !((#[trigger] static_usage_diags(files)[q]).file
                == files[idx].0 && static_usage_diags(files)[q].message == unused_message(text_chars(name))),
{
    let p = |d: DiagView| !(d.file == files[idx].0 && d.message == unused_message(text_chars(name)));
    let contents = contents_of(files);
    assert(contents[i] == encode_utf8(files[i].1));
    assert(used_elsewhere(name, contents, idx));
    assert forall|j: int| 0 <= j < files.len() implies all_satisfy(#[trigger] usage_of_file(files, j), p) by {
        let src = files[j].1;
        if !has_suffix(files[j].0, ".h"@) {
            if let Some(ns) = c_syntax(src) {
                if tree_fits(ns) {
                    let defs = definitions(encode_utf8(src), ns);
                    let used = uses_elsewhere(defs, contents, j);
                    assert forall|k: int| 0 <= k < defs.len() && !used[k] implies #[trigger] p(
                        unused_report(files[j].0, defs[k].0, defs[k].1)[0],
                    ) by {
                        let n = defs[k].1;
                        if j == idx && unused_message(text_chars(n)) == unused_message(text_chars(name)) {
                            lemma_wrapped_injective(
                                "'"@,
                                text_chars(n),
                                text_chars(name),
                                "' is not used outside this file and should be marked static"@,
                            );
                            lemma_text_chars_injective(name, n);
                            assert(used[k]);
                        }
                    }
                    lemma_unused_reports_all(files[j].0, defs, used, p);
                }
            }
        }
    }
    let g = |j: int| usage_of_file(files, j);
    lemma_all_range(0, files.len() as int, g, p);
    assert forall|q: int| 0 <= q < static_usage_diags(files).len() implies !((#[trigger] static_usage_diags(
        files,
    )[q]).file == files[idx].0 && static_usage_diags(files)[q].message == unused_message(text_chars(name))) by {
        assert(p(static_usage_diags(files)[q]));
    }
}

} // verus!
