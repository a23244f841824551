//! C-G: global scope rules.
#![verifier::loop_isolation(false)]
use vstd::prelude::*;
use vstd::string::StringSliceAdditionalSpecFns;
use vstd::utf8::encode_utf8;
use crate::diagnostic::{
    DiagView, Diagnostic, Severity, diag, views, push_diag, push_all, fixed_diag, new_diag,
    concat_range, concat_map, lemma_concat_map_step, lemma_concat_map_all, all_satisfy, placed_in,
    lemma_all_concat, lemma_all_range, lemma_all_map,
};
use crate::text::{
    split_nl, split_ranges, std_lines, line_ranges, range_texts, valid_ranges, copy_range, trim,
    trim_start, trimmed, trim_start_index, is_blank, ends_with, ends_with_exec, cr,
    lemma_split_nl_len, lemma_trim_start_len, bytes_eq,
    lemma_std_lines_len,
};
use crate::pattern::{regex_search, regex_group1, regex_is_match, regex_first_group, group_view};
use crate::stdlib::{text_chars, text_string};
use crate::syntax::{
    NodeView, SyntaxTree, c_syntax, parse, tree_fits, node_fits, fits, children, children_of,
    has_kind, kind_is, kind_child, child_of_kind, node_text, text_of, lemma_kind_child_bounds,
    syntax_in_text, lemma_syntax_rows,
};

verus! {

// ---------------------------------------------------------------------------
// C-G1: the Epitech header.

/// What C-G1 reports, given what the header pattern answered for the text.
pub open spec fn header_report(file: Seq<char>, m: Option<bool>) -> Seq<DiagView> {
    if m == Some(true) {
        seq![]
    } else {
        seq![diag(file, 1, Severity::Minor, "C-G1"@, "Missing or invalid Epitech header"@)]
    }
}

pub open spec fn header_diags(file: Seq<char>, b: Seq<u8>) -> Seq<DiagView> {
    header_report(
        file,
        regex_search(
            r"(?s)^/\*\n\*\* EPITECH PROJECT, [1-9][0-9]{3}\n\*\* \S.+\n\*\* File description:\n(\*\* .*\n)+\*/(\n|$)"@,
            b,
        ),
    )
}

/// The C-G1 diagnostics for the answer `m` of the header pattern.
pub fn header_verdict(filename: &str, m: Option<bool>) -> (r: Vec<Diagnostic>)
    ensures
        views(r@) == header_report(filename@, m),
{
    let mut out: Vec<Diagnostic> = Vec::new();
    match m {
        Some(true) => {},
        _ => {
            push_diag(
                &mut out,
                fixed_diag(filename, 1, Severity::Minor, "C-G1", "Missing or invalid Epitech header"),
            );
        },
    }
    assert(views(out@) =~= header_report(filename@, m));
    out
}

pub fn check_header(filename: &str, content: &str) -> (r: Vec<Diagnostic>)
    ensures
        views(r@) == header_diags(filename@, content.spec_bytes()),
{
    let m = regex_is_match(
        r"(?s)^/\*\n\*\* EPITECH PROJECT, [1-9][0-9]{3}\n\*\* \S.+\n\*\* File description:\n(\*\* .*\n)+\*/(\n|$)",
        content.as_bytes(),
    );
    header_verdict(filename, m)
}

// ---------------------------------------------------------------------------
// C-G2: one empty line between functions.

pub open spec fn blank(line: Seq<u8>) -> bool {
    trim(line).len() == 0
}

/// The last non-blank line before line `k`.
pub open spec fn last_nonblank_before(lines: Seq<Seq<u8>>, k: int) -> Option<int>
    decreases k,
{
    if k <= 0 {
        None
    } else if !blank(lines[k - 1]) {
        Some(k - 1)
    } else {
        last_nonblank_before(lines, k - 1)
    }
}

/// Whether line `p` starts with `}` in its first column (the end of a
/// top-level definition).
pub open spec fn flush_brace(line: Seq<u8>) -> bool {
    line.len() > 0 && line[0] == 125u8
}

/// A non-blank line that follows a line reading `}` after two or more blank
/// lines is reported; so is one that follows a `}` in the first column with
/// no blank line between them.
pub open spec fn separation_at(file: Seq<char>, lines: Seq<Seq<u8>>) -> spec_fn(int) -> Seq<DiagView> {
    |i: int|
        if !blank(lines[i]) && (last_nonblank_before(lines, i) matches Some(p) && trim(lines[p])
            == "}".spec_bytes() && (i - p - 1 >= 2 || (i - p - 1 == 0 && flush_brace(lines[p])))) {
            seq![
                diag(
                    file,
                    i + 1,
                    Severity::Major,
                    "C-G2"@,
                    "Functions must be separated by one and only one empty line"@,
                ),
            ]
        } else {
            seq![]
        }
}

pub open spec fn separation_diags(file: Seq<char>, b: Seq<u8>) -> Seq<DiagView> {
    concat_range(0, split_nl(b).len() as int, separation_at(file, split_nl(b)))
}

pub proof fn lemma_last_nonblank_before(lines: Seq<Seq<u8>>, k: int)
    ensures
        last_nonblank_before(lines, k) matches Some(p) ==> 0 <= p < k,
    decreases k,
{
    if k > 0 {
        lemma_last_nonblank_before(lines, k - 1);
    }
}

pub fn check_function_separation(filename: &str, content: &str) -> (r: Vec<Diagnostic>)
    ensures
        views(r@) == separation_diags(filename@, content.spec_bytes()),
{
    let b = content.as_bytes();
    let ranges = split_ranges(b);
    let ghost lines = split_nl(b@);
    let mut out: Vec<Diagnostic> = Vec::new();
    let mut empty_count: usize = 0;
    let mut last_closing_brace = false;
    let mut last_flush = false;
    let mut i: usize = 0;
    while i < ranges.len()
        invariant
            i <= ranges@.len() == lines.len(),
            lines == split_nl(b@),
            valid_ranges(ranges@, b@.len() as int),
            range_texts(ranges@, b@) == lines,
            views(out@) == concat_range(0, i as int, separation_at(filename@, lines)),
            empty_count <= i,
            empty_count == match last_nonblank_before(lines, i as int) {
                Some(p) => i - p - 1,
                None => i as int,
            },
            last_closing_brace == (last_nonblank_before(lines, i as int) matches Some(p) && trim(
                lines[p],
            ) == "}".spec_bytes()),
            last_flush == (last_nonblank_before(lines, i as int) matches Some(p) && flush_brace(
                lines[p],
            )),
        decreases ranges@.len() - i,
    {
        let (s, e) = ranges[i];
        let line = copy_range(b, s, e);
        assert(line@ == lines[i as int]);
        let t = trimmed(line.as_slice());
        proof {
            lemma_last_nonblank_before(lines, i as int);
        }
        if t.len() == 0 {
            empty_count = empty_count + 1;
        } else {
            if last_closing_brace && (empty_count >= 2 || (empty_count == 0 && last_flush)) {
                push_diag(
                    &mut out,
                    fixed_diag(
                        filename,
                        i + 1,
                        Severity::Major,
                        "C-G2",
                        "Functions must be separated by one and only one empty line",
                    ),
                );
            }
            last_closing_brace = bytes_eq(t.as_slice(), "}".as_bytes());
            last_flush = line.len() > 0 && line[0] == 125u8;
            empty_count = 0;
        }
        i = i + 1;
    }
    out
}

// ---------------------------------------------------------------------------
// C-G6: line endings.

pub open spec fn line_ending_at(file: Seq<char>, lines: Seq<Seq<u8>>) -> spec_fn(int) -> Seq<DiagView> {
    |i: int|
        if ends_with(lines[i], seq![cr()]) || ends_with(lines[i], "\\".spec_bytes()) {
            seq![diag(file, i + 1, Severity::Minor, "C-G6"@, "Line ends with CR character"@)]
        } else {
            seq![]
        }
}

pub open spec fn line_ending_diags(file: Seq<char>, b: Seq<u8>) -> Seq<DiagView> {
    concat_range(0, split_nl(b).len() as int, line_ending_at(file, split_nl(b)))
}

pub fn check_line_endings(filename: &str, content: &str) -> (r: Vec<Diagnostic>)
    ensures
        views(r@) == line_ending_diags(filename@, content.spec_bytes()),
{
    let b = content.as_bytes();
    let ranges = split_ranges(b);
    let ghost lines = split_nl(b@);
    let mut out: Vec<Diagnostic> = Vec::new();
    let mut i: usize = 0;
    while i < ranges.len()
        invariant
            i <= ranges@.len() == lines.len(),
            lines == split_nl(b@),
            valid_ranges(ranges@, b@.len() as int),
            range_texts(ranges@, b@) == lines,
            views(out@) == concat_range(0, i as int, line_ending_at(filename@, lines)),
        decreases ranges@.len() - i,
    {
        let (s, e) = ranges[i];
        let line = copy_range(b, s, e);
        assert(line@ == lines[i as int]);
        let cr_ending = line.len() > 0 && line[line.len() - 1] == 13u8;
        assert(cr_ending == ends_with(line@, seq![cr()])) by {
            if line@.len() > 0 {
                assert(line@.skip(line@.len() - 1) =~= seq![line@[line@.len() - 1]]);
                if line@[line@.len() - 1] != cr() {
                    assert(seq![line@[line@.len() - 1]][0] != seq![cr()][0]);
                }
            }
        }
        if cr_ending || ends_with_exec(line.as_slice(), "\\".as_bytes()) {
            push_diag(
                &mut out,
                fixed_diag(filename, i + 1, Severity::Minor, "C-G6", "Line ends with CR character"),
            );
        }
        i = i + 1;
    }
    out
}

// ---------------------------------------------------------------------------
// C-G7: trailing spaces.

pub open spec fn trailing_space_at(file: Seq<char>, lines: Seq<Seq<u8>>) -> spec_fn(int) -> Seq<DiagView> {
    |i: int|
        if lines[i].len() > 0 && (lines[i].last() == 32u8 || lines[i].last() == 9u8) {
            seq![diag(file, i + 1, Severity::Minor, "C-G7"@, "Trailing spaces"@)]
        } else {
            seq![]
        }
}

pub open spec fn trailing_space_diags(file: Seq<char>, b: Seq<u8>) -> Seq<DiagView> {
    concat_range(0, std_lines(b).len() as int, trailing_space_at(file, std_lines(b)))
}

pub fn check_trailing_spaces(filename: &str, content: &str) -> (r: Vec<Diagnostic>)
    ensures
        views(r@) == trailing_space_diags(filename@, content.spec_bytes()),
{
    let b = content.as_bytes();
    let ranges = line_ranges(b);
    let ghost lines = std_lines(b@);
    let mut out: Vec<Diagnostic> = Vec::new();
    let mut i: usize = 0;
    while i < ranges.len()
        invariant
            i <= ranges@.len() == lines.len(),
            lines == std_lines(b@),
            valid_ranges(ranges@, b@.len() as int),
            range_texts(ranges@, b@) == lines,
            views(out@) == concat_range(0, i as int, trailing_space_at(filename@, lines)),
        decreases ranges@.len() - i,
    {
        let (s, e) = ranges[i];
        let line = copy_range(b, s, e);
        assert(line@ == lines[i as int]);
        if line.len() > 0 && (line[line.len() - 1] == 32u8 || line[line.len() - 1] == 9u8) {
            push_diag(&mut out, fixed_diag(filename, i + 1, Severity::Minor, "C-G7", "Trailing spaces"));
        }
        i = i + 1;
    }
    out
}

// ---------------------------------------------------------------------------
// C-G8: leading and trailing empty lines.

/// The text may not start with an empty line, and may end with at most one
/// empty line after its last line (the piece after the final `\n` is no
/// line of its own).
pub open spec fn leading_trailing_diags(file: Seq<char>, b: Seq<u8>) -> Seq<DiagView> {
    let parts = split_nl(b);
    (if parts[0].len() == 0 {
        seq![diag(file, 1, Severity::Minor, "C-G8"@, "No leading empty lines"@)]
    } else {
        seq![]
    }) + (if parts.len() >= 3 && parts[parts.len() - 2].len() == 0 && parts[parts.len() - 3].len()
        == 0 {
        seq![
            diag(
                file,
                parts.len() as int,
                Severity::Minor,
                "C-G8"@,
                "No more than 1 trailing empty line"@,
            ),
        ]
    } else {
        seq![]
    })
}

pub fn check_leading_trailing_lines(filename: &str, content: &str) -> (r: Vec<Diagnostic>)
    ensures
        views(r@) == leading_trailing_diags(filename@, content.spec_bytes()),
{
    let b = content.as_bytes();
    let ranges = split_ranges(b);
    proof {
        lemma_split_nl_len(b@);
    }
    let ghost parts = split_nl(b@);
    let mut out: Vec<Diagnostic> = Vec::new();
    let n = ranges.len();
    assert(parts[0] == b@.subrange(ranges@[0].0 as int, ranges@[0].1 as int));
    if ranges[0].1 == ranges[0].0 {
        push_diag(&mut out, fixed_diag(filename, 1, Severity::Minor, "C-G8", "No leading empty lines"));
    }
    let ghost first = views(out@);
    if n >= 3 {
        assert(parts[n - 2] == b@.subrange(ranges@[n - 2].0 as int, ranges@[n - 2].1 as int));
        assert(parts[n - 3] == b@.subrange(ranges@[n - 3].0 as int, ranges@[n - 3].1 as int));
        if ranges[n - 2].1 == ranges[n - 2].0 && ranges[n - 3].1 == ranges[n - 3].0 {
            push_diag(
                &mut out,
                fixed_diag(filename, n, Severity::Minor, "C-G8", "No more than 1 trailing empty line"),
            );
        }
    }
    assert(views(out@) =~= leading_trailing_diags(filename@, content.spec_bytes()));
    out
}


// ---------------------------------------------------------------------------
// C-G3: indentation of preprocessor directives.

pub open spec fn pp_open(line: Seq<u8>) -> bool {
    regex_search(r"^[ \t]*#[ \t]*(if|ifdef|ifndef)\b"@, line) == Some(true)
}

pub open spec fn pp_branch(line: Seq<u8>) -> bool {
    regex_search(r"^[ \t]*#[ \t]*(elif|else)\b"@, line) == Some(true)
}

pub open spec fn pp_close(line: Seq<u8>) -> bool {
    regex_search(r"^[ \t]*#[ \t]*endif\b"@, line) == Some(true)
}

pub open spec fn pp_any(line: Seq<u8>) -> bool {
    regex_search(r"^[ \t]*#[ \t]*\w+"@, line) == Some(true)
}

/// The indentation of a line: the bytes that `str::trim_start` drops.
pub open spec fn indent_of(line: Seq<u8>) -> int {
    line.len() - trim_start(line).len()
}

/// What the indentation check needs to know of one line: whether it is
/// blank, its indentation, and which directive patterns it matches.
#[derive(Clone, Copy, PartialEq, Eq, Structural)]
pub struct DirectiveLine {
    pub blank: bool,
    pub indent: usize,
    pub open: bool,
    pub branch: bool,
    pub close: bool,
    pub any: bool,
}

/// The classification of a line of text.
pub open spec fn classify(line: Seq<u8>) -> DirectiveLine {
    DirectiveLine {
        blank: blank(line),
        indent: indent_of(line) as usize,
        open: pp_open(line),
        branch: pp_branch(line),
        close: pp_close(line),
        any: pp_any(line),
    }
}

pub open spec fn pp_report(file: Seq<char>, k: int) -> Seq<DiagView> {
    seq![diag(file, k, Severity::Minor, "C-G3"@, "Preprocessor directive is incorrectly indented"@)]
}

/// The indentation stack and diagnostics after one more line (line number
/// `k`): a directive may not sit left of the innermost open conditional; a
/// branch or an end may not sit right of it; another directive may not sit
/// at its level.
pub open spec fn pp_step(
    file: Seq<char>,
    state: (Seq<int>, Seq<DiagView>),
    c: DirectiveLine,
    k: int,
) -> (Seq<int>, Seq<DiagView>) {
    let stack = state.0;
    let d = state.1;
    if c.blank {
        state
    } else {
        let ind = c.indent as int;
        let top = stack.last();
        let d1 = if c.any && ind < top {
            d + pp_report(file, k)
        } else {
            d
        };
        if c.open {
            (stack.push(ind), d1)
        } else if c.branch {
            (stack, if ind > top {
                d1 + pp_report(file, k)
            } else {
                d1
            })
        } else if c.close {
            (if stack.len() >= 2 {
                stack.drop_last()
            } else {
                stack
            }, if ind > top {
                d1 + pp_report(file, k)
            } else {
                d1
            })
        } else if c.any && ind == top {
            (stack, d1 + pp_report(file, k))
        } else {
            (stack, d1)
        }
    }
}

/// The stack of open conditional indentations (starting from `-1`) and the
/// diagnostics after the first `k` lines.
pub open spec fn pp_scan(file: Seq<char>, lines: Seq<DirectiveLine>, k: int) -> (Seq<int>, Seq<DiagView>)
    decreases k,
{
    if k <= 0 {
        (seq![-1], seq![])
    } else {
        pp_step(file, pp_scan(file, lines, k - 1), lines[k - 1], k)
    }
}

pub proof fn lemma_pp_scan_stack(file: Seq<char>, lines: Seq<DirectiveLine>, k: int)
    ensures
        pp_scan(file, lines, k).0.len() >= 1,
    decreases k,
{
    if k > 0 {
        lemma_pp_scan_stack(file, lines, k - 1);
    }
}

/// The lines of a text, as `str::split('\n')` gives them, classified.
pub open spec fn directive_lines(b: Seq<u8>) -> Seq<DirectiveLine> {
    split_nl(b).map_values(|l: Seq<u8>| classify(l))
}

pub open spec fn preprocessor_diags(file: Seq<char>, b: Seq<u8>) -> Seq<DiagView> {
    pp_scan(file, directive_lines(b), directive_lines(b).len() as int).1
}

/// The C-G3 diagnostics for classified lines.
pub fn preprocessor_indentation_of(filename: &str, lines: &Vec<DirectiveLine>) -> (r: Vec<Diagnostic>)
    ensures
        views(r@) == pp_scan(filename@, lines@, lines@.len() as int).1,
{
    let mut out: Vec<Diagnostic> = Vec::new();
    let mut stack: Vec<i128> = Vec::new();
    stack.push(-1i128);
    let mut i: usize = 0;
    assert(stack@.map_values(|x: i128| x as int) =~= seq![-1int]);
    while i < lines.len()
        invariant
            i <= lines@.len(),
            stack@.map_values(|x: i128| x as int) == pp_scan(filename@, lines@, i as int).0,
            views(out@) == pp_scan(filename@, lines@, i as int).1,
        decreases lines@.len() - i,
    {
        proof {
            lemma_pp_scan_stack(filename@, lines@, i as int);
        }
        let c = lines[i];
        let ghost prev_stack = stack@;
        if !c.blank {
            let indent = c.indent as i128;
            let top = stack[stack.len() - 1];
            assert(top as int == pp_scan(filename@, lines@, i as int).0.last());
            if c.any && indent < top {
                push_diag(
                    &mut out,
                    fixed_diag(
                        filename,
                        i + 1,
                        Severity::Minor,
                        "C-G3",
                        "Preprocessor directive is incorrectly indented",
                    ),
                );
            }
            if c.open {
                stack.push(indent);
                assert(stack@.map_values(|x: i128| x as int) =~= prev_stack.map_values(
                    |x: i128| x as int,
                ).push(indent as int));
            } else if c.branch {
                if indent > top {
                    push_diag(
                        &mut out,
                        fixed_diag(
                            filename,
                            i + 1,
                            Severity::Minor,
                            "C-G3",
                            "Preprocessor directive is incorrectly indented",
                        ),
                    );
                }
            } else if c.close {
                if indent > top {
                    push_diag(
                        &mut out,
                        fixed_diag(
                            filename,
                            i + 1,
                            Severity::Minor,
                            "C-G3",
                            "Preprocessor directive is incorrectly indented",
                        ),
                    );
                }
                if stack.len() >= 2 {
                    stack.pop();
                    assert(stack@.map_values(|x: i128| x as int) =~= prev_stack.map_values(
                        |x: i128| x as int,
                    ).drop_last());
                }
            } else if c.any && indent == top {
                push_diag(
                    &mut out,
                    fixed_diag(
                        filename,
                        i + 1,
                        Severity::Minor,
                        "C-G3",
                        "Preprocessor directive is incorrectly indented",
                    ),
                );
            }
        }
        i = i + 1;
    }
    out
}

/// Classifies one line; the directive patterns are matched by the `regex`
/// crate.
pub fn classify_line(line: &[u8]) -> (r: DirectiveLine)
    ensures
        r == classify(line@),
{
    let start = trim_start_index(line);
    proof {
        lemma_trim_start_len(line@);
    }
    assert(start as int == indent_of(line@));
    DirectiveLine {
        blank: is_blank(line),
        indent: start,
        open: regex_is_match(r"^[ \t]*#[ \t]*(if|ifdef|ifndef)\b", line) == Some(true),
        branch: regex_is_match(r"^[ \t]*#[ \t]*(elif|else)\b", line) == Some(true),
        close: regex_is_match(r"^[ \t]*#[ \t]*endif\b", line) == Some(true),
        any: regex_is_match(r"^[ \t]*#[ \t]*\w+", line) == Some(true),
    }
}

pub fn check_preprocessor_indentation(filename: &str, content: &str) -> (r: Vec<Diagnostic>)
    ensures
        views(r@) == preprocessor_diags(filename@, content.spec_bytes()),
{
    let b = content.as_bytes();
    let ranges = split_ranges(b);
    let ghost lines = split_nl(b@);
    let mut classes: Vec<DirectiveLine> = Vec::new();
    let mut i: usize = 0;
    while i < ranges.len()
        invariant
            i <= ranges@.len() == lines.len(),
            lines == split_nl(b@),
            valid_ranges(ranges@, b@.len() as int),
            range_texts(ranges@, b@) == lines,
            classes@ == lines.take(i as int).map_values(|l: Seq<u8>| classify(l)),
        decreases ranges@.len() - i,
    {
        let (s, e) = ranges[i];
        let line = copy_range(b, s, e);
        assert(line@ == lines[i as int]);
        classes.push(classify_line(line.as_slice()));
        assert(lines.take(i + 1).map_values(|l: Seq<u8>| classify(l)) =~= lines.take(i as int).map_values(
            |l: Seq<u8>| classify(l),
        ).push(classify(lines[i as int])));
        i = i + 1;
    }
    assert(lines.take(lines.len() as int) =~= lines);
    preprocessor_indentation_of(filename, &classes)
}

// ---------------------------------------------------------------------------
// C-G5: only headers are included.

/// What C-G5 reports on line `ln`, given the included name `g` that the
/// include pattern captured there.
pub open spec fn inclusion_report(file: Seq<char>, ln: int, g: Option<Option<Seq<u8>>>) -> Seq<DiagView> {
    match g {
        Some(Some(g)) => if !ends_with(g, ".h".spec_bytes()) {
            seq![
                diag(
                    file,
                    ln,
                    Severity::Major,
                    "C-G5"@,
                    "Included file '"@ + text_chars(g) + "' should be a header"@,
                ),
            ]
        } else {
            seq![]
        },
        _ => seq![],
    }
}

pub open spec fn inclusion_at(file: Seq<char>, lines: Seq<Seq<u8>>) -> spec_fn(int) -> Seq<DiagView> {
    |i: int| inclusion_report(file, i + 1, regex_group1(r#"^[ \t]*#[ \t]*include[ \t]*"([^"]+)""#@, lines[i]))
}

/// The C-G5 diagnostics of line `ln` for the capture `g` of the include
/// pattern.
pub fn inclusion_verdict(filename: &str, ln: usize, g: Option<Option<Vec<u8>>>) -> (r: Vec<Diagnostic>)
    ensures
        views(r@) == inclusion_report(filename@, ln as int, group_view(g)),
{
    let mut out: Vec<Diagnostic> = Vec::new();
    match g {
        Some(Some(g)) => {
            if !ends_with_exec(g.as_slice(), ".h".as_bytes()) {
                let mut msg = String::from_str("Included file '");
                let name = text_string(g.as_slice());
                msg.append(name.as_str());
                msg.append("' should be a header");
                push_diag(&mut out, new_diag(filename, ln, Severity::Major, "C-G5", msg));
            }
        },
        _ => {},
    }
    assert(views(out@) =~= inclusion_report(filename@, ln as int, group_view(g)));
    out
}

pub open spec fn inclusion_diags(file: Seq<char>, b: Seq<u8>) -> Seq<DiagView> {
    concat_range(0, split_nl(b).len() as int, inclusion_at(file, split_nl(b)))
}

pub fn check_non_header_inclusion(filename: &str, content: &str) -> (r: Vec<Diagnostic>)
    ensures
        views(r@) == inclusion_diags(filename@, content.spec_bytes()),
{
    let b = content.as_bytes();
    let ranges = split_ranges(b);
    let ghost lines = split_nl(b@);
    let mut out: Vec<Diagnostic> = Vec::new();
    let mut i: usize = 0;
    while i < ranges.len()
        invariant
            i <= ranges@.len() == lines.len(),
            lines == split_nl(b@),
            valid_ranges(ranges@, b@.len() as int),
            range_texts(ranges@, b@) == lines,
            views(out@) == concat_range(0, i as int, inclusion_at(filename@, lines)),
        decreases ranges@.len() - i,
    {
        let (s, e) = ranges[i];
        let line = copy_range(b, s, e);
        assert(line@ == lines[i as int]);
        let g = regex_first_group(r#"^[ \t]*#[ \t]*include[ \t]*"([^"]+)""#, line.as_slice());
        push_all(&mut out, inclusion_verdict(filename, i + 1, g));
        i = i + 1;
    }
    out
}

// ---------------------------------------------------------------------------
// C-G10: no inline assembly.

/// What C-G10 reports on line `ln`, given the answer `m` of the assembly
/// pattern there.
pub open spec fn assembly_report(file: Seq<char>, ln: int, m: Option<bool>) -> Seq<DiagView> {
    if m == Some(true) {
        seq![diag(file, ln, Severity::Fatal, "C-G10"@, "Inline assembly usage is forbidden"@)]
    } else {
        seq![]
    }
}

pub open spec fn assembly_at(file: Seq<char>, lines: Seq<Seq<u8>>) -> spec_fn(int) -> Seq<DiagView> {
    |i: int| assembly_report(file, i + 1, regex_search(r"\b(asm|__asm__)\b"@, lines[i]))
}

/// The C-G10 diagnostics of line `ln` for the answer `m` of the assembly
/// pattern.
pub fn assembly_verdict(filename: &str, ln: usize, m: Option<bool>) -> (r: Vec<Diagnostic>)
    ensures
        views(r@) == assembly_report(filename@, ln as int, m),
{
    let mut out: Vec<Diagnostic> = Vec::new();
    if m == Some(true) {
        push_diag(
            &mut out,
            fixed_diag(filename, ln, Severity::Fatal, "C-G10", "Inline assembly usage is forbidden"),
        );
    }
    assert(views(out@) =~= assembly_report(filename@, ln as int, m));
    out
}

pub open spec fn assembly_diags(file: Seq<char>, b: Seq<u8>) -> Seq<DiagView> {
    concat_range(0, split_nl(b).len() as int, assembly_at(file, split_nl(b)))
}

pub fn check_inline_assembly(filename: &str, content: &str) -> (r: Vec<Diagnostic>)
    ensures
        views(r@) == assembly_diags(filename@, content.spec_bytes()),
{
    let b = content.as_bytes();
    let ranges = split_ranges(b);
    let ghost lines = split_nl(b@);
    let mut out: Vec<Diagnostic> = Vec::new();
    let mut i: usize = 0;
    while i < ranges.len()
        invariant
            i <= ranges@.len() == lines.len(),
            lines == split_nl(b@),
            valid_ranges(ranges@, b@.len() as int),
            range_texts(ranges@, b@) == lines,
            views(out@) == concat_range(0, i as int, assembly_at(filename@, lines)),
        decreases ranges@.len() - i,
    {
        let (s, e) = ranges[i];
        let line = copy_range(b, s, e);
        assert(line@ == lines[i as int]);
        let m = regex_is_match(r"\b(asm|__asm__)\b", line.as_slice());
        push_all(&mut out, assembly_verdict(filename, i + 1, m));
        i = i + 1;
    }
    out
}

// ---------------------------------------------------------------------------
// C-G4: global variables are const.

/// Whether node `c` is the keyword `const`, by kind or by text.
pub open spec fn is_const_keyword(b: Seq<u8>, ns: Seq<NodeView>, c: int) -> bool {
    has_kind(ns, c, "const"@) || (0 <= c < ns.len() && node_text(b, ns[c]) == Some(
        "const".spec_bytes(),
    ))
}

/// Whether declaration `i` has a child that is the keyword `const`.
pub open spec fn declares_const(b: Seq<u8>, ns: Seq<NodeView>, i: int) -> bool {
    exists|k: int|
        0 <= k < children(ns, i).len() && #[trigger] is_const_keyword(b, ns, children(ns, i)[k])
}

/// An initialised declarator of a declaration without `const` is reported on
/// its `=`.
pub open spec fn constness_declarator(
    file: Seq<char>,
    ns: Seq<NodeView>,
    has_const: bool,
) -> spec_fn(int) -> Seq<DiagView> {
    |c: int|
        if has_kind(ns, c, "init_declarator"@) && !has_const && (kind_child(ns, c, "="@) matches Some(
            a,
        )) {
            seq![
                diag(
                    file,
                    ns[kind_child(ns, c, "="@)->0].start_row + 1,
                    Severity::Major,
                    "C-G4"@,
                    "Global variable should be const if never reassigned"@,
                ),
            ]
        } else {
            seq![]
        }
}

pub open spec fn constness_top(file: Seq<char>, b: Seq<u8>, ns: Seq<NodeView>) -> spec_fn(int) -> Seq<
    DiagView,
> {
    |i: int|
        if has_kind(ns, i, "declaration"@) {
            concat_map(children(ns, i), constness_declarator(file, ns, declares_const(b, ns, i)))
        } else {
            seq![]
        }
}

pub open spec fn constness_in_tree(file: Seq<char>, b: Seq<u8>, ns: Seq<NodeView>) -> Seq<DiagView> {
    concat_map(children(ns, 0), constness_top(file, b, ns))
}

pub open spec fn constness_diags(file: Seq<char>, src: Seq<char>) -> Seq<DiagView> {
    match c_syntax(src) {
        Some(ns) => if tree_fits(ns) {
            constness_in_tree(file, encode_utf8(src), ns)
        } else {
            seq![]
        },
        None => seq![],
    }
}

fn has_const_child(b: &[u8], t: &SyntaxTree, i: usize) -> (r: bool)
    ensures
        r == declares_const(b@, t@, i as int),
{
    let cs = children_of(t, i);
    let ghost all = children(t@, i as int);
    let mut k: usize = 0;
    while k < cs.len()
        invariant
            k <= cs@.len(),
            cs@.map_values(|c: usize| c as int) == all,
            all == children(t@, i as int),
            forall|m: int| 0 <= m < k ==> !#[trigger] is_const_keyword(b@, t@, all[m]),
        decreases cs@.len() - k,
    {
        let c = cs[k];
        assert(all[k as int] == c as int);
        assert(cs@[k as int] == c);
        assert(c < t@.len());
        if kind_is(t, c, "const") {
            assert(is_const_keyword(b@, t@, all[k as int]));
            return true;
        }
        match text_of(b, t, c) {
            Some(v) => {
                if bytes_eq(v.as_slice(), "const".as_bytes()) {
                    assert(is_const_keyword(b@, t@, all[k as int]));
                    return true;
                }
            },
            None => {},
        }
        assert(!is_const_keyword(b@, t@, all[k as int]));
        k = k + 1;
    }
    false
}

fn constness_of_declaration(filename: &str, b: &[u8], t: &SyntaxTree, i: usize) -> (r: Vec<
    Diagnostic,
>)
    requires
        tree_fits(t@),
    ensures
        views(r@) == constness_top(filename@, b@, t@)(i as int),
{
    let mut out: Vec<Diagnostic> = Vec::new();
    if !kind_is(t, i, "declaration") {
        return out;
    }
    let has_const = has_const_child(b, t, i);
    let cs = children_of(t, i);
    let ghost all = children(t@, i as int);
    let ghost f = constness_declarator(filename@, t@, has_const);
    let mut k: usize = 0;
    while k < cs.len()
        invariant
            k <= cs@.len(),
            cs@.map_values(|c: usize| c as int) == all,
            all == children(t@, i as int),
            f == constness_declarator(filename@, t@, has_const),
            views(out@) == concat_map(all.take(k as int), f),
        decreases cs@.len() - k,
    {
        let c = cs[k];
        proof {
            lemma_concat_map_step(all, k as int, f);
        }
        if kind_is(t, c, "init_declarator") && !has_const {
            match child_of_kind(t, c, "=") {
                Some(a) => {
                    assert(node_fits(t@[a as int]));
                    assert(t@[a as int] == t.nodes@[a as int]@);
                    let row = t.nodes[a].start_row;
                    push_diag(
                        &mut out,
                        fixed_diag(
                            filename,
                            row + 1,
                            Severity::Major,
                            "C-G4",
                            "Global variable should be const if never reassigned",
                        ),
                    );
                },
                None => {},
            }
        }
        k = k + 1;
    }
    proof {
        lemma_concat_map_all(all, f);
    }
    out
}

pub fn global_constness_in_tree(filename: &str, content: &str, t: &SyntaxTree) -> (r: Vec<
    Diagnostic,
>)
    requires
        tree_fits(t@),
    ensures
        views(r@) == constness_in_tree(filename@, content.spec_bytes(), t@),
{
    let b = content.as_bytes();
    let cs = children_of(t, 0);
    let ghost all = children(t@, 0);
    let ghost f = constness_top(filename@, b@, t@);
    let mut out: Vec<Diagnostic> = Vec::new();
    let mut k: usize = 0;
    while k < cs.len()
        invariant
            k <= cs@.len(),
            cs@.map_values(|c: usize| c as int) == all,
            all == children(t@, 0),
            f == constness_top(filename@, b@, t@),
            views(out@) == concat_map(all.take(k as int), f),
        decreases cs@.len() - k,
    {
        proof {
            lemma_concat_map_step(all, k as int, f);
        }
        push_all(&mut out, constness_of_declaration(filename, b, t, cs[k]));
        k = k + 1;
    }
    proof {
        lemma_concat_map_all(all, f);
    }
    out
}

pub fn check_global_variable_constness(filename: &str, content: &str) -> (r: Vec<Diagnostic>)
    ensures
        views(r@) == constness_diags(filename@, content@),
{
    match parse(content) {
        Some(t) => if fits(&t) {
            global_constness_in_tree(filename, content, &t)
        } else {
            Vec::new()
        },
        None => Vec::new(),
    }
}

// ---------------------------------------------------------------------------

pub open spec fn spec_check(file: Seq<char>, src: Seq<char>) -> Seq<DiagView> {
    let b = encode_utf8(src);
    header_diags(file, b) + separation_diags(file, b) + trailing_space_diags(file, b)
        + line_ending_diags(file, b) + leading_trailing_diags(file, b) + preprocessor_diags(file, b)
        + constness_diags(file, src) + inclusion_diags(file, b) + assembly_diags(file, b)
}

/// Runs every C-G rule.
pub fn check(filename: &str, content: &str) -> (r: Vec<Diagnostic>)
    ensures
        views(r@) == spec_check(filename@, content@),
{
    let mut diagnostics: Vec<Diagnostic> = Vec::new();
    push_all(&mut diagnostics, check_header(filename, content));
    push_all(&mut diagnostics, check_function_separation(filename, content));
    push_all(&mut diagnostics, check_trailing_spaces(filename, content));
    push_all(&mut diagnostics, check_line_endings(filename, content));
    push_all(&mut diagnostics, check_leading_trailing_lines(filename, content));
    push_all(&mut diagnostics, check_preprocessor_indentation(filename, content));
    push_all(&mut diagnostics, check_global_variable_constness(filename, content));
    push_all(&mut diagnostics, check_non_header_inclusion(filename, content));
    push_all(&mut diagnostics, check_inline_assembly(filename, content));
    assert(views(diagnostics@) =~= spec_check(filename@, content@));
    diagnostics
}

pub proof fn lemma_pp_placed(file: Seq<char>, lines: Seq<DirectiveLine>, k: int, n: int)
    requires
        k <= n,
    ensures
        all_satisfy(pp_scan(file, lines, k).1, placed_in(file, n)),
    decreases k,
{
    if k > 0 {
        lemma_pp_placed(file, lines, k - 1, n);
        let p = placed_in(file, n);
        let d = pp_scan(file, lines, k - 1).1;
        let r = pp_report(file, k);
        lemma_all_concat(d, r, p);
        lemma_all_concat(d + r, r, p);
    }
}

pub proof fn lemma_placed(file: Seq<char>, src: Seq<char>)
    requires
        syntax_in_text(src),
    ensures
        all_satisfy(spec_check(file, src), placed_in(file, split_nl(encode_utf8(src)).len() as int)),
{
    let p = placed_in(file, split_nl(encode_utf8(src)).len() as int);
    lemma_split_nl_len(encode_utf8(src));
    lemma_std_lines_len(encode_utf8(src));
    lemma_syntax_rows(src);
    let b = encode_utf8(src);
    let parts = split_nl(b);
    let lines = std_lines(b);
    assert forall|k: int| 0 <= k < parts.len() implies all_satisfy(#[trigger] separation_at(file, parts)(k), p) by {}
    lemma_all_range(0, parts.len() as int, separation_at(file, parts), p);
    assert forall|k: int| 0 <= k < lines.len() implies all_satisfy(#[trigger] trailing_space_at(file, lines)(k), p) by {}
    lemma_all_range(0, lines.len() as int, trailing_space_at(file, lines), p);
    assert forall|k: int| 0 <= k < parts.len() implies all_satisfy(#[trigger] line_ending_at(file, parts)(k), p) by {}
    lemma_all_range(0, parts.len() as int, line_ending_at(file, parts), p);
    lemma_split_nl_len(b);
    lemma_pp_placed(file, directive_lines(b), directive_lines(b).len() as int, split_nl(b).len() as int);
    assert forall|k: int| 0 <= k < parts.len() implies all_satisfy(#[trigger] inclusion_at(file, parts)(k), p) by {}
    lemma_all_range(0, parts.len() as int, inclusion_at(file, parts), p);
    assert forall|k: int| 0 <= k < parts.len() implies all_satisfy(#[trigger] assembly_at(file, parts)(k), p) by {}
    lemma_all_range(0, parts.len() as int, assembly_at(file, parts), p);
    if let Some(ns) = c_syntax(src) {
        if tree_fits(ns) {
            let cs = children(ns, 0);
            assert forall|k: int| 0 <= k < cs.len() implies all_satisfy(#[trigger] constness_top(file, b, ns)(cs[k]), p) by {
                let i = cs[k];
                if has_kind(ns, i, "declaration"@) {
                    let dc = children(ns, i);
                    let f = constness_declarator(file, ns, declares_const(b, ns, i));
                    assert forall|m: int| 0 <= m < dc.len() implies all_satisfy(#[trigger] f(dc[m]), p) by {
                        let c = dc[m];
                        if kind_child(ns, c, "="@) matches Some(a) {
                            lemma_kind_child_bounds(ns, c, "="@);
                        }
                    }
                    lemma_all_map(dc, f, p);
                }
            }
            lemma_all_map(cs, constness_top(file, b, ns), p);
        }
    }
    let d1 = header_diags(file, b);
    let d2 = d1 + separation_diags(file, b);
    let d3 = d2 + trailing_space_diags(file, b);
    let d4 = d3 + line_ending_diags(file, b);
    let d5 = d4 + leading_trailing_diags(file, b);
    let d6 = d5 + preprocessor_diags(file, b);
    let d7 = d6 + constness_diags(file, src);
    let d8 = d7 + inclusion_diags(file, b);
    lemma_all_concat(d1, separation_diags(file, b), p);
    lemma_all_concat(d2, trailing_space_diags(file, b), p);
    lemma_all_concat(d3, line_ending_diags(file, b), p);
    lemma_all_concat(d4, leading_trailing_diags(file, b), p);
    lemma_all_concat(d5, preprocessor_diags(file, b), p);
    lemma_all_concat(d6, constness_diags(file, src), p);
    lemma_all_concat(d7, inclusion_diags(file, b), p);
    lemma_all_concat(d8, assembly_diags(file, b), p);
}

} // verus!
