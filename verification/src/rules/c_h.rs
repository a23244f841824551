//! C-H: header files and macros.
#![verifier::loop_isolation(false)]
use vstd::prelude::*;
use vstd::string::StringSliceAdditionalSpecFns;
use vstd::utf8::encode_utf8;
use crate::diagnostic::{
    DiagView, Diagnostic, Severity, diag, views, push_diag, push_all, fixed_diag, concat_range,
    concat_map, lemma_concat_map_step, lemma_concat_map_all, all_satisfy, placed_in,
    lemma_all_concat, lemma_all_range, lemma_all_map,
};
use crate::text::{
    std_lines, line_ranges, range_texts, valid_ranges, copy_range, trim_start, trimmed_start,
    starts_with, starts_with_exec, find, find_exec, lemma_find_contains, contains, trim, trimmed,
    cr, count_byte, has_byte, lemma_ascii_len,
    lemma_std_lines_len, lemma_split_nl_len, split_nl,
};
use crate::stdlib::{
    has_suffix, str_ends_with, text_chars, text_string, chars_of, unicode_alphanumeric,
    is_alphanumeric,
};
use crate::syntax::{
    NodeView, SyntaxTree, c_syntax, parse, children, children_of, has_kind, kind_is, contains_kind,
    subtree_has_kind, tree_fits, fits, row_line,
    syntax_in_text, lemma_syntax_rows,
};
use crate::rules::c_f::over_top;
use crate::rules::c_a::{has_storage_class, has_storage_class_exec};

verus! {

// ---------------------------------------------------------------------------
// C-H2: include guards.

/// Whether some line, its leading white space dropped, starts with `p`.
pub open spec fn any_line_starts(lines: Seq<Seq<u8>>, p: Seq<u8>) -> bool {
    exists|i: int| 0 <= i < lines.len() && starts_with(trim_start(#[trigger] lines[i]), p)
}

/// A header needs an `#ifndef`, a `#define` and an `#endif` line.
pub open spec fn include_guard_diags(file: Seq<char>, b: Seq<u8>) -> Seq<DiagView> {
    let lines = std_lines(b);
    if has_suffix(file, ".h"@) && !(any_line_starts(lines, "#ifndef".spec_bytes())
        && any_line_starts(lines, "#define".spec_bytes()) && any_line_starts(
        lines,
        "#endif".spec_bytes(),
    )) {
        seq![diag(file, 1, Severity::Major, "C-H2"@, "Header must be protected by include guard"@)]
    } else {
        seq![]
    }
}

fn any_line_starts_exec(b: &[u8], ranges: &Vec<(usize, usize)>, p: &[u8]) -> (r: bool)
    requires
        valid_ranges(ranges@, b@.len() as int),
        range_texts(ranges@, b@) == std_lines(b@),
    ensures
        r == any_line_starts(std_lines(b@), p@),
{
    let ghost lines = std_lines(b@);
    let mut i: usize = 0;
    while i < ranges.len()
        invariant
            i <= ranges@.len() == lines.len(),
            forall|k: int| 0 <= k < i ==> !starts_with(trim_start(#[trigger] lines[k]), p@),
        decreases ranges@.len() - i,
    {
        let (s, e) = ranges[i];
        let line = copy_range(b, s, e);
        assert(line@ == lines[i as int]);
        let t = trimmed_start(line.as_slice());
        if starts_with_exec(t.as_slice(), p) {
            return true;
        }
        i = i + 1;
    }
    false
}

pub fn check_include_guard(filename: &str, content: &str) -> (r: Vec<Diagnostic>)
    ensures
        views(r@) == include_guard_diags(filename@, content.spec_bytes()),
{
    let mut out: Vec<Diagnostic> = Vec::new();
    if !str_ends_with(filename, ".h") {
        return out;
    }
    let b = content.as_bytes();
    let ranges = line_ranges(b);
    let has_ifndef = any_line_starts_exec(b, &ranges, "#ifndef".as_bytes());
    let has_define = any_line_starts_exec(b, &ranges, "#define".as_bytes());
    let has_endif = any_line_starts_exec(b, &ranges, "#endif".as_bytes());
    if !has_ifndef || !has_define || !has_endif {
        push_diag(
            &mut out,
            fixed_diag(filename, 1, Severity::Major, "C-H2", "Header must be protected by include guard"),
        );
    }
    assert(views(out@) =~= include_guard_diags(filename@, content.spec_bytes()));
    out
}

// ---------------------------------------------------------------------------
// C-H3: macros of one line and one statement.

/// `str::trim_end_matches('\r')`.
pub open spec fn strip_cr_end(b: Seq<u8>) -> Seq<u8>
    decreases b.len(),
{
    if b.len() > 0 && b.last() == cr() {
        strip_cr_end(b.drop_last())
    } else {
        b
    }
}

/// `str::replace(b, "\\\"", "")`: every backslash-quote pair, taken from the
/// left without overlap, is dropped.
pub open spec fn drop_escaped_quotes(b: Seq<u8>) -> Seq<u8>
    decreases b.len(),
{
    if b.len() == 0 {
        b
    } else if b.len() >= 2 && b[0] == 92u8 && b[1] == 34u8 {
        drop_escaped_quotes(b.skip(2))
    } else {
        seq![b[0]] + drop_escaped_quotes(b.skip(1))
    }
}

/// Whether a `;` stands in an even-numbered piece of the split at `"`, that
/// is, outside string literals.
pub open spec fn semicolon_outside_quotes(b: Seq<u8>) -> bool {
    exists|k: int| 0 <= k < b.len() && b[k] == 59u8 && count_byte(#[trigger] b.take(k), 34u8) % 2 == 0
}

/// A macro line that continues on the next line, or that holds a statement
/// separator outside string literals.
pub open spec fn abusive_macro(line: Seq<u8>) -> bool {
    (line.len() > 0 && line.last() == 92u8) || semicolon_outside_quotes(drop_escaped_quotes(line))
}

pub open spec fn is_define_line(line: Seq<u8>) -> bool {
    starts_with(trim_start(line), "#define".spec_bytes()) || starts_with(
        trim_start(line),
        "# define".spec_bytes(),
    )
}

pub open spec fn macro_size_at(file: Seq<char>, lines: Seq<Seq<u8>>) -> spec_fn(int) -> Seq<DiagView> {
    |i: int|
        if is_define_line(lines[i]) && abusive_macro(strip_cr_end(lines[i])) {
            seq![
                diag(
                    file,
                    i + 1,
                    Severity::Major,
                    "C-H3"@,
                    "Macro should fit on a single line with a single statement"@,
                ),
            ]
        } else {
            seq![]
        }
}

pub open spec fn macro_size_diags(file: Seq<char>, b: Seq<u8>) -> Seq<DiagView> {
    if has_suffix(file, ".c"@) || has_suffix(file, ".h"@) {
        concat_range(0, std_lines(b).len() as int, macro_size_at(file, std_lines(b)))
    } else {
        seq![]
    }
}

fn strip_cr_end_index(b: &[u8]) -> (r: usize)
    ensures
        r <= b@.len(),
        b@.take(r as int) == strip_cr_end(b@),
{
    let mut j: usize = b.len();
    assert(b@.take(j as int) =~= b@);
    while j > 0 && b[j - 1] == 13u8
        invariant
            j <= b@.len(),
            strip_cr_end(b@) == strip_cr_end(b@.take(j as int)),
        decreases j,
    {
        assert(b@.take(j as int).drop_last() =~= b@.take(j - 1));
        j = j - 1;
    }
    j
}

fn drop_escaped_quotes_exec(b: &[u8]) -> (r: Vec<u8>)
    ensures
        r@ == drop_escaped_quotes(b@),
{
    let mut out: Vec<u8> = Vec::new();
    let mut i: usize = 0;
    assert(b@.skip(0) =~= b@);
    while i < b.len()
        invariant
            i <= b@.len(),
            out@ + drop_escaped_quotes(b@.skip(i as int)) == drop_escaped_quotes(b@),
        decreases b@.len() - i,
    {
        let ghost rest = b@.skip(i as int);
        if i + 1 < b.len() && b[i] == 92u8 && b[i + 1] == 34u8 {
            assert(rest.skip(2) =~= b@.skip(i + 2));
            i = i + 2;
        } else {
            assert(rest.skip(1) =~= b@.skip(i + 1));
            let ghost prev = out@;
            out.push(b[i]);
            assert(out@ + drop_escaped_quotes(b@.skip(i + 1)) =~= prev + (seq![b@[i as int]]
                + drop_escaped_quotes(rest.skip(1))));
            i = i + 1;
        }
    }
    assert(b@.skip(i as int) =~= Seq::<u8>::empty());
    assert(out@ + Seq::<u8>::empty() =~= out@);
    out
}

fn semicolon_outside_quotes_exec(b: &[u8]) -> (r: bool)
    ensures
        r == semicolon_outside_quotes(b@),
{
    let mut k: usize = 0;
    let mut odd = false;
    assert(b@.take(0) =~= Seq::<u8>::empty());
    while k < b.len()
        invariant
            k <= b@.len(),
            odd == (count_byte(b@.take(k as int), 34u8) % 2 == 1),
            forall|m: int|
                0 <= m < k ==> !(b@[m] == 59u8 && count_byte(#[trigger] b@.take(m), 34u8) % 2 == 0),
        decreases b@.len() - k,
    {
        if b[k] == 59u8 && !odd {
            return true;
        }
        assert(b@.take(k + 1).drop_last() =~= b@.take(k as int));
        if b[k] == 34u8 {
            odd = !odd;
        }
        k = k + 1;
    }
    false
}

fn abusive_macro_exec(line: &[u8]) -> (r: bool)
    ensures
        r == abusive_macro(line@),
{
    if line.len() > 0 && line[line.len() - 1] == 92u8 {
        return true;
    }
    let cleaned = drop_escaped_quotes_exec(line);
    semicolon_outside_quotes_exec(cleaned.as_slice())
}

fn is_define_line_exec(line: &[u8]) -> (r: bool)
    ensures
        r == is_define_line(line@),
{
    let t = trimmed_start(line);
    starts_with_exec(t.as_slice(), "#define".as_bytes()) || starts_with_exec(
        t.as_slice(),
        "# define".as_bytes(),
    )
}

pub fn check_macro_size(filename: &str, content: &str) -> (r: Vec<Diagnostic>)
    ensures
        views(r@) == macro_size_diags(filename@, content.spec_bytes()),
{
    let mut out: Vec<Diagnostic> = Vec::new();
    if !str_ends_with(filename, ".c") && !str_ends_with(filename, ".h") {
        return out;
    }
    let b = content.as_bytes();
    let ranges = line_ranges(b);
    let ghost lines = std_lines(b@);
    let mut i: usize = 0;
    while i < ranges.len()
        invariant
            i <= ranges@.len() == lines.len(),
            views(out@) == concat_range(0, i as int, macro_size_at(filename@, lines)),
        decreases ranges@.len() - i,
    {
        let (s, e) = ranges[i];
        let line = copy_range(b, s, e);
        assert(line@ == lines[i as int]);
        if is_define_line_exec(line.as_slice()) {
            let j = strip_cr_end_index(line.as_slice());
            let stripped = copy_range(line.as_slice(), 0, j);
            assert(stripped@ =~= line@.take(j as int));
            if abusive_macro_exec(stripped.as_slice()) {
                push_diag(
                    &mut out,
                    fixed_diag(
                        filename,
                        i + 1,
                        Severity::Major,
                        "C-H3",
                        "Macro should fit on a single line with a single statement",
                    ),
                );
            }
        }
        i = i + 1;
    }
    out
}

// ---------------------------------------------------------------------------
// C-H1: what a source file may not hold.

/// The text before the first `//`.
pub open spec fn without_line_comment(b: Seq<u8>) -> Seq<u8> {
    match find(b, "//".spec_bytes()) {
        Some(i) => b.take(i),
        None => b,
    }
}

pub proof fn lemma_comment_markers()
    ensures
        "/*".spec_bytes().len() == 2,
        "*/".spec_bytes().len() == 2,
{
    reveal_strlit("/*");
    reveal_strlit("*/");
    lemma_ascii_len("/*");
    lemma_ascii_len("*/");
}

/// The text with its block comments cut out, from the left; an unclosed
/// comment cuts the rest of the text.
pub open spec fn without_block_comments(b: Seq<u8>) -> Seq<u8>
    decreases b.len(),
{
    match find(b, "/*".spec_bytes()) {
        Some(s) => match find(b.skip(s + 2), "*/".spec_bytes()) {
            Some(e) => {
                proof {
                    lemma_comment_markers();
                    lemma_find_contains(b, "/*".spec_bytes());
                    lemma_find_contains(b.skip(s + 2), "*/".spec_bytes());
                }
                without_block_comments(b.take(s) + b.skip(s + 2 + e + 2))
            },
            None => b.take(s),
        },
        None => b,
    }
}

/// A `#define` whose body, comments left out, is a bare name: no space and
/// no parenthesis.
pub open spec fn empty_define(rest: Seq<u8>) -> bool {
    let c = trim(without_block_comments(without_line_comment(rest)));
    !c.contains(32u8) && !c.contains(40u8)
}

/// A character that separates words: neither alphanumeric nor `_`.
pub open spec fn word_sep(c: char) -> bool {
    !unicode_alphanumeric(c) && c != '_'
}

/// Whether `w` stands at `k` in `cs` as a whole word.
pub open spec fn word_at(cs: Seq<char>, w: Seq<char>, k: int) -> bool {
    &&& 0 <= k
    &&& k + w.len() <= cs.len()
    &&& cs.subrange(k, k + w.len()) == w
    &&& (k == 0 || word_sep(cs[k - 1]))
    &&& (k + w.len() == cs.len() || word_sep(cs[k + w.len()]))
}

/// Whether `w` is one of the pieces of `cs` split at separators.
pub open spec fn has_word(cs: Seq<char>, w: Seq<char>) -> bool {
    exists|k: int| word_at(cs, w, k)
}

pub open spec fn directive_at(file: Seq<char>, lines: Seq<Seq<u8>>) -> spec_fn(int) -> Seq<DiagView> {
    |i: int|
        {
            let t = trim_start(lines[i]);
            if starts_with(t, "#define".spec_bytes()) {
                if !empty_define(t.skip("#define".spec_bytes().len() as int)) {
                    seq![
                        diag(
                            file,
                            i + 1,
                            Severity::Major,
                            "C-H1"@,
                            "Non-empty macro definitions are forbidden in source files"@,
                        ),
                    ]
                } else {
                    seq![]
                }
            } else if has_word(text_chars(t), "typedef"@) {
                seq![diag(file, i + 1, Severity::Major, "C-H1"@, "typedef is forbidden in source files"@)]
            } else {
                seq![]
            }
        }
}

pub open spec fn forbidden_directives_diags(file: Seq<char>, b: Seq<u8>) -> Seq<DiagView> {
    if has_suffix(file, ".c"@) {
        concat_range(0, std_lines(b).len() as int, directive_at(file, std_lines(b)))
    } else {
        seq![]
    }
}

fn without_block_comments_exec(b: &[u8]) -> (r: Vec<u8>)
    ensures
        r@ == without_block_comments(b@),
{
    proof {
        lemma_comment_markers();
    }
    let mut c = copy_range(b, 0, b.len());
    assert(c@ =~= b@);
    loop
        invariant
            without_block_comments(c@) == without_block_comments(b@),
        decreases c@.len(),
    {
        proof {
            lemma_find_contains(c@, "/*".spec_bytes());
        }
        let n = c.len();
        match find_exec(c.as_slice(), "/*".as_bytes()) {
            Some(s) => {
                let tail = copy_range(c.as_slice(), s + 2, n);
                assert(tail@ =~= c@.skip(s + 2));
                proof {
                    lemma_find_contains(tail@, "*/".spec_bytes());
                }
                match find_exec(tail.as_slice(), "*/".as_bytes()) {
                    Some(e) => {
                        let mut next = copy_range(c.as_slice(), 0, s);
                        let rest = copy_range(c.as_slice(), s + 2 + e + 2, c.len());
                        let ghost head = next@;
                        next.extend_from_slice(rest.as_slice());
                        assert(next@ =~= c@.take(s as int) + c@.skip(s + 2 + e + 2));
                        c = next;
                    },
                    None => {
                        let head = copy_range(c.as_slice(), 0, s);
                        assert(head@ =~= c@.take(s as int));
                        return head;
                    },
                }
            },
            None => {
                return c;
            },
        }
    }
}

fn empty_define_exec(rest: &[u8]) -> (r: bool)
    ensures
        r == empty_define(rest@),
{
    let line = match find_exec(rest, "//".as_bytes()) {
        Some(i) => copy_range(rest, 0, i),
        None => copy_range(rest, 0, rest.len()),
    };
    assert(line@ =~= without_line_comment(rest@));
    let cleaned = without_block_comments_exec(line.as_slice());
    let t = trimmed(cleaned.as_slice());
    !has_byte(t.as_slice(), 32u8) && !has_byte(t.as_slice(), 40u8)
}

/// Whether `w` stands at `k` in `cs`, as characters (separators not looked at).
fn chars_at(cs: &Vec<char>, w: &Vec<char>, k: usize) -> (r: bool)
    requires
        k + w@.len() <= cs@.len(),
    ensures
        r == (cs@.subrange(k as int, k + w@.len()) == w@),
{
    let n = cs.len();
    let mut m: usize = 0;
    while m < w.len()
        invariant
            n == cs@.len(),
            m <= w@.len(),
            forall|x: int| 0 <= x < m ==> cs@[k + x] == w@[x],
        decreases w@.len() - m,
    {
        if cs[k + m] != w[m] {
            assert(cs@.subrange(k as int, k + w@.len())[m as int] != w@[m as int]);
            return false;
        }
        m = m + 1;
    }
    assert(cs@.subrange(k as int, k + w@.len()) =~= w@);
    true
}

fn word_sep_exec(c: char) -> (r: bool)
    ensures
        r == word_sep(c),
{
    !is_alphanumeric(c) && c != '_'
}

fn has_word_exec(cs: &Vec<char>, w: &Vec<char>) -> (r: bool)
    ensures
        r == has_word(cs@, w@),
{
    if w.len() > cs.len() {
        return false;
    }
    let last = cs.len() - w.len();
    let mut k: usize = 0;
    while k <= last
        invariant
            last + w@.len() == cs@.len(),
            forall|m: int| 0 <= m < k ==> !word_at(cs@, w@, m),
        decreases last + 1 - k,
    {
        if chars_at(cs, w, k) && (k == 0 || word_sep_exec(cs[k - 1])) && (k == last || word_sep_exec(
            cs[k + w.len()],
        )) {
            assert(word_at(cs@, w@, k as int));
            return true;
        }
        if k == last {
            assert forall|m: int| 0 <= m implies !word_at(cs@, w@, m) by {
                if m > last {
                    assert(m + w@.len() > cs@.len());
                }
            }
            return false;
        }
        k = k + 1;
    }
    false
}

pub fn check_forbidden_directives(filename: &str, content: &str) -> (r: Vec<Diagnostic>)
    ensures
        views(r@) == forbidden_directives_diags(filename@, content.spec_bytes()),
{
    let mut out: Vec<Diagnostic> = Vec::new();
    if !str_ends_with(filename, ".c") {
        return out;
    }
    let b = content.as_bytes();
    let ranges = line_ranges(b);
    let ghost lines = std_lines(b@);
    let typedef = chars_of("typedef");
    let mut i: usize = 0;
    while i < ranges.len()
        invariant
            i <= ranges@.len() == lines.len(),
            typedef@ == "typedef"@,
            views(out@) == concat_range(0, i as int, directive_at(filename@, lines)),
        decreases ranges@.len() - i,
    {
        let (s, e) = ranges[i];
        let line = copy_range(b, s, e);
        assert(line@ == lines[i as int]);
        let t = trimmed_start(line.as_slice());
        let p = "#define".as_bytes();
        if starts_with_exec(t.as_slice(), p) {
            let rest = copy_range(t.as_slice(), p.len(), t.len());
            assert(rest@ =~= t@.skip(p@.len() as int));
            if !empty_define_exec(rest.as_slice()) {
                push_diag(
                    &mut out,
                    fixed_diag(
                        filename,
                        i + 1,
                        Severity::Major,
                        "C-H1",
                        "Non-empty macro definitions are forbidden in source files",
                    ),
                );
            }
        } else {
            let text = text_string(t.as_slice());
            let cs = chars_of(text.as_str());
            if has_word_exec(&cs, &typedef) {
                push_diag(
                    &mut out,
                    fixed_diag(filename, i + 1, Severity::Major, "C-H1", "typedef is forbidden in source files"),
                );
            }
        }
        i = i + 1;
    }
    out
}

// ---------------------------------------------------------------------------
// C-H1: where functions may be defined and declared.

/// A definition declared both `static` and `inline` (storage-class
/// specifiers among its children).
pub open spec fn static_inline(b: Seq<u8>, ns: Seq<NodeView>, i: int) -> bool {
    has_storage_class(b, ns, i, "static".spec_bytes()) && has_storage_class(
        b,
        ns,
        i,
        "inline".spec_bytes(),
    )
}

pub open spec fn placement_report(file: Seq<char>, ns: Seq<NodeView>, i: int, m: Seq<char>) -> Seq<DiagView> {
    seq![diag(file, ns[i].start_row + 1, Severity::Major, "C-H1"@, m)]
}

/// A top-level node of a source (`src`) or header (`hdr`) file: a static
/// inline definition in a source file, any other definition in a header, a
/// prototype in a source file.
pub open spec fn placement_top(file: Seq<char>, b: Seq<u8>, ns: Seq<NodeView>, src: bool, hdr: bool) -> spec_fn(int) -> Seq<
    DiagView,
> {
    |i: int|
        if has_kind(ns, i, "function_definition"@) {
            let si = static_inline(b, ns, i);
            (if src && si {
                placement_report(file, ns, i, "static inline functions are forbidden in source files"@)
            } else {
                seq![]
            }) + (if hdr && !si {
                placement_report(file, ns, i, "Only static inline function definitions are allowed in headers"@)
            } else {
                seq![]
            })
        } else if src && has_kind(ns, i, "declaration"@) && contains_kind(ns, i, "function_declarator"@) {
            placement_report(file, ns, i, "Function prototypes are forbidden in source files"@)
        } else {
            seq![]
        }
}

pub open spec fn placement_in_tree(file: Seq<char>, b: Seq<u8>, ns: Seq<NodeView>) -> Seq<DiagView> {
    over_top(ns, placement_top(file, b, ns, has_suffix(file, ".c"@), has_suffix(file, ".h"@)))
}

pub open spec fn placement_diags(file: Seq<char>, src: Seq<char>) -> Seq<DiagView> {
    if !has_suffix(file, ".c"@) && !has_suffix(file, ".h"@) {
        seq![]
    } else {
        match c_syntax(src) {
            Some(ns) => if tree_fits(ns) {
                placement_in_tree(file, encode_utf8(src), ns)
            } else {
                seq![]
            },
            None => seq![],
        }
    }
}

fn placement_of_node(filename: &str, b: &[u8], t: &SyntaxTree, i: usize, src: bool, hdr: bool) -> (r:
    Vec<Diagnostic>)
    requires
        i < t@.len(),
        tree_fits(t@),
    ensures
        views(r@) == placement_top(filename@, b@, t@, src, hdr)(i as int),
{
    let mut out: Vec<Diagnostic> = Vec::new();
    if kind_is(t, i, "function_definition") {
        let si = has_storage_class_exec(b, t, i, "static") && has_storage_class_exec(
            b,
            t,
            i,
            "inline",
        );
        if src && si {
            push_diag(
                &mut out,
                fixed_diag(
                    filename,
                    row_line(t, i),
                    Severity::Major,
                    "C-H1",
                    "static inline functions are forbidden in source files",
                ),
            );
        }
        if hdr && !si {
            push_diag(
                &mut out,
                fixed_diag(
                    filename,
                    row_line(t, i),
                    Severity::Major,
                    "C-H1",
                    "Only static inline function definitions are allowed in headers",
                ),
            );
        }
    } else if src && kind_is(t, i, "declaration") && subtree_has_kind(t, i, "function_declarator") {
        push_diag(
            &mut out,
            fixed_diag(
                filename,
                row_line(t, i),
                Severity::Major,
                "C-H1",
                "Function prototypes are forbidden in source files",
            ),
        );
    }
    assert(views(out@) =~= placement_top(filename@, b@, t@, src, hdr)(i as int));
    out
}

pub fn placement_in_tree_exec(filename: &str, content: &str, t: &SyntaxTree) -> (r: Vec<Diagnostic>)
    requires
        tree_fits(t@),
    ensures
        views(r@) == placement_in_tree(filename@, content.spec_bytes(), t@),
{
    let b = content.as_bytes();
    let src = str_ends_with(filename, ".c");
    let hdr = str_ends_with(filename, ".h");
    let cs = children_of(t, 0);
    let ghost all = children(t@, 0);
    let ghost f = placement_top(filename@, b@, t@, src, hdr);
    let mut out: Vec<Diagnostic> = Vec::new();
    let mut k: usize = 0;
    while k < cs.len()
        invariant
            k <= cs@.len(),
            cs@.map_values(|c: usize| c as int) == all,
            views(out@) == concat_map(all.take(k as int), f),
        decreases cs@.len() - k,
    {
        proof {
            lemma_concat_map_step(all, k as int, f);
        }
        push_all(&mut out, placement_of_node(filename, b, t, cs[k], src, hdr));
        k = k + 1;
    }
    proof {
        lemma_concat_map_all(all, f);
    }
    out
}

pub fn check_functions_placement(filename: &str, content: &str) -> (r: Vec<Diagnostic>)
    ensures
        views(r@) == placement_diags(filename@, content@),
{
    if !str_ends_with(filename, ".c") && !str_ends_with(filename, ".h") {
        return Vec::new();
    }
    match parse(content) {
        Some(t) => if fits(&t) {
            placement_in_tree_exec(filename, content, &t)
        } else {
            Vec::new()
        },
        None => Vec::new(),
    }
}

// ---------------------------------------------------------------------------

pub open spec fn spec_check(file: Seq<char>, src: Seq<char>) -> Seq<DiagView> {
    include_guard_diags(file, encode_utf8(src)) + forbidden_directives_diags(file, encode_utf8(src))
        + placement_diags(file, src) + macro_size_diags(file, encode_utf8(src))
}

/// Runs every C-H rule.
pub fn check(filename: &str, content: &str) -> (r: Vec<Diagnostic>)
    ensures
        views(r@) == spec_check(filename@, content@),
{
    let mut diagnostics: Vec<Diagnostic> = Vec::new();
    push_all(&mut diagnostics, check_include_guard(filename, content));
    push_all(&mut diagnostics, check_forbidden_directives(filename, content));
    push_all(&mut diagnostics, check_functions_placement(filename, content));
    push_all(&mut diagnostics, check_macro_size(filename, content));
    assert(views(diagnostics@) =~= spec_check(filename@, content@));
    diagnostics
}

pub proof fn lemma_placed(file: Seq<char>, src: Seq<char>)
    requires
        syntax_in_text(src),
    ensures
        all_satisfy(spec_check(file, src), placed_in(file, split_nl(encode_utf8(src)).len() as int)),
{
    let p = placed_in(file, split_nl(encode_utf8(src)).len() as int);
    lemma_split_nl_len(encode_utf8(src));
    lemma_std_lines_len(encode_utf8(src));
    lemma_syntax_rows(src);
    let b = encode_utf8(src);
    let lines = std_lines(b);
    assert forall|k: int| 0 <= k < lines.len() implies all_satisfy(#[trigger] directive_at(file, lines)(k), p) by {}
    lemma_all_range(0, lines.len() as int, directive_at(file, lines), p);
    assert forall|k: int| 0 <= k < lines.len() implies all_satisfy(#[trigger] macro_size_at(file, lines)(k), p) by {}
    lemma_all_range(0, lines.len() as int, macro_size_at(file, lines), p);
    if let Some(ns) = c_syntax(src) {
        if tree_fits(ns) {
            let cs = children(ns, 0);
            let f = placement_top(file, b, ns, has_suffix(file, ".c"@), has_suffix(file, ".h"@));
            assert forall|k: int| 0 <= k < cs.len() implies all_satisfy(#[trigger] f(cs[k]), p) by {}
            lemma_all_map(cs, f, p);
        }
    }
    let d1 = include_guard_diags(file, b);
    let d2 = d1 + forbidden_directives_diags(file, b);
    let d3 = d2 + placement_diags(file, src);
    lemma_all_concat(d1, forbidden_directives_diags(file, b), p);
    lemma_all_concat(d2, placement_diags(file, src), p);
    lemma_all_concat(d3, macro_size_diags(file, b), p);
}

} // verus!
