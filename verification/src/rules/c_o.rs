//! C-O: files and their organisation.
#![verifier::loop_isolation(false)]
use vstd::prelude::*;
use crate::text::{
    lemma_std_lines_len, lemma_split_nl_len, split_nl, contains, starts_with, starts_with_exec,
    str_eq,
};
use vstd::string::StringSliceAdditionalSpecFns;
use vstd::utf8::encode_utf8;
use crate::diagnostic::{
    DiagView, Diagnostic, Severity, diag, views, push_diag, push_all, fixed_diag, concat_range,
    all_satisfy, placed_in, lemma_all_concat, lemma_all_range,
};
use crate::stdlib::{
    has_suffix, str_ends_with, path_file_name, path_file_stem, file_name_of, file_stem_of,
    chars_of, path_extension, extension_of,
};
use crate::pattern::{regex_search, regex_is_match};
use crate::syntax::{
    NodeView, SyntaxTree, c_syntax, parse, children, children_of, has_kind, kind_is, tree_fits,
    fits, row_line,
    syntax_in_text, field_view, lemma_syntax_rows,
};
use crate::rules::c_f::{all_snake, all_snake_exec};
use crate::rules::c_a::{has_storage_class, has_storage_class_exec};

verus! {

// ---------------------------------------------------------------------------
// C-O4: file names in snake_case.

/// What C-O4 reports, given the stem of the path (its file name without
/// the extension); no stem counts as an empty one.
pub open spec fn snake_case_report(file: Seq<char>, stem: Option<Seq<char>>) -> Seq<DiagView> {
    let s = match stem {
        Some(s) => s,
        None => seq![],
    };
    if all_snake(s) {
        seq![]
    } else {
        seq![diag(file, 1, Severity::Minor, "C-O4"@, "Filename must be in snake_case"@)]
    }
}

pub open spec fn snake_case_diags(file: Seq<char>) -> Seq<DiagView> {
    snake_case_report(file, path_file_stem(file))
}

/// The C-O4 diagnostics for the stem `stem` of `filename`.
pub fn snake_case_verdict(filename: &str, stem: Option<String>) -> (r: Vec<Diagnostic>)
    ensures
        views(r@) == snake_case_report(filename@, field_view(stem)),
{
    let ghost given = field_view(stem);
    let s = match stem {
        Some(s) => s,
        None => String::new(),
    };
    let cs = chars_of(s.as_str());
    let mut out: Vec<Diagnostic> = Vec::new();
    if !all_snake_exec(&cs) {
        push_diag(
            &mut out,
            fixed_diag(filename, 1, Severity::Minor, "C-O4", "Filename must be in snake_case"),
        );
    }
    assert(views(out@) =~= snake_case_report(filename@, given));
    out
}

pub fn check_snake_case(filename: &str, _content: &str) -> (r: Vec<Diagnostic>)
    ensures
        views(r@) == snake_case_diags(filename@),
{
    snake_case_verdict(filename, file_stem_of(filename))
}

// ---------------------------------------------------------------------------
// C-O1: what must not be delivered.

/// The magic numbers of executables and objects: ELF, DOS (`MZ`), Mach-O.
pub open spec fn binary_magic(b: Seq<u8>) -> bool {
    starts_with(b, seq![0x7Fu8, 0x45u8, 0x4Cu8, 0x46u8]) || starts_with(b, seq![0x4Du8, 0x5Au8])
        || starts_with(b, seq![0xFEu8, 0xEDu8, 0xFAu8, 0xCEu8]) || starts_with(b, seq![0x4Du8, 0x5Au8])
}

/// The names of build products, editor backups and core dumps.
pub open spec fn unwanted_patterns() -> Seq<Seq<char>> {
    seq![
        r"^.*\.d$"@,
        r"^.*\.o$"@,
        r"^.*\.ko$"@,
        r"^.*\.obj$"@,
        r"^.*\.elf$"@,
        r"^.*\.ilk$"@,
        r"^.*\.map$"@,
        r"^.*\.exp$"@,
        r"^.*\.gch$"@,
        r"^.*\.pch$"@,
        r"^.*\.lib$"@,
        r"^.*\.a$"@,
        r"^.*\.la$"@,
        r"^.*\.lo$"@,
        r"^.*\.dll$"@,
        r"^.*\.so$"@,
        r"^.*\.so\..*$"@,
        r"^.*\.dylib$"@,
        r"^.*\.exe$"@,
        r"^.*\.out$"@,
        r"^.*\.app$"@,
        r"^.*\.i.*86$"@,
        r"^.*\.x86_64$"@,
        r"^.*\.hex$"@,
        r"^.*\.su$"@,
        r"^.*\.idb$"@,
        r"^.*\.pdb$"@,
        r"^.*\.mod.*$"@,
        r"^.*\.cmd$"@,
        r"^modules\.order$"@,
        r"^Module\.symvers$"@,
        r"^Mkfile\.old$"@,
        r"^dkms\.conf$"@,
        r"^.*\.gcno$"@,
        r"^.*\.gcda$"@,
        r"^.*\.gcov$"@,
        r"^.*~.*$"@,
        r"^.*#.*$"@,
        r"^vgcore\.\d+$"@,
    ]
}

/// What each of the patterns answers for the file name.
pub open spec fn unwanted_answers(name: Seq<char>) -> Seq<Option<bool>> {
    Seq::new(unwanted_patterns().len(), |k: int| regex_search(unwanted_patterns()[k], encode_utf8(name)))
}

/// Whether one of the answers is a match.
pub open spec fn any_match(answers: Seq<Option<bool>>) -> bool {
    exists|k: int| 0 <= k < answers.len() && #[trigger] answers[k] == Some(true)
}

/// The file name of a path, or nothing.
pub open spec fn name_or_empty(file: Seq<char>) -> Seq<char> {
    match path_file_name(file) {
        Some(s) => s,
        None => seq![],
    }
}

/// What C-O1 reports, given whether the content is a binary and what the
/// unwanted-name patterns answered: a binary is reported before an unwanted
/// name.
pub open spec fn delivery_report(file: Seq<char>, binary: bool, answers: Seq<Option<bool>>) -> Seq<DiagView> {
    if binary {
        seq![diag(file, 1, Severity::Major, "C-O1"@, "Binary files must not be delivered"@)]
    } else if any_match(answers) {
        seq![diag(file, 1, Severity::Major, "C-O1"@, "Unwanted file must not be delivered"@)]
    } else {
        seq![]
    }
}

pub open spec fn delivery_diags(file: Seq<char>, b: Seq<u8>) -> Seq<DiagView> {
    delivery_report(file, binary_magic(b), unwanted_answers(name_or_empty(file)))
}

fn binary_magic_exec(b: &[u8]) -> (r: bool)
    ensures
        r == binary_magic(b@),
{
    let elf: Vec<u8> = vec![0x7Fu8, 0x45u8, 0x4Cu8, 0x46u8];
    let dos: Vec<u8> = vec![0x4Du8, 0x5Au8];
    let macho: Vec<u8> = vec![0xFEu8, 0xEDu8, 0xFAu8, 0xCEu8];
    assert(elf@ =~= seq![0x7Fu8, 0x45u8, 0x4Cu8, 0x46u8]);
    assert(dos@ =~= seq![0x4Du8, 0x5Au8]);
    assert(macho@ =~= seq![0xFEu8, 0xEDu8, 0xFAu8, 0xCEu8]);
    starts_with_exec(b, elf.as_slice()) || starts_with_exec(b, dos.as_slice()) || starts_with_exec(
        b,
        macho.as_slice(),
    )
}

fn unwanted_answers_exec(name: &str) -> (r: Vec<Option<bool>>)
    ensures
        r@ == unwanted_answers(name@),
{
    let pats: Vec<&str> = vec![
        r"^.*\.d$",
        r"^.*\.o$",
        r"^.*\.ko$",
        r"^.*\.obj$",
        r"^.*\.elf$",
        r"^.*\.ilk$",
        r"^.*\.map$",
        r"^.*\.exp$",
        r"^.*\.gch$",
        r"^.*\.pch$",
        r"^.*\.lib$",
        r"^.*\.a$",
        r"^.*\.la$",
        r"^.*\.lo$",
        r"^.*\.dll$",
        r"^.*\.so$",
        r"^.*\.so\..*$",
        r"^.*\.dylib$",
        r"^.*\.exe$",
        r"^.*\.out$",
        r"^.*\.app$",
        r"^.*\.i.*86$",
        r"^.*\.x86_64$",
        r"^.*\.hex$",
        r"^.*\.su$",
        r"^.*\.idb$",
        r"^.*\.pdb$",
        r"^.*\.mod.*$",
        r"^.*\.cmd$",
        r"^modules\.order$",
        r"^Module\.symvers$",
        r"^Mkfile\.old$",
        r"^dkms\.conf$",
        r"^.*\.gcno$",
        r"^.*\.gcda$",
        r"^.*\.gcov$",
        r"^.*~.*$",
        r"^.*#.*$",
        r"^vgcore\.\d+$",
    ];
    assert(pats@.map_values(|p: &str| p@) =~= unwanted_patterns());
    let mut answers: Vec<Option<bool>> = Vec::new();
    let mut k: usize = 0;
    while k < pats.len()
        invariant
            k <= pats@.len(),
            pats@.map_values(|p: &str| p@) == unwanted_patterns(),
            answers@ == unwanted_answers(name@).take(k as int),
        decreases pats@.len() - k,
    {
        assert(pats@[k as int]@ == unwanted_patterns()[k as int]);
        answers.push(regex_is_match(pats[k], name.as_bytes()));
        assert(answers@ =~= unwanted_answers(name@).take(k + 1));
        k = k + 1;
    }
    assert(unwanted_answers(name@).take(k as int) =~= unwanted_answers(name@));
    answers
}

/// The C-O1 diagnostics, given whether the content is a binary and what the
/// unwanted-name patterns answered for the file name.
pub fn delivery_verdict(filename: &str, binary: bool, answers: &Vec<Option<bool>>) -> (r: Vec<Diagnostic>)
    ensures
        views(r@) == delivery_report(filename@, binary, answers@),
{
    let mut out: Vec<Diagnostic> = Vec::new();
    if binary {
        push_diag(
            &mut out,
            fixed_diag(filename, 1, Severity::Major, "C-O1", "Binary files must not be delivered"),
        );
    } else {
        let mut found = false;
        let mut k: usize = 0;
        while k < answers.len()
            invariant
                k <= answers@.len(),
                found == exists|m: int| 0 <= m < k && #[trigger] answers@[m] == Some(true),
            decreases answers@.len() - k,
        {
            if answers[k] == Some(true) {
                found = true;
            }
            k = k + 1;
        }
        if found {
            push_diag(
                &mut out,
                fixed_diag(filename, 1, Severity::Major, "C-O1", "Unwanted file must not be delivered"),
            );
        }
    }
    assert(views(out@) =~= delivery_report(filename@, binary, answers@));
    out
}

pub fn check_delivery_files(filename: &str, content: &str) -> (r: Vec<Diagnostic>)
    ensures
        views(r@) == delivery_diags(filename@, content.spec_bytes()),
{
    if binary_magic_exec(content.as_bytes()) {
        let none: Vec<Option<bool>> = Vec::new();
        return delivery_verdict(filename, true, &none);
    }
    let name = match file_name_of(filename) {
        Some(s) => s,
        None => String::new(),
    };
    let answers = unwanted_answers_exec(name.as_str());
    delivery_verdict(filename, false, &answers)
}

// ---------------------------------------------------------------------------
// C-O2: sources have the `.c` or `.h` extension.

/// The extensions of C and C++ sources and headers other than `c` and `h`.
pub open spec fn other_source_extensions() -> Seq<Seq<char>> {
    seq![
        "cpp"@,
        "cc"@,
        "cxx"@,
        "c++"@,
        "cp"@,
        "C"@,
        "hpp"@,
        "hh"@,
        "hxx"@,
        "h++"@,
        "H"@,
        "inl"@,
        "ipp"@,
        "tpp"@,
    ]
}

/// What C-O2 reports, given the extension of the path: one that marks a
/// source or a header, but not `.c` or `.h`.
pub open spec fn extension_report(file: Seq<char>, ext: Option<Seq<char>>) -> Seq<DiagView> {
    match ext {
        Some(e) => if other_source_extensions().contains(e) {
            seq![
                diag(
                    file,
                    1,
                    Severity::Major,
                    "C-O2"@,
                    "Source files must have the .c or .h extension"@,
                ),
            ]
        } else {
            seq![]
        },
        None => seq![],
    }
}

pub open spec fn extension_diags(file: Seq<char>) -> Seq<DiagView> {
    extension_report(file, path_extension(file))
}

/// The C-O2 diagnostics for the extension `ext` of `filename`.
pub fn extension_verdict(filename: &str, ext: Option<String>) -> (r: Vec<Diagnostic>)
    ensures
        views(r@) == extension_report(filename@, field_view(ext)),
{
    let ghost given = field_view(ext);
    let exts: Vec<&str> = vec![
        "cpp",
        "cc",
        "cxx",
        "c++",
        "cp",
        "C",
        "hpp",
        "hh",
        "hxx",
        "h++",
        "H",
        "inl",
        "ipp",
        "tpp",
    ];
    assert(exts@.map_values(|e: &str| e@) =~= other_source_extensions());
    let mut out: Vec<Diagnostic> = Vec::new();
    match ext {
        Some(e) => {
            let mut k: usize = 0;
            let mut found = false;
            while k < exts.len()
                invariant
                    k <= exts@.len(),
                    exts@.map_values(|x: &str| x@) == other_source_extensions(),
                    found == exists|m: int| 0 <= m < k && other_source_extensions()[m] == e@,
                decreases exts@.len() - k,
            {
                assert(exts@[k as int]@ == other_source_extensions()[k as int]);
                if str_eq(exts[k], e.as_str()) {
                    found = true;
                }
                k = k + 1;
            }
            if found {
                push_diag(
                    &mut out,
                    fixed_diag(
                        filename,
                        1,
                        Severity::Major,
                        "C-O2",
                        "Source files must have the .c or .h extension",
                    ),
                );
            }
        },
        None => {},
    }
    assert(views(out@) =~= extension_report(filename@, given));
    out
}

pub fn check_extension(filename: &str) -> (r: Vec<Diagnostic>)
    ensures
        views(r@) == extension_diags(filename@),
{
    extension_verdict(filename, extension_of(filename))
}

// ---------------------------------------------------------------------------
// C-O3: at most ten functions, five of them not static, per file.

/// A definition declared `static` (a storage-class specifier among its
/// children).
pub open spec fn is_static_function(b: Seq<u8>, ns: Seq<NodeView>, i: int) -> bool {
    has_storage_class(b, ns, i, "static".spec_bytes())
}

/// How many of the first `n` top-level nodes `cs` are function definitions
/// (`non_static`: that are not static).
pub open spec fn functions_before(
    b: Seq<u8>,
    ns: Seq<NodeView>,
    cs: Seq<int>,
    n: int,
    non_static: bool,
) -> int
    decreases n,
{
    if n <= 0 {
        0
    } else {
        functions_before(b, ns, cs, n - 1, non_static) + if has_kind(ns, cs[n - 1], "function_definition"@)
            && !(non_static && is_static_function(b, ns, cs[n - 1])) {
            1int
        } else {
            0int
        }
    }
}

/// The sixth non-static function and those after it are reported; so are
/// the eleventh function and those after it, once each.
pub open spec fn count_at(file: Seq<char>, b: Seq<u8>, ns: Seq<NodeView>, cs: Seq<int>) -> spec_fn(
    int,
) -> Seq<DiagView> {
    |k: int|
        if has_kind(ns, cs[k], "function_definition"@) {
            if !is_static_function(b, ns, cs[k]) && functions_before(b, ns, cs, k + 1, true) > 5 {
                seq![
                    diag(
                        file,
                        ns[cs[k]].start_row + 1,
                        Severity::Major,
                        "C-O3"@,
                        "Too many non-static functions in the file"@,
                    ),
                ]
            } else if functions_before(b, ns, cs, k + 1, false) > 10 {
                seq![
                    diag(
                        file,
                        ns[cs[k]].start_row + 1,
                        Severity::Major,
                        "C-O3"@,
                        "Too many functions in the file"@,
                    ),
                ]
            } else {
                seq![]
            }
        } else {
            seq![]
        }
}

pub open spec fn functions_count_in_tree(file: Seq<char>, b: Seq<u8>, ns: Seq<NodeView>) -> Seq<DiagView> {
    concat_range(0, children(ns, 0).len() as int, count_at(file, b, ns, children(ns, 0)))
}

pub open spec fn functions_count_diags(file: Seq<char>, src: Seq<char>) -> Seq<DiagView> {
    if !has_suffix(file, ".c"@) && !has_suffix(file, ".h"@) {
        seq![]
    } else {
        match c_syntax(src) {
            Some(ns) => if tree_fits(ns) {
                functions_count_in_tree(file, encode_utf8(src), ns)
            } else {
                seq![]
            },
            None => seq![],
        }
    }
}

pub fn functions_count_in_tree_exec(filename: &str, content: &str, t: &SyntaxTree) -> (r: Vec<Diagnostic>)
    requires
        tree_fits(t@),
    ensures
        views(r@) == functions_count_in_tree(filename@, content.spec_bytes(), t@),
{
    let b = content.as_bytes();
    let cs = children_of(t, 0);
    let ghost all = children(t@, 0);
    let mut function_count: usize = 0;
    let mut non_static_count: usize = 0;
    let mut out: Vec<Diagnostic> = Vec::new();
    let mut k: usize = 0;
    while k < cs.len()
        invariant
            k <= cs@.len(),
            cs@.map_values(|c: usize| c as int) == all,
            function_count == functions_before(b@, t@, all, k as int, false),
            non_static_count == functions_before(b@, t@, all, k as int, true),
            function_count <= k,
            non_static_count <= k,
            views(out@) == concat_range(0, k as int, count_at(filename@, b@, t@, all)),
        decreases cs@.len() - k,
    {
        let i = cs[k];
        assert(all[k as int] == i as int);
        if kind_is(t, i, "function_definition") {
            let is_static = has_storage_class_exec(b, t, i, "static");
            function_count = function_count + 1;
            let mut reported = false;
            if !is_static {
                non_static_count = non_static_count + 1;
                if non_static_count > 5 {
                    push_diag(
                        &mut out,
                        fixed_diag(
                            filename,
                            row_line(t, i),
                            Severity::Major,
                            "C-O3",
                            "Too many non-static functions in the file",
                        ),
                    );
                    reported = true;
                }
            }
            if !reported && function_count > 10 {
                push_diag(
                    &mut out,
                    fixed_diag(
                        filename,
                        row_line(t, i),
                        Severity::Major,
                        "C-O3",
                        "Too many functions in the file",
                    ),
                );
            }
        }
        k = k + 1;
    }
    out
}

pub fn check_functions_count(filename: &str, content: &str) -> (r: Vec<Diagnostic>)
    ensures
        views(r@) == functions_count_diags(filename@, content@),
{
    if !str_ends_with(filename, ".c") && !str_ends_with(filename, ".h") {
        return Vec::new();
    }
    match parse(content) {
        Some(t) => if fits(&t) {
            functions_count_in_tree_exec(filename, content, &t)
        } else {
            Vec::new()
        },
        None => Vec::new(),
    }
}

// ---------------------------------------------------------------------------

pub open spec fn spec_check(file: Seq<char>, src: Seq<char>) -> Seq<DiagView> {
    snake_case_diags(file) + delivery_diags(file, encode_utf8(src)) + extension_diags(file)
        + functions_count_diags(file, src)
}

/// Runs every C-O rule.
pub fn check(filename: &str, content: &str) -> (r: Vec<Diagnostic>)
    ensures
        views(r@) == spec_check(filename@, content@),
{
    let mut diagnostics: Vec<Diagnostic> = Vec::new();
    push_all(&mut diagnostics, check_snake_case(filename, content));
    push_all(&mut diagnostics, check_delivery_files(filename, content));
    push_all(&mut diagnostics, check_extension(filename));
    push_all(&mut diagnostics, check_functions_count(filename, content));
    assert(views(diagnostics@) =~= spec_check(filename@, content@));
    diagnostics
}

pub proof fn lemma_placed(file: Seq<char>, src: Seq<char>)
    requires
        syntax_in_text(src),
    ensures
        all_satisfy(spec_check(file, src), placed_in(file, split_nl(encode_utf8(src)).len() as int)),
{
    let p = placed_in(file, split_nl(encode_utf8(src)).len() as int);
    lemma_split_nl_len(encode_utf8(src));
    lemma_std_lines_len(encode_utf8(src));
    lemma_syntax_rows(src);
    let b = encode_utf8(src);
    if let Some(ns) = c_syntax(src) {
        if tree_fits(ns) {
            let cs = children(ns, 0);
            let f = count_at(file, b, ns, cs);
            assert forall|k: int| 0 <= k < cs.len() implies all_satisfy(#[trigger] f(k), p) by {}
            lemma_all_range(0, cs.len() as int, f, p);
        }
    }
    lemma_all_concat(snake_case_diags(file), delivery_diags(file, b), p);
    lemma_all_concat(snake_case_diags(file) + delivery_diags(file, b), extension_diags(file), p);
    lemma_all_concat(
        snake_case_diags(file) + delivery_diags(file, b) + extension_diags(file),
        functions_count_diags(file, src),
        p,
    );
}

pub proof fn lemma_functions_before_grow(b: Seq<u8>, ns: Seq<NodeView>, cs: Seq<int>, m: int, n: int, non_static: bool)
    requires
        0 <= m <= n,
    ensures
        functions_before(b, ns, cs, m, non_static) <= functions_before(b, ns, cs, n, non_static),
    decreases n - m,
{
    if m < n {
        lemma_functions_before_grow(b, ns, cs, m, n - 1, non_static);
    }
}

pub proof fn lemma_count_prefix(file: Seq<char>, b: Seq<u8>, ns: Seq<NodeView>, cs: Seq<int>, m: int)
    requires
        0 <= m <= cs.len(),
    ensures
        concat_range(0, m, count_at(file, b, ns, cs)).len() == 0 <==> (functions_before(b, ns, cs, m, false) <= 10
            && functions_before(b, ns, cs, m, true) <= 5),
    decreases m,
{
    if m > 0 {
        lemma_count_prefix(file, b, ns, cs, m - 1);
        lemma_functions_before_grow(b, ns, cs, m - 1, m, false);
        lemma_functions_before_grow(b, ns, cs, m - 1, m, true);
    }
}

/// A file gets no C-O3 diagnostic exactly when it defines at most ten
/// functions, at most five of them not static.
pub proof fn law_function_count(file: Seq<char>, b: Seq<u8>, ns: Seq<NodeView>)
    ensures
        functions_count_in_tree(file, b, ns).len() == 0 <==> (functions_before(
            b,
            ns,
            children(ns, 0),
            children(ns, 0).len() as int,
            false,
        ) <= 10 && functions_before(b, ns, children(ns, 0), children(ns, 0).len() as int, true) <= 5),
{
    lemma_count_prefix(file, b, ns, children(ns, 0), children(ns, 0).len() as int);
}

} // verus!
