//! C-Z: miscellaneous rules.
use vstd::prelude::*;
use crate::text::{
    lemma_split_nl_count, lemma_count_byte_prefix, lemma_find_byte_from_bounds, split_nl, nl,
    find_byte_from, lemma_find_byte_from, count_byte, lemma_count_byte_le, find_byte,
    count_byte_upto,
};
use vstd::string::StringSliceAdditionalSpecFns;
use crate::diagnostic::{
    DiagView, Diagnostic, Severity, diag, views, push_diag, push_all, fixed_diag, all_satisfy, placed_in,
};

verus! {

/// C-Z1: a file holds no null byte; the first one is reported on its line.
pub open spec fn null_character_diags(file: Seq<char>, b: Seq<u8>) -> Seq<DiagView> {
    match find_byte_from(b, 0u8, 0) {
        Some(pos) => seq![
            diag(
                file,
                (count_byte(b.take(pos), nl()) + 1) as int,
                Severity::Fatal,
                "C-Z1"@,
                "File contains a null character"@,
            ),
        ],
        None => seq![],
    }
}

pub open spec fn spec_check(file: Seq<char>, b: Seq<u8>) -> Seq<DiagView> {
    null_character_diags(file, b)
}

pub fn check_null_character(filename: &str, content: &str) -> (r: Vec<Diagnostic>)
    ensures
        views(r@) == null_character_diags(filename@, content.spec_bytes()),
{
    let bytes = content.as_bytes();
    let mut out: Vec<Diagnostic> = Vec::new();
    match find_byte(bytes, 0u8) {
        Some(pos) => {
            let n = count_byte_upto(bytes, 10u8, pos);
            let len = bytes.len();
            proof {
                lemma_count_byte_le(bytes@.take(pos as int), nl());
            }
            push_diag(
                &mut out,
                fixed_diag(filename, n + 1, Severity::Fatal, "C-Z1", "File contains a null character"),
            );
        },
        None => {},
    }
    assert(views(out@) =~= null_character_diags(filename@, content.spec_bytes()));
    out
}

/// Runs every C-Z rule.
pub fn check(filename: &str, content: &str) -> (r: Vec<Diagnostic>)
    ensures
        views(r@) == spec_check(filename@, content.spec_bytes()),
{
    let mut diagnostics: Vec<Diagnostic> = Vec::new();
    push_all(&mut diagnostics, check_null_character(filename, content));
    assert(views(diagnostics@) =~= spec_check(filename@, content.spec_bytes()));
    diagnostics
}

pub proof fn lemma_placed(file: Seq<char>, b: Seq<u8>)
    ensures
        all_satisfy(spec_check(file, b), placed_in(file, split_nl(b).len() as int)),
{
    lemma_split_nl_count(b);
    if let Some(pos) = find_byte_from(b, 0u8, 0) {
        lemma_find_byte_from_bounds(b, 0u8, 0);
        lemma_count_byte_prefix(b, nl(), pos);
    }
}

/// A file gets a C-Z1 diagnostic exactly when it holds a null byte.
pub proof fn law_null_character_reported(file: Seq<char>, b: Seq<u8>)
    ensures
        null_character_diags(file, b).len() > 0 <==> b.contains(0u8),
{
    lemma_find_byte_from(b, 0u8, 0);
}

} // verus!
