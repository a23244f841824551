//! The rule families, and the check that runs them all on one file.
pub mod c_a;
pub mod c_c;
pub mod c_f;
pub mod c_g;
pub mod c_h;
pub mod c_l;
pub mod c_o;
pub mod c_v;
pub mod c_z;

use vstd::prelude::*;
use vstd::utf8::encode_utf8;
use vstd::string::StringSliceAdditionalSpecFns;
use crate::diagnostic::{DiagView, Diagnostic, views, push_all, placed_in, lemma_all_concat};
use crate::syntax::syntax_in_text;
use crate::text::split_nl;

verus! {

/// The diagnostics of every rule family on one file, family by family.
pub open spec fn spec_check(file: Seq<char>, src: Seq<char>) -> Seq<DiagView> {
    c_g::spec_check(file, src) + c_a::spec_check(file, src) + c_c::spec_check(file, src)
        + c_f::spec_check(file, src) + c_o::spec_check(file, src) + c_h::spec_check(file, src)
        + c_l::spec_check(file, src) + c_v::spec_check(file, src) + c_z::spec_check(
        file,
        encode_utf8(src),
    )
}

/// Runs every rule on one file. Each diagnostic names the file and a line
/// from 1 to the number of pieces that `content.split('\n')` gives.
pub fn check(filename: &str, content: &str) -> (r: Vec<Diagnostic>)
    ensures
        views(r@) == spec_check(filename@, content@),
        forall|k: int|
            0 <= k < views(r@).len() ==> (#[trigger] views(r@)[k]).file == filename@ && 1 <= views(r@)[k].line
                <= split_nl(content.spec_bytes()).len(),
{
    let mut diagnostics: Vec<Diagnostic> = Vec::new();
    push_all(&mut diagnostics, c_g::check(filename, content));
    push_all(&mut diagnostics, c_a::check(filename, content));
    push_all(&mut diagnostics, c_c::check(filename, content));
    push_all(&mut diagnostics, c_f::check(filename, content));
    push_all(&mut diagnostics, c_o::check(filename, content));
    push_all(&mut diagnostics, c_h::check(filename, content));
    push_all(&mut diagnostics, c_l::check(filename, content));
    push_all(&mut diagnostics, c_v::check(filename, content));
    push_all(&mut diagnostics, c_z::check(filename, content));
    assert(views(diagnostics@) =~= spec_check(filename@, content@));
    proof {
        law_diagnostics_are_placed(filename@, content@);
    }
    diagnostics
}

/// Every diagnostic that the checks give for a file names that file and a
/// line numbered from 1 up to the number of its newline-separated pieces,
/// given that its syntax tree lies within its text (as `parse` ensures of
/// every text it parses).
pub proof fn law_diagnostics_are_placed(file: Seq<char>, src: Seq<char>)
    requires
        syntax_in_text(src),
    ensures
        forall|k: int|
            0 <= k < spec_check(file, src).len() ==> (#[trigger] spec_check(file, src)[k]).file == file && 1
                <= spec_check(file, src)[k].line <= split_nl(encode_utf8(src)).len(),
{
    let p = placed_in(file, split_nl(encode_utf8(src)).len() as int);
    c_g::lemma_placed(file, src);
    c_a::lemma_placed(file, src);
    c_c::lemma_placed(file, src);
    c_f::lemma_placed(file, src);
    c_o::lemma_placed(file, src);
    c_h::lemma_placed(file, src);
    c_l::lemma_placed(file, src);
    c_v::lemma_placed(file, src);
    c_z::lemma_placed(file, encode_utf8(src));
    let d1 = c_g::spec_check(file, src);
    let d2 = d1 + c_a::spec_check(file, src);
    let d3 = d2 + c_c::spec_check(file, src);
    let d4 = d3 + c_f::spec_check(file, src);
    let d5 = d4 + c_o::spec_check(file, src);
    let d6 = d5 + c_h::spec_check(file, src);
    let d7 = d6 + c_l::spec_check(file, src);
    let d8 = d7 + c_v::spec_check(file, src);
    lemma_all_concat(d1, c_a::spec_check(file, src), p);
    lemma_all_concat(d2, c_c::spec_check(file, src), p);
    lemma_all_concat(d3, c_f::spec_check(file, src), p);
    lemma_all_concat(d4, c_o::spec_check(file, src), p);
    lemma_all_concat(d5, c_h::spec_check(file, src), p);
    lemma_all_concat(d6, c_l::spec_check(file, src), p);
    lemma_all_concat(d7, c_v::spec_check(file, src), p);
    lemma_all_concat(d8, c_z::spec_check(file, encode_utf8(src)), p);
    assert forall|k: int| 0 <= k < spec_check(file, src).len() implies (#[trigger] spec_check(file, src)[k]).file
        == file && 1 <= spec_check(file, src)[k].line <= split_nl(encode_utf8(src)).len() by {
        assert(p(spec_check(file, src)[k]));
    }
}

} // verus!
