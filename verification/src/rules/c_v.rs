//! C-V: names of types, macros and enum members, and where `*` goes.
#![verifier::loop_isolation(false)]
use vstd::prelude::*;
use vstd::string::StringSliceAdditionalSpecFns;
use vstd::utf8::encode_utf8;
use crate::diagnostic::{
    DiagView, Diagnostic, Severity, diag, views, push_diag, push_all, fixed_diag, new_diag,
    concat_range, concat_map, lemma_concat_map_step, lemma_concat_map_all, all_satisfy, placed_in,
    lemma_all_concat, lemma_all_range, lemma_all_map, lemma_concat_map_contains,
    lemma_concat_range_contains, lemma_wrapped_injective,
};
use crate::text::{
    std_lines, line_ranges, copy_range, trim_start, trimmed_start, starts_with, starts_with_exec,
    ends_with, ends_with_exec, bytes_eq, ws_words, ws_words_exec,
    lemma_std_lines_len, lemma_split_nl_len, split_nl,
};
use crate::stdlib::{
    text_chars, text_string, chars_of, unicode_alphabetic, unicode_uppercase, is_alphabetic,
    is_uppercase,
};
use crate::pattern::{regex_search, regex_is_match};
use crate::syntax::{
    NodeView, SyntaxTree, c_syntax, parse, children, children_of, has_kind, kind_is, field_child,
    child_by_field, sub_end, subtree_end, text_or_empty, text_or_nothing, tree_fits, node_fits,
    fits, row_line, node_count, lemma_field_child_after,
    syntax_in_text, lemma_syntax_rows,
};
use crate::rules::c_f::over_top;
use crate::rules::c_a::quoted_message;

verus! {

// ---------------------------------------------------------------------------
// C-V1: return types in snake_case.

/// Words of a type that are no type name of their own.
pub open spec fn type_modifiers() -> Seq<Seq<u8>> {
    seq![
        "inline".spec_bytes(),
        "static".spec_bytes(),
        "unsigned".spec_bytes(),
        "signed".spec_bytes(),
        "short".spec_bytes(),
        "long".spec_bytes(),
        "volatile".spec_bytes(),
        "struct".spec_bytes(),
    ]
}

/// Type names of common libraries that are accepted as they are.
#[verifier::opaque]
pub open spec fn allowed_type(w: Seq<u8>) -> bool {
    w == "sfBlack".spec_bytes()
        || w == "sfBlendAdd".spec_bytes()
        || w == "sfBlendAlpha".spec_bytes()
        || w == "sfBlendMultiply".spec_bytes()
        || w == "sfBlendNone".spec_bytes()
        || w == "sfBlue".spec_bytes()
        || w == "sfCircleShape".spec_bytes()
        || w == "sfClock".spec_bytes()
        || w == "sfColor".spec_bytes()
        || w == "sfContext".spec_bytes()
        || w == "sfConvexShape".spec_bytes()
        || w == "sfCursor".spec_bytes()
        || w == "sfCyan".spec_bytes()
        || w == "sfFloatRect".spec_bytes()
        || w == "sfFont".spec_bytes()
        || w == "sfGreen".spec_bytes()
        || w == "sfImage".spec_bytes()
        || w == "sfIntRect".spec_bytes()
        || w == "sfJoystick".spec_bytes()
        || w == "sfKeyboard".spec_bytes()
        || w == "sfKeyCode".spec_bytes()
        || w == "sfListener".spec_bytes()
        || w == "sfMagenta".spec_bytes()
        || w == "sfMicroseconds".spec_bytes()
        || w == "sfMilliseconds".spec_bytes()
        || w == "sfMouse".spec_bytes()
        || w == "sfMouseButton".spec_bytes()
        || w == "sfMouseButtonEvent".spec_bytes()
        || w == "sfMusic".spec_bytes()
        || w == "sfMutex".spec_bytes()
        || w == "sfRectangleShape".spec_bytes()
        || w == "sfRed".spec_bytes()
        || w == "sfRenderStates".spec_bytes()
        || w == "sfRenderTexture".spec_bytes()
        || w == "sfRenderWindow".spec_bytes()
        || w == "sfSeconds".spec_bytes()
        || w == "sfSensor".spec_bytes()
        || w == "sfShader".spec_bytes()
        || w == "sfShape".spec_bytes()
        || w == "sfSleep".spec_bytes()
        || w == "sfSound".spec_bytes()
        || w == "sfSoundBuffer".spec_bytes()
        || w == "sfSoundBufferRecorder".spec_bytes()
        || w == "sfSoundRecorder".spec_bytes()
        || w == "sfSoundStream".spec_bytes()
        || w == "sfSprite".spec_bytes()
        || w == "sfText".spec_bytes()
        || w == "sfTexture".spec_bytes()
        || w == "sfThread".spec_bytes()
        || w == "sfTime".spec_bytes()
        || w == "sfTouch".spec_bytes()
        || w == "sfTransform".spec_bytes()
        || w == "sfTransformable".spec_bytes()
        || w == "sfTransparent".spec_bytes()
        || w == "sfVertex".spec_bytes()
        || w == "sfVertexArray".spec_bytes()
        || w == "sfVertexBuffer".spec_bytes()
        || w == "sfVideoMode".spec_bytes()
        || w == "sfView".spec_bytes()
        || w == "sfWhite".spec_bytes()
        || w == "sfWindow".spec_bytes()
        || w == "sfYellow".spec_bytes()
        || w == "sfBool".spec_bytes()
        || w == "sfFtp".spec_bytes()
        || w == "sfFtpDirectoryResponse".spec_bytes()
        || w == "sfFtpListingResponse".spec_bytes()
        || w == "sfFtpResponse".spec_bytes()
        || w == "sfGlslIvec2".spec_bytes()
        || w == "sfGlslVec2".spec_bytes()
        || w == "sfGlslVec3".spec_bytes()
        || w == "sfHttp".spec_bytes()
        || w == "sfHttpRequest".spec_bytes()
        || w == "sfHttpResponse".spec_bytes()
        || w == "sfInputStream".spec_bytes()
        || w == "sfInputStreamGetSizeFunc".spec_bytes()
        || w == "sfInputStreamReadFunc".spec_bytes()
        || w == "sfInputStreamSeekFunc".spec_bytes()
        || w == "sfInputStreamTellFunc".spec_bytes()
        || w == "sfInt16".spec_bytes()
        || w == "sfInt32".spec_bytes()
        || w == "sfInt64".spec_bytes()
        || w == "sfInt8".spec_bytes()
        || w == "sfPacket".spec_bytes()
        || w == "sfShapeGetPointCallback".spec_bytes()
        || w == "sfSocketSelector".spec_bytes()
        || w == "sfSoundRecorderProcessCallback".spec_bytes()
        || w == "sfSoundRecorderStartCallback".spec_bytes()
        || w == "sfSoundRecorderStopCallback".spec_bytes()
        || w == "sfSoundStreamChunk".spec_bytes()
        || w == "sfSoundStreamGetDataCallback".spec_bytes()
        || w == "sfSoundStreamSeekCallback".spec_bytes()
        || w == "sfTcpListener".spec_bytes()
        || w == "sfTcpSocket".spec_bytes()
        || w == "sfUdpSocket".spec_bytes()
        || w == "sfUint16".spec_bytes()
        || w == "sfUint32".spec_bytes()
        || w == "sfUint64".spec_bytes()
        || w == "sfUint8".spec_bytes()
        || w == "sfVector2f".spec_bytes()
        || w == "sfVector2u".spec_bytes()
        || w == "sfVector2i".spec_bytes()
        || w == "sfVector3f".spec_bytes()
        || w == "sfVector3u".spec_bytes()
        || w == "sfVector3i".spec_bytes()
        || w == "sfWindowHandle".spec_bytes()
        || w == "userData".spec_bytes()
        || w == "FILE".spec_bytes()
        || w == "DIR".spec_bytes()
        || w == "Elf_Byte".spec_bytes()
        || w == "Elf32_Sym".spec_bytes()
        || w == "Elf32_Off".spec_bytes()
        || w == "Elf32_Addr".spec_bytes()
        || w == "Elf32_Section".spec_bytes()
        || w == "Elf32_Versym".spec_bytes()
        || w == "Elf32_Half".spec_bytes()
        || w == "Elf32_Sword".spec_bytes()
        || w == "Elf32_Word".spec_bytes()
        || w == "Elf32_Sxword".spec_bytes()
        || w == "Elf32_Xword".spec_bytes()
        || w == "Elf32_Ehdr".spec_bytes()
        || w == "Elf32_Phdr".spec_bytes()
        || w == "Elf32_Shdr".spec_bytes()
        || w == "Elf32_Rel".spec_bytes()
        || w == "Elf32_Rela".spec_bytes()
        || w == "Elf32_Dyn".spec_bytes()
        || w == "Elf32_Nhdr".spec_bytes()
        || w == "Elf64_Sym".spec_bytes()
        || w == "Elf64_Off".spec_bytes()
        || w == "Elf64_Addr".spec_bytes()
        || w == "Elf64_Section".spec_bytes()
        || w == "Elf64_Versym".spec_bytes()
        || w == "Elf64_Half".spec_bytes()
        || w == "Elf64_Sword".spec_bytes()
        || w == "Elf64_Word".spec_bytes()
        || w == "Elf64_Sxword".spec_bytes()
        || w == "Elf64_Xword".spec_bytes()
        || w == "Elf64_Ehdr".spec_bytes()
        || w == "Elf64_Phdr".spec_bytes()
        || w == "Elf64_Shdr".spec_bytes()
        || w == "Elf64_Rel".spec_bytes()
        || w == "Elf64_Rela".spec_bytes()
        || w == "Elf64_Dyn".spec_bytes()
        || w == "Elf64_Nhdr".spec_bytes()
        || w == "_Bool".spec_bytes()
        || w == "WINDOW".spec_bytes()
}

/// The words of a type without its modifiers.
pub open spec fn core_words(ws: Seq<Seq<u8>>) -> Seq<Seq<u8>>
    decreases ws.len(),
{
    if ws.len() == 0 {
        seq![]
    } else {
        core_words(ws.drop_last()) + if type_modifiers().contains(ws.last()) {
            seq![]
        } else {
            seq![ws.last()]
        }
    }
}

pub open spec fn snake_type_pattern() -> Seq<char> {
    r"^[a-z][a-z0-9_]*$"@
}

/// The last word of the return type of a top-level function, modifiers left
/// out, is snake_case or one of the accepted names.
pub open spec fn return_type_top(file: Seq<char>, b: Seq<u8>, ns: Seq<NodeView>) -> spec_fn(int) -> Seq<
    DiagView,
> {
    |i: int|
        if has_kind(ns, i, "function_definition"@) && field_child(ns, i, "type"@) is Some {
            let core = core_words(ws_words(text_or_empty(b, ns[field_child(ns, i, "type"@)->0])));
            if core.len() > 0 && regex_search(snake_type_pattern(), core.last()) != Some(true)
                && !allowed_type(core.last()) {
                seq![
                    diag(
                        file,
                        ns[i].start_row + 1,
                        Severity::Minor,
                        "C-V1"@,
                        "Return type '"@ + text_chars(core.last()) + "' is not in snake_case"@,
                    ),
                ]
            } else {
                seq![]
            }
        } else {
            seq![]
        }
}

pub open spec fn return_type_diags(file: Seq<char>, src: Seq<char>) -> Seq<DiagView> {
    match c_syntax(src) {
        Some(ns) => if tree_fits(ns) {
            over_top(ns, return_type_top(file, encode_utf8(src), ns))
        } else {
            seq![]
        },
        None => seq![],
    }
}

/// Whether `w` is one of `list`.
fn listed(list: &Vec<&str>, w: &[u8]) -> (r: bool)
    ensures
        r == list@.map_values(|s: &str| s.spec_bytes()).contains(w@),
{
    let ghost l = list@.map_values(|s: &str| s.spec_bytes());
    let mut k: usize = 0;
    while k < list.len()
        invariant
            k <= list@.len() == l.len(),
            l == list@.map_values(|s: &str| s.spec_bytes()),
            forall|m: int| 0 <= m < k ==> #[trigger] l[m] != w@,
        decreases list@.len() - k,
    {
        if bytes_eq(list[k].as_bytes(), w) {
            assert(l[k as int] == w@);
            return true;
        }
        k = k + 1;
    }
    false
}

fn modifiers_list() -> (r: Vec<&'static str>)
    ensures
        r@.map_values(|s: &str| s.spec_bytes()) == type_modifiers(),
{
    let r: Vec<&'static str> = vec![
        "inline",
        "static",
        "unsigned",
        "signed",
        "short",
        "long",
        "volatile",
        "struct",
    ];
    assert(r@.map_values(|s: &str| s.spec_bytes()) =~= type_modifiers());
    r
}

fn allowed_type_exec(w: &[u8]) -> (r: bool)
    ensures
        r == allowed_type(w@),
{
    reveal(allowed_type);
    bytes_eq(w, "sfBlack".as_bytes())
        || bytes_eq(w, "sfBlendAdd".as_bytes())
        || bytes_eq(w, "sfBlendAlpha".as_bytes())
        || bytes_eq(w, "sfBlendMultiply".as_bytes())
        || bytes_eq(w, "sfBlendNone".as_bytes())
        || bytes_eq(w, "sfBlue".as_bytes())
        || bytes_eq(w, "sfCircleShape".as_bytes())
        || bytes_eq(w, "sfClock".as_bytes())
        || bytes_eq(w, "sfColor".as_bytes())
        || bytes_eq(w, "sfContext".as_bytes())
        || bytes_eq(w, "sfConvexShape".as_bytes())
        || bytes_eq(w, "sfCursor".as_bytes())
        || bytes_eq(w, "sfCyan".as_bytes())
        || bytes_eq(w, "sfFloatRect".as_bytes())
        || bytes_eq(w, "sfFont".as_bytes())
        || bytes_eq(w, "sfGreen".as_bytes())
        || bytes_eq(w, "sfImage".as_bytes())
        || bytes_eq(w, "sfIntRect".as_bytes())
        || bytes_eq(w, "sfJoystick".as_bytes())
        || bytes_eq(w, "sfKeyboard".as_bytes())
        || bytes_eq(w, "sfKeyCode".as_bytes())
        || bytes_eq(w, "sfListener".as_bytes())
        || bytes_eq(w, "sfMagenta".as_bytes())
        || bytes_eq(w, "sfMicroseconds".as_bytes())
        || bytes_eq(w, "sfMilliseconds".as_bytes())
        || bytes_eq(w, "sfMouse".as_bytes())
        || bytes_eq(w, "sfMouseButton".as_bytes())
        || bytes_eq(w, "sfMouseButtonEvent".as_bytes())
        || bytes_eq(w, "sfMusic".as_bytes())
        || bytes_eq(w, "sfMutex".as_bytes())
        || bytes_eq(w, "sfRectangleShape".as_bytes())
        || bytes_eq(w, "sfRed".as_bytes())
        || bytes_eq(w, "sfRenderStates".as_bytes())
        || bytes_eq(w, "sfRenderTexture".as_bytes())
        || bytes_eq(w, "sfRenderWindow".as_bytes())
        || bytes_eq(w, "sfSeconds".as_bytes())
        || bytes_eq(w, "sfSensor".as_bytes())
        || bytes_eq(w, "sfShader".as_bytes())
        || bytes_eq(w, "sfShape".as_bytes())
        || bytes_eq(w, "sfSleep".as_bytes())
        || bytes_eq(w, "sfSound".as_bytes())
        || bytes_eq(w, "sfSoundBuffer".as_bytes())
        || bytes_eq(w, "sfSoundBufferRecorder".as_bytes())
        || bytes_eq(w, "sfSoundRecorder".as_bytes())
        || bytes_eq(w, "sfSoundStream".as_bytes())
        || bytes_eq(w, "sfSprite".as_bytes())
        || bytes_eq(w, "sfText".as_bytes())
        || bytes_eq(w, "sfTexture".as_bytes())
        || bytes_eq(w, "sfThread".as_bytes())
        || bytes_eq(w, "sfTime".as_bytes())
        || bytes_eq(w, "sfTouch".as_bytes())
        || bytes_eq(w, "sfTransform".as_bytes())
        || bytes_eq(w, "sfTransformable".as_bytes())
        || bytes_eq(w, "sfTransparent".as_bytes())
        || bytes_eq(w, "sfVertex".as_bytes())
        || bytes_eq(w, "sfVertexArray".as_bytes())
        || bytes_eq(w, "sfVertexBuffer".as_bytes())
        || bytes_eq(w, "sfVideoMode".as_bytes())
        || bytes_eq(w, "sfView".as_bytes())
        || bytes_eq(w, "sfWhite".as_bytes())
        || bytes_eq(w, "sfWindow".as_bytes())
        || bytes_eq(w, "sfYellow".as_bytes())
        || bytes_eq(w, "sfBool".as_bytes())
        || bytes_eq(w, "sfFtp".as_bytes())
        || bytes_eq(w, "sfFtpDirectoryResponse".as_bytes())
        || bytes_eq(w, "sfFtpListingResponse".as_bytes())
        || bytes_eq(w, "sfFtpResponse".as_bytes())
        || bytes_eq(w, "sfGlslIvec2".as_bytes())
        || bytes_eq(w, "sfGlslVec2".as_bytes())
        || bytes_eq(w, "sfGlslVec3".as_bytes())
        || bytes_eq(w, "sfHttp".as_bytes())
        || bytes_eq(w, "sfHttpRequest".as_bytes())
        || bytes_eq(w, "sfHttpResponse".as_bytes())
        || bytes_eq(w, "sfInputStream".as_bytes())
        || bytes_eq(w, "sfInputStreamGetSizeFunc".as_bytes())
        || bytes_eq(w, "sfInputStreamReadFunc".as_bytes())
        || bytes_eq(w, "sfInputStreamSeekFunc".as_bytes())
        || bytes_eq(w, "sfInputStreamTellFunc".as_bytes())
        || bytes_eq(w, "sfInt16".as_bytes())
        || bytes_eq(w, "sfInt32".as_bytes())
        || bytes_eq(w, "sfInt64".as_bytes())
        || bytes_eq(w, "sfInt8".as_bytes())
        || bytes_eq(w, "sfPacket".as_bytes())
        || bytes_eq(w, "sfShapeGetPointCallback".as_bytes())
        || bytes_eq(w, "sfSocketSelector".as_bytes())
        || bytes_eq(w, "sfSoundRecorderProcessCallback".as_bytes())
        || bytes_eq(w, "sfSoundRecorderStartCallback".as_bytes())
        || bytes_eq(w, "sfSoundRecorderStopCallback".as_bytes())
        || bytes_eq(w, "sfSoundStreamChunk".as_bytes())
        || bytes_eq(w, "sfSoundStreamGetDataCallback".as_bytes())
        || bytes_eq(w, "sfSoundStreamSeekCallback".as_bytes())
        || bytes_eq(w, "sfTcpListener".as_bytes())
        || bytes_eq(w, "sfTcpSocket".as_bytes())
        || bytes_eq(w, "sfUdpSocket".as_bytes())
        || bytes_eq(w, "sfUint16".as_bytes())
        || bytes_eq(w, "sfUint32".as_bytes())
        || bytes_eq(w, "sfUint64".as_bytes())
        || bytes_eq(w, "sfUint8".as_bytes())
        || bytes_eq(w, "sfVector2f".as_bytes())
        || bytes_eq(w, "sfVector2u".as_bytes())
        || bytes_eq(w, "sfVector2i".as_bytes())
        || bytes_eq(w, "sfVector3f".as_bytes())
        || bytes_eq(w, "sfVector3u".as_bytes())
        || bytes_eq(w, "sfVector3i".as_bytes())
        || bytes_eq(w, "sfWindowHandle".as_bytes())
        || bytes_eq(w, "userData".as_bytes())
        || bytes_eq(w, "FILE".as_bytes())
        || bytes_eq(w, "DIR".as_bytes())
        || bytes_eq(w, "Elf_Byte".as_bytes())
        || bytes_eq(w, "Elf32_Sym".as_bytes())
        || bytes_eq(w, "Elf32_Off".as_bytes())
        || bytes_eq(w, "Elf32_Addr".as_bytes())
        || bytes_eq(w, "Elf32_Section".as_bytes())
        || bytes_eq(w, "Elf32_Versym".as_bytes())
        || bytes_eq(w, "Elf32_Half".as_bytes())
        || bytes_eq(w, "Elf32_Sword".as_bytes())
        || bytes_eq(w, "Elf32_Word".as_bytes())
        || bytes_eq(w, "Elf32_Sxword".as_bytes())
        || bytes_eq(w, "Elf32_Xword".as_bytes())
        || bytes_eq(w, "Elf32_Ehdr".as_bytes())
        || bytes_eq(w, "Elf32_Phdr".as_bytes())
        || bytes_eq(w, "Elf32_Shdr".as_bytes())
        || bytes_eq(w, "Elf32_Rel".as_bytes())
        || bytes_eq(w, "Elf32_Rela".as_bytes())
        || bytes_eq(w, "Elf32_Dyn".as_bytes())
        || bytes_eq(w, "Elf32_Nhdr".as_bytes())
        || bytes_eq(w, "Elf64_Sym".as_bytes())
        || bytes_eq(w, "Elf64_Off".as_bytes())
        || bytes_eq(w, "Elf64_Addr".as_bytes())
        || bytes_eq(w, "Elf64_Section".as_bytes())
        || bytes_eq(w, "Elf64_Versym".as_bytes())
        || bytes_eq(w, "Elf64_Half".as_bytes())
        || bytes_eq(w, "Elf64_Sword".as_bytes())
        || bytes_eq(w, "Elf64_Word".as_bytes())
        || bytes_eq(w, "Elf64_Sxword".as_bytes())
        || bytes_eq(w, "Elf64_Xword".as_bytes())
        || bytes_eq(w, "Elf64_Ehdr".as_bytes())
        || bytes_eq(w, "Elf64_Phdr".as_bytes())
        || bytes_eq(w, "Elf64_Shdr".as_bytes())
        || bytes_eq(w, "Elf64_Rel".as_bytes())
        || bytes_eq(w, "Elf64_Rela".as_bytes())
        || bytes_eq(w, "Elf64_Dyn".as_bytes())
        || bytes_eq(w, "Elf64_Nhdr".as_bytes())
        || bytes_eq(w, "_Bool".as_bytes())
        || bytes_eq(w, "WINDOW".as_bytes())
}

fn core_words_exec(ws: &Vec<Vec<u8>>) -> (r: Vec<Vec<u8>>)
    ensures
        r@.map_values(|w: Vec<u8>| w@) == core_words(ws@.map_values(|w: Vec<u8>| w@)),
{
    let mods = modifiers_list();
    let ghost all = ws@.map_values(|w: Vec<u8>| w@);
    let mut r: Vec<Vec<u8>> = Vec::new();
    let mut k: usize = 0;
    while k < ws.len()
        invariant
            k <= ws@.len(),
            all == ws@.map_values(|w: Vec<u8>| w@),
            mods@.map_values(|s: &str| s.spec_bytes()) == type_modifiers(),
            r@.map_values(|w: Vec<u8>| w@) == core_words(all.take(k as int)),
        decreases ws@.len() - k,
    {
        assert(all.take(k + 1).drop_last() =~= all.take(k as int));
        assert(all.take(k + 1).last() == ws@[k as int]@);
        if !listed(&mods, ws[k].as_slice()) {
            let w = copy_range(ws[k].as_slice(), 0, ws[k].len());
            assert(w@ =~= ws@[k as int]@);
            let ghost prev = r@;
            r.push(w);
            assert(r@.map_values(|w: Vec<u8>| w@) =~= prev.map_values(|w: Vec<u8>| w@).push(
                ws@[k as int]@,
            ));
        } else {
            assert(core_words(all.take(k + 1)) =~= core_words(all.take(k as int)));
        }
        k = k + 1;
    }
    assert(all.take(ws@.len() as int) =~= all);
    r
}

fn return_type_of_node(filename: &str, b: &[u8], t: &SyntaxTree, i: usize) -> (r: Vec<Diagnostic>)
    requires
        i < t@.len(),
        tree_fits(t@),
    ensures
        views(r@) == return_type_top(filename@, b@, t@)(i as int),
{
    let mut out: Vec<Diagnostic> = Vec::new();
    if kind_is(t, i, "function_definition") {
        match child_by_field(t, i, "type") {
            Some(ty) => {
                let words = ws_words_exec(text_or_nothing(b, t, ty).as_slice());
                let core = core_words_exec(&words);
                let ghost cv = core@.map_values(|w: Vec<u8>| w@);
                if core.len() > 0 {
                    let last = &core[core.len() - 1];
                    assert(cv.last() == last@);
                    if regex_is_match(r"^[a-z][a-z0-9_]*$", last.as_slice()) != Some(true) && !allowed_type_exec(
                        last.as_slice(),
                    ) {
                        let msg = quoted_message(
                            "Return type '",
                            last.as_slice(),
                            "' is not in snake_case",
                        );
                        push_diag(&mut out, new_diag(filename, row_line(t, i), Severity::Minor, "C-V1", msg));
                    }
                }
            },
            None => {},
        }
    }
    assert(views(out@) =~= return_type_top(filename@, b@, t@)(i as int));
    out
}

pub fn return_type_in_tree(filename: &str, content: &str, t: &SyntaxTree) -> (r: Vec<Diagnostic>)
    requires
        tree_fits(t@),
    ensures
        views(r@) == over_top(t@, return_type_top(filename@, content.spec_bytes(), t@)),
{
    let b = content.as_bytes();
    let cs = children_of(t, 0);
    let ghost all = children(t@, 0);
    let ghost f = return_type_top(filename@, b@, t@);
    let mut out: Vec<Diagnostic> = Vec::new();
    let mut k: usize = 0;
    while k < cs.len()
        invariant
            k <= cs@.len(),
            cs@.map_values(|c: usize| c as int) == all,
            views(out@) == concat_map(all.take(k as int), f),
        decreases cs@.len() - k,
    {
        proof {
            lemma_concat_map_step(all, k as int, f);
        }
        push_all(&mut out, return_type_of_node(filename, b, t, cs[k]));
        k = k + 1;
    }
    proof {
        lemma_concat_map_all(all, f);
    }
    out
}

pub fn check_function_return_type(filename: &str, content: &str) -> (r: Vec<Diagnostic>)
    ensures
        views(r@) == return_type_diags(filename@, content@),
{
    match parse(content) {
        Some(t) => if fits(&t) {
            return_type_in_tree(filename, content, &t)
        } else {
            Vec::new()
        },
        None => Vec::new(),
    }
}

// ---------------------------------------------------------------------------
// C-V1: macro names in UPPER_CASE.

/// The first index at or after `k` of a space, a tab or an opening
/// parenthesis, or the length of `b`.
pub open spec fn name_end(b: Seq<u8>, k: int) -> int
    decreases b.len() - k,
{
    if k < 0 || k >= b.len() || b[k] == 32u8 || b[k] == 9u8 || b[k] == 40u8 {
        k
    } else {
        name_end(b, k + 1)
    }
}

/// A macro name in UPPER_CASE: capitals, digits, `_` and `$`, not starting
/// with a digit.
pub open spec fn macro_name_pattern() -> Seq<char> {
    r"^[A-Z_$][A-Z0-9_$]*$"@
}

/// The name a `#define` line defines.
pub open spec fn defined_name(t: Seq<u8>) -> Seq<u8> {
    let rest = trim_start(t.skip("#define".spec_bytes().len() as int));
    rest.take(name_end(rest, 0))
}

/// What C-V1 reports on line `ln` for the macro name `name`, given the
/// answer `m` of the macro-name pattern for it.
pub open spec fn macro_name_report(file: Seq<char>, ln: int, name: Seq<u8>, m: Option<bool>) -> Seq<DiagView> {
    if name.len() > 0 && m != Some(true) {
        seq![
            diag(
                file,
                ln,
                Severity::Minor,
                "C-V1"@,
                "Macro name '"@ + text_chars(name) + "' should be in UPPER_CASE"@,
            ),
        ]
    } else {
        seq![]
    }
}

pub open spec fn macro_name_at(file: Seq<char>, lines: Seq<Seq<u8>>) -> spec_fn(int) -> Seq<DiagView> {
    |i: int|
        {
            let t = trim_start(lines[i]);
            let name = defined_name(t);
            if starts_with(t, "#define".spec_bytes()) {
                macro_name_report(file, i + 1, name, regex_search(macro_name_pattern(), name))
            } else {
                seq![]
            }
        }
}

/// The C-V1 diagnostics of line `ln` for the macro name `name` and the
/// answer `m` of the macro-name pattern for it.
pub fn macro_name_verdict(filename: &str, ln: usize, name: &[u8], m: Option<bool>) -> (r: Vec<Diagnostic>)
    ensures
        views(r@) == macro_name_report(filename@, ln as int, name@, m),
{
    let mut out: Vec<Diagnostic> = Vec::new();
    if name.len() > 0 && m != Some(true) {
        let msg = quoted_message("Macro name '", name, "' should be in UPPER_CASE");
        push_diag(&mut out, new_diag(filename, ln, Severity::Minor, "C-V1", msg));
    }
    assert(views(out@) =~= macro_name_report(filename@, ln as int, name@, m));
    out
}

pub open spec fn macro_names_diags(file: Seq<char>, b: Seq<u8>) -> Seq<DiagView> {
    concat_range(0, std_lines(b).len() as int, macro_name_at(file, std_lines(b)))
}

fn name_end_exec(b: &[u8]) -> (r: usize)
    ensures
        r == name_end(b@, 0),
        r <= b@.len(),
{
    let mut k: usize = 0;
    while k < b.len() && !(b[k] == 32u8 || b[k] == 9u8 || b[k] == 40u8)
        invariant
            k <= b@.len(),
            name_end(b@, 0) == name_end(b@, k as int),
        decreases b@.len() - k,
    {
        k = k + 1;
    }
    k
}

pub fn check_macro_names(filename: &str, content: &str) -> (r: Vec<Diagnostic>)
    ensures
        views(r@) == macro_names_diags(filename@, content.spec_bytes()),
{
    let b = content.as_bytes();
    let ranges = line_ranges(b);
    let ghost lines = std_lines(b@);
    let mut out: Vec<Diagnostic> = Vec::new();
    let mut i: usize = 0;
    while i < ranges.len()
        invariant
            i <= ranges@.len() == lines.len(),
            views(out@) == concat_range(0, i as int, macro_name_at(filename@, lines)),
        decreases ranges@.len() - i,
    {
        let (s, e) = ranges[i];
        let line = copy_range(b, s, e);
        assert(line@ == lines[i as int]);
        let t = trimmed_start(line.as_slice());
        let p = "#define".as_bytes();
        if starts_with_exec(t.as_slice(), p) {
            let after = copy_range(t.as_slice(), p.len(), t.len());
            assert(after@ =~= t@.skip(p@.len() as int));
            let rest = trimmed_start(after.as_slice());
            let end = name_end_exec(rest.as_slice());
            let name = copy_range(rest.as_slice(), 0, end);
            assert(name@ =~= rest@.take(end as int));
            let m = regex_is_match(r"^[A-Z_$][A-Z0-9_$]*$", name.as_slice());
            push_all(&mut out, macro_name_verdict(filename, i + 1, name.as_slice(), m));
        }
        i = i + 1;
    }
    out
}

// ---------------------------------------------------------------------------
// C-V1: typedef names end in `_t`.

/// The first identifier or type identifier among the nodes `j .. hi`.
pub open spec fn first_ident_from(ns: Seq<NodeView>, j: int, hi: int) -> Option<int>
    decreases hi - j,
{
    if j < 0 || j >= hi || j >= ns.len() {
        None
    } else if ns[j].kind == "type_identifier"@ || ns[j].kind == "identifier"@ {
        Some(j)
    } else {
        first_ident_from(ns, j + 1, hi)
    }
}

/// Each declarator of a type definition (its type and its punctuation left
/// out) names its first identifier.
pub open spec fn typedef_child(file: Seq<char>, b: Seq<u8>, ns: Seq<NodeView>, i: int) -> spec_fn(
    int,
) -> Seq<DiagView> {
    |c: int|
        if has_kind(ns, c, "typedef"@) || has_kind(ns, c, ";"@) || has_kind(ns, c, ","@)
            || field_child(ns, i, "type"@) == Some(c) {
            seq![]
        } else {
            match first_ident_from(ns, c, sub_end(ns, c)) {
                Some(x) => if !ends_with(text_or_empty(b, ns[x]), "_t".spec_bytes()) {
                    seq![
                        diag(
                            file,
                            ns[i].start_row + 1,
                            Severity::Minor,
                            "C-V1"@,
                            "Typedef name '"@ + text_chars(text_or_empty(b, ns[x]))
                                + "' must end with '_t'"@,
                        ),
                    ]
                } else {
                    seq![]
                },
                None => seq![],
            }
        }
}

pub open spec fn typedef_top(file: Seq<char>, b: Seq<u8>, ns: Seq<NodeView>) -> spec_fn(int) -> Seq<
    DiagView,
> {
    |i: int|
        if has_kind(ns, i, "type_definition"@) {
            concat_map(children(ns, i), typedef_child(file, b, ns, i))
        } else {
            seq![]
        }
}

pub open spec fn typedef_names_diags(file: Seq<char>, src: Seq<char>) -> Seq<DiagView> {
    match c_syntax(src) {
        Some(ns) => if tree_fits(ns) {
            over_top(ns, typedef_top(file, encode_utf8(src), ns))
        } else {
            seq![]
        },
        None => seq![],
    }
}

fn first_ident_exec(t: &SyntaxTree, c: usize) -> (r: Option<usize>)
    requires
        c < t@.len(),
    ensures
        match r {
            Some(x) => first_ident_from(t@, c as int, sub_end(t@, c as int)) == Some(x as int),
            None => first_ident_from(t@, c as int, sub_end(t@, c as int)) is None,
        },
        r matches Some(x) ==> x < t@.len(),
{
    let end = subtree_end(t, c);
    let mut j: usize = c;
    while j < end
        invariant
            c <= j,
            end == sub_end(t@, c as int) <= t@.len(),
            first_ident_from(t@, c as int, end as int) == first_ident_from(t@, j as int, end as int),
        decreases end - j,
    {
        if kind_is(t, j, "type_identifier") || kind_is(t, j, "identifier") {
            return Some(j);
        }
        j = j + 1;
    }
    None
}

fn typedef_of_node(filename: &str, b: &[u8], t: &SyntaxTree, i: usize) -> (r: Vec<Diagnostic>)
    requires
        i < t@.len(),
        tree_fits(t@),
    ensures
        views(r@) == typedef_top(filename@, b@, t@)(i as int),
{
    let mut out: Vec<Diagnostic> = Vec::new();
    if !kind_is(t, i, "type_definition") {
        assert(views(out@) =~= typedef_top(filename@, b@, t@)(i as int));
        return out;
    }
    let ty = child_by_field(t, i, "type");
    let cs = children_of(t, i);
    let ghost all = children(t@, i as int);
    let ghost f = typedef_child(filename@, b@, t@, i as int);
    let mut k: usize = 0;
    while k < cs.len()
        invariant
            k <= cs@.len(),
            cs@.map_values(|c: usize| c as int) == all,
            views(out@) == concat_map(all.take(k as int), f),
        decreases cs@.len() - k,
    {
        proof {
            lemma_concat_map_step(all, k as int, f);
        }
        let c = cs[k];
        let ghost before = views(out@);
        let is_type = match ty {
            Some(x) => x == c,
            None => false,
        };
        if !(kind_is(t, c, "typedef") || kind_is(t, c, ";") || kind_is(t, c, ",") || is_type) {
            match first_ident_exec(t, c) {
                Some(x) => {
                    let name = text_or_nothing(b, t, x);
                    if !ends_with_exec(name.as_slice(), "_t".as_bytes()) {
                        let msg = quoted_message("Typedef name '", name.as_slice(), "' must end with '_t'");
                        push_diag(&mut out, new_diag(filename, row_line(t, i), Severity::Minor, "C-V1", msg));
                    }
                },
                None => {},
            }
        }
        assert(views(out@) =~= before + f(c as int));
        k = k + 1;
    }
    proof {
        lemma_concat_map_all(all, f);
    }
    out
}

pub fn typedef_names_in_tree(filename: &str, content: &str, t: &SyntaxTree) -> (r: Vec<Diagnostic>)
    requires
        tree_fits(t@),
    ensures
        views(r@) == over_top(t@, typedef_top(filename@, content.spec_bytes(), t@)),
{
    let b = content.as_bytes();
    let cs = children_of(t, 0);
    let ghost all = children(t@, 0);
    let ghost f = typedef_top(filename@, b@, t@);
    let mut out: Vec<Diagnostic> = Vec::new();
    let mut k: usize = 0;
    while k < cs.len()
        invariant
            k <= cs@.len(),
            cs@.map_values(|c: usize| c as int) == all,
            views(out@) == concat_map(all.take(k as int), f),
        decreases cs@.len() - k,
    {
        proof {
            lemma_concat_map_step(all, k as int, f);
        }
        push_all(&mut out, typedef_of_node(filename, b, t, cs[k]));
        k = k + 1;
    }
    proof {
        lemma_concat_map_all(all, f);
    }
    out
}

pub fn check_typedef_names(filename: &str, content: &str) -> (r: Vec<Diagnostic>)
    ensures
        views(r@) == typedef_names_diags(filename@, content@),
{
    match parse(content) {
        Some(t) => if fits(&t) {
            typedef_names_in_tree(filename, content, &t)
        } else {
            Vec::new()
        },
        None => Vec::new(),
    }
}

// ---------------------------------------------------------------------------
// C-V1: enum members in uppercase.

pub open spec fn has_alpha(cs: Seq<char>) -> bool {
    exists|k: int| 0 <= k < cs.len() && unicode_alphabetic(#[trigger] cs[k])
}

pub open spec fn alpha_upper(cs: Seq<char>) -> bool {
    forall|k: int| 0 <= k < cs.len() && unicode_alphabetic(#[trigger] cs[k]) ==> unicode_uppercase(cs[k])
}

/// An enumerator whose name has letters and a letter that is not uppercase.
pub open spec fn enumerator_at(file: Seq<char>, b: Seq<u8>, ns: Seq<NodeView>) -> spec_fn(int) -> Seq<
    DiagView,
> {
    |e: int|
        if has_kind(ns, e, "enumerator"@) && field_child(ns, e, "name"@) is Some {
            let nn = field_child(ns, e, "name"@)->0;
            let cs = text_chars(text_or_empty(b, ns[nn]));
            if has_alpha(cs) && !alpha_upper(cs) {
                seq![
                    diag(
                        file,
                        ns[nn].start_row + 1,
                        Severity::Minor,
                        "C-V1"@,
                        "Enum member '"@ + cs + "' must be uppercase"@,
                    ),
                ]
            } else {
                seq![]
            }
        } else {
            seq![]
        }
}

pub open spec fn enum_at(file: Seq<char>, b: Seq<u8>, ns: Seq<NodeView>) -> spec_fn(int) -> Seq<DiagView> {
    |j: int|
        if has_kind(ns, j, "enum_specifier"@) && field_child(ns, j, "body"@) is Some {
            concat_map(children(ns, field_child(ns, j, "body"@)->0), enumerator_at(file, b, ns))
        } else {
            seq![]
        }
}

pub open spec fn enum_members_diags(file: Seq<char>, src: Seq<char>) -> Seq<DiagView> {
    match c_syntax(src) {
        Some(ns) => if tree_fits(ns) {
            concat_range(0, ns.len() as int, enum_at(file, encode_utf8(src), ns))
        } else {
            seq![]
        },
        None => seq![],
    }
}

fn has_alpha_exec(cs: &Vec<char>) -> (r: bool)
    ensures
        r == has_alpha(cs@),
{
    let mut k: usize = 0;
    while k < cs.len()
        invariant
            k <= cs@.len(),
            forall|m: int| 0 <= m < k ==> !unicode_alphabetic(#[trigger] cs@[m]),
        decreases cs@.len() - k,
    {
        if is_alphabetic(cs[k]) {
            return true;
        }
        k = k + 1;
    }
    false
}

fn alpha_upper_exec(cs: &Vec<char>) -> (r: bool)
    ensures
        r == alpha_upper(cs@),
{
    let mut k: usize = 0;
    while k < cs.len()
        invariant
            k <= cs@.len(),
            forall|m: int|
                0 <= m < k && unicode_alphabetic(#[trigger] cs@[m]) ==> unicode_uppercase(cs@[m]),
        decreases cs@.len() - k,
    {
        if is_alphabetic(cs[k]) && !is_uppercase(cs[k]) {
            return false;
        }
        k = k + 1;
    }
    true
}

fn enumerators_of(filename: &str, b: &[u8], t: &SyntaxTree, j: usize) -> (r: Vec<Diagnostic>)
    requires
        j < t@.len(),
        tree_fits(t@),
    ensures
        views(r@) == enum_at(filename@, b@, t@)(j as int),
{
    let mut out: Vec<Diagnostic> = Vec::new();
    if !kind_is(t, j, "enum_specifier") {
        assert(views(out@) =~= enum_at(filename@, b@, t@)(j as int));
        return out;
    }
    let body = match child_by_field(t, j, "body") {
        Some(body) => body,
        None => {
            assert(views(out@) =~= enum_at(filename@, b@, t@)(j as int));
            return out;
        },
    };
    let cs = children_of(t, body);
    let ghost all = children(t@, body as int);
    let ghost f = enumerator_at(filename@, b@, t@);
    let mut k: usize = 0;
    while k < cs.len()
        invariant
            k <= cs@.len(),
            cs@.map_values(|c: usize| c as int) == all,
            views(out@) == concat_map(all.take(k as int), f),
        decreases cs@.len() - k,
    {
        proof {
            lemma_concat_map_step(all, k as int, f);
        }
        let e = cs[k];
        let ghost before = views(out@);
        if kind_is(t, e, "enumerator") {
            match child_by_field(t, e, "name") {
                Some(nn) => {
                    let name = text_or_nothing(b, t, nn);
                    let text = text_string(name.as_slice());
                    let chars = chars_of(text.as_str());
                    if has_alpha_exec(&chars) && !alpha_upper_exec(&chars) {
                        let msg = quoted_message("Enum member '", name.as_slice(), "' must be uppercase");
                        push_diag(&mut out, new_diag(filename, row_line(t, nn), Severity::Minor, "C-V1", msg));
                    }
                },
                None => {},
            }
        }
        assert(views(out@) =~= before + f(e as int));
        k = k + 1;
    }
    proof {
        lemma_concat_map_all(all, f);
    }
    out
}

pub fn enum_members_in_tree(filename: &str, content: &str, t: &SyntaxTree) -> (r: Vec<Diagnostic>)
    requires
        tree_fits(t@),
    ensures
        views(r@) == concat_range(0, t@.len() as int, enum_at(filename@, content.spec_bytes(), t@)),
{
    let b = content.as_bytes();
    let n = node_count(t);
    let mut out: Vec<Diagnostic> = Vec::new();
    let mut j: usize = 0;
    while j < n
        invariant
            j <= n == t@.len(),
            tree_fits(t@),
            views(out@) == concat_range(0, j as int, enum_at(filename@, b@, t@)),
        decreases n - j,
    {
        push_all(&mut out, enumerators_of(filename, b, t, j));
        j = j + 1;
    }
    out
}

pub fn check_enum_members(filename: &str, content: &str) -> (r: Vec<Diagnostic>)
    ensures
        views(r@) == enum_members_diags(filename@, content@),
{
    match parse(content) {
        Some(t) => if fits(&t) {
            enum_members_in_tree(filename, content, &t)
        } else {
            Vec::new()
        },
        None => Vec::new(),
    }
}

// ---------------------------------------------------------------------------
// C-V3: the pointer star sticks to the name.

/// The byte at `k`, where there is one.
pub open spec fn byte_at(b: Seq<u8>, k: int) -> Option<u8> {
    if 0 <= k < b.len() {
        Some(b[k])
    } else {
        None
    }
}

/// `-`, `!`, `~`, `&` or `+`.
pub open spec fn unary_operator(x: Option<u8>) -> bool {
    x == Some(45u8) || x == Some(33u8) || x == Some(126u8) || x == Some(38u8) || x == Some(43u8)
}

/// A star at byte `s`: after another star, it must not be followed by a
/// space; otherwise it follows a space, `(`, `[` or a unary operator, and is
/// not followed by a space.
pub open spec fn star_misplaced(b: Seq<u8>, s: int) -> bool {
    let before = if s > 0 {
        byte_at(b, s - 1)
    } else {
        None
    };
    let after = byte_at(b, s + 1);
    if before == Some(42u8) {
        after == Some(32u8)
    } else if before != Some(32u8) && before != Some(40u8) && before != Some(91u8)
        && !unary_operator(before) {
        true
    } else {
        after == Some(32u8)
    }
}

pub open spec fn star_child(file: Seq<char>, b: Seq<u8>, ns: Seq<NodeView>) -> spec_fn(int) -> Seq<
    DiagView,
> {
    |c: int|
        if has_kind(ns, c, "*"@) && star_misplaced(b, ns[c].start_byte) {
            seq![
                diag(
                    file,
                    ns[c].start_row + 1,
                    Severity::Minor,
                    "C-V3"@,
                    "Pointer '*' must be attached to the variable name"@,
                ),
            ]
        } else {
            seq![]
        }
}

/// The stars of pointer declarators and pointer expressions.
pub open spec fn stars_at(file: Seq<char>, b: Seq<u8>, ns: Seq<NodeView>) -> spec_fn(int) -> Seq<
    DiagView,
> {
    |j: int|
        if has_kind(ns, j, "pointer_declarator"@) || has_kind(ns, j, "pointer_expression"@) {
            concat_map(children(ns, j), star_child(file, b, ns))
        } else {
            seq![]
        }
}

pub open spec fn pointer_diags(file: Seq<char>, src: Seq<char>) -> Seq<DiagView> {
    match c_syntax(src) {
        Some(ns) => if tree_fits(ns) {
            concat_range(0, ns.len() as int, stars_at(file, encode_utf8(src), ns))
        } else {
            seq![]
        },
        None => seq![],
    }
}

fn byte_at_exec(b: &[u8], k: usize) -> (r: Option<u8>)
    ensures
        r == byte_at(b@, k as int),
{
    if k < b.len() {
        Some(b[k])
    } else {
        None
    }
}

fn star_misplaced_exec(b: &[u8], s: usize) -> (r: bool)
    requires
        s < usize::MAX,
    ensures
        r == star_misplaced(b@, s as int),
{
    let before = if s > 0 {
        byte_at_exec(b, s - 1)
    } else {
        None
    };
    let after = byte_at_exec(b, s + 1);
    let unary = before == Some(45u8) || before == Some(33u8) || before == Some(126u8) || before
        == Some(38u8) || before == Some(43u8);
    if before == Some(42u8) {
        after == Some(32u8)
    } else if before != Some(32u8) && before != Some(40u8) && before != Some(91u8) && !unary {
        true
    } else {
        after == Some(32u8)
    }
}

fn stars_of(filename: &str, b: &[u8], t: &SyntaxTree, j: usize) -> (r: Vec<Diagnostic>)
    requires
        j < t@.len(),
        tree_fits(t@),
    ensures
        views(r@) == stars_at(filename@, b@, t@)(j as int),
{
    let mut out: Vec<Diagnostic> = Vec::new();
    if !(kind_is(t, j, "pointer_declarator") || kind_is(t, j, "pointer_expression")) {
        assert(views(out@) =~= stars_at(filename@, b@, t@)(j as int));
        return out;
    }
    let cs = children_of(t, j);
    let ghost all = children(t@, j as int);
    let ghost f = star_child(filename@, b@, t@);
    let mut k: usize = 0;
    while k < cs.len()
        invariant
            k <= cs@.len(),
            cs@.map_values(|c: usize| c as int) == all,
            views(out@) == concat_map(all.take(k as int), f),
        decreases cs@.len() - k,
    {
        proof {
            lemma_concat_map_step(all, k as int, f);
        }
        let c = cs[k];
        let ghost before = views(out@);
        if kind_is(t, c, "*") {
            assert(t@[c as int] == t.nodes@[c as int]@);
            assert(node_fits(t@[c as int]));
            if star_misplaced_exec(b, t.nodes[c].start_byte) {
                push_diag(
                    &mut out,
                    fixed_diag(
                        filename,
                        row_line(t, c),
                        Severity::Minor,
                        "C-V3",
                        "Pointer '*' must be attached to the variable name",
                    ),
                );
            }
        }
        assert(views(out@) =~= before + f(c as int));
        k = k + 1;
    }
    proof {
        lemma_concat_map_all(all, f);
    }
    out
}

pub fn pointer_attachments_in_tree(filename: &str, content: &str, t: &SyntaxTree) -> (r: Vec<Diagnostic>)
    requires
        tree_fits(t@),
    ensures
        views(r@) == concat_range(0, t@.len() as int, stars_at(filename@, content.spec_bytes(), t@)),
{
    let b = content.as_bytes();
    let n = node_count(t);
    let mut out: Vec<Diagnostic> = Vec::new();
    let mut j: usize = 0;
    while j < n
        invariant
            j <= n == t@.len(),
            tree_fits(t@),
            views(out@) == concat_range(0, j as int, stars_at(filename@, b@, t@)),
        decreases n - j,
    {
        push_all(&mut out, stars_of(filename, b, t, j));
        j = j + 1;
    }
    out
}

pub fn check_pointer_attachments(filename: &str, content: &str) -> (r: Vec<Diagnostic>)
    ensures
        views(r@) == pointer_diags(filename@, content@),
{
    match parse(content) {
        Some(t) => if fits(&t) {
            pointer_attachments_in_tree(filename, content, &t)
        } else {
            Vec::new()
        },
        None => Vec::new(),
    }
}

// ---------------------------------------------------------------------------

pub open spec fn spec_check(file: Seq<char>, src: Seq<char>) -> Seq<DiagView> {
    return_type_diags(file, src) + macro_names_diags(file, encode_utf8(src)) + typedef_names_diags(
        file,
        src,
    ) + enum_members_diags(file, src) + pointer_diags(file, src)
}

/// Runs every C-V rule.
pub fn check(filename: &str, content: &str) -> (r: Vec<Diagnostic>)
    ensures
        views(r@) == spec_check(filename@, content@),
{
    let mut diagnostics: Vec<Diagnostic> = Vec::new();
    push_all(&mut diagnostics, check_function_return_type(filename, content));
    push_all(&mut diagnostics, check_macro_names(filename, content));
    push_all(&mut diagnostics, check_typedef_names(filename, content));
    push_all(&mut diagnostics, check_enum_members(filename, content));
    push_all(&mut diagnostics, check_pointer_attachments(filename, content));
    assert(views(diagnostics@) =~= spec_check(filename@, content@));
    diagnostics
}

pub proof fn lemma_placed(file: Seq<char>, src: Seq<char>)
    requires
        syntax_in_text(src),
    ensures
        all_satisfy(spec_check(file, src), placed_in(file, split_nl(encode_utf8(src)).len() as int)),
{
    let p = placed_in(file, split_nl(encode_utf8(src)).len() as int);
    lemma_split_nl_len(encode_utf8(src));
    lemma_std_lines_len(encode_utf8(src));
    lemma_syntax_rows(src);
    let b = encode_utf8(src);
    let lines = std_lines(b);
    assert forall|i: int| 0 <= i < lines.len() implies all_satisfy(#[trigger] macro_name_at(file, lines)(i), p) by {}
    lemma_all_range(0, lines.len() as int, macro_name_at(file, lines), p);
    if let Some(ns) = c_syntax(src) {
        if tree_fits(ns) {
            let cs = children(ns, 0);
            assert forall|k: int| 0 <= k < cs.len() implies all_satisfy(#[trigger] return_type_top(file, b, ns)(cs[k]), p) by {}
            lemma_all_map(cs, return_type_top(file, b, ns), p);
            assert forall|k: int| 0 <= k < cs.len() implies all_satisfy(#[trigger] typedef_top(file, b, ns)(cs[k]), p) by {
                let i = cs[k];
                if has_kind(ns, i, "type_definition"@) {
                    let dc = children(ns, i);
                    assert forall|m: int| 0 <= m < dc.len() implies all_satisfy(
                        #[trigger] typedef_child(file, b, ns, i)(dc[m]),
                        p,
                    ) by {}
                    lemma_all_map(dc, typedef_child(file, b, ns, i), p);
                }
            }
            lemma_all_map(cs, typedef_top(file, b, ns), p);
            assert forall|j: int| 0 <= j < ns.len() implies all_satisfy(#[trigger] enum_at(file, b, ns)(j), p) by {
                if has_kind(ns, j, "enum_specifier"@) && field_child(ns, j, "body"@) is Some {
                    let ec = children(ns, field_child(ns, j, "body"@)->0);
                    assert forall|m: int| 0 <= m < ec.len() implies all_satisfy(
                        #[trigger] enumerator_at(file, b, ns)(ec[m]),
                        p,
                    ) by {
                        let e = ec[m];
                        lemma_field_child_after(ns, e, "name"@);
                    }
                    lemma_all_map(ec, enumerator_at(file, b, ns), p);
                }
            }
            lemma_all_range(0, ns.len() as int, enum_at(file, b, ns), p);
            assert forall|j: int| 0 <= j < ns.len() implies all_satisfy(#[trigger] stars_at(file, b, ns)(j), p) by {
                let sc = children(ns, j);
                assert forall|m: int| 0 <= m < sc.len() implies all_satisfy(
                    #[trigger] star_child(file, b, ns)(sc[m]),
                    p,
                ) by {}
                lemma_all_map(sc, star_child(file, b, ns), p);
            }
            lemma_all_range(0, ns.len() as int, stars_at(file, b, ns), p);
        }
    }
    let d1 = return_type_diags(file, src);
    let d2 = d1 + macro_names_diags(file, b);
    let d3 = d2 + typedef_names_diags(file, src);
    let d4 = d3 + enum_members_diags(file, src);
    lemma_all_concat(d1, macro_names_diags(file, b), p);
    lemma_all_concat(d2, typedef_names_diags(file, src), p);
    lemma_all_concat(d3, enum_members_diags(file, src), p);
    lemma_all_concat(d4, pointer_diags(file, src), p);
}

/// The message C-V1 gives for an enumerator named `cs`.
pub open spec fn enum_member_message(cs: Seq<char>) -> Seq<char> {
    "Enum member '"@ + cs + "' must be uppercase"@
}

/// An enumerator whose name has, at any position, an alphabetic character
/// that is not uppercase is reported by C-V1 on the line of its name.
pub proof fn law_enum_member_lowercase_reported(
    file: Seq<char>,
    src: Seq<char>,
    ns: Seq<NodeView>,
    j: int,
    q: int,
    k: int,
)
    requires
        c_syntax(src) == Some(ns),
        tree_fits(ns),
        has_kind(ns, j, "enum_specifier"@),
        field_child(ns, j, "body"@) is Some,
        0 <= q < children(ns, field_child(ns, j, "body"@)->0).len(),
        ({
            let e = children(ns, field_child(ns, j, "body"@)->0)[q];
            &&& has_kind(ns, e, "enumerator"@)
            &&& field_child(ns, e, "name"@) is Some
            &&& 0 <= k < text_chars(text_or_empty(encode_utf8(src), ns[field_child(ns, e, "name"@)->0])).len()
            &&& unicode_alphabetic(text_chars(text_or_empty(encode_utf8(src), ns[field_child(ns, e, "name"@)->0]))[k])
            &&& !unicode_uppercase(text_chars(text_or_empty(encode_utf8(src), ns[field_child(ns, e, "name"@)->0]))[k])
        }),
    ensures
        ({
            let e = children(ns, field_child(ns, j, "body"@)->0)[q];
            let nn = field_child(ns, e, "name"@)->0;
            enum_members_diags(file, src).contains(
                diag(
                    file,
                    ns[nn].start_row + 1,
                    Severity::Minor,
                    "C-V1"@,
                    enum_member_message(text_chars(text_or_empty(encode_utf8(src), ns[nn]))),
                ),
            )
        }),
{
    let b = encode_utf8(src);
    let body = field_child(ns, j, "body"@)->0;
    let cs_of_body = children(ns, body);
    let e = cs_of_body[q];
    let nn = field_child(ns, e, "name"@)->0;
    let cs = text_chars(text_or_empty(b, ns[nn]));
    assert(has_alpha(cs));
    assert(!alpha_upper(cs));
    let d = diag(file, ns[nn].start_row + 1, Severity::Minor, "C-V1"@, enum_member_message(cs));
    assert(enumerator_at(file, b, ns)(e) =~= seq![d]);
    assert(enumerator_at(file, b, ns)(e)[0] == d);
    lemma_concat_map_contains(cs_of_body, enumerator_at(file, b, ns), q, d);
    assert(enum_at(file, b, ns)(j) == concat_map(cs_of_body, enumerator_at(file, b, ns)));
    lemma_concat_range_contains(0, ns.len() as int, enum_at(file, b, ns), j, d);
}

/// An enumerator whose alphabetic characters are all uppercase (or that has
/// none) is never named by a C-V1 enum-member diagnostic.
pub proof fn law_uppercase_enum_member_not_reported(file: Seq<char>, src: Seq<char>, cs: Seq<char>)
    requires
        forall|k: int| 0 <= k < cs.len() && unicode_alphabetic(#[trigger] cs[k]) ==> unicode_uppercase(cs[k]),
    ensures
        forall|q: int|
            0 <= q < enum_members_diags(file, src).len() ==> (#[trigger] enum_members_diags(file, src)[q]).message
                != enum_member_message(cs),
{
    let p = |d: DiagView| d.message != enum_member_message(cs);
    if let Some(ns) = c_syntax(src) {
        if tree_fits(ns) {
            let b = encode_utf8(src);
            assert forall|j: int| 0 <= j < ns.len() implies all_satisfy(#[trigger] enum_at(file, b, ns)(j), p) by {
                if has_kind(ns, j, "enum_specifier"@) && field_child(ns, j, "body"@) is Some {
                    let es = children(ns, field_child(ns, j, "body"@)->0);
                    assert forall|m: int| 0 <= m < es.len() implies all_satisfy(
                        #[trigger] enumerator_at(file, b, ns)(es[m]),
                        p,
                    ) by {
                        let e = es[m];
                        if has_kind(ns, e, "enumerator"@) && field_child(ns, e, "name"@) is Some {
                            let nn = field_child(ns, e, "name"@)->0;
                            let ds = text_chars(text_or_empty(b, ns[nn]));
                            if has_alpha(ds) && !alpha_upper(ds) {
                                if enum_member_message(ds) == enum_member_message(cs) {
                                    lemma_wrapped_injective("Enum member '"@, ds, cs, "' must be uppercase"@);
                                }
                                assert(p(enumerator_at(file, b, ns)(e)[0]));
                            }
                        }
                    }
                    lemma_all_map(es, enumerator_at(file, b, ns), p);
                }
            }
            lemma_all_range(0, ns.len() as int, enum_at(file, b, ns), p);
        }
    }
    assert forall|q: int| 0 <= q < enum_members_diags(file, src).len() implies (#[trigger] enum_members_diags(
        file,
        src,
    )[q]).message != enum_member_message(cs) by {
        assert(p(enum_members_diags(file, src)[q]));
    }
}

} // verus!
