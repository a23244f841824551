//! The syntax tree of a C file, as the tree-sitter C grammar gives it.
//!
//! A tree is held as the list of its nodes in pre-order; each node carries the
//! number of nodes of its subtree (itself included), so that the subtree of
//! node `i` is the range `i .. i + size` of the list.
use vstd::prelude::*;
use crate::text::{str_eq, copy_range, count_byte, nl, split_nl, lemma_split_nl_count, lemma_count_byte_prefix};
use crate::stdlib::utf8_to_string;
use vstd::utf8::{valid_utf8, encode_utf8};

verus! {

#[verifier::external_type_specification]
#[verifier::external_body]
pub struct ExTree(tree_sitter::Tree);

/// One node of a parsed file.
pub struct SyntaxNode {
    pub kind: String,
    pub field: Option<String>,
    pub size: usize,
    pub start_byte: usize,
    pub end_byte: usize,
    pub start_row: usize,
    pub start_col: usize,
    pub end_row: usize,
    pub end_col: usize,
}

pub struct NodeView {
    pub kind: Seq<char>,
    pub field: Option<Seq<char>>,
    pub size: int,
    pub start_byte: int,
    pub end_byte: int,
    pub start_row: int,
    pub start_col: int,
    pub end_row: int,
    pub end_col: int,
}

pub open spec fn field_view(f: Option<String>) -> Option<Seq<char>> {
    match f {
        Some(s) => Some(s@),
        None => None,
    }
}

impl View for SyntaxNode {
    type V = NodeView;

    open spec fn view(&self) -> NodeView {
        NodeView {
            kind: self.kind@,
            field: field_view(self.field),
            size: self.size as int,
            start_byte: self.start_byte as int,
            end_byte: self.end_byte as int,
            start_row: self.start_row as int,
            start_col: self.start_col as int,
            end_row: self.end_row as int,
            end_col: self.end_col as int,
        }
    }
}

/// A node whose rows and start offset are natural numbers that can be
/// counted one further in a `usize` (so that 1-based line numbers exist for
/// it).
pub open spec fn node_fits(n: NodeView) -> bool {
    0 <= n.start_row < usize::MAX && 0 <= n.end_row < usize::MAX && 0 <= n.start_byte < usize::MAX
}

pub open spec fn tree_fits(ns: Seq<NodeView>) -> bool {
    forall|i: int| 0 <= i < ns.len() ==> node_fits(#[trigger] ns[i])
}

/// Whether every node of the tree fits.
pub fn fits(t: &SyntaxTree) -> (r: bool)
    ensures
        r == tree_fits(t@),
{
    let mut i: usize = 0;
    while i < t.nodes.len()
        invariant
            i <= t@.len(),
            forall|k: int| 0 <= k < i ==> node_fits(#[trigger] t@[k]),
        decreases t@.len() - i,
    {
        let n = &t.nodes[i];
        assert(t@[i as int] == n@);
        if n.start_row == usize::MAX || n.end_row == usize::MAX || n.start_byte == usize::MAX {
            return false;
        }
        i = i + 1;
    }
    true
}

/// A parsed file: its nodes in pre-order.
pub struct SyntaxTree {
    pub nodes: Vec<SyntaxNode>,
}

impl View for SyntaxTree {
    type V = Seq<NodeView>;

    open spec fn view(&self) -> Seq<NodeView> {
        self.nodes@.map_values(|n: SyntaxNode| n@)
    }
}

/// A node whose bytes lie within `b`, and whose rows are the numbers of
/// newlines in `b` before its first byte and before its end.
pub open spec fn node_in_text(n: NodeView, b: Seq<u8>) -> bool {
    &&& 0 <= n.start_byte <= n.end_byte <= b.len()
    &&& n.start_row == count_byte(b.take(n.start_byte), nl())
    &&& n.end_row == count_byte(b.take(n.end_byte), nl())
}

pub open spec fn tree_in_text(ns: Seq<NodeView>, b: Seq<u8>) -> bool {
    forall|i: int| 0 <= i < ns.len() ==> node_in_text(#[trigger] ns[i], b)
}

/// Whether the tree of `source`, where there is one, lies within its text.
pub open spec fn syntax_in_text(source: Seq<char>) -> bool {
    c_syntax(source) matches Some(ns) ==> tree_in_text(ns, encode_utf8(source))
}

/// Every node starts and ends on one of the first `m` rows.
pub open spec fn rows_below(ns: Seq<NodeView>, m: int) -> bool {
    forall|i: int| 0 <= i < ns.len() ==> #[trigger] ns[i].start_row < m && ns[i].end_row < m
}

/// The rows of a tree that lies within a text are rows of its
/// newline-separated pieces.
pub proof fn lemma_rows_below(ns: Seq<NodeView>, b: Seq<u8>)
    requires
        tree_in_text(ns, b),
    ensures
        rows_below(ns, split_nl(b).len() as int),
{
    lemma_split_nl_count(b);
    assert forall|i: int| 0 <= i < ns.len() implies #[trigger] ns[i].start_row < split_nl(b).len() && ns[i].end_row
        < split_nl(b).len() by {
        assert(node_in_text(ns[i], b));
        lemma_count_byte_prefix(b, nl(), ns[i].start_byte);
        lemma_count_byte_prefix(b, nl(), ns[i].end_byte);
    }
}

/// Where `source` has a tree within its text, its rows are rows of the text.
pub proof fn lemma_syntax_rows(source: Seq<char>)
    requires
        syntax_in_text(source),
    ensures
        c_syntax(source) matches Some(ns) ==> rows_below(ns, split_nl(encode_utf8(source)).len() as int),
{
    if let Some(ns) = c_syntax(source) {
        lemma_rows_below(ns, encode_utf8(source));
    }
}

/// The pre-order node list that the tree-sitter C grammar gives for a source
/// text, or `None` where no tree is produced.
pub uninterp spec fn c_syntax(source: Seq<char>) -> Option<Seq<NodeView>>;

/// The nodes of a tree-sitter tree, in pre-order.
pub uninterp spec fn tree_nodes(tree: tree_sitter::Tree) -> Seq<NodeView>;

/// Parses `content` with `tree_sitter::Parser::parse` under the C grammar of
/// `tree_sitter_c`. Claimed: the tree is there exactly when `c_syntax` names
/// one, and its nodes are those `c_syntax` names for the same text. Each node
/// lies within the text's bytes, and its start and end rows are the numbers
/// of newlines before its start and end bytes: tree-sitter's lexer moves
/// its byte offset and its row together, one row for each `\n` it passes,
/// and never past the end of the input.
#[verifier::external_body]
fn parse_source(content: &str) -> (r: Option<tree_sitter::Tree>)
    ensures
        r is Some <==> c_syntax(content@) is Some,
        r matches Some(t) ==> c_syntax(content@) == Some(tree_nodes(t)),
        r matches Some(t) ==> tree_in_text(tree_nodes(t), encode_utf8(content@)),
{
    let mut parser = tree_sitter::Parser::new();
    match parser.set_language(&tree_sitter_c::LANGUAGE.into()) {
        Ok(()) => parser.parse(content, None),
        Err(_) => None,
    }
}

/// `tree_sitter::Node::descendant_count` of the root: the number of nodes of
/// the tree (the root included). Claimed: it is the length of `tree_nodes`.
#[verifier::external_body]
fn tree_node_count(tree: &tree_sitter::Tree) -> (r: usize)
    ensures
        r == tree_nodes(*tree).len(),
{
    tree.root_node().descendant_count()
}

/// The node of pre-order index `index`, reached with
/// `tree_sitter::TreeCursor::goto_descendant` and read field by field.
/// Claimed: it is the element `index` of `tree_nodes`.
#[verifier::external_body]
fn tree_node_at(tree: &tree_sitter::Tree, index: usize) -> (r: SyntaxNode)
    requires
        index < tree_nodes(*tree).len(),
    ensures
        r@ == tree_nodes(*tree)[index as int],
{
    let mut cursor = tree.walk();
    cursor.goto_descendant(index);
    let node = cursor.node();
    SyntaxNode {
        kind: node.kind().to_string(),
        field: cursor.field_name().map(|f| f.to_string()),
        size: node.descendant_count(),
        start_byte: node.start_byte(),
        end_byte: node.end_byte(),
        start_row: node.start_position().row,
        start_col: node.start_position().column,
        end_row: node.end_position().row,
        end_col: node.end_position().column,
    }
}

/// Parses a C source text.
pub fn parse(content: &str) -> (r: Option<SyntaxTree>)
    ensures
        r is Some <==> c_syntax(content@) is Some,
        r matches Some(t) ==> c_syntax(content@) == Some(t@),
        syntax_in_text(content@),
{
    match parse_source(content) {
        None => None,
        Some(tree) => {
            let count = tree_node_count(&tree);
            let mut nodes: Vec<SyntaxNode> = Vec::new();
            let mut i: usize = 0;
            while i < count
                invariant
                    i <= count,
                    count == tree_nodes(tree).len(),
                    nodes@.map_values(|n: SyntaxNode| n@) == tree_nodes(tree).take(i as int),
                decreases count - i,
            {
                let node = tree_node_at(&tree, i);
                let ghost prev = nodes@;
                let ghost nv = node@;
                nodes.push(node);
                assert(nodes@.map_values(|n: SyntaxNode| n@) =~= prev.map_values(|n: SyntaxNode| n@).push(nv));
                assert(tree_nodes(tree).take(i + 1) =~= tree_nodes(tree).take(i as int).push(tree_nodes(tree)[i as int]));
                i = i + 1;
            }
            assert(tree_nodes(tree).take(count as int) =~= tree_nodes(tree));
            Some(SyntaxTree { nodes })
        },
    }
}

// ---------------------------------------------------------------------------
// Queries on the node list.

pub open spec fn has_kind(ns: Seq<NodeView>, i: int, k: Seq<char>) -> bool {
    0 <= i < ns.len() && ns[i].kind == k
}

/// One past the last node of the subtree of `i`.
pub open spec fn sub_end(ns: Seq<NodeView>, i: int) -> int {
    if i + ns[i].size < ns.len() {
        i + ns[i].size
    } else {
        ns.len() as int
    }
}

/// The nodes from `c` on that follow one another as siblings before `end`.
pub open spec fn clip(x: int) -> int {
    if x < 0 {
        0
    } else {
        x
    }
}

pub open spec fn children_from(ns: Seq<NodeView>, c: int, end: int) -> Seq<int>
    decreases clip(end - c),
{
    if c < 0 || c >= end || c >= ns.len() || ns[c].size <= 0 {
        seq![]
    } else {
        seq![c] + children_from(ns, c + ns[c].size, end)
    }
}

/// The children of node `i`, in order.
pub open spec fn children(ns: Seq<NodeView>, i: int) -> Seq<int> {
    if 0 <= i < ns.len() {
        children_from(ns, i + 1, sub_end(ns, i))
    } else {
        seq![]
    }
}

/// The first of `cs` whose field name is `f`.
pub open spec fn first_in_field(ns: Seq<NodeView>, cs: Seq<int>, f: Seq<char>) -> Option<int>
    decreases cs.len(),
{
    if cs.len() == 0 {
        None
    } else if 0 <= cs[0] < ns.len() && ns[cs[0]].field == Some(f) {
        Some(cs[0])
    } else {
        first_in_field(ns, cs.drop_first(), f)
    }
}

/// The child of `i` that stands in field `f`.
pub open spec fn field_child(ns: Seq<NodeView>, i: int, f: Seq<char>) -> Option<int> {
    first_in_field(ns, children(ns, i), f)
}

/// Whether node `i` or one of its descendants has kind `k`.
pub open spec fn contains_kind(ns: Seq<NodeView>, i: int, k: Seq<char>) -> bool {
    0 <= i < ns.len() && exists|j: int| i <= j < sub_end(ns, i) && #[trigger] ns[j].kind == k
}

/// The nearest node at or before `i` whose subtree holds node `j`.
pub open spec fn parent_from(ns: Seq<NodeView>, j: int, i: int) -> Option<int>
    decreases i + 1,
{
    if i < 0 {
        None
    } else if i < ns.len() && j < i + ns[i].size {
        Some(i)
    } else {
        parent_from(ns, j, i - 1)
    }
}

/// The parent of node `j`: the deepest node before it whose subtree holds it.
pub open spec fn parent(ns: Seq<NodeView>, j: int) -> Option<int> {
    parent_from(ns, j, j - 1)
}

/// The number of nodes of the tree.
pub fn node_count(t: &SyntaxTree) -> (r: usize)
    ensures
        r == t@.len(),
{
    t.nodes.len()
}

pub fn kind_is(t: &SyntaxTree, i: usize, k: &str) -> (r: bool)
    ensures
        r == has_kind(t@, i as int, k@),
{
    if i < t.nodes.len() {
        str_eq(t.nodes[i].kind.as_str(), k)
    } else {
        false
    }
}

pub fn field_is(t: &SyntaxTree, i: usize, f: &str) -> (r: bool)
    requires
        i < t@.len(),
    ensures
        r == (t@[i as int].field == Some(f@)),
{
    match &t.nodes[i].field {
        Some(s) => str_eq(s.as_str(), f),
        None => false,
    }
}

pub fn subtree_end(t: &SyntaxTree, i: usize) -> (r: usize)
    requires
        i < t@.len(),
    ensures
        r == sub_end(t@, i as int),
{
    let n = t.nodes.len();
    let size = t.nodes[i].size;
    if size < n - i {
        i + size
    } else {
        n
    }
}

/// The children of node `i`.
pub fn children_of(t: &SyntaxTree, i: usize) -> (r: Vec<usize>)
    ensures
        r@.map_values(|c: usize| c as int) == children(t@, i as int),
        forall|k: int| 0 <= k < r@.len() ==> i < #[trigger] r@[k] < t@.len(),
{
    let mut r: Vec<usize> = Vec::new();
    if i >= t.nodes.len() {
        assert(r@.map_values(|c: usize| c as int) =~= children(t@, i as int));
        return r;
    }
    let end = subtree_end(t, i);
    let mut c: usize = i + 1;
    while c < end && t.nodes[c].size > 0
        invariant
            i < t@.len(),
            end == sub_end(t@, i as int),
            end <= t@.len(),
            i < c,
            forall|k: int| 0 <= k < r@.len() ==> i < #[trigger] r@[k] < t@.len(),
            r@.map_values(|x: usize| x as int) + children_from(t@, c as int, end as int) == children(
                t@,
                i as int,
            ),
        decreases end - c,
    {
        let ghost prev = r@;
        r.push(c);
        assert(r@.map_values(|x: usize| x as int) =~= prev.map_values(|x: usize| x as int).push(
            c as int,
        ));
        let size = t.nodes[c].size;
        if size >= end - c {
            assert(children_from(t@, (c + size) as int, end as int) =~= Seq::<int>::empty());
            assert(r@.map_values(|x: usize| x as int) =~= children(t@, i as int));
            return r;
        }
        c = c + size;
    }
    assert(children_from(t@, c as int, end as int) =~= Seq::<int>::empty());
    assert(r@.map_values(|x: usize| x as int) =~= children(t@, i as int));
    r
}

/// The child of node `i` in field `f`.
pub fn child_by_field(t: &SyntaxTree, i: usize, f: &str) -> (r: Option<usize>)
    ensures
        match r {
            Some(c) => field_child(t@, i as int, f@) == Some(c as int),
            None => field_child(t@, i as int, f@) is None,
        },
        r matches Some(c) ==> c < t@.len(),
{
    let cs = children_of(t, i);
    let ghost all = children(t@, i as int);
    let mut k: usize = 0;
    assert(all.skip(0) =~= all);
    while k < cs.len()
        invariant
            k <= cs@.len(),
            cs@.map_values(|c: usize| c as int) == all,
            all == children(t@, i as int),
            first_in_field(t@, all, f@) == first_in_field(t@, all.skip(k as int), f@),
        decreases cs@.len() - k,
    {
        let c = cs[k];
        assert(all.skip(k as int)[0] == c as int);
        assert(all.skip(k as int).drop_first() =~= all.skip(k + 1));
        if c < t.nodes.len() && field_is(t, c, f) {
            return Some(c);
        }
        k = k + 1;
    }
    assert(all.skip(k as int) =~= Seq::<int>::empty());
    None
}

/// Whether node `i` or a descendant has kind `k`.
pub fn subtree_has_kind(t: &SyntaxTree, i: usize, k: &str) -> (r: bool)
    ensures
        r == contains_kind(t@, i as int, k@),
{
    if i >= t.nodes.len() {
        return false;
    }
    let end = subtree_end(t, i);
    let mut j: usize = i;
    while j < end
        invariant
            i <= j,
            i < t@.len(),
            end == sub_end(t@, i as int),
            end <= t@.len(),
            forall|m: int| i <= m < j ==> t@[m].kind != k@,
        decreases end - j,
    {
        if kind_is(t, j, k) {
            return true;
        }
        j = j + 1;
    }
    false
}

/// The parent of node `j`.
pub fn parent_of(t: &SyntaxTree, j: usize) -> (r: Option<usize>)
    ensures
        match r {
            Some(p) => parent(t@, j as int) == Some(p as int),
            None => parent(t@, j as int) is None,
        },
        r matches Some(p) ==> p < t@.len(),
{
    let mut i: usize = j;
    while i > 0
        invariant
            i <= j,
            parent(t@, j as int) == parent_from(t@, j as int, i - 1),
        decreases i,
    {
        let p = i - 1;
        if p < t.nodes.len() && t.nodes[p].size > j - p {
            return Some(p);
        }
        i = i - 1;
    }
    None
}


/// The first of `cs` whose kind is `k`.
pub open spec fn first_of_kind(ns: Seq<NodeView>, cs: Seq<int>, k: Seq<char>) -> Option<int>
    decreases cs.len(),
{
    if cs.len() == 0 {
        None
    } else if has_kind(ns, cs[0], k) {
        Some(cs[0])
    } else {
        first_of_kind(ns, cs.drop_first(), k)
    }
}

/// The first child of `i` of kind `k`.
pub open spec fn kind_child(ns: Seq<NodeView>, i: int, k: Seq<char>) -> Option<int> {
    first_of_kind(ns, children(ns, i), k)
}

/// The first child of node `i` of kind `k`.
pub fn child_of_kind(t: &SyntaxTree, i: usize, k: &str) -> (r: Option<usize>)
    ensures
        match r {
            Some(c) => kind_child(t@, i as int, k@) == Some(c as int),
            None => kind_child(t@, i as int, k@) is None,
        },
        r matches Some(c) ==> c < t@.len(),
{
    let cs = children_of(t, i);
    let ghost all = children(t@, i as int);
    let mut j: usize = 0;
    assert(all.skip(0) =~= all);
    while j < cs.len()
        invariant
            j <= cs@.len(),
            cs@.map_values(|c: usize| c as int) == all,
            all == children(t@, i as int),
            first_of_kind(t@, all, k@) == first_of_kind(t@, all.skip(j as int), k@),
        decreases cs@.len() - j,
    {
        let c = cs[j];
        assert(all.skip(j as int)[0] == c as int);
        assert(all.skip(j as int).drop_first() =~= all.skip(j + 1));
        if kind_is(t, c, k) {
            return Some(c);
        }
        j = j + 1;
    }
    assert(all.skip(j as int) =~= Seq::<int>::empty());
    None
}

/// The source text of a node (`Node::utf8_text`): its byte range, where that
/// range lies in the text and is valid UTF-8.
pub open spec fn node_text(b: Seq<u8>, n: NodeView) -> Option<Seq<u8>> {
    if 0 <= n.start_byte <= n.end_byte <= b.len() && valid_utf8(
        b.subrange(n.start_byte, n.end_byte),
    ) {
        Some(b.subrange(n.start_byte, n.end_byte))
    } else {
        None
    }
}

/// The source text of a node, or nothing where it has none.
pub open spec fn text_or_empty(b: Seq<u8>, n: NodeView) -> Seq<u8> {
    match node_text(b, n) {
        Some(x) => x,
        None => seq![],
    }
}

/// The source text of node `i`.
pub fn text_of(b: &[u8], t: &SyntaxTree, i: usize) -> (r: Option<Vec<u8>>)
    requires
        i < t@.len(),
    ensures
        match r {
            Some(v) => node_text(b@, t@[i as int]) == Some(v@),
            None => node_text(b@, t@[i as int]) is None,
        },
{
    let n = &t.nodes[i];
    if n.start_byte <= n.end_byte && n.end_byte <= b.len() {
        let v = copy_range(b, n.start_byte, n.end_byte);
        match utf8_to_string(v.as_slice()) {
            Some(_) => Some(v),
            None => None,
        }
    } else {
        None
    }
}

/// The source text of node `i`, or nothing.
pub fn text_or_nothing(b: &[u8], t: &SyntaxTree, i: usize) -> (r: Vec<u8>)
    requires
        i < t@.len(),
    ensures
        r@ == text_or_empty(b@, t@[i as int]),
{
    match text_of(b, t, i) {
        Some(v) => v,
        None => Vec::new(),
    }
}

/// The 1-based line on which node `x` starts.
pub fn row_line(t: &SyntaxTree, x: usize) -> (r: usize)
    requires
        x < t@.len(),
        tree_fits(t@),
    ensures
        r == t@[x as int].start_row + 1,
{
    assert(node_fits(t@[x as int]));
    assert(t@[x as int] == t.nodes@[x as int]@);
    t.nodes[x].start_row + 1
}


pub proof fn lemma_children_from_bounds(ns: Seq<NodeView>, c: int, end: int)
    ensures
        forall|k: int|
            0 <= k < children_from(ns, c, end).len() ==> c <= #[trigger] children_from(ns, c, end)[k]
                < ns.len(),
    decreases clip(end - c),
{
    if c < 0 || c >= end || c >= ns.len() || ns[c].size <= 0 {
    } else {
        lemma_children_from_bounds(ns, c + ns[c].size, end);
        let rest = children_from(ns, c + ns[c].size, end);
        assert forall|k: int| 0 <= k < children_from(ns, c, end).len() implies c <= #[trigger] children_from(
            ns,
            c,
            end,
        )[k] < ns.len() by {
            if k > 0 {
                assert(children_from(ns, c, end)[k] == rest[k - 1]);
            }
        }
    }
}

pub proof fn lemma_first_in_field_member(ns: Seq<NodeView>, cs: Seq<int>, f: Seq<char>)
    ensures
        first_in_field(ns, cs, f) matches Some(c) ==> cs.contains(c),
    decreases cs.len(),
{
    if cs.len() > 0 && !(0 <= cs[0] < ns.len() && ns[cs[0]].field == Some(f)) {
        lemma_first_in_field_member(ns, cs.drop_first(), f);
        match first_in_field(ns, cs, f) {
            Some(c) => {
                let k = choose|k: int| 0 <= k < cs.drop_first().len() && cs.drop_first()[k] == c;
                assert(cs[k + 1] == c);
            },
            None => {},
        }
    } else if cs.len() > 0 {
        assert(cs[0] == cs[0]);
    }
}

/// A child stands after its parent in the node list.
pub proof fn lemma_field_child_after(ns: Seq<NodeView>, i: int, f: Seq<char>)
    ensures
        field_child(ns, i, f) matches Some(c) ==> i < c < ns.len(),
{
    lemma_first_in_field_member(ns, children(ns, i), f);
    if 0 <= i < ns.len() {
        lemma_children_from_bounds(ns, i + 1, sub_end(ns, i));
    }
}


pub proof fn lemma_first_of_kind_member(ns: Seq<NodeView>, cs: Seq<int>, k: Seq<char>)
    ensures
        first_of_kind(ns, cs, k) matches Some(c) ==> cs.contains(c) && has_kind(ns, c, k),
    decreases cs.len(),
{
    if cs.len() > 0 && !has_kind(ns, cs[0], k) {
        lemma_first_of_kind_member(ns, cs.drop_first(), k);
        match first_of_kind(ns, cs, k) {
            Some(c) => {
                let m = choose|m: int| 0 <= m < cs.drop_first().len() && cs.drop_first()[m] == c;
                assert(cs[m + 1] == c);
            },
            None => {},
        }
    } else if cs.len() > 0 {
        assert(cs[0] == cs[0]);
    }
}

/// The child of a given kind is a node of the tree of that kind.
pub proof fn lemma_kind_child_bounds(ns: Seq<NodeView>, i: int, k: Seq<char>)
    ensures
        kind_child(ns, i, k) matches Some(c) ==> 0 <= c < ns.len() && has_kind(ns, c, k),
{
    lemma_first_of_kind_member(ns, children(ns, i), k);
}


/// The children of a node stand after it in the node list.
pub proof fn lemma_children_after(ns: Seq<NodeView>, i: int)
    ensures
        forall|k: int| 0 <= k < children(ns, i).len() ==> i < #[trigger] children(ns, i)[k] < ns.len(),
{
    if 0 <= i < ns.len() {
        lemma_children_from_bounds(ns, i + 1, sub_end(ns, i));
    }
}

} // verus!
