//! Byte-level text model: a file is the UTF-8 encoding of its content.
use vstd::prelude::*;
use vstd::string::StringSliceAdditionalSpecFns;

verus! {

pub open spec fn nl() -> u8 {
    10u8
}

pub open spec fn cr() -> u8 {
    13u8
}

/// The pieces of `b` between newline bytes (what `str::split('\n')` gives).
pub open spec fn split_nl(b: Seq<u8>) -> Seq<Seq<u8>>
    decreases b.len(),
{
    if b.len() == 0 {
        seq![Seq::<u8>::empty()]
    } else {
        let prev = split_nl(b.drop_last());
        if b.last() == nl() {
            prev.push(Seq::<u8>::empty())
        } else {
            prev.update(prev.len() - 1, prev.last().push(b.last()))
        }
    }
}

pub proof fn lemma_split_nl_len(b: Seq<u8>)
    ensures
        split_nl(b).len() >= 1,
    decreases b.len(),
{
    if b.len() > 0 {
        lemma_split_nl_len(b.drop_last());
    }
}

/// There is one more newline-separated piece than there are newlines.
pub proof fn lemma_split_nl_count(b: Seq<u8>)
    ensures
        split_nl(b).len() == count_byte(b, nl()) + 1,
    decreases b.len(),
{
    if b.len() > 0 {
        lemma_split_nl_count(b.drop_last());
    }
}

/// A prefix holds no more newlines than the whole.
pub proof fn lemma_count_byte_prefix(b: Seq<u8>, x: u8, k: int)
    requires
        0 <= k <= b.len(),
    ensures
        count_byte(b.take(k), x) <= count_byte(b, x),
    decreases b.len(),
{
    if k < b.len() {
        assert(b.drop_last().take(k) =~= b.take(k));
        lemma_count_byte_prefix(b.drop_last(), x, k);
    } else {
        assert(b.take(k) =~= b);
    }
}

/// The texts that a list of byte ranges denote in `b`.
pub open spec fn range_texts(r: Seq<(usize, usize)>, b: Seq<u8>) -> Seq<Seq<u8>> {
    r.map_values(|p: (usize, usize)| b.subrange(p.0 as int, p.1 as int))
}

pub open spec fn valid_ranges(r: Seq<(usize, usize)>, n: int) -> bool {
    forall|j: int| 0 <= j < r.len() ==> r[j].0 <= #[trigger] r[j].1 <= n
}

/// The byte ranges of the pieces of `b` between newlines.
pub fn split_ranges(b: &[u8]) -> (r: Vec<(usize, usize)>)
    ensures
        valid_ranges(r@, b@.len() as int),
        range_texts(r@, b@) == split_nl(b@),
{
    let mut r: Vec<(usize, usize)> = Vec::new();
    let mut start: usize = 0;
    let mut i: usize = 0;
    assert(b@.take(0) =~= Seq::<u8>::empty());
    assert(range_texts(r@, b@).push(b@.subrange(0, 0)) =~= split_nl(b@.take(0)));
    while i < b.len()
        invariant
            0 <= start <= i <= b@.len(),
            valid_ranges(r@, i as int),
            forall|j: int| 0 <= j < r@.len() ==> #[trigger] r@[j].1 < start,
            range_texts(r@, b@).push(b@.subrange(start as int, i as int)) == split_nl(
                b@.take(i as int),
            ),
        decreases b@.len() - i,
    {
        let ghost prev_r = r@;
        let ghost prev_start = start;
        assert(b@.take(i + 1).drop_last() =~= b@.take(i as int));
        assert(b@.take(i + 1).last() == b@[i as int]);
        if b[i] == 10u8 {
            r.push((start, i));
            start = i + 1;
            assert(range_texts(r@, b@) =~= range_texts(prev_r, b@).push(
                b@.subrange(prev_start as int, i as int),
            ));
            assert(b@.subrange(start as int, i + 1) =~= Seq::<u8>::empty());
        } else {
            assert(b@.subrange(start as int, i + 1) =~= b@.subrange(start as int, i as int).push(
                b@[i as int],
            ));
        }
        i = i + 1;
        assert(range_texts(r@, b@).push(b@.subrange(start as int, i as int)) =~= split_nl(
            b@.take(i as int),
        ));
    }
    let ghost prev_r = r@;
    r.push((start, b.len()));
    assert(b@.take(b@.len() as int) =~= b@);
    assert(range_texts(r@, b@) =~= range_texts(prev_r, b@).push(
        b@.subrange(start as int, b@.len() as int),
    ));
    r
}

/// The first index at or after `i` where `b` holds `x`.
pub open spec fn find_byte_from(b: Seq<u8>, x: u8, i: int) -> Option<int>
    decreases b.len() - i,
{
    if i < 0 || i >= b.len() {
        None
    } else if b[i] == x {
        Some(i)
    } else {
        find_byte_from(b, x, i + 1)
    }
}

/// How many times `x` occurs in `b`.
pub open spec fn count_byte(b: Seq<u8>, x: u8) -> nat
    decreases b.len(),
{
    if b.len() == 0 {
        0
    } else {
        count_byte(b.drop_last(), x) + if b.last() == x {
            1nat
        } else {
            0nat
        }
    }
}

pub proof fn lemma_count_byte_le(b: Seq<u8>, x: u8)
    ensures
        count_byte(b, x) <= b.len(),
    decreases b.len(),
{
    if b.len() > 0 {
        lemma_count_byte_le(b.drop_last(), x);
    }
}

pub fn find_byte(b: &[u8], x: u8) -> (r: Option<usize>)
    ensures
        match r {
            Some(i) => find_byte_from(b@, x, 0) == Some(i as int),
            None => find_byte_from(b@, x, 0) is None,
        },
        r matches Some(i) ==> i < b@.len() && b@[i as int] == x,
{
    let mut i: usize = 0;
    while i < b.len()
        invariant
            i <= b@.len(),
            find_byte_from(b@, x, 0) == find_byte_from(b@, x, i as int),
        decreases b@.len() - i,
    {
        if b[i] == x {
            return Some(i);
        }
        i = i + 1;
    }
    None
}

/// Counts the occurrences of `x` in `b[..end]`.
pub fn count_byte_upto(b: &[u8], x: u8, end: usize) -> (r: usize)
    requires
        end <= b@.len(),
    ensures
        r == count_byte(b@.take(end as int), x),
{
    let mut i: usize = 0;
    let mut c: usize = 0;
    assert(b@.take(0) =~= Seq::<u8>::empty());
    while i < end
        invariant
            i <= end <= b@.len(),
            c == count_byte(b@.take(i as int), x),
        decreases end - i,
    {
        assert(b@.take(i + 1).drop_last() =~= b@.take(i as int));
        proof {
            lemma_count_byte_le(b@.take(i as int), x);
        }
        if b[i] == x {
            c = c + 1;
        }
        i = i + 1;
    }
    c
}

} // verus!

verus! {

/// Byte-wise equality of two slices.
pub fn bytes_eq(a: &[u8], b: &[u8]) -> (r: bool)
    ensures
        r == (a@ == b@),
{
    if a.len() != b.len() {
        return false;
    }
    let mut i: usize = 0;
    while i < a.len()
        invariant
            i <= a@.len(),
            a@.len() == b@.len(),
            forall|j: int| 0 <= j < i ==> a@[j] == b@[j],
        decreases a@.len() - i,
    {
        if a[i] != b[i] {
            return false;
        }
        i = i + 1;
    }
    assert(a@ =~= b@);
    true
}

/// Equality of two strings, decided on their UTF-8 encodings.
pub fn str_eq(a: &str, b: &str) -> (r: bool)
    ensures
        r == (a@ == b@),
{
    let r = bytes_eq(a.as_bytes(), b.as_bytes());
    proof {
        vstd::utf8::encode_utf8_decode_utf8(a@);
        vstd::utf8::encode_utf8_decode_utf8(b@);
    }
    r
}

/// Copies `b[lo..hi]`.
pub fn copy_range(b: &[u8], lo: usize, hi: usize) -> (r: Vec<u8>)
    requires
        lo <= hi <= b@.len(),
    ensures
        r@ == b@.subrange(lo as int, hi as int),
{
    let mut r: Vec<u8> = Vec::new();
    let mut i: usize = lo;
    while i < hi
        invariant
            lo <= i <= hi <= b@.len(),
            r@ == b@.subrange(lo as int, i as int),
        decreases hi - i,
    {
        r.push(b[i]);
        i = i + 1;
        assert(r@ =~= b@.subrange(lo as int, i as int));
    }
    r
}

} // verus!

verus! {

// ---------------------------------------------------------------------------
// Lines as `str::lines` gives them.

/// Whether piece `j` of the newline split is followed by a newline and ends in
/// a carriage return (so that `str::lines` drops the `\r`).
pub open spec fn strips_cr(parts: Seq<Seq<u8>>, j: int) -> bool {
    j < parts.len() - 1 && parts[j].len() > 0 && parts[j].last() == cr()
}

/// The number of lines `str::lines` yields: a final empty piece is no line.
pub open spec fn lines_count(parts: Seq<Seq<u8>>) -> int {
    if parts.len() > 0 && parts.last().len() == 0 {
        parts.len() - 1
    } else {
        parts.len() as int
    }
}

/// The lines of `b` as `str::lines` gives them.
pub open spec fn std_lines(b: Seq<u8>) -> Seq<Seq<u8>> {
    let parts = split_nl(b);
    Seq::new(
        lines_count(parts) as nat,
        |j: int|
            if strips_cr(parts, j) {
                parts[j].drop_last()
            } else {
                parts[j]
            },
    )
}

/// `str::lines` gives no more lines than `str::split('\n')` gives pieces.
pub proof fn lemma_std_lines_len(b: Seq<u8>)
    ensures
        std_lines(b).len() <= split_nl(b).len(),
{
}

/// The byte ranges of the lines of `b` as `str::lines` gives them.
pub fn line_ranges(b: &[u8]) -> (r: Vec<(usize, usize)>)
    ensures
        valid_ranges(r@, b@.len() as int),
        range_texts(r@, b@) == std_lines(b@),
{
    let parts = split_ranges(b);
    let ghost ps = split_nl(b@);
    proof {
        lemma_split_nl_len(b@);
    }
    let n = parts.len();
    let last = parts[n - 1];
    assert(ps[n - 1] == b@.subrange(last.0 as int, last.1 as int));
    let k = if last.1 == last.0 {
        n - 1
    } else {
        n
    };
    assert(k == lines_count(ps));
    let mut r: Vec<(usize, usize)> = Vec::new();
    let mut j: usize = 0;
    while j < k
        invariant
            k <= n == parts@.len() == ps.len(),
            k == lines_count(ps),
            ps == split_nl(b@),
            valid_ranges(parts@, b@.len() as int),
            range_texts(parts@, b@) == ps,
            valid_ranges(r@, b@.len() as int),
            j <= k,
            r@.len() == j,
            forall|m: int| 0 <= m < j ==> #[trigger] range_texts(r@, b@)[m] == std_lines(b@)[m],
        decreases k - j,
    {
        let (s, e) = parts[j];
        assert(ps[j as int] == b@.subrange(s as int, e as int));
        assert(ps[j as int].len() == e - s);
        if e > s {
            assert(ps[j as int].last() == b@[e - 1]);
        }
        assert(std_lines(b@)[j as int] == if strips_cr(ps, j as int) {
            ps[j as int].drop_last()
        } else {
            ps[j as int]
        });
        let ghost prev = r@;
        if j + 1 < n && e > s && b[e - 1] == 13u8 {
            r.push((s, e - 1));
            assert(b@.subrange(s as int, e - 1) =~= ps[j as int].drop_last());
        } else {
            r.push((s, e));
        }
        assert forall|m: int| 0 <= m < j + 1 implies #[trigger] range_texts(r@, b@)[m] == std_lines(
            b@,
        )[m] by {
            if m < j {
                assert(r@[m] == prev[m]);
                assert(range_texts(prev, b@)[m] == std_lines(b@)[m]);
            } else {
                assert(range_texts(r@, b@)[m] == b@.subrange(r@[m].0 as int, r@[m].1 as int));
            }
        }
        j = j + 1;
    }
    assert(range_texts(r@, b@) =~= std_lines(b@));
    r
}

// ---------------------------------------------------------------------------
// Unicode white space, on UTF-8 bytes.

pub open spec fn ascii_ws(x: u8) -> bool {
    (9 <= x && x <= 13) || x == 32
}

/// Whether `(x, y, z)` encodes a three-byte white-space character: U+1680,
/// U+2000..U+200A, U+2028, U+2029, U+202F, U+205F or U+3000.
pub open spec fn ws3(x: u8, y: u8, z: u8) -> bool {
    (x == 0xE1 && y == 0x9A && z == 0x80) || (x == 0xE2 && y == 0x80 && (0x80 <= z && z <= 0x8A))
        || (x == 0xE2 && y == 0x80 && (z == 0xA8 || z == 0xA9 || z == 0xAF)) || (x == 0xE2 && y
        == 0x81 && z == 0x9F) || (x == 0xE3 && y == 0x80 && z == 0x80)
}

/// The length of the white-space character that starts `b`, or 0.
pub open spec fn ws_len_first(b: Seq<u8>) -> int {
    if b.len() >= 1 && ascii_ws(b[0]) {
        1
    } else if b.len() >= 2 && b[0] == 0xC2 && (b[1] == 0x85 || b[1] == 0xA0) {
        2
    } else if b.len() >= 3 && ws3(b[0], b[1], b[2]) {
        3
    } else {
        0
    }
}

/// The length of the white-space character that ends `b`, or 0.
pub open spec fn ws_len_last(b: Seq<u8>) -> int {
    let n = b.len() as int;
    if n >= 1 && ascii_ws(b[n - 1]) {
        1
    } else if n >= 2 && b[n - 2] == 0xC2 && (b[n - 1] == 0x85 || b[n - 1] == 0xA0) {
        2
    } else if n >= 3 && ws3(b[n - 3], b[n - 2], b[n - 1]) {
        3
    } else {
        0
    }
}

/// `str::trim_start`: drops leading white space.
pub open spec fn trim_start(b: Seq<u8>) -> Seq<u8>
    decreases b.len(),
{
    if ws_len_first(b) > 0 {
        trim_start(b.skip(ws_len_first(b)))
    } else {
        b
    }
}

/// `str::trim_end`: drops trailing white space.
pub open spec fn trim_end(b: Seq<u8>) -> Seq<u8>
    decreases b.len(),
{
    if ws_len_last(b) > 0 {
        trim_end(b.take(b.len() - ws_len_last(b)))
    } else {
        b
    }
}

/// `str::trim`.
pub open spec fn trim(b: Seq<u8>) -> Seq<u8> {
    trim_end(trim_start(b))
}

pub proof fn lemma_trim_start_len(b: Seq<u8>)
    ensures
        trim_start(b).len() <= b.len(),
        trim_start(b) == b.skip(b.len() - trim_start(b).len()),
    decreases b.len(),
{
    if ws_len_first(b) > 0 {
        let k = ws_len_first(b);
        lemma_trim_start_len(b.skip(k));
        assert(b.skip(k).skip(b.skip(k).len() - trim_start(b.skip(k)).len()) =~= b.skip(
            b.len() - trim_start(b).len(),
        ));
    } else {
        assert(b.skip(0) =~= b);
    }
}

fn ws_len_first_exec(b: &[u8], i: usize) -> (r: usize)
    requires
        i <= b@.len(),
    ensures
        r == ws_len_first(b@.skip(i as int)),
{
    let n = b.len() - i;
    let r = if n >= 1 && ((9u8 <= b[i] && b[i] <= 13u8) || b[i] == 32u8) {
        1
    } else if n >= 2 && b[i] == 0xC2u8 && (b[i + 1] == 0x85u8 || b[i + 1] == 0xA0u8) {
        2
    } else if n >= 3 && ws3_exec(b[i], b[i + 1], b[i + 2]) {
        3
    } else {
        0
    };
    r
}

fn ws3_exec(x: u8, y: u8, z: u8) -> (r: bool)
    ensures
        r == ws3(x, y, z),
{
    (x == 0xE1u8 && y == 0x9Au8 && z == 0x80u8) || (x == 0xE2u8 && y == 0x80u8 && (0x80u8 <= z
        && z <= 0x8Au8)) || (x == 0xE2u8 && y == 0x80u8 && (z == 0xA8u8 || z == 0xA9u8 || z
        == 0xAFu8)) || (x == 0xE2u8 && y == 0x81u8 && z == 0x9Fu8) || (x == 0xE3u8 && y == 0x80u8
        && z == 0x80u8)
}

fn ws_len_last_exec(b: &[u8], j: usize) -> (r: usize)
    requires
        j <= b@.len(),
    ensures
        r == ws_len_last(b@.take(j as int)),
{
    let r = if j >= 1 && ((9u8 <= b[j - 1] && b[j - 1] <= 13u8) || b[j - 1] == 32u8) {
        1
    } else if j >= 2 && b[j - 2] == 0xC2u8 && (b[j - 1] == 0x85u8 || b[j - 1] == 0xA0u8) {
        2
    } else if j >= 3 && ws3_exec(b[j - 3], b[j - 2], b[j - 1]) {
        3
    } else {
        0
    };
    r
}

/// The index at which `str::trim_start` of `b` begins.
pub fn trim_start_index(b: &[u8]) -> (r: usize)
    ensures
        r <= b@.len(),
        b@.skip(r as int) == trim_start(b@),
{
    let mut i: usize = 0;
    assert(b@.skip(0) =~= b@);
    while i < b.len()
        invariant
            i <= b@.len(),
            trim_start(b@) == trim_start(b@.skip(i as int)),
        decreases b@.len() - i,
    {
        let k = ws_len_first_exec(b, i);
        if k == 0 {
            return i;
        }
        assert(b@.skip(i as int).skip(k as int) =~= b@.skip(i + k));
        i = i + k;
    }
    assert(b@.skip(i as int) =~= Seq::<u8>::empty());
    i
}

/// The index at which `str::trim_end` of `b` ends.
pub fn trim_end_index(b: &[u8]) -> (r: usize)
    ensures
        r <= b@.len(),
        b@.take(r as int) == trim_end(b@),
{
    let mut j: usize = b.len();
    assert(b@.take(j as int) =~= b@);
    while j > 0
        invariant
            j <= b@.len(),
            trim_end(b@) == trim_end(b@.take(j as int)),
        decreases j,
    {
        let k = ws_len_last_exec(b, j);
        if k == 0 {
            return j;
        }
        assert(b@.take(j as int).take(j - k) =~= b@.take(j - k));
        j = j - k;
    }
    assert(b@.take(0) =~= Seq::<u8>::empty());
    j
}

/// `str::trim` of `b`, copied out.
pub fn trimmed(b: &[u8]) -> (r: Vec<u8>)
    ensures
        r@ == trim(b@),
{
    let s = trim_start_index(b);
    let t = copy_range(b, s, b.len());
    let e = trim_end_index(t.as_slice());
    copy_range(t.as_slice(), 0, e)
}

/// `str::trim_start` of `b`, copied out.
pub fn trimmed_start(b: &[u8]) -> (r: Vec<u8>)
    ensures
        r@ == trim_start(b@),
{
    let s = trim_start_index(b);
    copy_range(b, s, b.len())
}

/// Whether `str::trim` of `b` is empty.
pub fn is_blank(b: &[u8]) -> (r: bool)
    ensures
        r == (trim(b@).len() == 0),
{
    let t = trimmed(b);
    t.len() == 0
}

// ---------------------------------------------------------------------------
// Prefixes, suffixes, substrings.

pub open spec fn starts_with(b: Seq<u8>, p: Seq<u8>) -> bool {
    p.len() <= b.len() && b.take(p.len() as int) == p
}

pub open spec fn ends_with(b: Seq<u8>, p: Seq<u8>) -> bool {
    p.len() <= b.len() && b.skip(b.len() - p.len()) == p
}

pub open spec fn occurs_at(b: Seq<u8>, p: Seq<u8>, i: int) -> bool {
    0 <= i && i + p.len() <= b.len() && b.subrange(i, i + p.len()) == p
}

pub open spec fn contains(b: Seq<u8>, p: Seq<u8>) -> bool {
    exists|i: int| occurs_at(b, p, i)
}

/// The first index at or after `i` where `p` occurs in `b`.
pub open spec fn find_from(b: Seq<u8>, p: Seq<u8>, i: int) -> Option<int>
    decreases b.len() + 1 - i,
{
    if i < 0 || i + p.len() > b.len() {
        None
    } else if occurs_at(b, p, i) {
        Some(i)
    } else {
        find_from(b, p, i + 1)
    }
}

/// Where `p` first occurs in `b` (what `str::find` gives).
pub open spec fn find(b: Seq<u8>, p: Seq<u8>) -> Option<int> {
    find_from(b, p, 0)
}

pub proof fn lemma_find_from_contains(b: Seq<u8>, p: Seq<u8>, i: int)
    requires
        0 <= i,
    ensures
        find_from(b, p, i) is Some <==> exists|k: int| i <= k && occurs_at(b, p, k),
        find_from(b, p, i) matches Some(k) ==> i <= k && occurs_at(b, p, k) && forall|m: int|
            i <= m < k ==> !occurs_at(b, p, m),
    decreases b.len() + 1 - i,
{
    if i + p.len() > b.len() {
    } else if occurs_at(b, p, i) {
    } else {
        lemma_find_from_contains(b, p, i + 1);
        if exists|k: int| i <= k && occurs_at(b, p, k) {
            let k = choose|k: int| i <= k && occurs_at(b, p, k);
            assert(k != i);
        }
    }
}

pub proof fn lemma_find_contains(b: Seq<u8>, p: Seq<u8>)
    ensures
        find(b, p) is Some <==> contains(b, p),
        find(b, p) matches Some(k) ==> occurs_at(b, p, k) && k + p.len() <= b.len(),
{
    lemma_find_from_contains(b, p, 0);
    if contains(b, p) {
        let k = choose|k: int| occurs_at(b, p, k);
        assert(0 <= k);
    }
}

pub fn occurs_at_exec(b: &[u8], p: &[u8], i: usize) -> (r: bool)
    ensures
        r == occurs_at(b@, p@, i as int),
{
    let n = b.len();
    if i > n || p.len() > n - i {
        return false;
    }
    let mut k: usize = 0;
    while k < p.len()
        invariant
            n == b@.len(),
            i + p@.len() <= b@.len(),
            k <= p@.len(),
            forall|m: int| 0 <= m < k ==> b@[i + m] == p@[m],
        decreases p@.len() - k,
    {
        if b[i + k] != p[k] {
            assert(b@.subrange(i as int, i + p@.len())[k as int] != p@[k as int]);
            return false;
        }
        k = k + 1;
    }
    assert(b@.subrange(i as int, i + p@.len()) =~= p@);
    true
}

pub fn starts_with_exec(b: &[u8], p: &[u8]) -> (r: bool)
    ensures
        r == starts_with(b@, p@),
{
    let r = occurs_at_exec(b, p, 0);
    assert(r == starts_with(b@, p@)) by {
        if p@.len() <= b@.len() {
            assert(b@.subrange(0, p@.len() as int) =~= b@.take(p@.len() as int));
        }
    }
    r
}

pub fn ends_with_exec(b: &[u8], p: &[u8]) -> (r: bool)
    ensures
        r == ends_with(b@, p@),
{
    if p.len() > b.len() {
        return false;
    }
    let r = occurs_at_exec(b, p, b.len() - p.len());
    assert(b@.subrange(b@.len() - p@.len(), b@.len() as int) =~= b@.skip(b@.len() - p@.len()));
    r
}

/// Where `p` first occurs in `b`.
pub fn find_exec(b: &[u8], p: &[u8]) -> (r: Option<usize>)
    ensures
        match r {
            Some(k) => find(b@, p@) == Some(k as int),
            None => find(b@, p@) is None,
        },
        r matches Some(k) ==> k + p@.len() <= b@.len(),
{
    if p.len() > b.len() {
        return None;
    }
    let last = b.len() - p.len();
    let mut i: usize = 0;
    loop
        invariant
            i <= last,
            last + p@.len() == b@.len(),
            find(b@, p@) == find_from(b@, p@, i as int),
        decreases last - i,
    {
        if occurs_at_exec(b, p, i) {
            return Some(i);
        }
        if i == last {
            assert(find_from(b@, p@, i + 1) is None);
            return None;
        }
        i = i + 1;
    }
}

pub fn contains_exec(b: &[u8], p: &[u8]) -> (r: bool)
    ensures
        r == contains(b@, p@),
{
    proof {
        lemma_find_contains(b@, p@);
    }
    find_exec(b, p).is_some()
}

/// Whether `x` occurs in `b`.
pub fn has_byte(b: &[u8], x: u8) -> (r: bool)
    ensures
        r == b@.contains(x),
{
    let mut i: usize = 0;
    while i < b.len()
        invariant
            i <= b@.len(),
            forall|k: int| 0 <= k < i ==> b@[k] != x,
        decreases b@.len() - i,
    {
        if b[i] == x {
            assert(b@[i as int] == x);
            return true;
        }
        i = i + 1;
    }
    false
}

/// An ASCII string has one byte per character.
pub proof fn lemma_ascii_len(s: &str)
    requires
        vstd::string::is_ascii(s),
    ensures
        s.spec_bytes().len() == s@.len(),
{
    vstd::string::is_ascii_spec_bytes(s);
}

// ---------------------------------------------------------------------------
// Words separated by white space.

/// The first index at or after `j` where a white-space character starts, or
/// the length of `b`.
pub open spec fn word_end(b: Seq<u8>, j: int) -> int
    decreases b.len() - j,
{
    if j < 0 || j >= b.len() || ws_len_first(b.skip(j)) > 0 {
        j
    } else {
        word_end(b, j + 1)
    }
}

pub proof fn lemma_word_end(b: Seq<u8>, j: int)
    requires
        0 <= j <= b.len(),
    ensures
        j <= word_end(b, j) <= b.len(),
    decreases b.len() - j,
{
    if j < b.len() && ws_len_first(b.skip(j)) == 0 {
        lemma_word_end(b, j + 1);
    }
}

/// `str::split_whitespace`: the maximal runs of non-white-space text. (A
/// white-space character never starts inside another UTF-8 character, so
/// looking at bytes finds the same runs.)
pub open spec fn ws_words(b: Seq<u8>) -> Seq<Seq<u8>>
    decreases b.len(),
{
    let t = trim_start(b);
    if t.len() == 0 {
        seq![]
    } else {
        proof {
            lemma_trim_start_len(b);
            lemma_word_end(t, 1);
        }
        seq![t.take(word_end(t, 1))] + ws_words(t.skip(word_end(t, 1)))
    }
}

fn word_end_exec(b: &[u8], j: usize) -> (r: usize)
    requires
        j <= b@.len(),
    ensures
        r == word_end(b@, j as int),
{
    let mut k: usize = j;
    while k < b.len() && ws_len_first_exec(b, k) == 0
        invariant
            j <= k <= b@.len(),
            word_end(b@, j as int) == word_end(b@, k as int),
        decreases b@.len() - k,
    {
        k = k + 1;
    }
    k
}

/// The white-space separated words of `b`.
pub fn ws_words_exec(b: &[u8]) -> (r: Vec<Vec<u8>>)
    ensures
        r@.map_values(|w: Vec<u8>| w@) == ws_words(b@),
{
    let mut words: Vec<Vec<u8>> = Vec::new();
    let mut rest = copy_range(b, 0, b.len());
    assert(rest@ =~= b@);
    loop
        invariant
            words@.map_values(|w: Vec<u8>| w@) + ws_words(rest@) == ws_words(b@),
        decreases rest@.len(),
    {
        let t = trimmed_start(rest.as_slice());
        proof {
            lemma_trim_start_len(rest@);
        }
        if t.len() == 0 {
            assert(ws_words(rest@) =~= Seq::<Seq<u8>>::empty());
            assert(words@.map_values(|w: Vec<u8>| w@) + Seq::<Seq<u8>>::empty() =~= words@.map_values(
                |w: Vec<u8>| w@,
            ));
            return words;
        }
        let k = word_end_exec(t.as_slice(), 1);
        proof {
            lemma_word_end(t@, 1);
        }
        let w = copy_range(t.as_slice(), 0, k);
        let next = copy_range(t.as_slice(), k, t.len());
        assert(w@ =~= t@.take(k as int));
        assert(next@ =~= t@.skip(k as int));
        let ghost prev = words@;
        words.push(w);
        assert(words@.map_values(|w: Vec<u8>| w@) =~= prev.map_values(|w: Vec<u8>| w@).push(t@.take(k as int)));
        assert(ws_words(rest@) == seq![t@.take(k as int)] + ws_words(next@));
        assert(words@.map_values(|w: Vec<u8>| w@) + ws_words(next@) =~= prev.map_values(|w: Vec<u8>| w@)
            + ws_words(rest@));
        rest = next;
    }
}

/// Where the search for `x` from `i` succeeds.
/// What `find_byte_from` finds lies at or after `i` and inside `b`.
pub proof fn lemma_find_byte_from_bounds(b: Seq<u8>, x: u8, i: int)
    ensures
        find_byte_from(b, x, i) matches Some(p) ==> i <= p < b.len(),
    decreases b.len() - i,
{
    if 0 <= i < b.len() && b[i] != x {
        lemma_find_byte_from_bounds(b, x, i + 1);
    }
}

pub proof fn lemma_find_byte_from(b: Seq<u8>, x: u8, i: int)
    requires
        0 <= i,
    ensures
        find_byte_from(b, x, i) is Some <==> exists|k: int| i <= k < b.len() && b[k] == x,
    decreases b.len() - i,
{
    if i < b.len() && b[i] != x {
        lemma_find_byte_from(b, x, i + 1);
        if exists|k: int| i <= k < b.len() && b[k] == x {
            let k = choose|k: int| i <= k < b.len() && b[k] == x;
            assert(k != i);
        }
    }
}

} // verus!
