//! Rejecting text that will not read well aloud.
//!
//! Strict by default: the caller is an agent, and an agent can act on an
//! error. Markdown has a plain-prose alternative, and so does a bare URL, so
//! both are refused with the span that offended. Everything here is over the
//! UTF-8 bytes of the text, and every span is a pair of byte offsets.

use vstd::prelude::*;
use vstd::string::StringSliceAdditionalSpecFns;

verus! {

/// Longest run looked across for a closing delimiter.
pub const MAX_SPAN: usize = 200;

/// Which markdown construct was found.
#[derive(Clone, Copy, Debug, PartialEq, Eq, Structural)]
pub enum MdKind {
    Heading,
    Blockquote,
    ListMarker,
    TableRow,
    CodeBlock,
    BoldEmphasis,
    InlineCode,
    ItalicEmphasis,
    Link,
}

impl MdKind {
    /// What to call it in a message.
    pub open spec fn text(self) -> Seq<char> {
        match self {
            MdKind::Heading => "heading"@,
            MdKind::Blockquote => "blockquote"@,
            MdKind::ListMarker => "list marker"@,
            MdKind::TableRow => "table row"@,
            MdKind::CodeBlock => "code block"@,
            MdKind::BoldEmphasis => "bold emphasis"@,
            MdKind::InlineCode => "inline code"@,
            MdKind::ItalicEmphasis => "italic emphasis"@,
            MdKind::Link => "link"@,
        }
    }

    /// What to call it in a message.
    pub fn as_str(self) -> (r: &'static str)
        ensures
            r@ == self.text(),
    {
        match self {
            MdKind::Heading => "heading",
            MdKind::Blockquote => "blockquote",
            MdKind::ListMarker => "list marker",
            MdKind::TableRow => "table row",
            MdKind::CodeBlock => "code block",
            MdKind::BoldEmphasis => "bold emphasis",
            MdKind::InlineCode => "inline code",
            MdKind::ItalicEmphasis => "italic emphasis",
            MdKind::Link => "link",
        }
    }
}

/// Why a text was refused, and where.
#[derive(Clone, Copy, Debug, PartialEq, Eq)]
pub enum Rejection {
    /// A markdown construct over this byte span.
    Markdown { span: (usize, usize), kind: MdKind },
    /// A bare URL over this byte span.
    Url { span: (usize, usize) },
}

impl Rejection {
    pub open spec fn start(self) -> int {
        match self {
            Rejection::Markdown { span, .. } => span.0 as int,
            Rejection::Url { span } => span.0 as int,
        }
    }

    /// The byte span of the offending text.
    pub fn span(&self) -> (r: (usize, usize))
        ensures
            r.0 == self.start(),
            r == (match *self {
                Rejection::Markdown { span, .. } => span,
                Rejection::Url { span } => span,
            }),
    {
        match self {
            Rejection::Markdown { span, .. } => *span,
            Rejection::Url { span } => *span,
        }
    }
}

// ------------------------------------------------------------ searching

/// Whether `n` occurs in `h` at `i`.
pub open spec fn matches_at(h: Seq<u8>, n: Seq<u8>, i: int) -> bool {
    0 <= i && i + n.len() <= h.len() && h.subrange(i, i + n.len() as int) == n
}

/// `find_at`: the first occurrence of a non-empty `n` at or after `from`.
pub open spec fn find_at_spec(h: Seq<u8>, n: Seq<u8>, from: int) -> Option<int>
    decreases h.len() - from,
{
    if n.len() == 0 || h.len() < n.len() || from < 0 || from > h.len() - n.len() {
        None
    } else if matches_at(h, n, from) {
        Some(from)
    } else {
        find_at_spec(h, n, from + 1)
    }
}

pub proof fn lemma_find_at(h: Seq<u8>, n: Seq<u8>, from: int)
    ensures
        find_at_spec(h, n, from) matches Some(i) ==> from <= i && i + n.len() <= h.len()
            && matches_at(h, n, i),
    decreases h.len() - from,
{
    if !(n.len() == 0 || h.len() < n.len() || from < 0 || from > h.len() - n.len()) && !matches_at(
        h,
        n,
        from,
    ) {
        lemma_find_at(h, n, from + 1);
    }
}

fn matches_here(h: &[u8], n: &[u8], i: usize) -> (r: bool)
    requires
        i + n@.len() <= h@.len(),
        h@.len() <= isize::MAX,
    ensures
        r == matches_at(h@, n@, i as int),
{
    let mut k: usize = 0;
    while k < n.len()
        invariant
            k <= n@.len(),
            i + n@.len() <= h@.len(),
            h@.len() <= isize::MAX,
            forall|j: int| 0 <= j < k ==> h@[i + j] == n@[j],
        decreases n.len() - k,
    {
        if h[i + k] != n[k] {
            proof {
                assert(h@.subrange(i as int, i + n@.len())[k as int] != n@[k as int]);
            }
            return false;
        }
        k += 1;
    }
    assert(h@.subrange(i as int, i + n@.len()) =~= n@);
    true
}

/// Index of `needle` in `hay` at or after `from`.
pub fn find_at(hay: &[u8], needle: &[u8], from: usize) -> (r: Option<usize>)
    requires
        hay@.len() <= isize::MAX,
    ensures
        r matches Some(i) ==> find_at_spec(hay@, needle@, from as int) == Some(i as int),
        r is None ==> find_at_spec(hay@, needle@, from as int) is None,
        r matches Some(i) ==> i + needle@.len() <= hay@.len() && from <= i,
{
    proof {
        lemma_find_at(hay@, needle@, from as int);
    }
    if needle.len() == 0 || hay.len() < needle.len() {
        return None;
    }
    let last = hay.len() - needle.len();
    let mut i = from;
    while i <= last
        invariant
            from <= i,
            last == hay@.len() - needle@.len(),
            needle@.len() > 0,
            hay@.len() <= isize::MAX,
            find_at_spec(hay@, needle@, from as int) == find_at_spec(hay@, needle@, i as int),
        decreases last + 1 - i,
    {
        if matches_here(hay, needle, i) {
            return Some(i);
        }
        i += 1;
    }
    None
}

// ------------------------------------------------------------ lines

/// The UTF-8 length of a whitespace character starting at `i`, or zero.
///
/// These are the encodings of exactly the characters `char::is_whitespace`
/// accepts, so on valid UTF-8 skipping them is `str::trim_start`.
pub open spec fn ws_len(b: Seq<u8>, i: int) -> int {
    if i < 0 || i >= b.len() {
        0
    } else if (9 <= b[i] <= 13) || b[i] == 32 {
        1
    } else if i + 1 < b.len() && b[i] == 0xc2 && (b[i + 1] == 0x85 || b[i + 1] == 0xa0) {
        2
    } else if i + 2 < b.len() && ((b[i] == 0xe1 && b[i + 1] == 0x9a && b[i + 2] == 0x80) || (b[i]
        == 0xe2 && b[i + 1] == 0x80 && ((0x80 <= b[i + 2] <= 0x8a) || b[i + 2] == 0xa8 || b[i + 2]
        == 0xa9 || b[i + 2] == 0xaf)) || (b[i] == 0xe2 && b[i + 1] == 0x81 && b[i + 2] == 0x9f) || (
    b[i] == 0xe3 && b[i + 1] == 0x80 && b[i + 2] == 0x80)) {
        3
    } else {
        0
    }
}

/// How many leading bytes are whitespace, from `i` on.
pub open spec fn lead_ws_from(b: Seq<u8>, i: int) -> int
    decreases b.len() - i,
{
    if i < 0 || i >= b.len() || ws_len(b, i) == 0 {
        0
    } else {
        ws_len(b, i) + lead_ws_from(b, i + ws_len(b, i))
    }
}

fn ws_len_at(b: &[u8], i: usize) -> (r: usize)
    requires
        i < b@.len(),
        b@.len() <= isize::MAX,
    ensures
        r == ws_len(b@, i as int),
{
    let c = b[i];
    if (9 <= c && c <= 13) || c == 32 {
        1
    } else if i + 1 < b.len() && c == 0xc2 && (b[i + 1] == 0x85 || b[i + 1] == 0xa0) {
        2
    } else if i + 2 < b.len() && ((c == 0xe1 && b[i + 1] == 0x9a && b[i + 2] == 0x80) || (c == 0xe2
        && b[i + 1] == 0x80 && ((0x80 <= b[i + 2] && b[i + 2] <= 0x8a) || b[i + 2] == 0xa8 || b[i
        + 2] == 0xa9 || b[i + 2] == 0xaf)) || (c == 0xe2 && b[i + 1] == 0x81 && b[i + 2] == 0x9f)
        || (c == 0xe3 && b[i + 1] == 0x80 && b[i + 2] == 0x80)) {
        3
    } else {
        0
    }
}

/// How many leading bytes of `b` are whitespace.
fn lead_ws_bytes(b: &[u8]) -> (r: usize)
    requires
        b@.len() <= isize::MAX,
    ensures
        r == lead_ws_from(b@, 0),
        r <= b@.len(),
{
    let mut i: usize = 0;
    while i < b.len()
        invariant
            i <= b@.len(),
            b@.len() <= isize::MAX,
            lead_ws_from(b@, 0) == i + lead_ws_from(b@, i as int),
        decreases b.len() - i,
    {
        let w = ws_len_at(b, i);
        if w == 0 {
            return i;
        }
        i += w;
    }
    i
}

/// How many leading bytes of `t` equal `c`.
pub open spec fn run_of(t: Seq<u8>, c: u8) -> nat
    decreases t.len(),
{
    if t.len() > 0 && t[0] == c {
        1 + run_of(t.drop_first(), c)
    } else {
        0
    }
}

/// How many leading bytes of `t` are ASCII digits.
pub open spec fn digit_run(t: Seq<u8>) -> nat
    decreases t.len(),
{
    if t.len() > 0 && 0x30 <= t[0] <= 0x39 {
        1 + digit_run(t.drop_first())
    } else {
        0
    }
}

proof fn lemma_run_of(t: Seq<u8>, c: u8)
    ensures
        run_of(t, c) <= t.len(),
        forall|j: int| 0 <= j < run_of(t, c) ==> t[j] == c,
        run_of(t, c) < t.len() ==> t[run_of(t, c) as int] != c,
    decreases t.len(),
{
    if t.len() > 0 && t[0] == c {
        lemma_run_of(t.drop_first(), c);
        assert forall|j: int| 0 <= j < run_of(t, c) implies t[j] == c by {
            if j > 0 {
                assert(t[j] == t.drop_first()[j - 1]);
            }
        }
        if run_of(t, c) < t.len() {
            assert(t[run_of(t, c) as int] == t.drop_first()[run_of(t, c) - 1]);
        }
    }
}

proof fn lemma_run_of_unique(t: Seq<u8>, c: u8, k: int)
    requires
        0 <= k <= t.len(),
        forall|j: int| 0 <= j < k ==> t[j] == c,
        k < t.len() ==> t[k] != c,
    ensures
        run_of(t, c) == k,
    decreases t.len(),
{
    if k > 0 {
        assert forall|j: int| 0 <= j < k - 1 implies t.drop_first()[j] == c by {
            assert(t.drop_first()[j] == t[j + 1]);
        }
        if k - 1 < t.len() - 1 {
            assert(t.drop_first()[k - 1] == t[k]);
        }
        lemma_run_of_unique(t.drop_first(), c, k - 1);
    }
}

proof fn lemma_digit_run_unique(t: Seq<u8>, k: int)
    requires
        0 <= k <= t.len(),
        forall|j: int| 0 <= j < k ==> 0x30 <= #[trigger] t[j] <= 0x39,
        k < t.len() ==> !(0x30 <= t[k] <= 0x39),
    ensures
        digit_run(t) == k,
    decreases t.len(),
{
    if k > 0 {
        assert forall|j: int| 0 <= j < k - 1 implies 0x30 <= #[trigger] t.drop_first()[j] <= 0x39 by {
            assert(t.drop_first()[j] == t[j + 1]);
        }
        if k - 1 < t.len() - 1 {
            assert(t.drop_first()[k - 1] == t[k]);
        }
        lemma_digit_run_unique(t.drop_first(), k - 1);
    }
}

fn count_run(t: &[u8], c: u8) -> (r: usize)
    ensures
        r == run_of(t@, c),
        r <= t@.len(),
{
    let mut k: usize = 0;
    while k < t.len() && t[k] == c
        invariant
            k <= t@.len(),
            forall|j: int| 0 <= j < k ==> t@[j] == c,
        decreases t.len() - k,
    {
        k += 1;
    }
    proof {
        lemma_run_of_unique(t@, c, k as int);
    }
    k
}

fn count_digits(t: &[u8]) -> (r: usize)
    ensures
        r == digit_run(t@),
        r <= t@.len(),
{
    let mut k: usize = 0;
    while k < t.len() && 0x30 <= t[k] && t[k] <= 0x39
        invariant
            k <= t@.len(),
            forall|j: int| 0 <= j < k ==> 0x30 <= #[trigger] t@[j] <= 0x39,
        decreases t.len() - k,
    {
        k += 1;
    }
    proof {
        lemma_digit_run_unique(t@, k as int);
    }
    k
}

/// Heading, list, or blockquote marker at the start of a trimmed line.
pub open spec fn line_marker_spec(t: Seq<u8>) -> Option<MdKind> {
    let hashes = run_of(t, 0x23);
    let digits = digit_run(t);
    if t.len() > 0 && t[0] == 0x23 && hashes <= 6 && hashes < t.len() && t[hashes as int] == 0x20 {
        Some(MdKind::Heading)
    } else if t.len() > 0 && t[0] == 0x3e && (t.len() == 1 || t[1] == 0x20) {
        Some(MdKind::Blockquote)
    } else if t.len() > 1 && (t[0] == 0x2d || t[0] == 0x2a || t[0] == 0x2b) && t[1] == 0x20 {
        Some(MdKind::ListMarker)
    } else if 1 <= digits <= 2 && digits + 1 < t.len() && t[digits as int] == 0x2e && t[digits + 1int] == 0x20 {
        Some(MdKind::ListMarker)
    } else {
        None
    }
}

/// Length of the marker [`line_marker_spec`] matched.
pub open spec fn marker_len_spec(t: Seq<u8>) -> nat {
    if t.len() > 0 && t[0] == 0x23 {
        run_of(t, 0x23) + 1
    } else if digit_run(t) > 0 {
        digit_run(t) + 2
    } else {
        2
    }
}

/// Heading, list, or blockquote marker at the start of a trimmed line.
fn line_marker(t: &[u8]) -> (r: Option<MdKind>)
    requires
        t@.len() <= isize::MAX,
    ensures
        r == line_marker_spec(t@),
{
    proof {
        lemma_run_of(t@, 0x23);
    }
    if t.len() > 0 && t[0] == 0x23 {
        let hashes = count_run(t, 0x23);
        if hashes <= 6 && hashes < t.len() && t[hashes] == 0x20 {
            return Some(MdKind::Heading);
        }
    }
    if t.len() > 0 && t[0] == 0x3e && (t.len() == 1 || t[1] == 0x20) {
        return Some(MdKind::Blockquote);
    }
    if t.len() > 1 && (t[0] == 0x2d || t[0] == 0x2a || t[0] == 0x2b) && t[1] == 0x20 {
        return Some(MdKind::ListMarker);
    }
    let digits = count_digits(t);
    if 1 <= digits && digits <= 2 && digits + 1 < t.len() && t[digits] == 0x2e && t[digits + 1]
        == 0x20 {
        return Some(MdKind::ListMarker);
    }
    None
}

/// Length of the marker `line_marker` matched.
fn marker_len(t: &[u8]) -> (r: usize)
    requires
        t@.len() <= isize::MAX,
    ensures
        r == marker_len_spec(t@),
{
    if t.len() > 0 && t[0] == 0x23 {
        return count_run(t, 0x23) + 1;
    }
    let digits = count_digits(t);
    if digits > 0 {
        return digits + 2;
    }
    2
}

/// How many bytes of `t` are `|`.
pub open spec fn pipes(t: Seq<u8>) -> nat
    decreases t.len(),
{
    if t.len() == 0 {
        0
    } else {
        pipes(t.drop_last()) + if t.last() == 0x7c {
            1nat
        } else {
            0nat
        }
    }
}

/// A markdown table row: pipes around at least two cells.
pub open spec fn is_table_row_spec(t: Seq<u8>) -> bool {
    t.len() > 0 && t[0] == 0x7c && pipes(t) >= 3
}

fn is_table_row(t: &[u8]) -> (r: bool)
    ensures
        r == is_table_row_spec(t@),
{
    if t.len() == 0 || t[0] != 0x7c {
        return false;
    }
    let mut n: usize = 0;
    let mut i: usize = 0;
    while i < t.len()
        invariant
            i <= t@.len(),
            n == pipes(t@.take(i as int)),
            n <= i,
        decreases t.len() - i,
    {
        assert(t@.take(i + 1).drop_last() =~= t@.take(i as int));
        if t[i] == 0x7c {
            n += 1;
        }
        i += 1;
    }
    assert(t@.take(t@.len() as int) =~= t@);
    n >= 3
}

/// What one line contributes, given where it starts.
pub open spec fn line_candidate(line: Seq<u8>, start: int) -> Option<Rejection> {
    let indent = lead_ws_from(line, 0);
    let t = line.skip(indent);
    let at = start + indent;
    match line_marker_spec(t) {
        Some(kind) => Some(
            Rejection::Markdown { span: (at as usize, (at + marker_len_spec(t)) as usize), kind },
        ),
        None => if is_table_row_spec(t) {
            Some(
                Rejection::Markdown {
                    span: (start as usize, (start + line.len()) as usize),
                    kind: MdKind::TableRow,
                },
            )
        } else {
            None
        },
    }
}

/// The bytes from `lo` up to `hi`.
fn bytes_between(b: &[u8], lo: usize, hi: usize) -> (r: Vec<u8>)
    requires
        lo <= hi <= b@.len(),
    ensures
        r@ == b@.subrange(lo as int, hi as int),
{
    let mut r: Vec<u8> = Vec::new();
    let mut i = lo;
    while i < hi
        invariant
            lo <= i <= hi <= b@.len(),
            r@ == b@.subrange(lo as int, i as int),
        decreases hi - i,
    {
        r.push(b[i]);
        assert(b@.subrange(lo as int, i + 1) =~= b@.subrange(lo as int, i as int).push(b@[i as int]));
        i += 1;
    }
    r
}

// ------------------------------------------------------------ candidates

/// The earliest of a list of rejections; on a tie, the one listed first.
pub open spec fn earliest(s: Seq<Rejection>) -> Option<Rejection>
    decreases s.len(),
{
    if s.len() == 0 {
        None
    } else {
        match earliest(s.drop_last()) {
            None => Some(s.last()),
            Some(b) => if s.last().start() < b.start() {
                Some(s.last())
            } else {
                Some(b)
            },
        }
    }
}

pub open spec fn push_opt(s: Seq<Rejection>, o: Option<Rejection>) -> Seq<Rejection> {
    match o {
        Some(r) => s.push(r),
        None => s,
    }
}

/// Whether a position in `b` is the start of a line, and where that line ends.
pub open spec fn line_end(b: Seq<u8>, start: int) -> int
    decreases b.len() - start,
{
    if start >= b.len() || start < 0 {
        b.len() as int
    } else if b[start] == 0x0a {
        start
    } else {
        line_end(b, start + 1)
    }
}

/// The line candidates of every line starting at or after `start`, which
/// is itself the start of a line.
pub open spec fn line_cands_from(b: Seq<u8>, start: int) -> Seq<Rejection>
    decreases b.len() + 1 - start,
{
    if start < 0 || start > b.len() {
        Seq::empty()
    } else {
        let end = line_end(b, start);
        let here = push_opt(Seq::empty(), line_candidate(b.subrange(start, end), start));
        if end >= b.len() {
            here
        } else {
            proof {
                lemma_line_end(b, start);
            }
            here + line_cands_from(b, end + 1)
        }
    }
}

pub proof fn lemma_line_end(b: Seq<u8>, start: int)
    requires
        0 <= start <= b.len(),
    ensures
        start <= line_end(b, start) <= b.len(),
        line_end(b, start) < b.len() ==> b[line_end(b, start)] == 0x0a,
        forall|j: int| start <= j < line_end(b, start) ==> b[j] != 0x0a,
    decreases b.len() - start,
{
    if start < b.len() && b[start] != 0x0a {
        lemma_line_end(b, start + 1);
    }
}

/// The paired delimiter span, if both ends are present close enough.
pub open spec fn find_paired_spec(b: Seq<u8>, d: Seq<u8>) -> Option<(usize, usize)> {
    match find_at_spec(b, d, 0) {
        None => None,
        Some(open) => match find_at_spec(b, d, open + d.len()) {
            None => None,
            Some(close) => if close - open > MAX_SPAN {
                None
            } else {
                Some((open as usize, (close + d.len()) as usize))
            },
        },
    }
}

/// Where an emphasis opened at `i` closes, scanning from `j`.
pub open spec fn emph_scan(b: Seq<u8>, d: u8, i: int, j: int) -> Option<int>
    decreases b.len() - j,
{
    if j < 1 || j >= b.len() || j - i > MAX_SPAN {
        None
    } else if b[j] == d && b[j - 1] != 0x20 {
        Some(j)
    } else if b[j] == 0x0a {
        None
    } else {
        emph_scan(b, d, i, j + 1)
    }
}

/// Whether `i` can open an emphasis: a delimiter after a space or line
/// start, hugging non-space content.
pub open spec fn opens_emph(b: Seq<u8>, d: u8, i: int) -> bool {
    0 <= i < b.len() && b[i] == d && (i == 0 || b[i - 1] == 0x20 || b[i - 1] == 0x0a) && i + 1
        < b.len() && b[i + 1] != 0x20 && b[i + 1] != d
}

/// The first emphasis at or after `i`.
pub open spec fn find_emph_from(b: Seq<u8>, d: u8, i: int) -> Option<(usize, usize)>
    decreases b.len() - i,
{
    if i < 0 || i >= b.len() {
        None
    } else if opens_emph(b, d, i) && emph_scan(b, d, i, i + 1) is Some {
        Some((i as usize, (emph_scan(b, d, i, i + 1)->0 + 1) as usize))
    } else {
        find_emph_from(b, d, i + 1)
    }
}

/// The first `[text](target)` link at or after `i`.
pub open spec fn find_link_from(b: Seq<u8>, i: int) -> Option<(usize, usize)>
    decreases b.len() - i,
{
    if i < 0 || i >= b.len() {
        None
    } else if b[i] == 0x5b && find_at_spec(b, seq![0x5du8, 0x28u8], i) is Some && find_at_spec(
        b,
        seq![0x29u8],
        find_at_spec(b, seq![0x5du8, 0x28u8], i)->0,
    ) is Some && find_at_spec(b, seq![0x29u8], find_at_spec(b, seq![0x5du8, 0x28u8], i)->0)->0 - i
        <= MAX_SPAN {
        Some(
            (
                i as usize,
                (find_at_spec(b, seq![0x29u8], find_at_spec(b, seq![0x5du8, 0x28u8], i)->0)->0
                    + 1) as usize,
            ),
        )
    } else {
        find_link_from(b, i + 1)
    }
}

pub open spec fn md_opt(span: Option<(usize, usize)>, kind: MdKind) -> Option<Rejection> {
    match span {
        Some(s) => Some(Rejection::Markdown { span: s, kind }),
        None => None,
    }
}

pub open spec fn triple_tick() -> Seq<u8> {
    seq![0x60u8, 0x60u8, 0x60u8]
}

/// Every markdown finding, in the order the checks are made.
pub open spec fn md_candidates(b: Seq<u8>) -> Seq<Rejection> {
    let lines = line_cands_from(b, 0);
    let p1 = push_opt(lines, md_opt(find_paired_spec(b, triple_tick()), MdKind::CodeBlock));
    let p2 = push_opt(p1, md_opt(find_paired_spec(b, seq![0x2au8, 0x2au8]), MdKind::BoldEmphasis));
    let p3 = push_opt(p2, md_opt(find_paired_spec(b, seq![0x5fu8, 0x5fu8]), MdKind::BoldEmphasis));
    let p4 = push_opt(p3, md_opt(find_paired_spec(b, seq![0x60u8]), MdKind::InlineCode));
    let p5 = push_opt(p4, md_opt(find_emph_from(b, 0x2a, 0), MdKind::ItalicEmphasis));
    let p6 = push_opt(p5, md_opt(find_emph_from(b, 0x5f, 0), MdKind::ItalicEmphasis));
    push_opt(p6, md_opt(find_link_from(b, 0), MdKind::Link))
}

// ------------------------------------------------------------ urls

/// Whether a URL prefix found at `start` counts.
///
/// `www.` has to begin a word and be followed by a host label; the two
/// schemes need neither test.
pub open spec fn url_ok(b: Seq<u8>, www: bool, start: int) -> bool {
    !www || ((start == 0 || !is_alnum(b[start - 1])) && start + 4 < b.len() && is_alnum(
        b[start + 4],
    ))
}

pub open spec fn is_alnum(c: u8) -> bool {
    (0x30 <= c <= 0x39) || (0x41 <= c <= 0x5a) || (0x61 <= c <= 0x7a)
}

/// The end of the URL starting at `i`: the next space, newline or tab.
pub open spec fn url_end(b: Seq<u8>, i: int) -> int
    decreases b.len() - i,
{
    if i < 0 || i >= b.len() {
        b.len() as int
    } else if b[i] == 0x20 || b[i] == 0x0a || b[i] == 0x09 {
        i
    } else {
        url_end(b, i + 1)
    }
}

/// The first acceptable occurrence of prefix `p`, searching from `from`.
pub open spec fn url_from(b: Seq<u8>, p: Seq<u8>, www: bool, from: int) -> Option<int>
    decreases b.len() - from,
{
    match find_at_spec(b, p, from) {
        None => None,
        Some(start) => if url_ok(b, www, start) {
            Some(start)
        } else if from < 0 || start < from || start >= b.len() {
            None
        } else {
            url_from(b, p, www, start + 1)
        },
    }
}

pub open spec fn https() -> Seq<u8> {
    seq![0x68u8, 0x74u8, 0x74u8, 0x70u8, 0x73u8, 0x3au8, 0x2fu8, 0x2fu8]
}

pub open spec fn http() -> Seq<u8> {
    seq![0x68u8, 0x74u8, 0x74u8, 0x70u8, 0x3au8, 0x2fu8, 0x2fu8]
}

pub open spec fn www() -> Seq<u8> {
    seq![0x77u8, 0x77u8, 0x77u8, 0x2eu8]
}

pub open spec fn url_rejection(b: Seq<u8>, start: int) -> Rejection {
    Rejection::Url { span: (start as usize, url_end(b, start) as usize) }
}

/// The earlier of two optional starts.
pub open spec fn earlier(a: Option<int>, b: Option<int>) -> Option<int> {
    match (a, b) {
        (Some(x), Some(y)) => Some(if x <= y {
            x
        } else {
            y
        }),
        (Some(x), None) => Some(x),
        (None, y) => y,
    }
}

/// Where the first bare URL starts: the earliest acceptable occurrence of
/// any of the three prefixes.
pub open spec fn first_url(b: Seq<u8>) -> Option<int> {
    earlier(earlier(url_from(b, https(), false, 0), url_from(b, http(), false, 0)), url_from(b, www(), true, 0))
}

/// The first bare URL in document order, whichever prefix it has.
pub open spec fn detect_url_spec(b: Seq<u8>) -> Option<Rejection> {
    match first_url(b) {
        Some(s) => Some(url_rejection(b, s)),
        None => None,
    }
}

/// A bare URL starts at `k`: a scheme, or a `www.` that begins a word and
/// is followed by a host label.
pub open spec fn url_at(b: Seq<u8>, k: int) -> bool {
    ||| matches_at(b, https(), k)
    ||| matches_at(b, http(), k)
    ||| matches_at(b, www(), k) && url_ok(b, true, k)
}

/// `find_at` finds the first occurrence: nothing matches between where
/// it started and what it found, and nothing at all when it found nothing.
pub proof fn lemma_find_at_first(h: Seq<u8>, n: Seq<u8>, from: int)
    requires
        n.len() > 0,
        from >= 0,
    ensures
        match find_at_spec(h, n, from) {
            Some(i) => forall|k: int| from <= k < i ==> !#[trigger] matches_at(h, n, k),
            None => forall|k: int| from <= k ==> !#[trigger] matches_at(h, n, k),
        },
    decreases h.len() - from,
{
    if h.len() < n.len() || from > h.len() - n.len() {
    } else if matches_at(h, n, from) {
    } else {
        lemma_find_at_first(h, n, from + 1);
    }
}

/// `url_from` finds the first acceptable occurrence of its prefix.
pub proof fn lemma_url_from_first(b: Seq<u8>, p: Seq<u8>, www: bool, from: int)
    requires
        p.len() > 0,
        from >= 0,
    ensures
        match url_from(b, p, www, from) {
            Some(s) => from <= s < b.len() && matches_at(b, p, s) && url_ok(b, www, s) && forall|k: int|
                from <= k < s ==> !(#[trigger] matches_at(b, p, k) && url_ok(b, www, k)),
            None => forall|k: int| from <= k ==> !(#[trigger] matches_at(b, p, k) && url_ok(b, www, k)),
        },
    decreases b.len() - from,
{
    lemma_find_at(b, p, from);
    lemma_find_at_first(b, p, from);
    match find_at_spec(b, p, from) {
        None => {},
        Some(start) => {
            if !url_ok(b, www, start) {
                lemma_url_from_first(b, p, www, start + 1);
            }
        },
    }
}

/// What `validate` answers: the first problem in document order, markdown
/// winning a tie.
pub open spec fn finding(b: Seq<u8>) -> Option<Rejection> {
    match (earliest(md_candidates(b)), detect_url_spec(b)) {
        (Some(m), Some(u)) => if m.start() <= u.start() {
            Some(m)
        } else {
            Some(u)
        },
        (Some(m), None) => Some(m),
        (None, Some(u)) => Some(u),
        (None, None) => None,
    }
}

// ------------------------------------------------------------ exec

proof fn lemma_earliest_push(s: Seq<Rejection>, r: Rejection)
    ensures
        earliest(s.push(r)) == (match earliest(s) {
            None => Some(r),
            Some(b) => if r.start() < b.start() {
                Some(r)
            } else {
                Some(b)
            },
        }),
{
    assert(s.push(r).drop_last() =~= s);
}

/// Fold one more candidate into the best so far.
fn consider(best: Option<Rejection>, r: Option<Rejection>, ghost_s: Ghost<Seq<Rejection>>) -> (out:
    Option<Rejection>)
    requires
        best == earliest(ghost_s@),
    ensures
        out == earliest(push_opt(ghost_s@, r)),
{
    proof {
        if let Some(x) = r {
            lemma_earliest_push(ghost_s@, x);
        }
    }
    match r {
        None => best,
        Some(x) => match best {
            None => Some(x),
            Some(b) => {
                if x.span().0 < b.span().0 {
                    Some(x)
                } else {
                    Some(b)
                }
            },
        },
    }
}

proof fn lemma_digit_run(t: Seq<u8>)
    ensures
        digit_run(t) <= t.len(),
    decreases t.len(),
{
    if t.len() > 0 && 0x30 <= t[0] <= 0x39 {
        lemma_digit_run(t.drop_first());
    }
}

proof fn lemma_marker_len_bound(t: Seq<u8>)
    ensures
        marker_len_spec(t) <= t.len() + 2,
{
    lemma_run_of(t, 0x23);
    lemma_digit_run(t);
}

proof fn lemma_lead_ws_from(b: Seq<u8>, i: int)
    requires
        0 <= i <= b.len(),
    ensures
        0 <= lead_ws_from(b, i) <= b.len() - i,
    decreases b.len() - i,
{
    if i < b.len() && ws_len(b, i) != 0 {
        lemma_lead_ws_from(b, i + ws_len(b, i));
    }
}

fn line_candidate_exec(line: &[u8], start: usize) -> (r: Option<Rejection>)
    requires
        start + line@.len() + 2 <= usize::MAX,
        line@.len() <= isize::MAX,
    ensures
        r == line_candidate(line@, start as int),
{
    let indent = lead_ws_bytes(line);
    let t = bytes_between(line, indent, line.len());
    assert(t@ =~= line@.skip(indent as int));
    let at = start + indent;
    match line_marker(t.as_slice()) {
        Some(kind) => {
            let len = marker_len(t.as_slice());
            proof {
                lemma_marker_len_bound(t@);
            }
            Some(Rejection::Markdown { span: (at, at + len), kind })
        },
        None => {
            if is_table_row(t.as_slice()) {
                Some(Rejection::Markdown { span: (start, start + line.len()), kind: MdKind::TableRow })
            } else {
                None
            }
        },
    }
}


fn line_end_exec(b: &[u8], start: usize) -> (r: usize)
    requires
        start <= b@.len(),
    ensures
        r == line_end(b@, start as int),
        start <= r <= b@.len(),
{
    proof {
        lemma_line_end(b@, start as int);
    }
    let mut i = start;
    while i < b.len() && b[i] != 0x0a
        invariant
            start <= i <= b@.len(),
            line_end(b@, start as int) == line_end(b@, i as int),
        decreases b.len() - i,
    {
        i += 1;
    }
    i
}

/// The earliest line-anchored construct: heading, list marker, blockquote
/// or table row.
fn line_phase(b: &[u8]) -> (r: Option<Rejection>)
    requires
        b@.len() + 2 <= isize::MAX,
    ensures
        r == earliest(line_cands_from(b@, 0)),
{
    let mut best: Option<Rejection> = None;
    let ghost mut acc: Seq<Rejection> = Seq::empty();
    let mut start: usize = 0;
    loop
        invariant_except_break
            acc + line_cands_from(b@, start as int) == line_cands_from(b@, 0),
        invariant
            start <= b@.len(),
            b@.len() + 2 <= isize::MAX,
            best == earliest(acc),
        ensures
            best == earliest(line_cands_from(b@, 0)),
        decreases b@.len() - start,
    {
        let end = line_end_exec(b, start);
        let line = bytes_between(b, start, end);
        let cand = line_candidate_exec(line.as_slice(), start);
        best = consider(best, cand, Ghost(acc));
        let ghost here = push_opt(Seq::empty(), line_candidate(b@.subrange(start as int, end as int), start as int));
        let ghost before = acc;
        proof {
            assert(push_opt(acc, cand) =~= acc + here);
            acc = push_opt(acc, cand);
        }
        if end >= b.len() {
            assert(line_cands_from(b@, start as int) == here);
            assert(acc =~= line_cands_from(b@, 0));
            break;
        }
        proof {
            assert(line_cands_from(b@, start as int) == here + line_cands_from(b@, end + 1));
            assert(acc + line_cands_from(b@, end + 1) =~= before + (here + line_cands_from(b@, end + 1)));
        }
        start = end + 1;
    }
    best
}


/// Opening and closing run of `delim`, if both are present.
fn find_paired(b: &[u8], delim: &[u8]) -> (r: Option<(usize, usize)>)
    requires
        b@.len() <= isize::MAX,
        delim@.len() <= 3,
    ensures
        r == find_paired_spec(b@, delim@),
{
    let open = match find_at(b, delim, 0) {
        Some(o) => o,
        None => return None,
    };
    let close = match find_at(b, delim, open + delim.len()) {
        Some(c) => c,
        None => return None,
    };
    if close - open > MAX_SPAN {
        return None;
    }
    Some((open, close + delim.len()))
}

/// Where an emphasis opened at `i` closes.
fn emph_close(b: &[u8], d: u8, i: usize) -> (r: Option<usize>)
    requires
        i < b@.len(),
        b@.len() <= isize::MAX,
    ensures
        r matches Some(j) ==> emph_scan(b@, d, i as int, i + 1) == Some(j as int),
        r is None ==> emph_scan(b@, d, i as int, i + 1) is None,
        r matches Some(j) ==> i < j < b@.len(),
{
    let mut j = i + 1;
    while j < b.len() && j - i <= MAX_SPAN
        invariant
            i < j <= b@.len(),
            b@.len() <= isize::MAX,
            emph_scan(b@, d, i as int, i + 1) == emph_scan(b@, d, i as int, j as int),
        decreases b@.len() - j,
    {
        if b[j] == d && b[j - 1] != 0x20 {
            return Some(j);
        }
        if b[j] == 0x0a {
            return None;
        }
        j += 1;
    }
    None
}

/// `*text*` or `_text_`, where the delimiters hug non-space content.
fn find_emphasis(b: &[u8], d: u8) -> (r: Option<(usize, usize)>)
    requires
        b@.len() <= isize::MAX,
    ensures
        r == find_emph_from(b@, d, 0),
{
    let mut i: usize = 0;
    while i < b.len()
        invariant
            i <= b@.len(),
            b@.len() <= isize::MAX,
            find_emph_from(b@, d, 0) == find_emph_from(b@, d, i as int),
        decreases b@.len() - i,
    {
        if b[i] == d && (i == 0 || b[i - 1] == 0x20 || b[i - 1] == 0x0a) && i + 1 < b.len() && b[i
            + 1] != 0x20 && b[i + 1] != d {
            match emph_close(b, d, i) {
                Some(j) => return Some((i, j + 1)),
                None => {},
            }
        }
        i += 1;
    }
    None
}

/// A `[text](target)` link.
fn find_link(b: &[u8]) -> (r: Option<(usize, usize)>)
    requires
        b@.len() <= isize::MAX,
    ensures
        r == find_link_from(b@, 0),
{
    let close_open: Vec<u8> = vec![0x5du8, 0x28u8];
    let close_paren: Vec<u8> = vec![0x29u8];
    assert(close_open@ =~= seq![0x5du8, 0x28u8]);
    assert(close_paren@ =~= seq![0x29u8]);
    let mut i: usize = 0;
    while i < b.len()
        invariant
            i <= b@.len(),
            b@.len() <= isize::MAX,
            close_open@ == seq![0x5du8, 0x28u8],
            close_paren@ == seq![0x29u8],
            find_link_from(b@, 0) == find_link_from(b@, i as int),
        decreases b@.len() - i,
    {
        if b[i] == 0x5b {
            if let Some(close) = find_at(b, close_open.as_slice(), i) {
                if let Some(end) = find_at(b, close_paren.as_slice(), close) {
                    if end - i <= MAX_SPAN {
                        return Some((i, end + 1));
                    }
                }
            }
        }
        i += 1;
    }
    None
}

fn md(span: Option<(usize, usize)>, kind: MdKind) -> (r: Option<Rejection>)
    ensures
        r == md_opt(span, kind),
{
    match span {
        Some(s) => Some(Rejection::Markdown { span: s, kind }),
        None => None,
    }
}

/// First markdown construct in the text, if any.
fn detect_markdown(b: &[u8]) -> (r: Option<Rejection>)
    requires
        b@.len() + 2 <= isize::MAX,
    ensures
        r == earliest(md_candidates(b@)),
{
    let ghost lines = line_cands_from(b@, 0);
    let best = line_phase(b);
    let ticks: Vec<u8> = vec![0x60u8, 0x60u8, 0x60u8];
    let stars: Vec<u8> = vec![0x2au8, 0x2au8];
    let unders: Vec<u8> = vec![0x5fu8, 0x5fu8];
    let tick: Vec<u8> = vec![0x60u8];
    assert(ticks@ =~= triple_tick());
    assert(stars@ =~= seq![0x2au8, 0x2au8]);
    assert(unders@ =~= seq![0x5fu8, 0x5fu8]);
    assert(tick@ =~= seq![0x60u8]);
    let c1 = md(find_paired(b, ticks.as_slice()), MdKind::CodeBlock);
    let best = consider(best, c1, Ghost(lines));
    let ghost p1 = push_opt(lines, c1);
    let c2 = md(find_paired(b, stars.as_slice()), MdKind::BoldEmphasis);
    let best = consider(best, c2, Ghost(p1));
    let ghost p2 = push_opt(p1, c2);
    let c3 = md(find_paired(b, unders.as_slice()), MdKind::BoldEmphasis);
    let best = consider(best, c3, Ghost(p2));
    let ghost p3 = push_opt(p2, c3);
    let c4 = md(find_paired(b, tick.as_slice()), MdKind::InlineCode);
    let best = consider(best, c4, Ghost(p3));
    let ghost p4 = push_opt(p3, c4);
    let c5 = md(find_emphasis(b, 0x2a), MdKind::ItalicEmphasis);
    let best = consider(best, c5, Ghost(p4));
    let ghost p5 = push_opt(p4, c5);
    let c6 = md(find_emphasis(b, 0x5f), MdKind::ItalicEmphasis);
    let best = consider(best, c6, Ghost(p5));
    let ghost p6 = push_opt(p5, c6);
    let c7 = md(find_link(b), MdKind::Link);
    consider(best, c7, Ghost(p6))
}

/// Where the URL starting at `start` ends.
fn url_end_exec(b: &[u8], start: usize) -> (r: usize)
    requires
        start <= b@.len(),
    ensures
        r == url_end(b@, start as int),
{
    let mut i = start;
    while i < b.len() && b[i] != 0x20 && b[i] != 0x0a && b[i] != 0x09
        invariant
            start <= i <= b@.len(),
            url_end(b@, start as int) == url_end(b@, i as int),
        decreases b@.len() - i,
    {
        i += 1;
    }
    i
}

fn alnum(c: u8) -> (r: bool)
    ensures
        r == is_alnum(c),
{
    (0x30 <= c && c <= 0x39) || (0x41 <= c && c <= 0x5a) || (0x61 <= c && c <= 0x7a)
}

/// The first acceptable occurrence of one URL prefix.
fn url_with(b: &[u8], p: &[u8], www: bool) -> (r: Option<usize>)
    requires
        b@.len() <= isize::MAX,
        p@.len() > 0,
    ensures
        r matches Some(i) ==> url_from(b@, p@, www, 0) == Some(i as int),
        r is None ==> url_from(b@, p@, www, 0) is None,
        r matches Some(i) ==> i < b@.len(),
{
    let mut from: usize = 0;
    loop
        invariant
            from <= b@.len(),
            b@.len() <= isize::MAX,
            p@.len() > 0,
            url_from(b@, p@, www, 0) == url_from(b@, p@, www, from as int),
        decreases b@.len() - from,
    {
        match find_at(b, p, from) {
            None => return None,
            Some(start) => {
                let ok = !www || ((start == 0 || !alnum(b[start - 1])) && start + 4 < b.len()
                    && alnum(b[start + 4]));
                if ok {
                    return Some(start);
                }
                from = start + 1;
            },
        }
    }
}

/// First bare URL, if any.
fn detect_url(b: &[u8]) -> (r: Option<Rejection>)
    requires
        b@.len() <= isize::MAX,
    ensures
        r == detect_url_spec(b@),
{
    let https_p: Vec<u8> = vec![0x68u8, 0x74u8, 0x74u8, 0x70u8, 0x73u8, 0x3au8, 0x2fu8, 0x2fu8];
    let http_p: Vec<u8> = vec![0x68u8, 0x74u8, 0x74u8, 0x70u8, 0x3au8, 0x2fu8, 0x2fu8];
    let www_p: Vec<u8> = vec![0x77u8, 0x77u8, 0x77u8, 0x2eu8];
    assert(https_p@ =~= https());
    assert(http_p@ =~= http());
    assert(www_p@ =~= www());
    let a = url_with(b, https_p.as_slice(), false);
    let h = url_with(b, http_p.as_slice(), false);
    let w = url_with(b, www_p.as_slice(), true);
    let first = match (a, h) {
        (Some(x), Some(y)) => Some(if x <= y {
            x
        } else {
            y
        }),
        (Some(x), None) => Some(x),
        (None, y) => y,
    };
    let found = match (first, w) {
        (Some(x), Some(y)) => Some(if x <= y {
            x
        } else {
            y
        }),
        (Some(x), None) => Some(x),
        (None, y) => y,
    };
    match found {
        Some(start) => Some(Rejection::Url { span: (start, url_end_exec(b, start)) }),
        None => None,
    }
}

/// Reject text containing markdown or a bare URL.
///
/// Returns the first problem in document order, so an agent fixing them one
/// at a time makes forward progress.
pub fn validate(text: &str) -> (r: Result<(), Rejection>)
    requires
        text.spec_bytes().len() + 2 <= isize::MAX,
    ensures
        r == (match finding(text.spec_bytes()) {
            Some(x) => Err(x),
            None => Ok(()),
        }),
{
    let b = text.as_bytes();
    let md = detect_markdown(b);
    let url = detect_url(b);
    match (md, url) {
        (Some(m), Some(u)) => Err(if m.span().0 <= u.span().0 {
            m
        } else {
            u
        }),
        (Some(m), None) => Err(m),
        (None, Some(u)) => Err(u),
        (None, None) => Ok(()),
    }
}


/// The earliest candidate is one of them and starts no later than any.
pub proof fn lemma_earliest_is_least(s: Seq<Rejection>)
    ensures
        s.len() == 0 <==> earliest(s) is None,
        earliest(s) matches Some(r) ==> s.contains(r) && forall|i: int|
            0 <= i < s.len() ==> r.start() <= #[trigger] s[i].start(),
    decreases s.len(),
{
    if s.len() > 0 {
        lemma_earliest_is_least(s.drop_last());
        let r = earliest(s)->0;
        assert forall|i: int| 0 <= i < s.len() implies r.start() <= #[trigger] s[i].start() by {
            if i < s.len() - 1 {
                assert(s[i] == s.drop_last()[i]);
            }
        }
        if r != s.last() {
            let k = choose|k: int| 0 <= k < s.drop_last().len() && s.drop_last()[k] == r;
            assert(s[k] == r);
        } else {
            assert(s[s.len() - 1] == r);
        }
    }
}

/// A text is refused exactly when something in it is markdown or a bare
/// URL, and what is reported is the first such thing in document order:
/// no markdown finding and no bare URL starts before it.
pub proof fn law_validate_reports_the_first_problem(b: Seq<u8>)
    requires
        b.len() <= usize::MAX,
    ensures
        finding(b) is None <==> (md_candidates(b).len() == 0 && forall|k: int| 0 <= k ==> !#[trigger] url_at(b, k)),
        finding(b) matches Some(r) ==> (forall|i: int| 0 <= i < md_candidates(b).len()
            ==> r.start() <= #[trigger] md_candidates(b)[i].start()) && (forall|k: int|
            0 <= k < r.start() ==> !#[trigger] url_at(b, k)),
        finding(b) matches Some(r) ==> (md_candidates(b).contains(r) || (r is Url && url_at(b, r.start()))),
{
    lemma_earliest_is_least(md_candidates(b));
    lemma_url_from_first(b, https(), false, 0);
    lemma_url_from_first(b, http(), false, 0);
    lemma_url_from_first(b, www(), true, 0);
    match first_url(b) {
        Some(s) => {
            assert(url_rejection(b, s).start() == s);
            assert(url_at(b, s));
        },
        None => {},
    }
}

/// Inline code is refused: when the first backtick in a text is followed by
/// another no more than `MAX_SPAN` bytes on, with none between, the text is
/// refused, and what is reported starts no later than that first backtick.
/// So a text holding `code` in single backticks is never accepted.
pub proof fn law_inline_code_is_refused(b: Seq<u8>, i: int, j: int)
    requires
        b.len() <= usize::MAX,
        0 <= i < j < b.len(),
        b[i] == 0x60,
        b[j] == 0x60,
        forall|k: int| 0 <= k < i ==> b[k] != 0x60,
        forall|k: int| i < k < j ==> b[k] != 0x60,
        j - i <= MAX_SPAN,
    ensures
        finding(b) is Some,
        finding(b)->0.start() <= i,
{
    let d = seq![0x60u8];
    assert forall|k: int| 0 <= k < b.len() implies (#[trigger] matches_at(b, d, k) <==> b[k] == 0x60) by {
        if b[k] == 0x60 {
            assert(b.subrange(k, k + 1) =~= d);
        }
        if matches_at(b, d, k) {
            assert(b.subrange(k, k + 1)[0] == d[0]);
            assert(b.subrange(k, k + 1)[0] == b[k]);
        }
    }
    lemma_find_at(b, d, 0);
    lemma_find_at_first(b, d, 0);
    assert(matches_at(b, d, i));
    match find_at_spec(b, d, 0) {
        None => {
            assert(!matches_at(b, d, i));
        },
        Some(o) => {
            if o < i {
                assert(matches_at(b, d, o));
                assert(b[o] != 0x60);
            } else if o > i {
                assert(!matches_at(b, d, i));
            }
        },
    }
    assert(find_at_spec(b, d, 0) == Some(i));
    lemma_find_at(b, d, i + 1);
    lemma_find_at_first(b, d, i + 1);
    assert(matches_at(b, d, j));
    match find_at_spec(b, d, i + 1) {
        None => {
            assert(!matches_at(b, d, j));
        },
        Some(o) => {
            if o < j {
                assert(matches_at(b, d, o));
                assert(b[o] != 0x60);
            } else if o > j {
                assert(!matches_at(b, d, j));
            }
        },
    }
    assert(find_at_spec(b, d, i + 1) == Some(j));
    let c = Rejection::Markdown { span: (i as usize, (j + 1) as usize), kind: MdKind::InlineCode };
    assert(find_paired_spec(b, d) == Some((i as usize, (j + 1) as usize)));
    assert(md_candidates(b).contains(c)) by {
        let lines = line_cands_from(b, 0);
        let p1 = push_opt(lines, md_opt(find_paired_spec(b, triple_tick()), MdKind::CodeBlock));
        let p2 = push_opt(p1, md_opt(find_paired_spec(b, seq![0x2au8, 0x2au8]), MdKind::BoldEmphasis));
        let p3 = push_opt(p2, md_opt(find_paired_spec(b, seq![0x5fu8, 0x5fu8]), MdKind::BoldEmphasis));
        let p4 = push_opt(p3, md_opt(find_paired_spec(b, seq![0x60u8]), MdKind::InlineCode));
        let p5 = push_opt(p4, md_opt(find_emph_from(b, 0x2a, 0), MdKind::ItalicEmphasis));
        let p6 = push_opt(p5, md_opt(find_emph_from(b, 0x5f, 0), MdKind::ItalicEmphasis));
        assert(p4.contains(c)) by { assert(p4[p4.len() - 1] == c); }
        assert(p5.contains(c)) by { let k = choose|k: int| 0 <= k < p4.len() && p4[k] == c; assert(p5[k] == c); }
        assert(p6.contains(c)) by { let k = choose|k: int| 0 <= k < p5.len() && p5[k] == c; assert(p6[k] == c); }
        let k = choose|k: int| 0 <= k < p6.len() && p6[k] == c;
        assert(md_candidates(b)[k] == c);
    }
    lemma_earliest_is_least(md_candidates(b));
    let k = choose|k: int| 0 <= k < md_candidates(b).len() && md_candidates(b)[k] == c;
    assert(c.start() == i);
}

} // verus!
