use vstd::prelude::*;
use vstd::string::*;
use sha2::Digest;
use crate::text::{is_ws, byte_is_ws, ascii_adjacent, byte_range_string, hex_digit, hex_lower, to_hex_lower};
use crate::domain::source::DocumentType;
use crate::domain::json::{JsonValue, Json, parsed_json, parse_json, sort_by_key, sorted_insert, insert_pos, lemma_sorted_insert_at, key_lt, bytes_less, members_view, items_view, lemma_object_view, lemma_array_view, lemma_scalar_views};
use crate::domain::memory_item::{MemoryItem, UnitType, item_metadata, item_metadata_json};
use crate::error::{AppError, AppResult, ErrorKind};

verus! {

broadcast use vstd::utf8::group_utf8_lib;

pub open spec fn LF() -> u8 {
    0x0au8
}

/// First position at or after `from` that holds no ASCII whitespace
/// (the length of `s` when there is none).
pub open spec fn first_non_ws(s: Seq<u8>, from: int) -> int
    decreases s.len() - from,
{
    if from >= s.len() {
        s.len() as int
    } else if !is_ws(s[from]) {
        from
    } else {
        first_non_ws(s, from + 1)
    }
}

/// The whitespace run that starts at `i` holds two consecutive line feeds.
pub open spec fn run_has_double_newline(s: Seq<u8>, i: int) -> bool
    decreases s.len() - i,
{
    if i < 0 || i >= s.len() || !is_ws(s[i]) {
        false
    } else if s[i] == LF() && i + 1 < s.len() && s[i + 1] == LF() {
        true
    } else {
        run_has_double_newline(s, i + 1)
    }
}

/// A line feed that opens a whitespace run holding a blank line.
pub open spec fn is_blank_break(s: Seq<u8>, i: int) -> bool {
    0 <= i < s.len() && s[i] == LF() && run_has_double_newline(s, i)
}

/// First blank-line break at or after `from` (the length of `s` when none).
pub open spec fn first_break(s: Seq<u8>, from: int) -> int
    decreases s.len() - from,
{
    if from >= s.len() {
        s.len() as int
    } else if is_blank_break(s, from) {
        from
    } else {
        first_break(s, from + 1)
    }
}

/// `end` moved back over trailing ASCII whitespace, but not before `start`.
pub open spec fn trim_end(s: Seq<u8>, start: int, end: int) -> int
    decreases end - start,
{
    if end > start && 0 < end <= s.len() && is_ws(s[end - 1]) {
        trim_end(s, start, end - 1)
    } else {
        end
    }
}

pub proof fn lemma_first_non_ws(s: Seq<u8>, from: int)
    requires
        0 <= from,
    ensures
        from <= first_non_ws(s, from) <= s.len() || (from > s.len() && first_non_ws(s, from) == s.len()),
        first_non_ws(s, from) < s.len() ==> !is_ws(s[first_non_ws(s, from)]),
        forall|k: int| from <= k < first_non_ws(s, from) ==> is_ws(#[trigger] s[k]),
    decreases s.len() - from,
{
    if from < s.len() && is_ws(s[from]) {
        lemma_first_non_ws(s, from + 1);
    }
}

pub proof fn lemma_first_break(s: Seq<u8>, from: int)
    requires
        0 <= from <= s.len(),
    ensures
        from <= first_break(s, from) <= s.len(),
        first_break(s, from) < s.len() ==> is_blank_break(s, first_break(s, from)),
        forall|k: int| from <= k < first_break(s, from) ==> !is_blank_break(s, k),
    decreases s.len() - from,
{
    if from < s.len() && !is_blank_break(s, from) {
        lemma_first_break(s, from + 1);
    }
}

pub proof fn lemma_trim_end(s: Seq<u8>, start: int, end: int)
    requires
        0 <= start <= end <= s.len(),
    ensures
        start <= trim_end(s, start, end) <= end,
        trim_end(s, start, end) > start ==> !is_ws(s[trim_end(s, start, end) - 1]),
        forall|k: int| trim_end(s, start, end) <= k < end ==> is_ws(#[trigger] s[k]),
    decreases end - start,
{
    if end > start && is_ws(s[end - 1]) {
        lemma_trim_end(s, start, end - 1);
    }
}

/// The segments of `s` from `from` on: each starts at the first
/// non-whitespace byte after the previous blank-line break, runs up to the
/// next blank-line break, and loses its trailing whitespace.
pub open spec fn blank_run_segments(s: Seq<u8>, from: int) -> Seq<(int, int)>
    decreases s.len() - from,
{
    if from < 0 {
        seq![]
    } else {
        let p = first_non_ws(s, from);
        if p >= s.len() {
            seq![]
        } else {
            let q = first_break(s, p);
            proof {
                lemma_first_non_ws(s, from);
                lemma_first_break(s, p);
                lemma_first_break(s, p + 1);
            }
            seq![(p, trim_end(s, p, q))] + blank_run_segments(s, q)
        }
    }
}

/// Ranges `split_on_blank_runs` yields: the segments, or the whole trimmed
/// content when there is none (or, with `whole_if_single`, only one).
pub open spec fn blank_run_ranges(s: Seq<u8>, whole_if_single: bool) -> Seq<(int, int)> {
    let r = blank_run_segments(s, 0);
    if r.len() == 0 || (whole_if_single && r.len() == 1) {
        seq![(0, trim_end(s, 0, s.len() as int))]
    } else {
        r
    }
}

pub open spec fn ranges_as_int(v: Seq<(usize, usize)>) -> Seq<(int, int)> {
    v.map_values(|p: (usize, usize)| (p.0 as int, p.1 as int))
}

pub fn trim_trailing_newlines(content: &[u8], start: usize, end: usize) -> (r: usize)
    requires
        start <= end <= content@.len(),
    ensures
        r as int == trim_end(content@, start as int, end as int),
{
    let mut e = end;
    while e > start && byte_is_ws(content[e - 1])
        invariant
            start <= e <= end <= content@.len(),
            trim_end(content@, start as int, e as int) == trim_end(content@, start as int, end as int),
        decreases e,
    {
        e = e - 1;
    }
    e
}

fn has_double_newline_run(s: &[u8], i: usize) -> (r: bool)
    ensures
        r == run_has_double_newline(s@, i as int),
{
    let mut probe = i;
    while probe < s.len() && byte_is_ws(s[probe])
        invariant
            i <= probe,
            run_has_double_newline(s@, i as int) == run_has_double_newline(s@, probe as int),
        decreases s@.len() - probe,
    {
        if s[probe] == 0x0au8 && probe + 1 < s.len() && s[probe + 1] == 0x0au8 {
            return true;
        }
        probe = probe + 1;
    }
    false
}

proof fn lemma_segments_skip_ws(s: Seq<u8>, from: int)
    requires
        0 <= from,
    ensures
        blank_run_segments(s, from) == blank_run_segments(s, first_non_ws(s, from)),
    decreases s.len() - from,
{
    lemma_first_non_ws(s, from);
    let p = first_non_ws(s, from);
    if p < s.len() {
        assert(first_non_ws(s, p) == p);
    } else {
        lemma_first_non_ws(s, p);
    }
}

pub fn split_on_blank_runs(content: &[u8], whole_if_single: bool) -> (r: Vec<(usize, usize)>)
    ensures
        ranges_as_int(r@) == blank_run_ranges(content@, whole_if_single),
{
    let len = content.len();
    let ghost s = content@;
    let mut ranges: Vec<(usize, usize)> = Vec::new();
    let mut cursor: usize = 0;
    while cursor < len
        invariant
            len == s.len(),
            s == content@,
            cursor <= len,
            ranges_as_int(ranges@) + blank_run_segments(s, cursor as int) == blank_run_segments(s, 0),
        decreases len - cursor,
    {
        let ghost from = cursor as int;
        while cursor < len && byte_is_ws(content[cursor])
            invariant
                len == s.len(),
                s == content@,
                from <= cursor <= len,
                first_non_ws(s, from) == first_non_ws(s, cursor as int),
            decreases len - cursor,
        {
            cursor = cursor + 1;
        }
        proof {
            lemma_segments_skip_ws(s, from);
            lemma_first_non_ws(s, cursor as int);
        }
        if cursor < len {
            let start = cursor;
            let mut saw_blank = false;
            while cursor < len && !saw_blank
                invariant
                    len == s.len(),
                    s == content@,
                    start <= cursor <= len,
                    first_break(s, start as int) == first_break(s, cursor as int),
                    saw_blank ==> cursor < len && is_blank_break(s, cursor as int),
                    cursor == start ==> !is_ws(s[start as int]),
                decreases len - cursor + (if saw_blank { 0int } else { 1int }),
            {
                if content[cursor] == 0x0au8 && has_double_newline_run(content, cursor) {
                    saw_blank = true;
                } else {
                    cursor = cursor + 1;
                }
            }
            proof {
                lemma_first_break(s, cursor as int);
                assert(first_non_ws(s, start as int) == start as int);
                assert(first_break(s, cursor as int) == cursor as int);
            }
            let end = trim_trailing_newlines(content, start, cursor);
            proof {
                lemma_trim_end(s, start as int, cursor as int);
            }
            let ghost before = ranges@;
            ranges.push((start, end));
            proof {
                assert(ranges_as_int(ranges@) =~= ranges_as_int(before).push((start as int, end as int)));
                assert(blank_run_segments(s, start as int) == seq![(start as int, end as int)]
                    + blank_run_segments(s, cursor as int));
                assert(ranges_as_int(ranges@) + blank_run_segments(s, cursor as int) =~= ranges_as_int(before)
                    + blank_run_segments(s, start as int));
            }
        } else {
            proof {
                assert(blank_run_segments(s, cursor as int) =~= seq![]);
            }
        }
    }
    proof {
        lemma_first_non_ws(s, cursor as int);
        assert(blank_run_segments(s, cursor as int) =~= seq![]);
        assert(ranges_as_int(ranges@) =~= blank_run_segments(s, 0));
    }
    if ranges.len() == 0 || (whole_if_single && ranges.len() == 1) {
        let e = trim_trailing_newlines(content, 0, len);
        let mut whole: Vec<(usize, usize)> = Vec::new();
        whole.push((0, e));
        proof {
            assert(ranges_as_int(whole@) =~= seq![(0int, e as int)]);
        }
        return whole;
    }
    ranges
}

/// Byte length of the UTF-8 encoding of a Unicode whitespace character
/// other than line feed at `i` (`char::is_whitespace`), or 0 when none
/// starts there.
pub open spec fn ws_char_len(s: Seq<u8>, i: int) -> int {
    if i < 0 || i >= s.len() {
        0
    } else if s[i] == 0x09u8 || s[i] == 0x0bu8 || s[i] == 0x0cu8 || s[i] == 0x0du8 || s[i] == 0x20u8 {
        1
    } else if s[i] == 0xc2u8 && i + 1 < s.len() && (s[i + 1] == 0x85u8 || s[i + 1] == 0xa0u8) {
        2
    } else if s[i] == 0xe1u8 && i + 2 < s.len() && s[i + 1] == 0x9au8 && s[i + 2] == 0x80u8 {
        3
    } else if s[i] == 0xe2u8 && i + 2 < s.len() && ((s[i + 1] == 0x80u8 && ((0x80u8 <= s[i + 2]
        <= 0x8au8) || s[i + 2] == 0xa8u8 || s[i + 2] == 0xa9u8 || s[i + 2] == 0xafu8)) || (s[i
        + 1] == 0x81u8 && s[i + 2] == 0x9fu8)) {
        3
    } else if s[i] == 0xe3u8 && i + 2 < s.len() && s[i + 1] == 0x80u8 && s[i + 2] == 0x80u8 {
        3
    } else {
        0
    }
}

/// Position after the leading whitespace of the line part that starts at `i`.
pub open spec fn skip_line_ws(s: Seq<u8>, i: int) -> int
    decreases s.len() - i,
{
    if 0 <= i < s.len() && ws_char_len(s, i) > 0 {
        skip_line_ws(s, i + ws_char_len(s, i))
    } else {
        i
    }
}

pub open spec fn is_line_start(s: Seq<u8>, j: int) -> bool {
    0 <= j < s.len() && (j == 0 || s[j - 1] == LF())
}

/// The line that starts at `j` opens with `#` after its leading whitespace.
pub open spec fn is_heading_line(s: Seq<u8>, j: int) -> bool {
    is_line_start(s, j) && 0 <= skip_line_ws(s, j) < s.len() && s[skip_line_ws(s, j)] == 0x23u8
}

/// Starts of heading lines before position `n`, in increasing order.
pub open spec fn heading_starts_upto(s: Seq<u8>, n: int) -> Seq<int>
    decreases n,
{
    if n <= 0 {
        seq![]
    } else if is_heading_line(s, n - 1) {
        heading_starts_upto(s, n - 1).push(n - 1)
    } else {
        heading_starts_upto(s, n - 1)
    }
}

/// Ranges `split_markdown_sections` yields: one section per heading line,
/// up to the next heading (trailing whitespace removed); without headings,
/// the blank-line paragraphs, or the whole trimmed content when there is
/// only one.
pub open spec fn markdown_ranges(s: Seq<u8>) -> Seq<(int, int)> {
    let st = heading_starts_upto(s, s.len() as int);
    if st.len() == 0 {
        blank_run_ranges(s, true)
    } else {
        Seq::new(
            st.len(),
            |i: int|
                (st[i], trim_end(s, st[i], if i + 1 < st.len() { st[i + 1] } else { s.len() as int })),
        )
    }
}

fn ws_char_len_at(s: &[u8], i: usize) -> (r: usize)
    requires
        i < s@.len(),
    ensures
        r as int == ws_char_len(s@, i as int),
{
    let b = s[i];
    let n = s.len();
    if b == 0x09u8 || b == 0x0bu8 || b == 0x0cu8 || b == 0x0du8 || b == 0x20u8 {
        1
    } else if b == 0xc2u8 && n - i > 1 && (s[i + 1] == 0x85u8 || s[i + 1] == 0xa0u8) {
        2
    } else if b == 0xe1u8 && n - i > 2 && s[i + 1] == 0x9au8 && s[i + 2] == 0x80u8 {
        3
    } else if b == 0xe2u8 && n - i > 2 && ((s[i + 1] == 0x80u8 && ((0x80u8 <= s[i + 2] && s[i + 2]
        <= 0x8au8) || s[i + 2] == 0xa8u8 || s[i + 2] == 0xa9u8 || s[i + 2] == 0xafu8)) || (s[i
        + 1] == 0x81u8 && s[i + 2] == 0x9fu8)) {
        3
    } else if b == 0xe3u8 && n - i > 2 && s[i + 1] == 0x80u8 && s[i + 2] == 0x80u8 {
        3
    } else {
        0
    }
}

fn line_is_heading(s: &[u8], j: usize) -> (r: bool)
    requires
        is_line_start(s@, j as int),
    ensures
        r == is_heading_line(s@, j as int),
{
    let mut k = j;
    while k < s.len() && ws_char_len_at(s, k) > 0
        invariant
            j <= k,
            skip_line_ws(s@, j as int) == skip_line_ws(s@, k as int),
        decreases s@.len() - k,
    {
        let w = ws_char_len_at(s, k);
        k = k + w;
    }
    k < s.len() && s[k] == 0x23u8
}

pub proof fn lemma_heading_starts(s: Seq<u8>, n: int)
    requires
        0 <= n <= s.len(),
    ensures
        forall|i: int| 0 <= i < heading_starts_upto(s, n).len() ==> {
            &&& 0 <= #[trigger] heading_starts_upto(s, n)[i] < n
            &&& is_heading_line(s, heading_starts_upto(s, n)[i])
        },
        forall|i: int, k: int|
            0 <= i < k < heading_starts_upto(s, n).len() ==> heading_starts_upto(s, n)[i]
                < heading_starts_upto(s, n)[k],
    decreases n,
{
    if n > 0 {
        lemma_heading_starts(s, n - 1);
        let prev = heading_starts_upto(s, n - 1);
        let cur = heading_starts_upto(s, n);
        if is_heading_line(s, n - 1) {
            assert(cur == prev.push(n - 1));
            assert forall|i: int, k: int| 0 <= i < k < cur.len() implies cur[i] < cur[k] by {
                if k < prev.len() {
                    assert(cur[i] == prev[i] && cur[k] == prev[k]);
                } else {
                    assert(cur[i] == prev[i]);
                }
            }
        } else {
            assert(cur == prev);
        }
    }
}

pub fn split_markdown_sections(content: &[u8]) -> (r: Vec<(usize, usize)>)
    ensures
        ranges_as_int(r@) == markdown_ranges(content@),
{
    let len = content.len();
    let ghost s = content@;
    let mut starts: Vec<usize> = Vec::new();
    let mut j: usize = 0;
    while j < len
        invariant
            len == s.len(),
            s == content@,
            j <= len,
            starts@.map_values(|x: usize| x as int) == heading_starts_upto(s, j as int),
        decreases len - j,
    {
        let ghost before = starts@;
        if (j == 0 || content[j - 1] == 0x0au8) && line_is_heading(content, j) {
            starts.push(j);
            proof {
                assert(starts@.map_values(|x: usize| x as int) =~= before.map_values(|x: usize| x as int).push(j as int));
            }
        }
        j = j + 1;
    }
    let ghost st = heading_starts_upto(s, len as int);
    proof {
        lemma_heading_starts(s, len as int);
        assert(starts@.len() == st.len());
        assert(forall|i: int| 0 <= i < st.len() ==> starts@[i] as int == st[i]) by {
            assert forall|i: int| 0 <= i < st.len() implies starts@[i] as int == st[i] by {
                assert(starts@.map_values(|x: usize| x as int)[i] == st[i]);
            }
        }
    }
    if starts.len() == 0 {
        return split_on_blank_runs(content, true);
    }
    let mut ranges: Vec<(usize, usize)> = Vec::new();
    let mut i: usize = 0;
    let n = starts.len();
    let ghost mr = markdown_ranges(s);
    proof {
        assert(mr.len() == n);
        assert(forall|k: int| 0 <= k < n ==> #[trigger] mr[k] == (st[k], trim_end(s, st[k], if k + 1 < n { st[k + 1] } else { len as int })));
    }
    while i < n
        invariant
            len == s.len(),
            s == content@,
            n == starts@.len(),
            n == st.len(),
            n > 0,
            i <= n,
            forall|k: int| 0 <= k < n ==> starts@[k] as int == st[k],
            forall|k: int| 0 <= k < n ==> 0 <= #[trigger] st[k] < len,
            forall|a: int, b: int| 0 <= a < b < n ==> st[a] < st[b],
            ranges@.len() == i,
            mr.len() == n,
            forall|k: int| 0 <= k < n ==> #[trigger] mr[k] == (st[k], trim_end(s, st[k], if k + 1 < n { st[k + 1] } else { len as int })),
            forall|k: int| 0 <= k < i ==> (#[trigger] ranges@[k]).0 as int == mr[k].0
                && ranges@[k].1 as int == mr[k].1,
        decreases n - i,
    {
        let start = starts[i];
        let next = if i + 1 < n { starts[i + 1] } else { len };
        proof {
            assert(start as int == st[i as int]);
            assert(0 <= st[i as int] < len);
            if i + 1 < n {
                assert(next as int == st[i + 1]);
                assert(st[i as int] < st[i + 1]);
            }
        }
        let end = trim_trailing_newlines(content, start, next);
        let ghost before = ranges@;
        ranges.push((start, end));
        proof {
            assert(ranges@[i as int] == (start, end));
            assert(forall|k: int| 0 <= k < i ==> ranges@[k] == before[k]);
        }
        i = i + 1;
    }
    proof {
        assert(ranges_as_int(ranges@) =~= mr);
    }
    ranges
}

/// The SHA-256 digest of the given bytes.
pub uninterp spec fn sha256_digest(data: Seq<u8>) -> Seq<u8>;

/// Calls `sha2::Sha256::digest`. Claims that the result is the SHA-256
/// digest of `data` and is 32 bytes long (the output size of SHA-256).
#[verifier::external_body]
fn sha256_bytes(data: &[u8]) -> (r: Vec<u8>)
    ensures
        r@ == sha256_digest(data@),
        r@.len() == 32,
{
    sha2::Sha256::digest(data).to_vec()
}

/// Lowercase hexadecimal SHA-256 digest of the UTF-8 bytes of `content`.
pub fn sha256_hex(content: &str) -> (r: String)
    ensures
        r@ == hex_lower(sha256_digest(content.spec_bytes())),
        r@.len() == 64,
{
    let digest = sha256_bytes(content.as_bytes());
    proof {
        lemma_hex_lower_len(digest@);
    }
    to_hex_lower(digest.as_slice())
}

pub proof fn lemma_hex_lower_len(b: Seq<u8>)
    ensures
        hex_lower(b).len() == 2 * b.len(),
    decreases b.len(),
{
    if b.len() > 0 {
        lemma_hex_lower_len(b.drop_last());
    }
}

/// A content hash is always 64 hexadecimal digits.
pub proof fn lemma_sha256_hex_len(data: Seq<u8>)
    requires
        sha256_digest(data).len() == 32,
    ensures
        hex_lower(sha256_digest(data)).len() == 64,
{
    lemma_hex_lower_len(sha256_digest(data));
}

/// Source of memory item URNs.
pub trait IdGenerator {
    /// The URN given to the memory item with these coordinates.
    spec fn urn_for(&self, source_id: u128, sequence: u32, start_offset: u32, end_offset: u32, content_hash: Seq<char>) -> Seq<char>;

    fn memory_item_urn(&self, source_id: u128, sequence: u32, start_offset: u32, end_offset: u32, content_hash: &str) -> (r: String)
        ensures
            r@ == self.urn_for(source_id, sequence, start_offset, end_offset, content_hash@),
    ;
}

/// What `normalize_source` reads of a source being registered.
pub struct NormalizationInput<'a> {
    pub source_id: u128,
    pub external_id: &'a str,
    pub title: &'a str,
    pub summary: Option<&'a str>,
    pub document_type: DocumentType,
    pub authoritative_content: &'a str,
    pub source_metadata: &'a JsonValue,
    pub created_at: i128,
}

/// Byte ranges of the memory items a source's content is cut into.
pub open spec fn normalized_ranges(s: Seq<u8>, d: DocumentType) -> Seq<(int, int)> {
    if s.len() == 0 {
        seq![(0int, 0int)]
    } else {
        match d {
            DocumentType::Json => seq![(0int, s.len() as int)],
            DocumentType::Text => blank_run_ranges(s, false),
            DocumentType::Markdown => markdown_ranges(s),
        }
    }
}

pub open spec fn normalized_unit_type(s: Seq<u8>, d: DocumentType) -> UnitType {
    if s.len() == 0 {
        UnitType::MetadataPlaceholder
    } else {
        match d {
            DocumentType::Json => UnitType::JsonDocument,
            DocumentType::Text => UnitType::Paragraph,
            DocumentType::Markdown => UnitType::Section,
        }
    }
}

/// The memory item built for the byte range `(start, end)` of `s`.
pub open spec fn item_built<G: IdGenerator>(
    gen: G,
    source_id: u128,
    created_at: i128,
    s: Seq<u8>,
    sequence: u32,
    unit_type: UnitType,
    start: int,
    end: int,
    item: MemoryItem,
) -> bool {
    let hash = hex_lower(sha256_digest(s.subrange(start, end)));
    &&& item.sequence == sequence
    &&& item.source_id == source_id
    &&& item.unit_type == unit_type
    &&& item.start_offset == start as u32
    &&& item.end_offset == end as u32
    &&& vstd::utf8::encode_utf8(item.content@) == s.subrange(start, end)
    &&& item.content_hash@ == hash
    &&& item.urn@ == gen.urn_for(source_id, sequence, start as u32, end as u32, hash)
    &&& item.version@ == "1"@
    &&& item.item_metadata@ == item_metadata_json(unit_type, start as u32, end as u32)
    &&& item.created_at == created_at
    &&& item.updated_at == created_at
}

pub open spec fn ranges_well_formed(s: Seq<u8>, r: Seq<(int, int)>) -> bool {
    forall|i: int|
        0 <= i < r.len() ==> {
            &&& 0 <= (#[trigger] r[i]).0 <= r[i].1 <= s.len()
            &&& ascii_adjacent(s, r[i].0)
            &&& ascii_adjacent(s, r[i].1)
        }
}

proof fn lemma_segments_well_formed(s: Seq<u8>, from: int)
    requires
        0 <= from,
        from == 0 || from >= s.len() || is_ws(s[from]),
    ensures
        ranges_well_formed(s, blank_run_segments(s, from)),
    decreases s.len() - from,
{
    lemma_first_non_ws(s, from);
    let p = first_non_ws(s, from);
    if p < s.len() {
        let q = first_break(s, p);
        lemma_first_break(s, p);
        lemma_first_break(s, p + 1);
        let e = trim_end(s, p, q);
        lemma_trim_end(s, p, q);
        if p > from {
            assert(is_ws(s[p - 1]));
        }
        if e < q {
            assert(is_ws(s[e]));
        }
        lemma_segments_well_formed(s, q);
        let rest = blank_run_segments(s, q);
        let all = blank_run_segments(s, from);
        assert(all == seq![(p, e)] + rest);
        assert forall|i: int| 0 <= i < all.len() implies {
            &&& 0 <= (#[trigger] all[i]).0 <= all[i].1 <= s.len()
            &&& ascii_adjacent(s, all[i].0)
            &&& ascii_adjacent(s, all[i].1)
        } by {
            if i > 0 {
                assert(all[i] == rest[i - 1]);
            }
        }
    }
}

proof fn lemma_normalized_ranges_well_formed(s: Seq<u8>, d: DocumentType)
    ensures
        ranges_well_formed(s, normalized_ranges(s, d)),
{
    if s.len() > 0 {
        match d {
            DocumentType::Json => {},
            DocumentType::Text => {
                lemma_blank_run_ranges_well_formed(s, false);
            },
            DocumentType::Markdown => {
                let st = heading_starts_upto(s, s.len() as int);
                if st.len() == 0 {
                    lemma_blank_run_ranges_well_formed(s, true);
                } else {
                    lemma_heading_starts(s, s.len() as int);
                    let r = markdown_ranges(s);
                    assert forall|i: int| 0 <= i < r.len() implies {
                        &&& 0 <= (#[trigger] r[i]).0 <= r[i].1 <= s.len()
                        &&& ascii_adjacent(s, r[i].0)
                        &&& ascii_adjacent(s, r[i].1)
                    } by {
                        let next = if i + 1 < st.len() { st[i + 1] } else { s.len() as int };
                        assert(0 <= st[i] < s.len());
                        if i + 1 < st.len() {
                            assert(st[i] < st[i + 1]);
                            assert(is_heading_line(s, st[i + 1]));
                        }
                        assert(is_heading_line(s, st[i]));
                        lemma_trim_end(s, st[i], next);
                        let e = trim_end(s, st[i], next);
                        if e < next {
                            assert(is_ws(s[e]));
                        }
                    }
                }
            },
        }
    }
}

proof fn lemma_blank_run_ranges_well_formed(s: Seq<u8>, whole_if_single: bool)
    ensures
        ranges_well_formed(s, blank_run_ranges(s, whole_if_single)),
{
    lemma_segments_well_formed(s, 0);
    lemma_trim_end(s, 0, s.len() as int);
    let e = trim_end(s, 0, s.len() as int);
    if e < s.len() {
        assert(is_ws(s[e]));
    }
}

fn build_item<G: IdGenerator>(
    input: &NormalizationInput,
    id_generator: &G,
    sequence: u32,
    unit_type: UnitType,
    start_offset: u32,
    end_offset: u32,
    content: String,
) -> (r: MemoryItem)
    ensures
        r.sequence == sequence,
        r.source_id == input.source_id,
        r.unit_type == unit_type,
        r.start_offset == start_offset,
        r.end_offset == end_offset,
        r.content@ == content@,
        r.content_hash@ == hex_lower(sha256_digest(vstd::utf8::encode_utf8(content@))),
        r.urn@ == id_generator.urn_for(input.source_id, sequence, start_offset, end_offset, r.content_hash@),
        r.version@ == "1"@,
        r.item_metadata@ == item_metadata_json(unit_type, start_offset, end_offset),
        r.created_at == input.created_at,
        r.updated_at == input.created_at,
{
    let content_hash = sha256_hex(content.as_str());
    let urn = id_generator.memory_item_urn(input.source_id, sequence, start_offset, end_offset, content_hash.as_str());
    MemoryItem {
        urn,
        source_id: input.source_id,
        sequence,
        unit_type,
        start_offset,
        end_offset,
        version: "1".to_owned(),
        content,
        content_hash,
        item_metadata: item_metadata(unit_type, start_offset, end_offset),
        created_at: input.created_at,
        updated_at: input.created_at,
    }
}

/// Cuts a source's authoritative content into memory items: one
/// placeholder item for empty content, one item for the whole of a JSON
/// document, blank-line separated paragraphs for text and heading sections
/// for markdown. Item `i` has sequence `i`, the byte offsets of its range and
/// exactly the bytes of that range as content.
pub fn normalize_source<G: IdGenerator>(input: &NormalizationInput, id_generator: &G) -> (r: AppResult<Vec<MemoryItem>>)
    ensures
        r matches Ok(items) && {
            let s = input.authoritative_content.spec_bytes();
            let ranges = normalized_ranges(s, input.document_type);
            &&& items@.len() == ranges.len()
            &&& forall|i: int| 0 <= i < ranges.len() ==> item_built(
                *id_generator,
                input.source_id,
                input.created_at,
                s,
                i as u32,
                normalized_unit_type(s, input.document_type),
                ranges[i].0,
                ranges[i].1,
                #[trigger] items@[i],
            )
        },
{
    let content = input.authoritative_content;
    let bytes = content.as_bytes();
    let ghost s = content.spec_bytes();
    let len = bytes.len();
    let unit_type;
    let ranges: Vec<(usize, usize)>;
    if len == 0 {
        unit_type = UnitType::MetadataPlaceholder;
        let mut v: Vec<(usize, usize)> = Vec::new();
        v.push((0, 0));
        ranges = v;
        proof { assert(ranges_as_int(ranges@) =~= seq![(0int, 0int)]); }
    } else {
        match input.document_type {
            DocumentType::Json => {
                unit_type = UnitType::JsonDocument;
                let mut v: Vec<(usize, usize)> = Vec::new();
                v.push((0, len));
                ranges = v;
                proof { assert(ranges_as_int(ranges@) =~= seq![(0int, len as int)]); }
            },
            DocumentType::Text => {
                unit_type = UnitType::Paragraph;
                ranges = split_on_blank_runs(bytes, false);
            },
            DocumentType::Markdown => {
                unit_type = UnitType::Section;
                ranges = split_markdown_sections(bytes);
            },
        }
    }
    let ghost spec_ranges = normalized_ranges(s, input.document_type);
    proof {
        assert(ranges_as_int(ranges@) == spec_ranges);
        lemma_normalized_ranges_well_formed(s, input.document_type);
        vstd::utf8::encode_utf8_valid_utf8(content@);
    }
    let mut items: Vec<MemoryItem> = Vec::new();
    let mut i: usize = 0;
    while i < ranges.len()
        invariant
            s == content.spec_bytes(),
            s == bytes@,
            vstd::utf8::valid_utf8(s),
            ranges_as_int(ranges@) == spec_ranges,
            ranges_well_formed(s, spec_ranges),
            unit_type == normalized_unit_type(s, input.document_type),
            i <= ranges@.len(),
            items@.len() == i,
            forall|k: int| 0 <= k < i ==> item_built(
                *id_generator,
                input.source_id,
                input.created_at,
                s,
                k as u32,
                unit_type,
                spec_ranges[k].0,
                spec_ranges[k].1,
                #[trigger] items@[k],
            ),
        decreases ranges@.len() - i,
    {
        let (start, end) = ranges[i];
        proof {
            assert(spec_ranges[i as int] == (start as int, end as int));
        }
        let piece = byte_range_string(content, start, end);
        let item = build_item(input, id_generator, i as u32, unit_type, start as u32, end as u32, piece);
        items.push(item);
        i = i + 1;
    }
    Ok(items)
}

/// How one character is written inside a JSON string literal: the quote,
/// the backslash and the control characters below U+0020 escaped (the
/// short forms `\b \t \n \f \r` where they exist, else `\u00` and two
/// lowercase hexadecimal digits), every other character as it is.
pub open spec fn json_escaped_char(c: char) -> Seq<char> {
    let n = c as u32;
    if c == '"' {
        seq!['\\', '"']
    } else if c == '\\' {
        seq!['\\', '\\']
    } else if n == 8 {
        seq!['\\', 'b']
    } else if n == 9 {
        seq!['\\', 't']
    } else if n == 10 {
        seq!['\\', 'n']
    } else if n == 12 {
        seq!['\\', 'f']
    } else if n == 13 {
        seq!['\\', 'r']
    } else if n < 32 {
        seq!['\\', 'u', '0', '0', hex_digit((n / 16) as nat), hex_digit((n % 16) as nat)]
    } else {
        seq![c]
    }
}

/// The characters of a text, each written as `json_escaped_char` writes it.
pub open spec fn json_escaped(s: Seq<char>) -> Seq<char>
    decreases s.len(),
{
    if s.len() == 0 {
        seq![]
    } else {
        json_escaped(s.drop_last()) + json_escaped_char(s.last())
    }
}

/// The JSON string literal of a text: its escaped characters in quotes.
pub open spec fn json_string_literal(s: Seq<char>) -> Seq<char> {
    seq!['"'] + json_escaped(s) + seq!['"']
}

/// Calls `serde_json::to_string` on a string slice, which does not fail on
/// a `str`. Claims that the result is the quoted, escaped literal of
/// `json_string_literal`, as serde_json's compact formatter writes it
/// (its `format_escaped_str` and escape table).
#[verifier::external_body]
fn json_quote(s: &str) -> (r: String)
    ensures
        r@ == json_string_literal(s@),
{
    serde_json::to_string(s).unwrap_or_default()
}

pub open spec fn join_commas(parts: Seq<Seq<char>>) -> Seq<char>
    decreases parts.len(),
{
    if parts.len() == 0 {
        seq![]
    } else if parts.len() == 1 {
        parts[0]
    } else {
        join_commas(parts.drop_last()) + ","@ + parts.last()
    }
}

pub open spec fn member_entries(m: Seq<(Seq<char>, Json)>) -> Seq<(Seq<char>, Seq<char>)>
    decreases m, 0nat,
{
    Seq::new(
        m.len(),
        |i: int|
            if 0 <= i < m.len() {
                (m[i].0, json_string_literal(m[i].0) + ":"@ + canonical_json(m[i].1))
            } else {
                (seq![], seq![])
            },
    )
}

pub open spec fn item_texts(items: Seq<Json>) -> Seq<Seq<char>>
    decreases items, 0nat,
{
    Seq::new(items.len(), |i: int| if 0 <= i < items.len() { canonical_json(items[i]) } else { seq![] })
}

pub open spec fn entry_texts(entries: Seq<(Seq<char>, Seq<char>)>) -> Seq<Seq<char>> {
    entries.map_values(|e: (Seq<char>, Seq<char>)| e.1)
}

/// Canonical JSON text of a value: compact, object members sorted by key.
pub open spec fn canonical_json(v: Json) -> Seq<char>
    decreases v, 1nat,
{
    match v {
        Json::Null => "null"@,
        Json::Bool(b) => if b {
            "true"@
        } else {
            "false"@
        },
        Json::Number(n) => n,
        Json::String(t) => json_string_literal(t),
        Json::Array(items) => "["@ + join_commas(item_texts(items)) + "]"@,
        Json::Object(m) => "{"@ + join_commas(entry_texts(sort_by_key(member_entries(m)))) + "}"@,
    }
}

pub open spec fn pairs_view(v: Seq<(String, String)>) -> Seq<(Seq<char>, Seq<char>)> {
    v.map_values(|e: (String, String)| (e.0@, e.1@))
}

/// Inserts `x` into `sorted` the way `sorted_insert` does.
fn insert_sorted(sorted: &mut Vec<(String, String)>, x: (String, String))
    ensures
        pairs_view(final(sorted)@) == sorted_insert(pairs_view(old(sorted)@), (x.0@, x.1@)),
{
    let ghost s = pairs_view(sorted@);
    let ghost xv = (x.0@, x.1@);
    let mut p = sorted.len();
    proof {
        assert(s.subrange(0, p as int) =~= s);
    }
    let mut go = p > 0 && bytes_less(x.0.as_str().as_bytes(), sorted[p - 1].0.as_str().as_bytes());
    while go
        invariant
            p <= sorted@.len(),
            s == pairs_view(sorted@),
            xv == (x.0@, x.1@),
            go ==> p > 0 && key_lt(xv.0, s[p - 1].0),
            !go ==> (p == 0 || !key_lt(xv.0, s[p - 1].0)),
            insert_pos(s, xv) == insert_pos(s.subrange(0, p as int), xv),
            forall|k: int| p <= k < s.len() ==> key_lt(xv.0, #[trigger] s[k].0),
        decreases p,
    {
        proof {
            let t = s.subrange(0, p as int);
            assert(t.last() == s[p - 1]);
            assert(t.drop_last() =~= s.subrange(0, p - 1));
        }
        p = p - 1;
        go = p > 0 && bytes_less(x.0.as_str().as_bytes(), sorted[p - 1].0.as_str().as_bytes());
    }
    proof {
        let t = s.subrange(0, p as int);
        if p > 0 {
            assert(t.last() == s[p - 1]);
        }
        assert(insert_pos(s, xv) == p);
        lemma_sorted_insert_at(s, xv);
    }
    sorted.insert(p, x);
    proof {
        assert(pairs_view(sorted@) =~= s.subrange(0, p as int).push(xv) + s.subrange(p as int, s.len() as int));
    }
}

fn join_with_commas(open: &str, parts: &Vec<String>, close: &str) -> (r: String)
    ensures
        r@ == open@ + join_commas(parts@.map_values(|p: String| p@)) + close@,
{
    let ghost pv = parts@.map_values(|p: String| p@);
    let mut out = open.to_owned();
    let mut i: usize = 0;
    while i < parts.len()
        invariant
            i <= parts@.len(),
            pv == parts@.map_values(|p: String| p@),
            out@ == open@ + join_commas(pv.take(i as int)),
        decreases parts@.len() - i,
    {
        if i > 0 {
            out.append(",");
        }
        out.append(parts[i].as_str());
        proof {
            let t = pv.take(i + 1);
            assert(t.drop_last() =~= pv.take(i as int));
            assert(t.last() == parts@[i as int]@);
            if i == 0 {
                assert(join_commas(t) == t[0]);
                assert(join_commas(pv.take(0)) =~= seq![]);
            }
            assert(out@ =~= open@ + join_commas(t));
        }
        i = i + 1;
    }
    proof {
        assert(pv.take(parts@.len() as int) =~= pv);
    }
    out.append(close);
    out
}

/// Canonical JSON text of a value: compact, with object members in key
/// order at every level.
#[verifier::loop_isolation(false)]
pub fn canonical_json_string(value: &JsonValue) -> (r: String)
    ensures
        r@ == canonical_json(value@),
    decreases value,
{
    proof {
        lemma_scalar_views(*value);
    }
    match value {
        JsonValue::Null => "null".to_owned(),
        JsonValue::Bool(b) => if *b {
            "true".to_owned()
        } else {
            "false".to_owned()
        },
        JsonValue::Number(n) => n.clone(),
        JsonValue::String(t) => json_quote(t.as_str()),
        JsonValue::Array(items) => {
            proof {
                lemma_array_view(*value);
            }
            let ghost iv = items_view(items@);
            let ghost want = item_texts(iv);
            let mut parts: Vec<String> = Vec::new();
            let mut i: usize = 0;
            while i < items.len()
                invariant
                    i <= items@.len(),
                    iv == items_view(items@),
                    want == item_texts(iv),
                    parts@.len() == i,
                    forall|k: int| 0 <= k < i ==> #[trigger] parts@[k]@ == want[k],
                decreases items@.len() - i,
            {
                assert(decreases_to!(*value => items@[i as int])) by {
                    assert(decreases_to!(*value => value->Array_0));
                    assert(decreases_to!(*items => items@[i as int]));
                }
                let c = canonical_json_string(&items[i]);
                parts.push(c);
                i = i + 1;
            }
            proof {
                assert(parts@.map_values(|p: String| p@) =~= want);
            }
            join_with_commas("[", &parts, "]")
        },
        JsonValue::Object(m) => {
            proof {
                lemma_object_view(*value);
            }
            let ghost mv = members_view(m@);
            let ghost want = member_entries(mv);
            let mut sorted: Vec<(String, String)> = Vec::new();
            let mut i: usize = 0;
            while i < m.len()
                invariant
                    i <= m@.len(),
                    mv == members_view(m@),
                    want == member_entries(mv),
                    pairs_view(sorted@) == sort_by_key(want.take(i as int)),
                decreases m@.len() - i,
            {
                assert(decreases_to!(*value => m@[i as int].1)) by {
                    assert(decreases_to!(*value => value->Object_0));
                    assert(decreases_to!(*m => m@[i as int]));
                    assert(decreases_to!(m@[i as int] => m@[i as int].1));
                }
                let c = canonical_json_string(&m[i].1);
                let mut entry = json_quote(m[i].0.as_str());
                entry.append(":");
                entry.append(c.as_str());
                let key = m[i].0.clone();
                proof {
                    assert(want[i as int] == (key@, entry@));
                    assert(want.take(i + 1).drop_last() =~= want.take(i as int));
                    assert(want.take(i + 1).last() == want[i as int]);
                }
                insert_sorted(&mut sorted, (key, entry));
                i = i + 1;
            }
            proof {
                assert(want.take(m@.len() as int) =~= want);
            }
            let mut parts: Vec<String> = Vec::new();
            let mut k: usize = 0;
            let ghost sv = pairs_view(sorted@);
            while k < sorted.len()
                invariant
                    k <= sorted@.len(),
                    sv == pairs_view(sorted@),
                    parts@.len() == k,
                    forall|j: int| 0 <= j < k ==> #[trigger] parts@[j]@ == sv[j].1,
                decreases sorted@.len() - k,
            {
                parts.push(sorted[k].1.clone());
                k = k + 1;
            }
            proof {
                assert(parts@.map_values(|p: String| p@) =~= entry_texts(sv));
            }
            join_with_commas("{", &parts, "}")
        },
    }
}

/// Hash of a JSON document that ignores formatting and member order: the
/// lowercase hexadecimal SHA-256 of its canonical text.
pub fn json_value_hash(value: &JsonValue) -> (r: String)
    ensures
        r@ == hex_lower(sha256_digest(vstd::utf8::encode_utf8(canonical_json(value@)))),
        r@.len() == 64,
{
    let text = canonical_json_string(value);
    sha256_hex(text.as_str())
}

/// Hash of a JSON body that ignores formatting and member order: the body
/// is read as a JSON document and the hash of its canonical text returned;
/// a body that is not a JSON document is a validation error.
pub fn normalized_json_hash(raw_body: &str) -> (r: AppResult<String>)
    ensures
        match parsed_json(raw_body@) {
            None => r matches Err(e) && e.kind == ErrorKind::Validation
                && e.message@ == "invalid supported-standard json payload"@,
            Some(j) => r matches Ok(h) && h@ == hex_lower(sha256_digest(vstd::utf8::encode_utf8(canonical_json(j))))
                && h@.len() == 64,
        },
{
    match parse_json(raw_body) {
        Some(value) => Ok(json_value_hash(&value)),
        None => Err(AppError::validation("invalid supported-standard json payload")),
    }
}

proof fn lemma_no_double_run(s: Seq<u8>, i: int)
    requires
        forall|k: int| 0 <= k < s.len() - 1 ==> !(#[trigger] s[k] == 0x0au8 && s[k + 1] == 0x0au8),
    ensures
        !run_has_double_newline(s, i),
    decreases s.len() - i,
{
    if 0 <= i < s.len() && is_ws(s[i]) {
        lemma_no_double_run(s, i + 1);
    }
}

/// A text without a blank line (no two consecutive line feeds) is a single
/// paragraph: exactly one item, running from its first non-whitespace byte
/// to just after its last one (an empty item at the start when the text
/// holds only whitespace).
pub proof fn lemma_text_without_blank_line_is_one_paragraph(s: Seq<u8>)
    requires
        forall|k: int| 0 <= k < s.len() - 1 ==> !(#[trigger] s[k] == 0x0au8 && s[k + 1] == 0x0au8),
    ensures
        normalized_ranges(s, DocumentType::Text).len() == 1,
        ({
            let (a, b) = normalized_ranges(s, DocumentType::Text)[0];
            &&& (exists|k: int| 0 <= k < s.len() && !is_ws(#[trigger] s[k])) ==> {
                &&& 0 <= a < b <= s.len()
                &&& !is_ws(s[a])
                &&& !is_ws(s[b - 1])
                &&& forall|k: int| 0 <= k < a ==> is_ws(#[trigger] s[k])
                &&& forall|k: int| b <= k < s.len() ==> is_ws(#[trigger] s[k])
            }
            &&& !(exists|k: int| 0 <= k < s.len() && !is_ws(#[trigger] s[k])) ==> a == 0 && b == 0
        }),
{
    if s.len() > 0 {
        let n = s.len() as int;
        let p = first_non_ws(s, 0);
        lemma_first_non_ws(s, 0);
        if p < n {
            lemma_first_break(s, p);
            if first_break(s, p) < n {
                lemma_no_double_run(s, first_break(s, p));
                assert(false);
            }
            let b = trim_end(s, p, n);
            lemma_trim_end(s, p, n);
            lemma_first_non_ws(s, n);
            assert(blank_run_segments(s, n) == Seq::<(int, int)>::empty());
            assert(blank_run_segments(s, 0) == seq![(p, b)] + Seq::<(int, int)>::empty());
            assert(blank_run_segments(s, 0) =~= seq![(p, b)]);
            if b == p {
                assert(false);
            }
        } else {
            assert(blank_run_segments(s, 0) == Seq::<(int, int)>::empty());
            lemma_trim_end(s, 0, n);
            let b = trim_end(s, 0, n);
            if b > 0 {
                assert(is_ws(s[b - 1]));
            }
            assert forall|k: int| 0 <= k < s.len() implies is_ws(#[trigger] s[k]) by {}
        }
    }
}

/// Two consecutive line feeds at `k`.
pub open spec fn blank_line_at(s: Seq<u8>, k: int) -> bool {
    0 <= k && k + 1 < s.len() && s[k] == 0x0au8 && s[k + 1] == 0x0au8
}

proof fn lemma_run_double_witness(s: Seq<u8>, i: int)
    requires
        run_has_double_newline(s, i),
    ensures
        exists|k: int| i <= k && #[trigger] blank_line_at(s, k) && forall|j: int| i <= j <= k + 1 ==> is_ws(#[trigger] s[j]),
    decreases s.len() - i,
{
    if s[i] == LF() && i + 1 < s.len() && s[i + 1] == LF() {
        assert(blank_line_at(s, i));
        assert forall|j: int| i <= j <= i + 1 implies is_ws(#[trigger] s[j]) by {}
    } else {
        lemma_run_double_witness(s, i + 1);
        let k = choose|k: int| i + 1 <= k && #[trigger] blank_line_at(s, k) && forall|j: int| i + 1 <= j <= k + 1 ==> is_ws(#[trigger] s[j]);
        assert forall|j: int| i <= j <= k + 1 implies is_ws(#[trigger] s[j]) by {}
    }
}

/// The paragraphs `blank_run_segments` cuts from `from` on: each starts and
/// ends on a non-whitespace byte, holds no blank line, lies after the
/// previous one, and is separated from it by a blank line.
pub open spec fn paragraphs_well_cut(s: Seq<u8>, r: Seq<(int, int)>, from: int) -> bool {
    &&& forall|i: int|
        0 <= i < r.len() ==> {
            let (a, b) = #[trigger] r[i];
            &&& from <= a < b <= s.len()
            &&& !is_ws(s[a]) && !is_ws(s[b - 1])
            &&& forall|k: int| a <= k && k + 1 < b ==> !#[trigger] blank_line_at(s, k)
        }
    &&& forall|i: int|
        0 <= i < r.len() - 1 ==> (#[trigger] r[i]).1 < r[i + 1].0 && exists|k: int|
            r[i].1 <= k && k + 1 < r[i + 1].0 && #[trigger] blank_line_at(s, k)
}

proof fn lemma_segments_well_cut(s: Seq<u8>, from: int)
    requires
        0 <= from <= s.len(),
    ensures
        paragraphs_well_cut(s, blank_run_segments(s, from), from),
        blank_run_segments(s, from).len() > 0 ==> blank_run_segments(s, from)[0].0 == first_non_ws(s, from),
    decreases s.len() - from,
{
    let p = first_non_ws(s, from);
    lemma_first_non_ws(s, from);
    if p < s.len() {
        let q = first_break(s, p);
        lemma_first_break(s, p);
        let te = trim_end(s, p, q);
        lemma_trim_end(s, p, q);
        assert(q > p) by {
            if q == p {
                assert(is_blank_break(s, p));
            }
        }
        assert(te > p) by {
            if te == p {
                assert(is_ws(s[p]));
            }
        }
        assert forall|k: int| p <= k && k + 1 < te implies !#[trigger] blank_line_at(s, k) by {
            if blank_line_at(s, k) {
                assert(run_has_double_newline(s, k));
                assert(is_blank_break(s, k));
            }
        }
        let rest = blank_run_segments(s, q);
        let r = blank_run_segments(s, from);
        assert(r == seq![(p, te)] + rest);
        if q < s.len() {
            lemma_segments_well_cut(s, q);
            if rest.len() > 0 {
                let a2 = rest[0].0;
                assert(a2 == first_non_ws(s, q));
                lemma_first_non_ws(s, q);
                lemma_run_double_witness(s, q);
                let k = choose|k: int| q <= k && #[trigger] blank_line_at(s, k) && forall|j: int| q <= j <= k + 1 ==> is_ws(#[trigger] s[j]);
                assert(k + 1 < a2) by {
                    if k + 1 >= a2 {
                        assert(is_ws(s[a2]));
                    }
                }
                assert(te <= q);
            }
            assert forall|i: int| 0 <= i < r.len() implies ({
                let (a, b) = #[trigger] r[i];
                &&& from <= a < b <= s.len()
                &&& !is_ws(s[a]) && !is_ws(s[b - 1])
                &&& forall|k: int| a <= k && k + 1 < b ==> !#[trigger] blank_line_at(s, k)
            }) by {
                if i > 0 {
                    assert(r[i] == rest[i - 1]);
                }
            }
            assert forall|i: int| 0 <= i < r.len() - 1 implies (#[trigger] r[i]).1 < r[i + 1].0 && exists|k: int|
                r[i].1 <= k && k + 1 < r[i + 1].0 && #[trigger] blank_line_at(s, k) by {
                if i > 0 {
                    assert(r[i] == rest[i - 1] && r[i + 1] == rest[i]);
                } else {
                    assert(r[1] == rest[0]);
                    let k = choose|k: int| q <= k && #[trigger] blank_line_at(s, k) && forall|j: int| q <= j <= k + 1 ==> is_ws(#[trigger] s[j]);
                    assert(k + 1 < rest[0].0) by {
                        lemma_first_non_ws(s, q);
                        if k + 1 >= rest[0].0 {
                            assert(is_ws(s[rest[0].0]));
                        }
                    }
                }
            }
        } else {
            lemma_first_non_ws(s, q);
            assert(rest == Seq::<(int, int)>::empty());
            assert(r =~= seq![(p, te)]);
        }
    }
}

/// A text is cut into paragraphs at blank lines: every item starts and
/// ends on a non-whitespace byte and holds no blank line (two consecutive
/// line feeds), the items come in order, and a blank line lies between
/// each item and the next.
pub proof fn lemma_text_paragraphs(s: Seq<u8>)
    requires
        exists|k: int| 0 <= k < s.len() && !is_ws(#[trigger] s[k]),
    ensures
        paragraphs_well_cut(s, normalized_ranges(s, DocumentType::Text), 0),
{
    lemma_segments_well_cut(s, 0);
    lemma_first_non_ws(s, 0);
    let k0 = choose|k: int| 0 <= k < s.len() && !is_ws(#[trigger] s[k]);
    assert(first_non_ws(s, 0) < s.len());
}

} // verus!
