use vstd::prelude::*;
use vstd::string::*;

verus! {

broadcast use vstd::utf8::group_utf8_lib;

/// `u8::is_ascii_whitespace`: space, tab, line feed, form feed, carriage return.
pub open spec fn is_ws(b: u8) -> bool {
    b == 0x20u8 || b == 0x09u8 || b == 0x0au8 || b == 0x0cu8 || b == 0x0du8
}

pub fn byte_is_ws(b: u8) -> (r: bool)
    ensures
        r == is_ws(b),
{
    b == 0x20u8 || b == 0x09u8 || b == 0x0au8 || b == 0x0cu8 || b == 0x0du8
}

pub fn bytes_eq(a: &[u8], b: &[u8]) -> (r: bool)
    ensures
        r == (a@ == b@),
{
    if a.len() != b.len() {
        return false;
    }
    let mut i: usize = 0;
    while i < a.len()
        invariant
            a@.len() == b@.len(),
            0 <= i <= a@.len(),
            forall|j: int| 0 <= j < i ==> a@[j] == b@[j],
        decreases a@.len() - i,
    {
        if a[i] != b[i] {
            return false;
        }
        i = i + 1;
    }
    assert(a@ =~= b@);
    true
}

/// Text equality, decided on the UTF-8 bytes.
pub fn str_eq(a: &str, b: &str) -> (r: bool)
    ensures
        r == (a@ == b@),
{
    let r = bytes_eq(a.as_bytes(), b.as_bytes());
    proof {
        if a.spec_bytes() == b.spec_bytes() {
            assert(vstd::utf8::decode_utf8(vstd::utf8::encode_utf8(a@)) == a@);
            assert(vstd::utf8::decode_utf8(vstd::utf8::encode_utf8(b@)) == b@);
        }
    }
    r
}

/// A position at which a byte range may be cut without splitting a
/// character: either end of the bytes, or next to an ASCII byte.
pub open spec fn ascii_adjacent(s: Seq<u8>, x: int) -> bool {
    x == 0 || x == s.len() || (0 < x < s.len() && (s[x - 1] < 0x80u8 || s[x] < 0x80u8))
}

proof fn lemma_after_ascii_not_continuation(s: Seq<u8>, x: int)
    requires
        vstd::utf8::valid_utf8(s),
        0 < x < s.len(),
        s[x - 1] < 0x80u8,
    ensures
        !vstd::utf8::is_continuation_byte(s[x]),
{
    vstd::utf8::is_char_boundary_iff_not_is_continuation_byte(s, x - 1);
    vstd::utf8::valid_utf8_split(s, x - 1);
    let t = s.subrange(x - 1, s.len() as int);
    assert(t[0] == s[x - 1]);
    assert(vstd::utf8::length_of_first_scalar(t) == 1);
    let u = vstd::utf8::pop_first_scalar(t);
    assert(u =~= s.subrange(x, s.len() as int));
    assert(vstd::utf8::valid_utf8(u));
    assert(vstd::utf8::is_char_boundary(u, 0));
    vstd::utf8::is_char_boundary_iff_not_is_continuation_byte(u, 0);
    assert(u[0] == s[x]);
}

pub proof fn lemma_ascii_adjacent_boundary(s: Seq<u8>, x: int)
    requires
        vstd::utf8::valid_utf8(s),
        ascii_adjacent(s, x),
    ensures
        vstd::utf8::is_char_boundary(s, x),
{
    vstd::utf8::is_char_boundary_start_end_of_seq(s);
    if 0 < x < s.len() {
        if s[x] < 0x80u8 {
            vstd::utf8::is_char_boundary_iff_not_is_continuation_byte(s, x);
        } else {
            lemma_after_ascii_not_continuation(s, x);
            vstd::utf8::is_char_boundary_iff_not_is_continuation_byte(s, x);
        }
    }
}

/// A position where bytes may be cut without splitting a character
/// (for valid UTF-8): an end, or a byte that continues no character.
pub open spec fn cut_ok(s: Seq<u8>, x: int) -> bool {
    x == 0 || x == s.len() || (0 < x < s.len() && !vstd::utf8::is_continuation_byte(s[x]))
}

pub proof fn lemma_cut_ok_boundary(s: Seq<u8>, x: int)
    requires
        vstd::utf8::valid_utf8(s),
        cut_ok(s, x),
    ensures
        vstd::utf8::is_char_boundary(s, x),
{
    vstd::utf8::is_char_boundary_start_end_of_seq(s);
    if 0 < x < s.len() {
        vstd::utf8::is_char_boundary_iff_not_is_continuation_byte(s, x);
    }
}

pub proof fn lemma_ascii_adjacent_cut_ok(s: Seq<u8>, x: int)
    requires
        vstd::utf8::valid_utf8(s),
        ascii_adjacent(s, x),
    ensures
        cut_ok(s, x),
{
    if 0 < x < s.len() && s[x] >= 0x80u8 {
        lemma_after_ascii_not_continuation(s, x);
    }
}

/// The text whose UTF-8 encoding is bytes `a..b` of `content`.
pub fn byte_range_string(content: &str, a: usize, b: usize) -> (r: String)
    requires
        a <= b <= content.spec_bytes().len(),
        ascii_adjacent(content.spec_bytes(), a as int),
        ascii_adjacent(content.spec_bytes(), b as int),
    ensures
        vstd::utf8::encode_utf8(r@) == content.spec_bytes().subrange(a as int, b as int),
{
    proof {
        vstd::utf8::encode_utf8_valid_utf8(content@);
        lemma_ascii_adjacent_cut_ok(content.spec_bytes(), a as int);
        lemma_ascii_adjacent_cut_ok(content.spec_bytes(), b as int);
    }
    cut_string(content, a, b)
}

/// The text whose UTF-8 encoding is bytes `a..b` of `content`, for cuts
/// that split no character.
pub fn cut_string(content: &str, a: usize, b: usize) -> (r: String)
    requires
        a <= b <= content.spec_bytes().len(),
        cut_ok(content.spec_bytes(), a as int),
        cut_ok(content.spec_bytes(), b as int),
    ensures
        vstd::utf8::encode_utf8(r@) == content.spec_bytes().subrange(a as int, b as int),
{
    let ghost s = content.spec_bytes();
    proof {
        vstd::utf8::encode_utf8_valid_utf8(content@);
        lemma_cut_ok_boundary(s, b as int);
        vstd::utf8::valid_utf8_split(s, b as int);
    }
    let (left, _right) = content.split_at(b);
    let ghost l = left.spec_bytes();
    proof {
        assert(l =~= s.subrange(0, b as int));
        if 0 < a < b {
            assert(l[a as int] == s[a as int]);
        }
        assert(cut_ok(l, a as int));
        lemma_cut_ok_boundary(l, a as int);
    }
    let (_head, mid) = left.split_at(a);
    proof {
        assert(mid.spec_bytes() =~= s.subrange(a as int, b as int));
    }
    mid.to_owned()
}

pub open spec fn decimal_digit(d: nat) -> char {
    if d == 0 { '0' } else if d == 1 { '1' } else if d == 2 { '2' } else if d == 3 { '3' }
    else if d == 4 { '4' } else if d == 5 { '5' } else if d == 6 { '6' } else if d == 7 { '7' }
    else if d == 8 { '8' } else { '9' }
}

/// Decimal notation of `n`, as `u64::to_string` writes it.
pub open spec fn decimal(n: nat) -> Seq<char>
    decreases n,
{
    if n < 10 {
        seq![decimal_digit(n)]
    } else {
        decimal(n / 10).push(decimal_digit(n % 10))
    }
}

fn digit_str(d: u64) -> (r: &'static str)
    requires
        d < 10,
    ensures
        r@ == seq![decimal_digit(d as nat)],
{
    proof {
        reveal_strlit("0");
        reveal_strlit("1");
        reveal_strlit("2");
        reveal_strlit("3");
        reveal_strlit("4");
        reveal_strlit("5");
        reveal_strlit("6");
        reveal_strlit("7");
        reveal_strlit("8");
        reveal_strlit("9");
    }
    if d == 0 { "0" } else if d == 1 { "1" } else if d == 2 { "2" } else if d == 3 { "3" }
    else if d == 4 { "4" } else if d == 5 { "5" } else if d == 6 { "6" } else if d == 7 { "7" }
    else if d == 8 { "8" } else { "9" }
}

pub fn u64_to_decimal(n: u64) -> (r: String)
    ensures
        r@ == decimal(n as nat),
    decreases n,
{
    if n < 10 {
        let d = digit_str(n);
        d.to_owned()
    } else {
        let mut head = u64_to_decimal(n / 10);
        let d = digit_str(n % 10);
        let ghost h = head@;
        head.append(d);
        proof {
            assert(head@ =~= h.push(decimal_digit((n % 10) as nat)));
        }
        head
    }
}

pub open spec fn hex_digit(d: nat) -> char {
    if d < 10 { decimal_digit(d) } else if d == 10 { 'a' } else if d == 11 { 'b' } else if d == 12 { 'c' }
    else if d == 13 { 'd' } else if d == 14 { 'e' } else { 'f' }
}

/// Lowercase hexadecimal notation of bytes, two digits per byte
/// (`{:x}` of a digest).
pub open spec fn hex_lower(b: Seq<u8>) -> Seq<char>
    decreases b.len(),
{
    if b.len() == 0 {
        seq![]
    } else {
        hex_lower(b.drop_last()) + seq![hex_digit((b.last() / 16) as nat), hex_digit((b.last() % 16) as nat)]
    }
}

fn hex_digit_str(d: u8) -> (r: &'static str)
    requires
        d < 16,
    ensures
        r@ == seq![hex_digit(d as nat)],
{
    if d < 10 {
        digit_str(d as u64)
    } else {
        proof {
            reveal_strlit("a");
            reveal_strlit("b");
            reveal_strlit("c");
            reveal_strlit("d");
            reveal_strlit("e");
            reveal_strlit("f");
        }
        if d == 10 { "a" } else if d == 11 { "b" } else if d == 12 { "c" } else if d == 13 { "d" }
        else if d == 14 { "e" } else { "f" }
    }
}

pub fn to_hex_lower(b: &[u8]) -> (r: String)
    ensures
        r@ == hex_lower(b@),
{
    let mut out = String::new();
    let mut i: usize = 0;
    while i < b.len()
        invariant
            i <= b@.len(),
            out@ == hex_lower(b@.take(i as int)),
        decreases b@.len() - i,
    {
        let x = b[i];
        let hi = hex_digit_str(x / 16);
        let lo = hex_digit_str(x % 16);
        let ghost o = out@;
        out.append(hi);
        out.append(lo);
        proof {
            assert(b@.take(i + 1).drop_last() =~= b@.take(i as int));
            assert(b@.take(i + 1).last() == x);
            assert(out@ =~= hex_lower(b@.take(i + 1)));
        }
        i = i + 1;
    }
    proof {
        assert(b@.take(b@.len() as int) =~= b@);
    }
    out
}

/// Byte length of the UTF-8 encoding of a Unicode whitespace character
/// (`char::is_whitespace`) starting at `i`, or 0 when none starts there.
/// With `with_lf` false, line feed does not count.
pub open spec fn ws_len_at(s: Seq<u8>, i: int, with_lf: bool) -> int {
    if i < 0 || i >= s.len() {
        0
    } else if s[i] == 0x0au8 {
        if with_lf { 1 } else { 0 }
    } else if s[i] == 0x09u8 || s[i] == 0x0bu8 || s[i] == 0x0cu8 || s[i] == 0x0du8 || s[i] == 0x20u8 {
        1
    } else if s[i] == 0xc2u8 && i + 1 < s.len() && (s[i + 1] == 0x85u8 || s[i + 1] == 0xa0u8) {
        2
    } else if s[i] == 0xe1u8 && i + 2 < s.len() && s[i + 1] == 0x9au8 && s[i + 2] == 0x80u8 {
        3
    } else if s[i] == 0xe2u8 && i + 2 < s.len() && ((s[i + 1] == 0x80u8 && ((0x80u8 <= s[i + 2]
        <= 0x8au8) || s[i + 2] == 0xa8u8 || s[i + 2] == 0xa9u8 || s[i + 2] == 0xafu8)) || (s[i
        + 1] == 0x81u8 && s[i + 2] == 0x9fu8)) {
        3
    } else if s[i] == 0xe3u8 && i + 2 < s.len() && s[i + 1] == 0x80u8 && s[i + 2] == 0x80u8 {
        3
    } else {
        0
    }
}

/// Byte length of a whitespace character's encoding that ends just before
/// `e` (0 when none does).
pub open spec fn ws_len_before(s: Seq<u8>, e: int) -> int {
    if 1 <= e <= s.len() && ws_len_at(s, e - 1, true) == 1 {
        1
    } else if 2 <= e <= s.len() && ws_len_at(s, e - 2, true) == 2 {
        2
    } else if 3 <= e <= s.len() && ws_len_at(s, e - 3, true) == 3 {
        3
    } else {
        0
    }
}

pub open spec fn skip_ws(s: Seq<u8>, i: int, end: int) -> int
    decreases end - i,
{
    if 0 <= i < end <= s.len() && ws_len_at(s, i, true) > 0 && i + ws_len_at(s, i, true) <= end {
        skip_ws(s, i + ws_len_at(s, i, true), end)
    } else {
        i
    }
}

pub open spec fn skip_ws_back(s: Seq<u8>, start: int, e: int) -> int
    decreases e - start,
{
    if 0 <= start < e <= s.len() && ws_len_before(s, e) > 0 && e - ws_len_before(s, e) >= start {
        skip_ws_back(s, start, e - ws_len_before(s, e))
    } else {
        e
    }
}

/// Start and end of `str::trim` of the bytes `s`: leading and trailing
/// Unicode whitespace removed.
pub open spec fn trim_start_pos(s: Seq<u8>) -> int {
    skip_ws(s, 0, s.len() as int)
}

pub open spec fn trim_end_pos(s: Seq<u8>) -> int {
    skip_ws_back(s, trim_start_pos(s), s.len() as int)
}

pub open spec fn trimmed(s: Seq<u8>) -> Seq<u8> {
    s.subrange(trim_start_pos(s), trim_end_pos(s))
}

proof fn lemma_skip_ws_stop(s: Seq<u8>, i: int, end: int)
    requires
        0 <= i <= end <= s.len(),
    ensures
        i <= skip_ws(s, i, end) <= end,
        ({
            let j = skip_ws(s, i, end);
            !(j < end && ws_len_at(s, j, true) > 0 && j + ws_len_at(s, j, true) <= end)
        }),
    decreases end - i,
{
    if 0 <= i < end && ws_len_at(s, i, true) > 0 && i + ws_len_at(s, i, true) <= end {
        lemma_skip_ws_stop(s, i + ws_len_at(s, i, true), end);
    }
}

proof fn lemma_skip_ws_back_stop(s: Seq<u8>, start: int, e: int)
    requires
        0 <= start <= e <= s.len(),
    ensures
        start <= skip_ws_back(s, start, e) <= e,
        ({
            let j = skip_ws_back(s, start, e);
            !(start < j && ws_len_before(s, j) > 0 && j - ws_len_before(s, j) >= start)
        }),
    decreases e - start,
{
    if 0 <= start < e && ws_len_before(s, e) > 0 && e - ws_len_before(s, e) >= start {
        lemma_skip_ws_back_stop(s, start, e - ws_len_before(s, e));
    }
}

/// Trimming is idempotent: trimmed bytes trim to themselves.
pub proof fn lemma_trim_idempotent(s: Seq<u8>)
    ensures
        trimmed(trimmed(s)) == trimmed(s),
        trim_start_pos(s) <= trim_end_pos(s) <= s.len(),
{
    let a = trim_start_pos(s);
    lemma_skip_ws_stop(s, 0, s.len() as int);
    let b = trim_end_pos(s);
    lemma_skip_ws_back_stop(s, a, s.len() as int);
    let t = s.subrange(a, b);
    let n = t.len() as int;
    if n > 0 {
        let k = ws_len_at(t, 0, true);
        if k > 0 && k <= n {
            assert(t[0] == s[a]);
            if k >= 2 {
                assert(t[1] == s[a + 1]);
            }
            if k >= 3 {
                assert(t[2] == s[a + 2]);
            }
            assert(ws_len_at(s, a, true) == k);
            assert(false);
        }
        assert(skip_ws(t, 0, n) == 0);
        let kb = ws_len_before(t, n);
        if kb > 0 && n - kb >= 0 {
            assert(t[n - 1] == s[b - 1]);
            if n >= 2 {
                assert(t[n - 2] == s[b - 2]);
            }
            if n >= 3 {
                assert(t[n - 3] == s[b - 3]);
            }
            assert(ws_len_before(s, b) == kb);
            assert(false);
        }
        assert(skip_ws_back(t, 0, n) == n);
    }
    assert(t.subrange(0, n) =~= t);
}

/// Trimming valid UTF-8 leaves valid UTF-8.
pub proof fn lemma_trim_valid(s: Seq<u8>)
    requires
        vstd::utf8::valid_utf8(s),
    ensures
        vstd::utf8::valid_utf8(trimmed(s)),
{
    vstd::utf8::is_char_boundary_start_end_of_seq(s);
    lemma_skip_ws(s, 0, s.len() as int);
    let a = trim_start_pos(s);
    lemma_skip_ws_back(s, a, s.len() as int);
    let b = trim_end_pos(s);
    vstd::utf8::valid_utf8_split(s, b);
    let l = s.subrange(0, b);
    if 0 < a < b {
        vstd::utf8::is_char_boundary_iff_not_is_continuation_byte(s, a);
        assert(l[a] == s[a]);
        vstd::utf8::is_char_boundary_iff_not_is_continuation_byte(l, a);
    }
    vstd::utf8::is_char_boundary_start_end_of_seq(l);
    vstd::utf8::valid_utf8_split(l, a);
    assert(l.subrange(a, b) =~= trimmed(s));
}

fn ws_len_at_exec(s: &[u8], i: usize, with_lf: bool) -> (r: usize)
    requires
        i < s@.len(),
    ensures
        r as int == ws_len_at(s@, i as int, with_lf),
        r <= 3,
{
    let b = s[i];
    let n = s.len();
    if b == 0x0au8 {
        if with_lf { 1 } else { 0 }
    } else if b == 0x09u8 || b == 0x0bu8 || b == 0x0cu8 || b == 0x0du8 || b == 0x20u8 {
        1
    } else if b == 0xc2u8 && n - i > 1 && (s[i + 1] == 0x85u8 || s[i + 1] == 0xa0u8) {
        2
    } else if b == 0xe1u8 && n - i > 2 && s[i + 1] == 0x9au8 && s[i + 2] == 0x80u8 {
        3
    } else if b == 0xe2u8 && n - i > 2 && ((s[i + 1] == 0x80u8 && ((0x80u8 <= s[i + 2] && s[i + 2]
        <= 0x8au8) || s[i + 2] == 0xa8u8 || s[i + 2] == 0xa9u8 || s[i + 2] == 0xafu8)) || (s[i
        + 1] == 0x81u8 && s[i + 2] == 0x9fu8)) {
        3
    } else if b == 0xe3u8 && n - i > 2 && s[i + 1] == 0x80u8 && s[i + 2] == 0x80u8 {
        3
    } else {
        0
    }
}

fn ws_len_before_exec(s: &[u8], e: usize) -> (r: usize)
    requires
        e <= s@.len(),
    ensures
        r as int == ws_len_before(s@, e as int),
        r <= e,
{
    if e >= 1 && ws_len_at_exec(s, e - 1, true) == 1 {
        1
    } else if e >= 2 && ws_len_at_exec(s, e - 2, true) == 2 {
        2
    } else if e >= 3 && ws_len_at_exec(s, e - 3, true) == 3 {
        3
    } else {
        0
    }
}

/// A whitespace encoding at a character boundary is one whole character:
/// the position after it is a boundary again.
proof fn lemma_ws_step_boundary(s: Seq<u8>, i: int, k: int)
    requires
        vstd::utf8::valid_utf8(s),
        vstd::utf8::is_char_boundary(s, i),
        0 <= i < s.len(),
        k == ws_len_at(s, i, true),
        k > 0,
    ensures
        vstd::utf8::is_char_boundary(s, i + k),
{
    vstd::utf8::valid_utf8_split(s, i);
    let t = s.subrange(i, s.len() as int);
    assert(t[0] == s[i]);
    if k >= 2 {
        assert(t[1] == s[i + 1]);
    }
    if k >= 3 {
        assert(t[2] == s[i + 2]);
    }
    assert(vstd::utf8::length_of_first_scalar(t) == k);
    let u = vstd::utf8::pop_first_scalar(t);
    assert(u =~= s.subrange(i + k, s.len() as int));
    vstd::utf8::is_char_boundary_start_end_of_seq(s);
    if i + k < s.len() {
        assert(vstd::utf8::is_char_boundary(u, 0));
        vstd::utf8::is_char_boundary_iff_not_is_continuation_byte(u, 0);
        assert(u[0] == s[i + k]);
        vstd::utf8::is_char_boundary_iff_not_is_continuation_byte(s, i + k);
    }
}

proof fn lemma_skip_ws(s: Seq<u8>, i: int, end: int)
    requires
        vstd::utf8::valid_utf8(s),
        vstd::utf8::is_char_boundary(s, i),
        0 <= i <= end <= s.len(),
    ensures
        i <= skip_ws(s, i, end) <= end,
        vstd::utf8::is_char_boundary(s, skip_ws(s, i, end)),
    decreases end - i,
{
    if 0 <= i < end && ws_len_at(s, i, true) > 0 && i + ws_len_at(s, i, true) <= end {
        lemma_ws_step_boundary(s, i, ws_len_at(s, i, true));
        lemma_skip_ws(s, i + ws_len_at(s, i, true), end);
    }
}

proof fn lemma_skip_ws_back(s: Seq<u8>, start: int, e: int)
    requires
        vstd::utf8::valid_utf8(s),
        vstd::utf8::is_char_boundary(s, e),
        0 <= start <= e <= s.len(),
    ensures
        start <= skip_ws_back(s, start, e) <= e,
        vstd::utf8::is_char_boundary(s, skip_ws_back(s, start, e)),
    decreases e - start,
{
    if 0 <= start < e && ws_len_before(s, e) > 0 && e - ws_len_before(s, e) >= start {
        let k = ws_len_before(s, e);
        let j = e - k;
        assert(ws_len_at(s, j, true) == k);
        assert(0 <= j < s.len());
        // the byte at j opens a whitespace character (ASCII or a lead byte)
        assert(!vstd::utf8::is_continuation_byte(s[j]));
        vstd::utf8::is_char_boundary_iff_not_is_continuation_byte(s, j);
        lemma_skip_ws_back(s, start, j);
    }
}

/// `str::trim`: the text without leading and trailing Unicode whitespace.
pub fn trim_string(text: &str) -> (r: String)
    ensures
        vstd::utf8::encode_utf8(r@) == trimmed(text.spec_bytes()),
{
    let b = text.as_bytes();
    let n = b.len();
    let ghost s = b@;
    let mut i: usize = 0;
    while i < n && ws_len_at_exec(b, i, true) > 0 && ws_len_at_exec(b, i, true) <= n - i
        invariant
            n == s.len(),
            s == b@,
            i <= n,
            skip_ws(s, 0, n as int) == skip_ws(s, i as int, n as int),
        decreases n - i,
    {
        i = i + ws_len_at_exec(b, i, true);
    }
    let mut e: usize = n;
    while e > i && ws_len_before_exec(b, e) > 0 && e - ws_len_before_exec(b, e) >= i
        invariant
            n == s.len(),
            s == b@,
            i <= e <= n,
            i as int == trim_start_pos(s),
            skip_ws_back(s, i as int, n as int) == skip_ws_back(s, i as int, e as int),
        decreases e,
    {
        e = e - ws_len_before_exec(b, e);
    }
    proof {
        vstd::utf8::encode_utf8_valid_utf8(text@);
        vstd::utf8::is_char_boundary_start_end_of_seq(s);
        lemma_skip_ws(s, 0, n as int);
        lemma_skip_ws_back(s, i as int, n as int);
        if i < n {
            vstd::utf8::is_char_boundary_iff_not_is_continuation_byte(s, i as int);
        }
        if e < n {
            vstd::utf8::is_char_boundary_iff_not_is_continuation_byte(s, e as int);
        }
    }
    cut_string(text, i, e)
}

pub proof fn lemma_encode_utf8_concat(a: Seq<char>, b: Seq<char>)
    ensures
        vstd::utf8::encode_utf8(a + b) == vstd::utf8::encode_utf8(a) + vstd::utf8::encode_utf8(b),
    decreases a.len(),
{
    if a.len() > 0 {
        lemma_encode_utf8_concat(a.drop_first(), b);
        assert((a + b).drop_first() =~= a.drop_first() + b);
        assert((a + b)[0] == a[0]);
        assert(vstd::utf8::encode_utf8(a + b) =~= vstd::utf8::encode_scalar(a[0] as u32)
            + vstd::utf8::encode_utf8(a.drop_first() + b));
    } else {
        assert(a + b =~= b);
    }
}

/// Calls `String::from_utf8`, which succeeds exactly when the bytes are
/// valid UTF-8, and then holds the text they encode.
#[verifier::external_body]
pub fn string_from_utf8(bytes: Vec<u8>) -> (r: Option<String>)
    ensures
        r is Some <==> vstd::utf8::valid_utf8(bytes@),
        r matches Some(t) ==> vstd::utf8::encode_utf8(t@) == bytes@,
{
    String::from_utf8(bytes).ok()
}

pub open spec fn all_ascii(s: Seq<u8>) -> bool {
    forall|i: int| 0 <= i < s.len() ==> #[trigger] s[i] < 0x80u8
}

/// The text of ASCII bytes.
pub fn ascii_string(bytes: Vec<u8>) -> (r: String)
    requires
        all_ascii(bytes@),
    ensures
        vstd::utf8::encode_utf8(r@) == bytes@,
{
    proof {
        vstd::utf8::partial_valid_utf8_extend_ascii_block(bytes@, 0, bytes@.len() as int);
        assert(bytes@.subrange(0, 0) =~= Seq::<u8>::empty());
        assert(vstd::utf8::valid_utf8(Seq::<u8>::empty()));
        assert(bytes@.subrange(0, bytes@.len() as int) =~= bytes@);
    }
    match string_from_utf8(bytes) {
        Some(t) => t,
        None => {
            proof {
                assert(false);
            }
            String::new()
        },
    }
}

pub proof fn lemma_encode_utf8_injective(a: Seq<char>, b: Seq<char>)
    ensures
        vstd::utf8::encode_utf8(a) == vstd::utf8::encode_utf8(b) <==> a == b,
{
    vstd::utf8::encode_utf8_decode_utf8(a);
    vstd::utf8::encode_utf8_decode_utf8(b);
}

} // verus!
