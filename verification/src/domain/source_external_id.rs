use vstd::prelude::*;
use vstd::string::*;
use crate::error::{AppError, AppResult, ErrorKind};
use crate::domain::json::{JsonValue, Json, json_get, members_view, items_view, object_get, lemma_object_view, lemma_array_view, lemma_scalar_views};
use crate::text::{
    str_eq, bytes_eq, trim_string, trimmed, string_from_utf8, ascii_string, all_ascii,
    lemma_encode_utf8_concat, ascii_adjacent, byte_range_string, lemma_encode_utf8_injective,
};

verus! {

broadcast use vstd::utf8::group_utf8_lib;

/// Namespace every canonical external identifier lives under.
pub const CANONICAL_NAMESPACE_PREFIX: &'static str = "https://api.cherry-pick.net/";

pub open spec fn prefix_bytes() -> Seq<u8> {
    vstd::utf8::encode_utf8(CANONICAL_NAMESPACE_PREFIX@)
}

/// First position at or after `from` that holds byte `b` (the length of `s`
/// when there is none).
pub open spec fn find_byte(s: Seq<u8>, b: u8, from: int) -> int
    decreases s.len() - from,
{
    if from < 0 || from >= s.len() {
        s.len() as int
    } else if s[from] == b {
        from
    } else {
        find_byte(s, b, from + 1)
    }
}

pub proof fn lemma_find_byte(s: Seq<u8>, b: u8, from: int)
    requires
        0 <= from <= s.len(),
    ensures
        from <= find_byte(s, b, from) <= s.len(),
        find_byte(s, b, from) < s.len() ==> s[find_byte(s, b, from)] == b,
        forall|k: int| from <= k < find_byte(s, b, from) ==> s[k] != b,
    decreases s.len() - from,
{
    if from < s.len() && s[from] != b {
        lemma_find_byte(s, b, from + 1);
    }
}

fn find_byte_exec(s: &[u8], b: u8, from: usize) -> (r: usize)
    requires
        from <= s@.len(),
    ensures
        r as int == find_byte(s@, b, from as int),
{
    let mut i = from;
    while i < s.len() && s[i] != b
        invariant
            from <= i <= s@.len(),
            find_byte(s@, b, from as int) == find_byte(s@, b, i as int),
        decreases s@.len() - i,
    {
        i = i + 1;
    }
    i
}

/// The standard/version pairs a canonical external identifier may carry.
pub open spec fn supported_standard_version(standard: Seq<char>, version: Seq<char>) -> bool {
    ||| (standard == "cc"@ && version == "v1p3"@)
    ||| (standard == "case"@ && version == "v1p0"@)
    ||| (standard == "qti"@ && version == "v3p0"@)
    ||| (standard == "ob"@ && version == "v2p0"@)
    ||| (standard == "clr"@ && version == "v2p0"@)
}

pub fn ensure_supported_standard_version(standard: &str, version: &str) -> (r: AppResult<()>)
    ensures
        r is Ok <==> supported_standard_version(standard@, version@),
        r matches Err(e) ==> validation_error_with(e, None),
{
    let supported = (str_eq(standard, "cc") && str_eq(version, "v1p3")) || (str_eq(standard, "case")
        && str_eq(version, "v1p0")) || (str_eq(standard, "qti") && str_eq(version, "v3p0")) || (
    str_eq(standard, "ob") && str_eq(version, "v2p0")) || (str_eq(standard, "clr") && str_eq(
        version,
        "v2p0",
    ));
    if supported {
        Ok(())
    } else {
        Err(AppError::validation("external_id must use a supported canonical standard/version token"))
    }
}

pub open spec fn is_hex_digit(b: u8) -> bool {
    (0x30u8 <= b <= 0x39u8) || (0x41u8 <= b <= 0x46u8) || (0x61u8 <= b <= 0x66u8)
}

pub open spec fn hex_value(b: u8) -> int {
    if b <= 0x39u8 {
        b - 0x30
    } else if b <= 0x46u8 {
        b - 0x41 + 10
    } else {
        b - 0x61 + 10
    }
}

/// `u8::from_str_radix(.., 16)` of the two bytes after a percent sign
/// (which also takes a `+` sign before a single digit).
pub open spec fn escape_value(b1: u8, b2: u8) -> Option<u8> {
    if is_hex_digit(b1) && is_hex_digit(b2) {
        Some((16 * hex_value(b1) + hex_value(b2)) as u8)
    } else if b1 == 0x2bu8 && is_hex_digit(b2) {
        Some(hex_value(b2) as u8)
    } else {
        None
    }
}

/// Percent-decoding of `s` from position `i`; `None` on a malformed escape.
pub open spec fn pct_decode_from(s: Seq<u8>, i: int) -> Option<Seq<u8>>
    decreases s.len() - i,
{
    if i < 0 || i >= s.len() {
        Some(seq![])
    } else if s[i] == 0x25u8 {
        if i + 2 >= s.len() {
            None
        } else {
            match escape_value(s[i + 1], s[i + 2]) {
                None => None,
                Some(v) => match pct_decode_from(s, i + 3) {
                    Some(rest) => Some(seq![v] + rest),
                    None => None,
                },
            }
        }
    } else {
        match pct_decode_from(s, i + 1) {
            Some(rest) => Some(seq![s[i]] + rest),
            None => None,
        }
    }
}

pub open spec fn prepend(p: Seq<u8>, o: Option<Seq<u8>>) -> Option<Seq<u8>> {
    match o {
        Some(r) => Some(p + r),
        None => None,
    }
}

fn hex_value_exec(b: u8) -> (r: u8)
    requires
        is_hex_digit(b),
    ensures
        r as int == hex_value(b),
        r < 16,
{
    if b <= 0x39u8 {
        b - 0x30u8
    } else if b <= 0x46u8 {
        b - 0x41u8 + 10
    } else {
        b - 0x61u8 + 10
    }
}

fn is_hex_digit_exec(b: u8) -> (r: bool)
    ensures
        r == is_hex_digit(b),
{
    (0x30u8 <= b && b <= 0x39u8) || (0x41u8 <= b && b <= 0x46u8) || (0x61u8 <= b && b <= 0x66u8)
}

/// The text encoded by the percent-decoded bytes of `input`; rejected when
/// an escape is malformed or the decoded bytes are not UTF-8.
#[verifier::loop_isolation(false)]
pub fn percent_decode_utf8(input: &str) -> (r: AppResult<String>)
    ensures
        r is Ok <==> (pct_decode_from(input.spec_bytes(), 0) matches Some(d) && vstd::utf8::valid_utf8(d)),
        r matches Ok(t) ==> pct_decode_from(input.spec_bytes(), 0) == Some(vstd::utf8::encode_utf8(t@)),
        r matches Err(e) ==> validation_error_with(e, None),
{
    let bytes = input.as_bytes();
    let ghost s = bytes@;
    let mut output: Vec<u8> = Vec::new();
    let mut index: usize = 0;
    while index < bytes.len()
        invariant
            s == bytes@,
            index <= s.len(),
            pct_decode_from(s, 0) == prepend(output@, pct_decode_from(s, index as int)),
        decreases s.len() - index,
    {
        if bytes[index] == 0x25u8 {
            if bytes.len() - index <= 2 {
                proof {
                    assert(pct_decode_from(s, index as int) is None);
                    assert(pct_decode_from(s, 0) is None);
                }
                return Err(AppError::validation("external_id contains an invalid percent escape"));
            }
            let b1 = bytes[index + 1];
            let b2 = bytes[index + 2];
            let value: u8;
            if is_hex_digit_exec(b1) && is_hex_digit_exec(b2) {
                value = 16 * hex_value_exec(b1) + hex_value_exec(b2);
            } else if b1 == 0x2bu8 && is_hex_digit_exec(b2) {
                value = hex_value_exec(b2);
            } else {
                proof {
                    assert(escape_value(b1, b2) is None);
                    assert(pct_decode_from(s, index as int) is None);
                    assert(pct_decode_from(s, 0) is None);
                }
                return Err(AppError::validation("external_id contains an invalid percent escape"));
            }
            let ghost before = output@;
            output.push(value);
            proof {
                assert(escape_value(b1, b2) == Some(value));
                assert(output@ == before + seq![value]);
                match pct_decode_from(s, index + 3) {
                    Some(rest) => {
                        assert(before + (seq![value] + rest) =~= output@ + rest);
                    },
                    None => {},
                }
            }
            index = index + 3;
        } else {
            let ghost before = output@;
            output.push(bytes[index]);
            proof {
                match pct_decode_from(s, index + 1) {
                    Some(rest) => {
                        assert(before + (seq![s[index as int]] + rest) =~= output@ + rest);
                    },
                    None => {},
                }
            }
            index = index + 1;
        }
    }
    proof {
        assert(output@ + seq![] =~= output@);
    }
    match string_from_utf8(output) {
        Some(t) => Ok(t),
        None => Err(AppError::validation("external_id object_id is not valid UTF-8")),
    }
}

/// Bytes that stay as they are in a normalized object identifier.
pub open spec fn is_unreserved(b: u8) -> bool {
    (0x41u8 <= b <= 0x5au8) || (0x61u8 <= b <= 0x7au8) || (0x30u8 <= b <= 0x39u8) || b == 0x2du8
        || b == 0x2eu8 || b == 0x5fu8 || b == 0x7eu8
}

pub open spec fn upper_hex(d: int) -> u8 {
    if d < 10 {
        (0x30 + d) as u8
    } else {
        (0x41 + d - 10) as u8
    }
}

/// Percent-encoding of bytes: unreserved bytes kept, every other byte as
/// `%` and two uppercase hexadecimal digits.
pub open spec fn pct_encode(b: Seq<u8>) -> Seq<u8>
    decreases b.len(),
{
    if b.len() == 0 {
        seq![]
    } else {
        let x = b.last();
        pct_encode(b.drop_last()) + if is_unreserved(x) {
            seq![x]
        } else {
            seq![0x25u8, upper_hex(x as int / 16), upper_hex(x as int % 16)]
        }
    }
}

/// Normalized form of an object identifier given as bytes: trimmed, not
/// empty, percent-encoded.
pub open spec fn normalized_object_id(raw: Seq<u8>) -> Option<Seq<u8>> {
    if trimmed(raw).len() == 0 {
        None
    } else {
        Some(pct_encode(trimmed(raw)))
    }
}

fn upper_hex_exec(d: u8) -> (r: u8)
    requires
        d < 16,
    ensures
        r == upper_hex(d as int),
        r < 0x80u8,
{
    if d < 10 {
        0x30u8 + d
    } else {
        0x41u8 + d - 10
    }
}

fn is_unreserved_exec(b: u8) -> (r: bool)
    ensures
        r == is_unreserved(b),
{
    (0x41u8 <= b && b <= 0x5au8) || (0x61u8 <= b && b <= 0x7au8) || (0x30u8 <= b && b <= 0x39u8)
        || b == 0x2du8 || b == 0x2eu8 || b == 0x5fu8 || b == 0x7eu8
}

pub proof fn lemma_pct_encode_ascii(b: Seq<u8>)
    ensures
        all_ascii(pct_encode(b)),
    decreases b.len(),
{
    if b.len() > 0 {
        lemma_pct_encode_ascii(b.drop_last());
        let x = b.last();
        assert(upper_hex(x as int / 16) < 0x80u8);
        assert(upper_hex(x as int % 16) < 0x80u8);
    }
}

/// Trims an object identifier and percent-encodes it; an empty identifier
/// is rejected.
pub fn normalize_object_id(raw: &str) -> (r: AppResult<String>)
    ensures
        r is Ok <==> normalized_object_id(raw.spec_bytes()) is Some,
        r matches Ok(t) ==> Some(vstd::utf8::encode_utf8(t@)) == normalized_object_id(raw.spec_bytes()),
        r matches Err(e) ==> validation_error_with(e, None),
{
    let t = trim_string(raw);
    let b = t.as_str().as_bytes();
    if b.len() == 0 {
        return Err(AppError::validation("object_id must not be empty"));
    }
    let mut out: Vec<u8> = Vec::new();
    let mut i: usize = 0;
    while i < b.len()
        invariant
            i <= b@.len(),
            out@ == pct_encode(b@.take(i as int)),
        decreases b@.len() - i,
    {
        let x = b[i];
        if is_unreserved_exec(x) {
            out.push(x);
        } else {
            out.push(0x25u8);
            out.push(upper_hex_exec(x / 16));
            out.push(upper_hex_exec(x % 16));
        }
        proof {
            assert(b@.take(i + 1).drop_last() =~= b@.take(i as int));
            assert(b@.take(i + 1).last() == x);
            assert(out@ =~= pct_encode(b@.take(i + 1)));
        }
        i = i + 1;
    }
    proof {
        assert(b@.take(b@.len() as int) =~= b@);
        lemma_pct_encode_ascii(b@);
    }
    Ok(ascii_string(out))
}

pub open spec fn is_domain_byte(b: u8) -> bool {
    (0x61u8 <= b <= 0x7au8) || (0x30u8 <= b <= 0x39u8) || b == 0x2du8 || b == 0x2eu8
}

pub open spec fn ascii_lower(s: Seq<u8>) -> Seq<u8> {
    s.map_values(|b: u8| if 0x41u8 <= b <= 0x5au8 { (b + 0x20) as u8 } else { b })
}

pub open spec fn starts_with(s: Seq<u8>, p: Seq<u8>) -> bool {
    p.len() <= s.len() && s.subrange(0, p.len() as int) == p
}

pub open spec fn https_bytes() -> Seq<u8> {
    vstd::utf8::encode_utf8("https://"@)
}

pub open spec fn http_bytes() -> Seq<u8> {
    vstd::utf8::encode_utf8("http://"@)
}

pub open spec fn is_host_end(b: u8) -> bool {
    b == 0x2fu8 || b == 0x3fu8 || b == 0x23u8 || b == 0x3au8
}

pub open spec fn host_end(s: Seq<u8>, from: int) -> int
    decreases s.len() - from,
{
    if from < 0 || from >= s.len() {
        s.len() as int
    } else if is_host_end(s[from]) {
        from
    } else {
        host_end(s, from + 1)
    }
}

/// Normalized source domain of a value: trimmed and lowercased, without a
/// leading `https://` or `http://`, cut before any path, query, fragment or
/// port; it must be a non-empty run of lowercase letters, digits, `-` and
/// `.`.
pub open spec fn normalized_domain(value: Seq<u8>) -> Option<Seq<u8>> {
    let low = ascii_lower(trimmed(value));
    let rest = if starts_with(low, https_bytes()) {
        low.subrange(https_bytes().len() as int, low.len() as int)
    } else if starts_with(low, http_bytes()) {
        low.subrange(http_bytes().len() as int, low.len() as int)
    } else {
        low
    };
    domain_of_host(rest.subrange(0, host_end(rest, 0)))
}

pub open spec fn domain_of_host(host: Seq<u8>) -> Option<Seq<u8>> {
    if host.len() > 0 && forall|i: int| 0 <= i < host.len() ==> #[trigger] is_domain_byte(host[i]) {
        Some(host)
    } else {
        None
    }
}

fn starts_with_exec(s: &[u8], p: &[u8]) -> (r: bool)
    ensures
        r == starts_with(s@, p@),
{
    if p.len() > s.len() {
        return false;
    }
    let mut i: usize = 0;
    while i < p.len()
        invariant
            p@.len() <= s@.len(),
            i <= p@.len(),
            forall|k: int| 0 <= k < i ==> s@[k] == p@[k],
        decreases p@.len() - i,
    {
        if s[i] != p[i] {
            proof {
                assert(s@.subrange(0, p@.len() as int)[i as int] != p@[i as int]);
            }
            return false;
        }
        i = i + 1;
    }
    proof {
        assert(s@.subrange(0, p@.len() as int) =~= p@);
    }
    true
}

pub fn normalize_source_domain(value: &str) -> (r: AppResult<String>)
    ensures
        r is Ok <==> normalized_domain(value.spec_bytes()) is Some,
        r matches Ok(t) ==> Some(vstd::utf8::encode_utf8(t@)) == normalized_domain(value.spec_bytes()),
        r matches Err(e) ==> validation_error_with(e, None),
{
    let t = trim_string(value);
    let tb = t.as_str().as_bytes();
    let mut low: Vec<u8> = Vec::new();
    let mut i: usize = 0;
    while i < tb.len()
        invariant
            i <= tb@.len(),
            low@ == ascii_lower(tb@).take(i as int),
        decreases tb@.len() - i,
    {
        let b = tb[i];
        let c = if 0x41u8 <= b && b <= 0x5au8 { b + 0x20 } else { b };
        low.push(c);
        proof {
            assert(low@ =~= ascii_lower(tb@).take(i + 1));
        }
        i = i + 1;
    }
    proof {
        assert(low@ =~= ascii_lower(tb@));
        assert(tb@ == trimmed(value.spec_bytes()));
    }
    let https = "https://";
    let http = "http://";
    let start: usize = if starts_with_exec(low.as_slice(), https.as_bytes()) {
        https.as_bytes().len()
    } else if starts_with_exec(low.as_slice(), http.as_bytes()) {
        http.as_bytes().len()
    } else {
        0
    };
    let ghost rest = low@.subrange(start as int, low@.len() as int);
    let mut e: usize = start;
    while e < low.len() && !(low[e] == 0x2fu8 || low[e] == 0x3fu8 || low[e] == 0x23u8 || low[e] == 0x3au8)
        invariant
            start <= e <= low@.len(),
            rest == low@.subrange(start as int, low@.len() as int),
            host_end(rest, 0) == host_end(rest, e - start),
        decreases low@.len() - e,
    {
        e = e + 1;
    }
    let ghost host = rest.subrange(0, host_end(rest, 0));
    proof {
        assert(host =~= low@.subrange(start as int, e as int));
        let sl = ascii_lower(trimmed(value.spec_bytes()));
        assert(sl == low@);
        let srest = if starts_with(sl, https_bytes()) {
            sl.subrange(https_bytes().len() as int, sl.len() as int)
        } else if starts_with(sl, http_bytes()) {
            sl.subrange(http_bytes().len() as int, sl.len() as int)
        } else {
            sl
        };
        assert(srest == rest);
        assert(srest.subrange(0, host_end(srest, 0)) == host);
        assert(normalized_domain(value.spec_bytes()) == domain_of_host(host));
    }
    let ghost expected = normalized_domain(value.spec_bytes());
    if e == start {
        return Err(AppError::validation("source_domain must not be empty"));
    }
    let mut out: Vec<u8> = Vec::new();
    let mut k: usize = start;
    while k < e
        invariant
            start <= k <= e <= low@.len(),
            host == low@.subrange(start as int, e as int),
            expected == domain_of_host(host),
            expected == normalized_domain(value.spec_bytes()),
            out@ == host.take(k - start),
            forall|j: int| 0 <= j < k - start ==> #[trigger] is_domain_byte(host[j]),
        decreases e - k,
    {
        let b = low[k];
        if !((0x61u8 <= b && b <= 0x7au8) || (0x30u8 <= b && b <= 0x39u8) || b == 0x2du8 || b == 0x2eu8) {
            proof {
                assert(!is_domain_byte(host[k - start]));
                assert(!(forall|i: int| 0 <= i < host.len() ==> #[trigger] is_domain_byte(host[i])));
                assert(domain_of_host(host) is None);
            }
            return Err(AppError::validation("source_domain must be a plain host name"));
        }
        out.push(b);
        proof {
            assert(out@ =~= host.take(k - start + 1));
        }
        k = k + 1;
    }
    proof {
        assert(out@ =~= host);
        assert forall|j: int| 0 <= j < out@.len() implies #[trigger] out@[j] < 0x80u8 by {
            assert(is_domain_byte(host[j]));
        }
    }
    Ok(ascii_string(out))
}

/// The components of a canonical external identifier, as UTF-8 bytes.
pub struct IdParts {
    pub standard: Seq<u8>,
    pub version: Seq<u8>,
    pub source_domain: Seq<u8>,
    pub object_id_raw: Seq<u8>,
    pub object_id_normalized: Seq<u8>,
}

/// `<namespace><standard>/<version>/<tail>` with all three parts non-empty.
pub open spec fn split_segments(u: Seq<u8>) -> Option<(Seq<u8>, Seq<u8>, Seq<u8>)> {
    if !starts_with(u, prefix_bytes()) {
        None
    } else {
        let rem = u.subrange(prefix_bytes().len() as int, u.len() as int);
        let i1 = find_byte(rem, 0x2fu8, 0);
        let i2 = find_byte(rem, 0x2fu8, i1 + 1);
        if i1 == 0 || i1 >= rem.len() || i2 == i1 + 1 || i2 >= rem.len() || i2 + 1 == rem.len() {
            None
        } else {
            Some((rem.subrange(0, i1), rem.subrange(i1 + 1, i2), rem.subrange(i2 + 1, rem.len() as int)))
        }
    }
}

pub(crate) proof fn lemma_split_segments_rebuild(u: Seq<u8>)
    requires
        split_segments(u) is Some,
    ensures
        ({
            let (a, b, c) = split_segments(u).unwrap();
            u == prefix_bytes() + a + seq![0x2fu8] + b + seq![0x2fu8] + c
        }),
{
    let rem = u.subrange(prefix_bytes().len() as int, u.len() as int);
    let i1 = find_byte(rem, 0x2fu8, 0);
    lemma_find_byte(rem, 0x2fu8, 0);
    let i2 = find_byte(rem, 0x2fu8, i1 + 1);
    lemma_find_byte(rem, 0x2fu8, i1 + 1);
    let (a, b, c) = split_segments(u).unwrap();
    assert(rem =~= a + seq![0x2fu8] + b + seq![0x2fu8] + c);
    assert(u =~= prefix_bytes() + rem);
}

pub(crate) proof fn lemma_split_identity_rebuild(t: Seq<u8>)
    requires
        split_identity(t) is Some,
    ensures
        ({
            let (d, o) = split_identity(t).unwrap();
            t == d + seq![0x3au8] + o
        }),
{
    let c = find_byte(t, 0x3au8, 0);
    lemma_find_byte(t, 0x3au8, 0);
    let (d, o) = split_identity(t).unwrap();
    assert(t =~= d + seq![0x3au8] + o);
}

proof fn lemma_uri_text(u: Seq<char>, st: Seq<char>, ve: Seq<char>, t: int, dom: Seq<char>, obj: Seq<char>)
    requires
        0 <= t <= vstd::utf8::encode_utf8(u).len(),
        split_segments(vstd::utf8::encode_utf8(u)) == Some(
            (
                vstd::utf8::encode_utf8(st),
                vstd::utf8::encode_utf8(ve),
                vstd::utf8::encode_utf8(u).subrange(t, vstd::utf8::encode_utf8(u).len() as int),
            ),
        ),
        split_identity(vstd::utf8::encode_utf8(u).subrange(t, vstd::utf8::encode_utf8(u).len() as int)) == Some(
            (vstd::utf8::encode_utf8(dom), vstd::utf8::encode_utf8(obj)),
        ),
    ensures
        CANONICAL_NAMESPACE_PREFIX@ + st + "/"@ + ve + "/"@ + dom + ":"@ + obj == u,
{
    reveal_strlit("/");
    reveal_strlit(":");
    let ub = vstd::utf8::encode_utf8(u);
    lemma_split_segments_rebuild(ub);
    let tail = ub.subrange(t, ub.len() as int);
    lemma_split_identity_rebuild(tail);
    let p = CANONICAL_NAMESPACE_PREFIX@;
    let text = p + st + "/"@ + ve + "/"@ + dom + ":"@ + obj;
    assert(vstd::utf8::is_ascii_chars("/"@));
    assert(vstd::utf8::is_ascii_chars(":"@));
    vstd::utf8::is_ascii_chars_encode_utf8("/"@);
    vstd::utf8::is_ascii_chars_encode_utf8(":"@);
    assert(vstd::utf8::encode_utf8("/"@) =~= seq![0x2fu8]);
    assert(vstd::utf8::encode_utf8(":"@) =~= seq![0x3au8]);
    lemma_encode_utf8_concat(p, st);
    lemma_encode_utf8_concat(p + st, "/"@);
    lemma_encode_utf8_concat(p + st + "/"@, ve);
    lemma_encode_utf8_concat(p + st + "/"@ + ve, "/"@);
    lemma_encode_utf8_concat(p + st + "/"@ + ve + "/"@, dom);
    lemma_encode_utf8_concat(p + st + "/"@ + ve + "/"@ + dom, ":"@);
    lemma_encode_utf8_concat(p + st + "/"@ + ve + "/"@ + dom + ":"@, obj);
    assert(vstd::utf8::encode_utf8(text) =~= ub);
    lemma_encode_utf8_injective(text, u);
}

/// `<domain>:<object id>`, both non-empty, split at the first colon.
pub open spec fn split_identity(tail: Seq<u8>) -> Option<(Seq<u8>, Seq<u8>)> {
    let c = find_byte(tail, 0x3au8, 0);
    if c == 0 || c >= tail.len() || c + 1 == tail.len() {
        None
    } else {
        Some((tail.subrange(0, c), tail.subrange(c + 1, tail.len() as int)))
    }
}

/// The components of the canonical URI `u`, or `None` when `u` is not a
/// canonical URI: `<namespace><standard>/<version>/<domain>:<object id>`
/// with a supported standard/version, a domain and an object identifier
/// that are already in normalized form.
pub open spec fn parsed_canonical_uri(u: Seq<u8>) -> Option<IdParts> {
    match split_segments(u) {
        None => None,
        Some((standard, version, tail)) => {
            if !supported_standard_version(vstd::utf8::decode_utf8(standard), vstd::utf8::decode_utf8(version)) {
                None
            } else {
                match split_identity(tail) {
                    None => None,
                    Some((domain, obj)) => {
                        if normalized_domain(domain) != Some(domain) {
                            None
                        } else {
                            match pct_decode_from(obj, 0) {
                                None => None,
                                Some(raw) => if !vstd::utf8::valid_utf8(raw) || normalized_object_id(raw) != Some(obj) {
                                    None
                                } else {
                                    Some(
                                        IdParts {
                                            standard,
                                            version,
                                            source_domain: domain,
                                            object_id_raw: trimmed(raw),
                                            object_id_normalized: obj,
                                        },
                                    )
                                },
                            }
                        }
                    },
                }
            }
        },
    }
}

fn split_segments_exec(uri: &str) -> (r: Option<(String, String, usize)>)
    ensures
        r is Some <==> split_segments(uri.spec_bytes()) is Some,
        r matches Some((st, ve, t)) ==> {
            &&& t <= uri.spec_bytes().len()
            &&& ascii_adjacent(uri.spec_bytes(), t as int)
            &&& split_segments(uri.spec_bytes()) == Some((
                vstd::utf8::encode_utf8(st@),
                vstd::utf8::encode_utf8(ve@),
                uri.spec_bytes().subrange(t as int, uri.spec_bytes().len() as int),
            ))
        },
{
    let u = uri.as_bytes();
    let ghost us = u@;
    let prefix = CANONICAL_NAMESPACE_PREFIX;
    let pb = prefix.as_bytes();
    proof {
        reveal_strlit("https://api.cherry-pick.net/");
        vstd::utf8::is_ascii_chars_encode_utf8(prefix@);
    }
    if !starts_with_exec(u, pb) {
        return None;
    }
    let base = pb.len();
    let rem = vstd::slice::slice_subrange(u, base, u.len());
    let ghost rs = rem@;
    proof {
        assert(pb@[base - 1] == us[base - 1]);
        assert(ascii_adjacent(us, base as int));
    }
    let i1 = find_byte_exec(rem, 0x2fu8, 0);
    proof {
        lemma_find_byte(rs, 0x2fu8, 0);
    }
    if i1 == 0 || i1 >= rem.len() {
        return None;
    }
    let i2 = find_byte_exec(rem, 0x2fu8, i1 + 1);
    proof {
        lemma_find_byte(rs, 0x2fu8, i1 + 1);
    }
    if i2 == i1 + 1 || i2 >= rem.len() || i2 + 1 == rem.len() {
        return None;
    }
    proof {
        assert(us[base + i1] == rs[i1 as int]);
        assert(us[base + i2] == rs[i2 as int]);
    }
    let standard = byte_range_string(uri, base, base + i1);
    let version = byte_range_string(uri, base + i1 + 1, base + i2);
    proof {
        assert(vstd::utf8::encode_utf8(standard@) =~= rs.subrange(0, i1 as int));
        assert(vstd::utf8::encode_utf8(version@) =~= rs.subrange(i1 + 1, i2 as int));
        assert(us.subrange(base + i2 + 1, us.len() as int) =~= rs.subrange(i2 + 1, rs.len() as int));
    }
    Some((standard, version, base + i2 + 1))
}

fn split_identity_exec(uri: &str, t: usize) -> (r: Option<(String, String)>)
    requires
        t <= uri.spec_bytes().len(),
        ascii_adjacent(uri.spec_bytes(), t as int),
    ensures
        r is Some <==> split_identity(uri.spec_bytes().subrange(t as int, uri.spec_bytes().len() as int)) is Some,
        r matches Some((d, o)) ==> split_identity(uri.spec_bytes().subrange(t as int, uri.spec_bytes().len() as int))
            == Some((vstd::utf8::encode_utf8(d@), vstd::utf8::encode_utf8(o@))),
{
    let u = uri.as_bytes();
    let ghost us = u@;
    let tail = vstd::slice::slice_subrange(u, t, u.len());
    let ghost ts = tail@;
    let c = find_byte_exec(tail, 0x3au8, 0);
    proof {
        lemma_find_byte(ts, 0x3au8, 0);
    }
    if c == 0 || c >= tail.len() || c + 1 == tail.len() {
        return None;
    }
    proof {
        assert(us[t + c] == ts[c as int]);
    }
    let source_domain = byte_range_string(uri, t, t + c);
    let object_id = byte_range_string(uri, t + c + 1, u.len());
    proof {
        assert(vstd::utf8::encode_utf8(source_domain@) =~= ts.subrange(0, c as int));
        assert(vstd::utf8::encode_utf8(object_id@) =~= ts.subrange(c + 1, ts.len() as int));
    }
    Some((source_domain, object_id))
}

/// A canonical source external identifier, held in normalized form.
#[derive(Debug)]
pub struct CanonicalSourceExternalId {
    standard: String,
    version: String,
    source_domain: String,
    object_id_raw: String,
    object_id_normalized: String,
}

impl CanonicalSourceExternalId {
    /// The UTF-8 bytes of the components.
    pub closed spec fn parts(&self) -> IdParts {
        IdParts {
            standard: vstd::utf8::encode_utf8(self.standard@),
            version: vstd::utf8::encode_utf8(self.version@),
            source_domain: vstd::utf8::encode_utf8(self.source_domain@),
            object_id_raw: vstd::utf8::encode_utf8(self.object_id_raw@),
            object_id_normalized: vstd::utf8::encode_utf8(self.object_id_normalized@),
        }
    }

    pub closed spec fn standard_text(&self) -> Seq<char> {
        self.standard@
    }

    pub closed spec fn version_text(&self) -> Seq<char> {
        self.version@
    }

    pub closed spec fn source_domain_text(&self) -> Seq<char> {
        self.source_domain@
    }

    pub closed spec fn object_id_raw_text(&self) -> Seq<char> {
        self.object_id_raw@
    }

    pub closed spec fn object_id_text(&self) -> Seq<char> {
        self.object_id_normalized@
    }

    /// The texts and the bytes of the components agree.
    pub proof fn lemma_parts_encode(&self)
        ensures
            self.parts().standard == vstd::utf8::encode_utf8(self.standard_text()),
            self.parts().version == vstd::utf8::encode_utf8(self.version_text()),
            self.parts().source_domain == vstd::utf8::encode_utf8(self.source_domain_text()),
            self.parts().object_id_raw == vstd::utf8::encode_utf8(self.object_id_raw_text()),
            self.parts().object_id_normalized == vstd::utf8::encode_utf8(self.object_id_text()),
    {
    }

    /// Parses a canonical URI; any deviation from the canonical form is a
    /// validation error.
    pub fn parse_canonical_uri(uri: &str) -> (r: AppResult<CanonicalSourceExternalId>)
        ensures
            r is Ok <==> parsed_canonical_uri(uri.spec_bytes()) is Some,
            r matches Ok(id) ==> Some(id.parts()) == parsed_canonical_uri(uri.spec_bytes()),
            r matches Ok(id) ==> CANONICAL_NAMESPACE_PREFIX@ + id.standard_text() + "/"@ + id.version_text() + "/"@
                + id.source_domain_text() + ":"@ + id.object_id_text() == uri@,
            r matches Err(e) ==> validation_error_with(e, None),
    {
        let ghost ub = uri.spec_bytes();
        let (standard, version, t) = match split_segments_exec(uri) {
            Some(parts) => parts,
            None => {
                return Err(AppError::validation("external_id must have the canonical namespace, standard, version and identity segments"));
            },
        };
        proof {
            vstd::utf8::encode_utf8_decode_utf8(standard@);
            vstd::utf8::encode_utf8_decode_utf8(version@);
        }
        ensure_supported_standard_version(standard.as_str(), version.as_str())?;
        let (source_domain, object_id) = match split_identity_exec(uri, t) {
            Some(parts) => parts,
            None => {
                return Err(AppError::validation("external_id must include non-empty source_domain and object_id"));
            },
        };
        let normalized_domain_text = normalize_source_domain(source_domain.as_str())?;
        proof {
            lemma_encode_utf8_injective(normalized_domain_text@, source_domain@);
        }
        if !str_eq(normalized_domain_text.as_str(), source_domain.as_str()) {
            return Err(AppError::validation("external_id source_domain is not in canonical normalized form"));
        }
        let raw_object_id = percent_decode_utf8(object_id.as_str())?;
        let normalized_object = normalize_object_id(raw_object_id.as_str())?;
        proof {
            lemma_encode_utf8_injective(normalized_object@, object_id@);
        }
        if !str_eq(normalized_object.as_str(), object_id.as_str()) {
            return Err(AppError::validation("external_id object_id is not in canonical normalized form"));
        }
        let raw_trimmed = trim_string(raw_object_id.as_str());
        proof {
            lemma_uri_text(uri@, standard@, version@, t as int, source_domain@, object_id@);
        }
        let r = CanonicalSourceExternalId {
            standard,
            version,
            source_domain: normalized_domain_text,
            object_id_raw: raw_trimmed,
            object_id_normalized: normalized_object,
        };
        Ok(r)
    }

    /// The identifier built from its components: the standard/version pair
    /// must be supported, the domain normalizes, and the object identifier is
    /// trimmed and percent-encoded.
    pub fn from_components(standard: &str, version: &str, source_domain: &str, object_id_raw: &str) -> (r:
        AppResult<CanonicalSourceExternalId>)
        ensures
            r is Ok <==> components_accepted(standard@, version@, source_domain.spec_bytes(), object_id_raw.spec_bytes()),
            r matches Ok(id) ==> id.parts() == components_parts(
                standard@,
                version@,
                source_domain.spec_bytes(),
                object_id_raw.spec_bytes(),
            ),
            r matches Err(e) ==> validation_error_with(e, None),
    {
        ensure_supported_standard_version(standard, version)?;
        let domain = normalize_source_domain(source_domain)?;
        let raw = trim_string(object_id_raw);
        let normalized = normalize_object_id(object_id_raw)?;
        Ok(CanonicalSourceExternalId {
            standard: standard.to_owned(),
            version: version.to_owned(),
            source_domain: domain,
            object_id_raw: raw,
            object_id_normalized: normalized,
        })
    }

    /// `<namespace><standard>/<version>/<domain>:<object id>`.
    pub fn canonical_uri(&self) -> (r: String)
        ensures
            r@ == CANONICAL_NAMESPACE_PREFIX@ + self.standard_text() + "/"@ + self.version_text() + "/"@
                + self.source_domain_text() + ":"@ + self.object_id_text(),
            r@ == canonical_text(self.parts()),
    {
        proof {
            vstd::utf8::encode_utf8_decode_utf8(self.standard@);
            vstd::utf8::encode_utf8_decode_utf8(self.version@);
            vstd::utf8::encode_utf8_decode_utf8(self.source_domain@);
            vstd::utf8::encode_utf8_decode_utf8(self.object_id_normalized@);
        }
        let mut uri = CANONICAL_NAMESPACE_PREFIX.to_owned();
        uri.append(self.standard.as_str());
        uri.append("/");
        uri.append(self.version.as_str());
        uri.append("/");
        uri.append(self.source_domain.as_str());
        uri.append(":");
        uri.append(self.object_id_normalized.as_str());
        uri
    }

    pub fn standard(&self) -> (r: &str)
        ensures
            r@ == self.standard_text(),
    {
        self.standard.as_str()
    }

    pub fn version(&self) -> (r: &str)
        ensures
            r@ == self.version_text(),
    {
        self.version.as_str()
    }

    pub fn source_domain(&self) -> (r: &str)
        ensures
            r@ == self.source_domain_text(),
    {
        self.source_domain.as_str()
    }

    pub fn object_id_raw(&self) -> (r: &str)
        ensures
            r@ == self.object_id_raw_text(),
    {
        self.object_id_raw.as_str()
    }
}

/// Text of the canonical URI with these components.
pub open spec fn canonical_text(p: IdParts) -> Seq<char> {
    CANONICAL_NAMESPACE_PREFIX@ + vstd::utf8::decode_utf8(p.standard) + "/"@ + vstd::utf8::decode_utf8(p.version) + "/"@
        + vstd::utf8::decode_utf8(p.source_domain) + ":"@ + vstd::utf8::decode_utf8(p.object_id_normalized)
}

pub open spec fn components_accepted(standard: Seq<char>, version: Seq<char>, source_domain: Seq<u8>, object_id_raw: Seq<u8>) -> bool {
    &&& supported_standard_version(standard, version)
    &&& normalized_domain(source_domain) is Some
    &&& normalized_object_id(object_id_raw) is Some
}

pub open spec fn components_parts(standard: Seq<char>, version: Seq<char>, source_domain: Seq<u8>, object_id_raw: Seq<u8>) -> IdParts {
    IdParts {
        standard: vstd::utf8::encode_utf8(standard),
        version: vstd::utf8::encode_utf8(version),
        source_domain: normalized_domain(source_domain).unwrap(),
        object_id_raw: trimmed(object_id_raw),
        object_id_normalized: normalized_object_id(object_id_raw).unwrap(),
    }
}

/// Supported standard a direct-standard payload is mapped to.
#[derive(Debug, Clone, Copy, PartialEq, Eq, Structural)]
pub enum DirectStandardProfile {
    OpenBadgesAchievementCredential,
    ClrCredential,
}

/// A direct-standard payload mapped to its canonical identity.
#[derive(Debug)]
pub struct DirectStandardCanonicalization {
    pub external_id: CanonicalSourceExternalId,
    pub original_standard_id: String,
    pub title: String,
    pub profile: DirectStandardProfile,
}

/// The error carries validation kind and the given code (the category's
/// default code when `None`).
pub open spec fn validation_error_with(e: AppError, code: Option<Seq<char>>) -> bool {
    &&& e.kind == ErrorKind::Validation
    &&& match code {
        None => e.code is None,
        Some(c) => e.code matches Some(x) && x@ == c,
    }
}

pub open spec fn invalid_standard_payload() -> Seq<char> {
    "INVALID_STANDARD_PAYLOAD"@
}

pub open spec fn untrusted_domain_code() -> Seq<char> {
    "DIRECT_STANDARD_REJECTED_UNTRUSTED_DOMAIN"@
}

/// A member that is a string or an array of strings, as a list of strings.
pub open spec fn string_list(v: Option<Json>) -> Option<Seq<Seq<char>>> {
    match v {
        Some(Json::String(t)) => Some(seq![t]),
        Some(Json::Array(items)) => if forall|i: int| 0 <= i < items.len() ==> #[trigger] items[i] is String {
            Some(Seq::new(items.len(), |i: int| items[i]->String_0))
        } else {
            None
        },
        _ => None,
    }
}

/// A required string member, trimmed; `Err(true)` when it trims to nothing,
/// `Err(false)` when it is missing or not a string.
pub open spec fn required_trimmed(members: Seq<(Seq<char>, Json)>, field: Seq<char>) -> Result<Seq<u8>, bool> {
    match json_get(members, field) {
        Some(Json::String(t)) => if trimmed(vstd::utf8::encode_utf8(t)).len() == 0 {
            Err(true)
        } else {
            Ok(trimmed(vstd::utf8::encode_utf8(t)))
        },
        _ => Err(false),
    }
}

/// The string at `outer.inner`: absent (or null) gives `None`; a value of
/// another kind is an error.
pub open spec fn nested_member(members: Seq<(Seq<char>, Json)>, outer: Seq<char>, inner: Seq<char>) -> Result<Option<Seq<char>>, ()> {
    match json_get(members, outer) {
        Some(Json::Object(m)) => match json_get(m, inner) {
            None => Ok(None),
            Some(Json::String(t)) => Ok(Some(t)),
            Some(Json::Null) => Ok(None),
            Some(_) => Err(()),
        },
        _ => Ok(None),
    }
}

pub open spec fn has_type_spec(types: Seq<Seq<char>>, m1: Seq<char>, m2: Seq<char>) -> bool {
    exists|i: int| 0 <= i < types.len() && (types[i] == m1 || types[i] == m2)
}

/// Domain taken from one candidate path: `None` to try the next path.
pub open spec fn domain_from_path(members: Seq<(Seq<char>, Json)>, outer: Seq<char>) -> Option<Result<Seq<u8>, Option<Seq<char>>>> {
    match nested_member(members, outer, "id"@) {
        Err(()) => Some(Err(None)),
        Ok(None) => None,
        Ok(Some(t)) => match normalized_domain(vstd::utf8::encode_utf8(t)) {
            Some(d) => Some(Ok(d)),
            None => Some(Err(Some(untrusted_domain_code()))),
        },
    }
}

/// The trusted source domain of a payload: `issuer.id` for Open Badges;
/// `publisher.id`, then `issuer.id` for CLR.
pub open spec fn trusted_domain(members: Seq<(Seq<char>, Json)>, profile: DirectStandardProfile) -> Result<Seq<u8>, Option<Seq<char>>> {
    let first = match profile {
        DirectStandardProfile::OpenBadgesAchievementCredential => domain_from_path(members, "issuer"@),
        DirectStandardProfile::ClrCredential => domain_from_path(members, "publisher"@),
    };
    match first {
        Some(r) => r,
        None => match profile {
            DirectStandardProfile::OpenBadgesAchievementCredential => Err(Some(untrusted_domain_code())),
            DirectStandardProfile::ClrCredential => match domain_from_path(members, "issuer"@) {
                Some(r) => r,
                None => Err(Some(untrusted_domain_code())),
            },
        },
    }
}

pub open spec fn profile_of(members: Seq<(Seq<char>, Json)>, types: Seq<Seq<char>>) -> Option<DirectStandardProfile> {
    if has_type_spec(types, "OpenBadgeCredential"@, "AchievementCredential"@) {
        Some(DirectStandardProfile::OpenBadgesAchievementCredential)
    } else if has_type_spec(types, "ClrCredential"@, "CLRCredential"@) || json_get(members, "credentialSubject"@) is Some {
        Some(DirectStandardProfile::ClrCredential)
    } else {
        None
    }
}

pub open spec fn profile_standard(p: DirectStandardProfile) -> Seq<char> {
    match p {
        DirectStandardProfile::OpenBadgesAchievementCredential => "ob"@,
        DirectStandardProfile::ClrCredential => "clr"@,
    }
}

/// Outcome of canonicalizing a direct-standard payload: the profile, the
/// identifier components, the trimmed original identifier and title; or the
/// error code of the first failed check.
pub open spec fn canonicalized(v: Json) -> Result<(DirectStandardProfile, IdParts, Seq<u8>, Seq<u8>), Option<Seq<char>>> {
    match v {
        Json::Object(m) => match string_list(json_get(m, "type"@)) {
            None => Err(None),
            Some(types) => match required_trimmed(m, "id"@) {
                Err(c) => Err(if c { Some(invalid_standard_payload()) } else { None }),
                Ok(id) => match required_trimmed(m, "name"@) {
                    Err(c) => Err(if c { Some(invalid_standard_payload()) } else { None }),
                    Ok(title) => match profile_of(m, types) {
                        None => Err(Some(invalid_standard_payload())),
                        Some(p) => match trusted_domain(m, p) {
                            Err(c) => Err(c),
                            Ok(d) => if components_accepted(profile_standard(p), "v2p0"@, d, id) {
                                Ok((p, components_parts(profile_standard(p), "v2p0"@, d, id), id, title))
                            } else {
                                Err(None)
                            },
                        },
                    },
                },
            },
        },
        _ => Err(None),
    }
}

fn string_or_string_array(members: &Vec<(String, JsonValue)>, field: &str) -> (r: AppResult<Vec<String>>)
    ensures
        r is Ok <==> string_list(json_get(members_view(members@), field@)) is Some,
        r matches Ok(v) ==> {
            let l = string_list(json_get(members_view(members@), field@)).unwrap();
            &&& v@.len() == l.len()
            &&& forall|i: int| 0 <= i < l.len() ==> #[trigger] v@[i]@ == l[i]
        },
        r matches Err(e) ==> validation_error_with(e, None),
{
    let value = match object_get(members, field) {
        Some(v) => v,
        None => {
            return Err(AppError::validation("field is required"));
        },
    };
    proof {
        lemma_scalar_views(*value);
    }
    match value {
        JsonValue::String(single) => {
            proof {
                assert(value@ == Json::String(single@));
                assert(json_get(members_view(members@), field@) == Some(value@));
                assert(string_list(Some(Json::String(single@))) == Some(seq![single@]));
            }
            let mut v: Vec<String> = Vec::new();
            v.push(single.clone());
            Ok(v)
        },
        JsonValue::Array(items) => {
            proof {
                lemma_array_view(*value);
            }
            let ghost iv = items_view(items@);
            proof {
                assert(json_get(members_view(members@), field@) == Some(Json::Array(iv)));
            }
            let mut v: Vec<String> = Vec::new();
            let mut i: usize = 0;
            while i < items.len()
                invariant
                    i <= items@.len(),
                    iv == items_view(items@),
                    json_get(members_view(members@), field@) == Some(Json::Array(iv)),
                    v@.len() == i,
                    forall|k: int| 0 <= k < i ==> #[trigger] iv[k] is String,
                    forall|k: int| 0 <= k < i ==> #[trigger] v@[k]@ == iv[k]->String_0,
                decreases items@.len() - i,
            {
                proof {
                    lemma_scalar_views(items@[i as int]);
                }
                match &items[i] {
                    JsonValue::String(item) => {
                        proof {
                            assert(items@[i as int]@ == Json::String(item@));
                            assert(iv[i as int] == items@[i as int]@);
                        }
                        let ghost before = v@;
                        v.push(item.clone());
                        proof {
                            assert(v@[i as int]@ == item@);
                            assert(iv[i as int] is String);
                            assert(forall|k: int| 0 <= k < i ==> v@[k] == before[k]);
                        }
                    },
                    _ => {
                        proof {
                            assert(iv[i as int] == items@[i as int]@);
                            assert(!(iv[i as int] is String));
                        }
                        return Err(AppError::validation("field entries must be strings"));
                    },
                }
                i = i + 1;
            }
            proof {
                let l = string_list(json_get(members_view(members@), field@)).unwrap();
                assert(l.len() == iv.len());
                assert(forall|k: int| 0 <= k < l.len() ==> l[k] == iv[k]->String_0);
            }
            Ok(v)
        },
        _ => Err(AppError::validation("field must be a string or array of strings")),
    }
}

fn required_trimmed_string(members: &Vec<(String, JsonValue)>, field: &str) -> (r: AppResult<String>)
    ensures
        r is Ok <==> required_trimmed(members_view(members@), field@) is Ok,
        r matches Ok(t) ==> required_trimmed(members_view(members@), field@) == Ok::<Seq<u8>, bool>(
            vstd::utf8::encode_utf8(t@),
        ),
        r matches Err(e) ==> validation_error_with(
            e,
            if required_trimmed(members_view(members@), field@) == Err::<Seq<u8>, bool>(true) {
                Some(invalid_standard_payload())
            } else {
                None
            },
        ),
{
    let value = match object_get(members, field) {
        Some(JsonValue::String(t)) => t,
        other => {
            proof {
                if let Some(v) = other {
                    lemma_scalar_views(*v);
                }
            }
            return Err(AppError::validation("field must be a string"));
        },
    };
    let trimmed_value = trim_string(value.as_str());
    if trimmed_value.as_str().as_bytes().len() == 0 {
        let e = AppError::validation("field must not be empty").with_error_code("INVALID_STANDARD_PAYLOAD");
        return Err(e);
    }
    Ok(trimmed_value)
}

fn nested_string(members: &Vec<(String, JsonValue)>, outer: &str, inner: &str) -> (r: AppResult<Option<String>>)
    ensures
        r is Ok <==> nested_member(members_view(members@), outer@, inner@) is Ok,
        r matches Ok(o) ==> nested_member(members_view(members@), outer@, inner@) == Ok::<Option<Seq<char>>, ()>(
            match o {
                Some(t) => Some(t@),
                None => None,
            },
        ),
        r matches Err(e) ==> validation_error_with(e, None),
{
    match object_get(members, outer) {
        Some(first) => {
            proof {
                lemma_scalar_views(*first);
            }
            match first {
                JsonValue::Object(m) => {
                    proof {
                        lemma_object_view(*first);
                    }
                    match object_get(m, inner) {
                        None => Ok(None),
                        Some(second) => {
                            proof {
                                lemma_scalar_views(*second);
                            }
                            match second {
                                JsonValue::String(t) => Ok(Some(t.clone())),
                                JsonValue::Null => Ok(None),
                                _ => Err(AppError::validation("path must be a string")),
                            }
                        },
                    }
                },
                _ => Ok(None),
            }
        },
        None => Ok(None),
    }
}

fn has_type(types: &Vec<String>, m1: &str, m2: &str) -> (r: bool)
    ensures
        r == has_type_spec(types@.map_values(|t: String| t@), m1@, m2@),
{
    let ghost tv = types@.map_values(|t: String| t@);
    let mut i: usize = 0;
    while i < types.len()
        invariant
            i <= types@.len(),
            tv == types@.map_values(|t: String| t@),
            forall|k: int| 0 <= k < i ==> !(tv[k] == m1@ || tv[k] == m2@),
        decreases types@.len() - i,
    {
        if str_eq(types[i].as_str(), m1) || str_eq(types[i].as_str(), m2) {
            proof {
                assert(tv[i as int] == types@[i as int]@);
            }
            return true;
        }
        i = i + 1;
    }
    false
}

fn domain_from_path_exec(members: &Vec<(String, JsonValue)>, outer: &str) -> (r: Option<AppResult<String>>)
    ensures
        match domain_from_path(members_view(members@), outer@) {
            None => r is None,
            Some(Ok(d)) => r matches Some(Ok(t)) && vstd::utf8::encode_utf8(t@) == d,
            Some(Err(c)) => r matches Some(Err(e)) && validation_error_with(e, c),
        },
{
    proof {
        reveal_strlit("id");
    }
    match nested_string(members, outer, "id") {
        Err(e) => Some(Err(e)),
        Ok(None) => None,
        Ok(Some(value)) => match normalize_source_domain(value.as_str()) {
            Ok(d) => Some(Ok(d)),
            Err(_) => Some(
                Err(
                    AppError::validation("trusted direct-standard source_domain could not be derived").with_error_code(
                        "DIRECT_STANDARD_REJECTED_UNTRUSTED_DOMAIN",
                    ),
                ),
            ),
        },
    }
}

fn trusted_domain_for_profile(members: &Vec<(String, JsonValue)>, profile: DirectStandardProfile) -> (r: AppResult<String>)
    ensures
        match trusted_domain(members_view(members@), profile) {
            Ok(d) => r matches Ok(t) && vstd::utf8::encode_utf8(t@) == d,
            Err(c) => r matches Err(e) && validation_error_with(e, c),
        },
{
    let first = match profile {
        DirectStandardProfile::OpenBadgesAchievementCredential => domain_from_path_exec(members, "issuer"),
        DirectStandardProfile::ClrCredential => domain_from_path_exec(members, "publisher"),
    };
    if let Some(r) = first {
        return r;
    }
    if profile == DirectStandardProfile::ClrCredential {
        if let Some(r) = domain_from_path_exec(members, "issuer") {
            return r;
        }
    }
    Err(
        AppError::validation("trusted direct-standard source_domain could not be derived").with_error_code(
            "DIRECT_STANDARD_REJECTED_UNTRUSTED_DOMAIN",
        ),
    )
}

/// Maps an Open Badges or CLR payload to its canonical external identifier,
/// trimmed original identifier and title.
pub fn canonicalize_direct_standard_payload(value: &JsonValue) -> (r: AppResult<DirectStandardCanonicalization>)
    ensures
        match canonicalized(value@) {
            Ok((p, parts, id, title)) => r matches Ok(c) && {
                &&& c.profile == p
                &&& c.external_id.parts() == parts
                &&& vstd::utf8::encode_utf8(c.original_standard_id@) == id
                &&& vstd::utf8::encode_utf8(c.title@) == title
            },
            Err(code) => r matches Err(e) && validation_error_with(e, code),
        },
{
    proof {
        lemma_scalar_views(*value);
        reveal_strlit("INVALID_STANDARD_PAYLOAD");
        reveal_strlit("DIRECT_STANDARD_REJECTED_UNTRUSTED_DOMAIN");
    }
    let members = match value {
        JsonValue::Object(m) => m,
        _ => {
            return Err(AppError::validation("request body must be a JSON object"));
        },
    };
    proof {
        lemma_object_view(*value);
    }
    let types = string_or_string_array(members, "type")?;
    let original_standard_id = required_trimmed_string(members, "id")?;
    let title = required_trimmed_string(members, "name")?;
    let ghost tv = types@.map_values(|t: String| t@);
    proof {
        let l = string_list(json_get(members_view(members@), "type"@)).unwrap();
        assert(tv =~= l);
    }
    let profile = if has_type(&types, "OpenBadgeCredential", "AchievementCredential") {
        DirectStandardProfile::OpenBadgesAchievementCredential
    } else if has_type(&types, "ClrCredential", "CLRCredential") || object_get(members, "credentialSubject").is_some() {
        DirectStandardProfile::ClrCredential
    } else {
        return Err(
            AppError::validation("supported-standard payload could not be mapped to a supported standard").with_error_code(
                "INVALID_STANDARD_PAYLOAD",
            ),
        );
    };
    let source_domain = trusted_domain_for_profile(members, profile)?;
    let standard = match profile {
        DirectStandardProfile::OpenBadgesAchievementCredential => "ob",
        DirectStandardProfile::ClrCredential => "clr",
    };
    let external_id = CanonicalSourceExternalId::from_components(
        standard,
        "v2p0",
        source_domain.as_str(),
        original_standard_id.as_str(),
    )?;
    Ok(DirectStandardCanonicalization { external_id, original_standard_id, title, profile })
}

} // verus!
