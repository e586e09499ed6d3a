use vstd::prelude::*;
use crate::domain::source_external_id::{
    CANONICAL_NAMESPACE_PREFIX, IdParts, prefix_bytes, find_byte, split_segments, split_identity,
    parsed_canonical_uri, canonical_text, components_accepted, components_parts, supported_standard_version,
    is_hex_digit, hex_value, escape_value, pct_decode_from, is_unreserved, upper_hex, pct_encode,
    normalized_object_id, lemma_pct_encode_ascii, is_domain_byte, ascii_lower, starts_with, https_bytes, http_bytes,
    host_end, normalized_domain, canonicalized, string_list, required_trimmed, profile_of, trusted_domain,
    profile_standard, DirectStandardProfile, untrusted_domain_code, lemma_split_segments_rebuild, lemma_split_identity_rebuild, lemma_find_byte,
};
use crate::domain::json::{Json, json_get};
use crate::text::{
    all_ascii, trimmed, ws_len_at, ws_len_before, skip_ws, skip_ws_back, lemma_trim_idempotent, lemma_trim_valid,
    lemma_encode_utf8_concat, ascii_adjacent, lemma_ascii_adjacent_boundary,
};

verus! {

broadcast use vstd::utf8::group_utf8_lib;

/// ASCII bytes are valid UTF-8.
proof fn lemma_ascii_valid(b: Seq<u8>)
    requires
        all_ascii(b),
    ensures
        vstd::utf8::valid_utf8(b),
{
    assert(b.subrange(0, 0) =~= Seq::<u8>::empty());
    assert(vstd::utf8::valid_utf8(Seq::<u8>::empty()));
    vstd::utf8::partial_valid_utf8_extend_ascii_block(b, 0, b.len() as int);
    assert(b.subrange(0, b.len() as int) =~= b);
}

/// `find_byte` stops at the first occurrence.
proof fn lemma_find_byte_at(s: Seq<u8>, b: u8, from: int, j: int)
    requires
        0 <= from <= j < s.len(),
        s[j] == b,
        forall|k: int| from <= k < j ==> s[k] != b,
    ensures
        find_byte(s, b, from) == j,
    decreases j - from,
{
    if from < j {
        lemma_find_byte_at(s, b, from + 1, j);
    }
}

/// The bytes a single byte is percent-encoded to.
spec fn pct_char(x: u8) -> Seq<u8> {
    if is_unreserved(x) {
        seq![x]
    } else {
        seq![0x25u8, upper_hex(x as int / 16), upper_hex(x as int % 16)]
    }
}

proof fn lemma_pct_encode_concat(a: Seq<u8>, b: Seq<u8>)
    ensures
        pct_encode(a + b) == pct_encode(a) + pct_encode(b),
    decreases b.len(),
{
    if b.len() == 0 {
        assert(a + b =~= a);
        assert(pct_encode(a) + pct_encode(b) =~= pct_encode(a));
    } else {
        lemma_pct_encode_concat(a, b.drop_last());
        assert((a + b).drop_last() =~= a + b.drop_last());
        assert((a + b).last() == b.last());
        assert(pct_encode(a + b) =~= pct_encode(a) + pct_encode(b));
    }
}

proof fn lemma_upper_hex_value(d: int)
    requires
        0 <= d < 16,
    ensures
        is_hex_digit(upper_hex(d)),
        hex_value(upper_hex(d)) == d,
{
}

/// Percent-encoded bytes decode back to the bytes.
proof fn lemma_pct_decode_encode(s: Seq<u8>, i: int, y: Seq<u8>)
    requires
        0 <= i <= s.len(),
        s.subrange(i, s.len() as int) == pct_encode(y),
    ensures
        pct_decode_from(s, i) == Some(y),
    decreases y.len(),
{
    if y.len() == 0 {
        assert(pct_encode(y) =~= Seq::<u8>::empty());
        assert(s.subrange(i, s.len() as int).len() == 0);
        assert(y =~= Seq::<u8>::empty());
    } else {
        let c = y[0];
        let rest = y.drop_first();
        assert(y =~= seq![c] + rest);
        lemma_pct_encode_concat(seq![c], rest);
        assert(seq![c].drop_last() =~= Seq::<u8>::empty());
        assert(pct_encode(Seq::<u8>::empty()) =~= Seq::<u8>::empty());
        assert(pct_encode(seq![c]) =~= pct_char(c));
        let k = pct_char(c).len() as int;
        let t = s.subrange(i, s.len() as int);
        assert(t =~= pct_char(c) + pct_encode(rest));
        assert(s.subrange(i + k, s.len() as int) =~= t.subrange(k, t.len() as int));
        assert(t.subrange(k, t.len() as int) =~= pct_encode(rest));
        lemma_pct_decode_encode(s, i + k, rest);
        if is_unreserved(c) {
            assert(s[i] == t[0]);
            assert(s[i] == c);
            assert(pct_decode_from(s, i) == Some(seq![c] + rest));
        } else {
            assert(s[i] == t[0] && s[i + 1] == t[1] && s[i + 2] == t[2]);
            lemma_upper_hex_value(c as int / 16);
            lemma_upper_hex_value(c as int % 16);
            assert(escape_value(s[i + 1], s[i + 2]) == Some(c));
            assert(pct_decode_from(s, i) == Some(seq![c] + rest));
        }
    }
}

/// A run of domain bytes is a normalized domain of its own.
proof fn lemma_domain_is_normal(d: Seq<u8>)
    requires
        d.len() > 0,
        forall|i: int| 0 <= i < d.len() ==> #[trigger] is_domain_byte(d[i]),
    ensures
        normalized_domain(d) == Some(d),
{
    let n = d.len() as int;
    assert(is_domain_byte(d[0]));
    assert(is_domain_byte(d[n - 1]));
    assert(ws_len_at(d, 0, true) == 0);
    assert(skip_ws(d, 0, n) == 0);
    assert(ws_len_at(d, n - 1, true) != 1);
    if n >= 2 {
        assert(is_domain_byte(d[n - 2]));
        assert(ws_len_at(d, n - 2, true) != 2);
    }
    if n >= 3 {
        assert(is_domain_byte(d[n - 3]));
        assert(ws_len_at(d, n - 3, true) != 3);
    }
    assert(ws_len_before(d, n) == 0);
    assert(skip_ws_back(d, 0, n) == n);
    assert(d.subrange(0, n) =~= d);
    assert(trimmed(d) == d);
    assert forall|i: int| 0 <= i < n implies #[trigger] ascii_lower(d)[i] == d[i] by {
        assert(is_domain_byte(d[i]));
    }
    assert(ascii_lower(d) =~= d);
    reveal_strlit("https://");
    reveal_strlit("http://");
    assert(vstd::utf8::is_ascii_chars("https://"@));
    assert(vstd::utf8::is_ascii_chars("http://"@));
    vstd::utf8::is_ascii_chars_encode_utf8("https://"@);
    vstd::utf8::is_ascii_chars_encode_utf8("http://"@);
    if starts_with(d, https_bytes()) {
        assert(https_bytes()[5] == 0x3au8);
        assert(d.subrange(0, https_bytes().len() as int)[5] == d[5]);
        assert(is_domain_byte(d[5]));
        assert(false);
    }
    if starts_with(d, http_bytes()) {
        assert(http_bytes()[4] == 0x3au8);
        assert(d.subrange(0, http_bytes().len() as int)[4] == d[4]);
        assert(is_domain_byte(d[4]));
        assert(false);
    }
    lemma_host_end_domain(d, 0);
    assert(d.subrange(0, host_end(d, 0)) =~= d);
}

proof fn lemma_host_end_domain(d: Seq<u8>, from: int)
    requires
        0 <= from <= d.len(),
        forall|i: int| 0 <= i < d.len() ==> #[trigger] is_domain_byte(d[i]),
    ensures
        host_end(d, from) == d.len(),
    decreases d.len() - from,
{
    if from < d.len() {
        assert(is_domain_byte(d[from]));
        lemma_host_end_domain(d, from + 1);
    }
}

/// The characters of a supported standard or version token are lowercase
/// letters and digits.
proof fn lemma_supported_tokens(standard: Seq<char>, version: Seq<char>)
    requires
        supported_standard_version(standard, version),
    ensures
        standard.len() > 0,
        version.len() > 0,
        forall|i: int| 0 <= i < standard.len() ==> ('a' <= #[trigger] standard[i] <= 'z' || '0' <= standard[i] <= '9'),
        forall|i: int| 0 <= i < version.len() ==> ('a' <= #[trigger] version[i] <= 'z' || '0' <= version[i] <= '9'),
{
    reveal_strlit("cc");
    reveal_strlit("v1p3");
    reveal_strlit("case");
    reveal_strlit("v1p0");
    reveal_strlit("qti");
    reveal_strlit("v3p0");
    reveal_strlit("ob");
    reveal_strlit("v2p0");
    reveal_strlit("clr");
}

/// A token of lowercase letters and digits encodes to the same bytes, none
/// of them a slash.
proof fn lemma_token_bytes(t: Seq<char>)
    requires
        forall|i: int| 0 <= i < t.len() ==> ('a' <= #[trigger] t[i] <= 'z' || '0' <= t[i] <= '9'),
    ensures
        vstd::utf8::encode_utf8(t).len() == t.len(),
        forall|i: int| 0 <= i < t.len() ==> #[trigger] vstd::utf8::encode_utf8(t)[i] != 0x2fu8,
        all_ascii(vstd::utf8::encode_utf8(t)),
{
    assert(vstd::utf8::is_ascii_chars(t)) by {
        assert forall|i: int| 0 <= i < t.len() implies '\0' <= #[trigger] t[i] <= '\u{7f}' by {
            assert('a' <= t[i] <= 'z' || '0' <= t[i] <= '9');
        }
    }
    vstd::utf8::is_ascii_chars_encode_utf8(t);
    assert forall|i: int| 0 <= i < t.len() implies #[trigger] vstd::utf8::encode_utf8(t)[i] != 0x2fu8 by {
        assert(t[i] as u8 == vstd::utf8::encode_utf8(t)[i]);
        assert('a' <= t[i] <= 'z' || '0' <= t[i] <= '9');
    }
    assert forall|i: int| 0 <= i < vstd::utf8::encode_utf8(t).len() implies #[trigger] vstd::utf8::encode_utf8(t)[i]
        < 0x80u8 by {
        assert(t[i] as u8 == vstd::utf8::encode_utf8(t)[i]);
        assert('a' <= t[i] <= 'z' || '0' <= t[i] <= '9');
    }
}

/// ASCII bytes encode back from their decoding.
proof fn lemma_ascii_round(b: Seq<u8>)
    requires
        all_ascii(b),
    ensures
        vstd::utf8::encode_utf8(vstd::utf8::decode_utf8(b)) == b,
{
    lemma_ascii_valid(b);
    vstd::utf8::decode_utf8_encode_utf8(b);
}

/// The segments of namespace, two slash-free tokens and a tail.
proof fn lemma_split_built(s_b: Seq<u8>, v_b: Seq<u8>, tail: Seq<u8>)
    requires
        s_b.len() > 0,
        v_b.len() > 0,
        tail.len() > 0,
        forall|i: int| 0 <= i < s_b.len() ==> #[trigger] s_b[i] != 0x2fu8,
        forall|i: int| 0 <= i < v_b.len() ==> #[trigger] v_b[i] != 0x2fu8,
    ensures
        split_segments(prefix_bytes() + (s_b + seq![0x2fu8] + v_b + seq![0x2fu8] + tail)) == Some((s_b, v_b, tail)),
{
    let rem = s_b + seq![0x2fu8] + v_b + seq![0x2fu8] + tail;
    let u = prefix_bytes() + rem;
    let plen = prefix_bytes().len() as int;
    assert(u.subrange(0, plen) =~= prefix_bytes());
    assert(starts_with(u, prefix_bytes()));
    assert(u.subrange(plen, u.len() as int) =~= rem);
    let i1 = s_b.len() as int;
    let i2 = i1 + 1 + v_b.len() as int;
    assert(rem[i1] == 0x2fu8);
    assert forall|k: int| 0 <= k < i1 implies rem[k] != 0x2fu8 by {
        assert(rem[k] == s_b[k]);
    }
    lemma_find_byte_at(rem, 0x2fu8, 0, i1);
    assert(rem[i2] == 0x2fu8);
    assert forall|k: int| i1 + 1 <= k < i2 implies rem[k] != 0x2fu8 by {
        assert(rem[k] == v_b[k - i1 - 1]);
    }
    lemma_find_byte_at(rem, 0x2fu8, i1 + 1, i2);
    assert(rem.subrange(0, i1) =~= s_b);
    assert(rem.subrange(i1 + 1, i2) =~= v_b);
    assert(rem.subrange(i2 + 1, rem.len() as int) =~= tail);
}

/// The identity of a domain and a non-empty object identifier.
proof fn lemma_split_identity_built(d: Seq<u8>, o: Seq<u8>)
    requires
        d.len() > 0,
        o.len() > 0,
        forall|i: int| 0 <= i < d.len() ==> #[trigger] is_domain_byte(d[i]),
    ensures
        split_identity(d + seq![0x3au8] + o) == Some((d, o)),
{
    let tail = d + seq![0x3au8] + o;
    let c = d.len() as int;
    assert(tail[c] == 0x3au8);
    assert forall|k: int| 0 <= k < c implies tail[k] != 0x3au8 by {
        assert(tail[k] == d[k]);
        assert(is_domain_byte(d[k]));
    }
    lemma_find_byte_at(tail, 0x3au8, 0, c);
    assert(tail.subrange(0, c) =~= d);
    assert(tail.subrange(c + 1, tail.len() as int) =~= o);
}

/// Printing the canonical URI of accepted components and parsing the text
/// back gives the same components: the parser undoes `from_components`
/// followed by `canonical_uri`.
pub proof fn lemma_components_round_trip(
    standard: Seq<char>,
    version: Seq<char>,
    source_domain: Seq<char>,
    object_id_raw: Seq<char>,
)
    requires
        components_accepted(
            standard,
            version,
            vstd::utf8::encode_utf8(source_domain),
            vstd::utf8::encode_utf8(object_id_raw),
        ),
    ensures
        ({
            let p = components_parts(
                standard,
                version,
                vstd::utf8::encode_utf8(source_domain),
                vstd::utf8::encode_utf8(object_id_raw),
            );
            parsed_canonical_uri(vstd::utf8::encode_utf8(canonical_text(p))) == Some(p)
        }),
{
    lemma_components_bytes_round_trip(
        standard,
        version,
        vstd::utf8::encode_utf8(source_domain),
        vstd::utf8::encode_utf8(object_id_raw),
    );
}

/// The same round trip for components given as bytes (a domain and a UTF-8
/// object identifier, as a direct-standard payload yields them).
pub proof fn lemma_components_bytes_round_trip(
    standard: Seq<char>,
    version: Seq<char>,
    source_domain: Seq<u8>,
    raw: Seq<u8>,
)
    requires
        components_accepted(standard, version, source_domain, raw),
        vstd::utf8::valid_utf8(raw),
    ensures
        ({
            let p = components_parts(standard, version, source_domain, raw);
            parsed_canonical_uri(vstd::utf8::encode_utf8(canonical_text(p))) == Some(p)
        }),
{
    let p = components_parts(standard, version, source_domain, raw);
    let s_b = p.standard;
    let v_b = p.version;
    let d = p.source_domain;
    let o = p.object_id_normalized;
    let tr = trimmed(raw);
    assert(o == pct_encode(tr));
    // the tokens
    lemma_supported_tokens(standard, version);
    lemma_token_bytes(standard);
    lemma_token_bytes(version);
    // the domain
    assert(d.len() > 0);
    assert(forall|i: int| 0 <= i < d.len() ==> #[trigger] is_domain_byte(d[i]));
    lemma_domain_is_normal(d);
    assert(all_ascii(d)) by {
        assert forall|i: int| 0 <= i < d.len() implies #[trigger] d[i] < 0x80u8 by {
            assert(is_domain_byte(d[i]));
        }
    }
    // the object identifier
    lemma_trim_idempotent(raw);
    lemma_trim_valid(raw);
    assert(tr.len() > 0);
    lemma_pct_encode_ascii(tr);
    assert(o.len() > 0) by {
        assert(tr =~= tr.drop_last().push(tr.last()));
        lemma_pct_encode_concat(tr.drop_last(), seq![tr.last()]);
        assert(seq![tr.last()].drop_last() =~= Seq::<u8>::empty());
        assert(pct_encode(Seq::<u8>::empty()) =~= Seq::<u8>::empty());
        assert(tr.drop_last() + seq![tr.last()] =~= tr);
    }
    assert(o.subrange(0, o.len() as int) =~= o);
    lemma_pct_decode_encode(o, 0, tr);
    assert(normalized_object_id(tr) == Some(o));
    // the text and its bytes
    reveal_strlit("/");
    reveal_strlit(":");
    reveal_strlit("https://api.cherry-pick.net/");
    assert(vstd::utf8::is_ascii_chars("/"@));
    assert(vstd::utf8::is_ascii_chars(":"@));
    vstd::utf8::is_ascii_chars_encode_utf8("/"@);
    vstd::utf8::is_ascii_chars_encode_utf8(":"@);
    assert(vstd::utf8::encode_utf8("/"@) =~= seq![0x2fu8]);
    assert(vstd::utf8::encode_utf8(":"@) =~= seq![0x3au8]);
    let pre = CANONICAL_NAMESPACE_PREFIX@;
    let ds = vstd::utf8::decode_utf8(d);
    let os = vstd::utf8::decode_utf8(o);
    lemma_ascii_round(d);
    lemma_ascii_round(o);
    assert(vstd::utf8::decode_utf8(s_b) == standard);
    assert(vstd::utf8::decode_utf8(v_b) == version);
    let text = canonical_text(p);
    assert(text == pre + standard + "/"@ + version + "/"@ + ds + ":"@ + os);
    lemma_encode_utf8_concat(pre, standard);
    lemma_encode_utf8_concat(pre + standard, "/"@);
    lemma_encode_utf8_concat(pre + standard + "/"@, version);
    lemma_encode_utf8_concat(pre + standard + "/"@ + version, "/"@);
    lemma_encode_utf8_concat(pre + standard + "/"@ + version + "/"@, ds);
    lemma_encode_utf8_concat(pre + standard + "/"@ + version + "/"@ + ds, ":"@);
    lemma_encode_utf8_concat(pre + standard + "/"@ + version + "/"@ + ds + ":"@, os);
    let u = vstd::utf8::encode_utf8(text);
    let tail = d + seq![0x3au8] + o;
    assert(u =~= prefix_bytes() + (s_b + seq![0x2fu8] + v_b + seq![0x2fu8] + tail));
    lemma_split_built(s_b, v_b, tail);
    lemma_split_identity_built(d, o);
    assert(parsed_canonical_uri(u) == Some(
        IdParts { standard: s_b, version: v_b, source_domain: d, object_id_raw: trimmed(tr), object_id_normalized: o },
    ));
}

/// A slice of valid UTF-8 cut next to ASCII bytes is valid UTF-8.
proof fn lemma_valid_middle(u: Seq<u8>, a: int, b: int)
    requires
        vstd::utf8::valid_utf8(u),
        0 <= a <= b <= u.len(),
        ascii_adjacent(u, a),
        ascii_adjacent(u, b),
    ensures
        vstd::utf8::valid_utf8(u.subrange(a, b)),
{
    lemma_ascii_adjacent_boundary(u, b);
    vstd::utf8::valid_utf8_split(u, b);
    let l = u.subrange(0, b);
    if 0 < a < b {
        assert(l[a - 1] == u[a - 1] && l[a] == u[a]);
    }
    assert(ascii_adjacent(l, a));
    lemma_ascii_adjacent_boundary(l, a);
    vstd::utf8::valid_utf8_split(l, a);
    assert(l.subrange(a, b) =~= u.subrange(a, b));
}

/// The canonical text of the components parsed from a canonical URI is
/// that URI again, so it parses to the same components.
pub proof fn lemma_parse_print(u: Seq<u8>)
    requires
        vstd::utf8::valid_utf8(u),
        parsed_canonical_uri(u) is Some,
    ensures
        vstd::utf8::encode_utf8(canonical_text(parsed_canonical_uri(u)->0)) == u,
        parsed_canonical_uri(vstd::utf8::encode_utf8(canonical_text(parsed_canonical_uri(u)->0))) == parsed_canonical_uri(u),
{
    let p = parsed_canonical_uri(u)->0;
    let (st, ve, tail) = split_segments(u)->0;
    lemma_split_segments_rebuild(u);
    let (dom, obj) = split_identity(tail)->0;
    lemma_split_identity_rebuild(tail);
    assert(p.standard == st && p.version == ve && p.source_domain == dom && p.object_id_normalized == obj);
    reveal_strlit("https://api.cherry-pick.net/");
    reveal_strlit("/");
    reveal_strlit(":");
    let pre = CANONICAL_NAMESPACE_PREFIX@;
    assert(vstd::utf8::is_ascii_chars(pre));
    vstd::utf8::is_ascii_chars_encode_utf8(pre);
    let plen = prefix_bytes().len() as int;
    assert(u =~= prefix_bytes() + st + seq![0x2fu8] + ve + seq![0x2fu8] + dom + seq![0x3au8] + obj);
    // the token segments are valid UTF-8
    let a1 = plen;
    let b1 = plen + st.len();
    let a2 = b1 + 1;
    let b2 = a2 + ve.len();
    assert(u[a1 - 1] == prefix_bytes()[a1 - 1]);
    assert(u[b1] == 0x2fu8);
    assert(u[b2] == 0x2fu8);
    assert(u[a2 - 1] == 0x2fu8);
    lemma_valid_middle(u, a1, b1);
    assert(u.subrange(a1, b1) =~= st);
    lemma_valid_middle(u, a2, b2);
    assert(u.subrange(a2, b2) =~= ve);
    vstd::utf8::decode_utf8_encode_utf8(st);
    vstd::utf8::decode_utf8_encode_utf8(ve);
    // the domain and object identifier are ASCII
    assert(forall|i: int| 0 <= i < dom.len() ==> #[trigger] is_domain_byte(dom[i]));
    assert(all_ascii(dom)) by {
        assert forall|i: int| 0 <= i < dom.len() implies #[trigger] dom[i] < 0x80u8 by {
            assert(is_domain_byte(dom[i]));
        }
    }
    lemma_ascii_round(dom);
    let raw = pct_decode_from(obj, 0)->0;
    assert(obj == pct_encode(trimmed(raw)));
    lemma_pct_encode_ascii(trimmed(raw));
    lemma_ascii_round(obj);
    assert(vstd::utf8::is_ascii_chars("/"@));
    assert(vstd::utf8::is_ascii_chars(":"@));
    vstd::utf8::is_ascii_chars_encode_utf8("/"@);
    vstd::utf8::is_ascii_chars_encode_utf8(":"@);
    assert(vstd::utf8::encode_utf8("/"@) =~= seq![0x2fu8]);
    assert(vstd::utf8::encode_utf8(":"@) =~= seq![0x3au8]);
    let sd = vstd::utf8::decode_utf8(st);
    let vd = vstd::utf8::decode_utf8(ve);
    let ds = vstd::utf8::decode_utf8(dom);
    let os = vstd::utf8::decode_utf8(obj);
    lemma_encode_utf8_concat(pre, sd);
    lemma_encode_utf8_concat(pre + sd, "/"@);
    lemma_encode_utf8_concat(pre + sd + "/"@, vd);
    lemma_encode_utf8_concat(pre + sd + "/"@ + vd, "/"@);
    lemma_encode_utf8_concat(pre + sd + "/"@ + vd + "/"@, ds);
    lemma_encode_utf8_concat(pre + sd + "/"@ + vd + "/"@ + ds, ":"@);
    lemma_encode_utf8_concat(pre + sd + "/"@ + vd + "/"@ + ds + ":"@, os);
    assert(vstd::utf8::encode_utf8(canonical_text(p)) =~= u);
}

/// The canonical identifier a direct-standard payload maps to prints to a
/// text that parses back to it.
pub proof fn lemma_canonicalized_round_trip(v: Json)
    ensures
        canonicalized(v) matches Ok((_, parts, _, _)) ==> parsed_canonical_uri(
            vstd::utf8::encode_utf8(canonical_text(parts)),
        ) == Some(parts),
{
    if let Json::Object(m) = v {
        if let Some(types) = string_list(json_get(m, "type"@)) {
            if let Ok(id) = required_trimmed(m, "id"@) {
                if let Ok(title) = required_trimmed(m, "name"@) {
                    if let Some(p) = profile_of(m, types) {
                        if let Ok(d) = trusted_domain(m, p) {
                            if components_accepted(profile_standard(p), "v2p0"@, d, id) {
                                if let Some(Json::String(t)) = json_get(m, "id"@) {
                                    lemma_trim_valid(vstd::utf8::encode_utf8(t));
                                }
                                lemma_components_bytes_round_trip(profile_standard(p), "v2p0"@, d, id);
                            }
                        }
                    }
                }
            }
        }
    }
}

/// `members` has an object under `outer` whose `id` is the string `x`.
pub open spec fn nested_id(members: Seq<(Seq<char>, Json)>, outer: Seq<char>, x: Seq<char>) -> bool {
    json_get(members, outer) matches Some(Json::Object(o)) && json_get(o, "id"@) == Some(Json::String(x))
}

/// Where the trusted domain of a direct-standard payload comes from: an
/// Open Badges credential takes it from `issuer.id` (and is refused
/// without an issuer); a CLR takes it from `publisher.id`, and from
/// `issuer.id` when it has no publisher. The domain is the normalized
/// domain of that identifier.
pub proof fn lemma_trusted_domain_paths(members: Seq<(Seq<char>, Json)>, x: Seq<char>, d: Seq<u8>)
    ensures
        nested_id(members, "issuer"@, x) && normalized_domain(vstd::utf8::encode_utf8(x)) == Some(d) ==> trusted_domain(
            members,
            DirectStandardProfile::OpenBadgesAchievementCredential,
        ) == Ok::<Seq<u8>, Option<Seq<char>>>(d),
        json_get(members, "issuer"@) is None ==> trusted_domain(members, DirectStandardProfile::OpenBadgesAchievementCredential)
            == Err::<Seq<u8>, Option<Seq<char>>>(Some(untrusted_domain_code())),
        nested_id(members, "publisher"@, x) && normalized_domain(vstd::utf8::encode_utf8(x)) == Some(d) ==> trusted_domain(
            members,
            DirectStandardProfile::ClrCredential,
        ) == Ok::<Seq<u8>, Option<Seq<char>>>(d),
        json_get(members, "publisher"@) is None && nested_id(members, "issuer"@, x) && normalized_domain(
            vstd::utf8::encode_utf8(x),
        ) == Some(d) ==> trusted_domain(members, DirectStandardProfile::ClrCredential) == Ok::<
            Seq<u8>,
            Option<Seq<char>>,
        >(d),
{
}

/// A CLR credential with an identifier, a name, no publisher and an issuer
/// whose identifier has a valid domain canonicalizes to a CLR identifier
/// under that domain.
pub proof fn lemma_clr_issuer_canonicalizes(members: Seq<(Seq<char>, Json)>, id: Seq<char>, name: Seq<char>, x: Seq<char>, d: Seq<u8>)
    requires
        json_get(members, "type"@) == Some(Json::String("ClrCredential"@)),
        json_get(members, "id"@) == Some(Json::String(id)),
        trimmed(vstd::utf8::encode_utf8(id)).len() > 0,
        json_get(members, "name"@) == Some(Json::String(name)),
        trimmed(vstd::utf8::encode_utf8(name)).len() > 0,
        json_get(members, "publisher"@) is None,
        nested_id(members, "issuer"@, x),
        normalized_domain(vstd::utf8::encode_utf8(x)) == Some(d),
    ensures
        canonicalized(Json::Object(members)) matches Ok((p, parts, _, _)) && p == DirectStandardProfile::ClrCredential
            && parts.source_domain == d && parts.standard == vstd::utf8::encode_utf8("clr"@)
            && parts.version == vstd::utf8::encode_utf8("v2p0"@),
{
    reveal_strlit("ClrCredential");
    reveal_strlit("OpenBadgeCredential");
    reveal_strlit("AchievementCredential");
    reveal_strlit("CLRCredential");
    reveal_strlit("clr");
    reveal_strlit("v2p0");
    let types = seq!["ClrCredential"@];
    assert(string_list(json_get(members, "type"@)) == Some(types));
    assert(types[0] == "ClrCredential"@);
    assert(!crate::domain::source_external_id::has_type_spec(types, "OpenBadgeCredential"@, "AchievementCredential"@)) by {
        assert("ClrCredential"@ != "OpenBadgeCredential"@);
        assert("ClrCredential"@ != "AchievementCredential"@);
    }
    assert(crate::domain::source_external_id::has_type_spec(types, "ClrCredential"@, "CLRCredential"@));
    assert(profile_of(members, types) == Some(DirectStandardProfile::ClrCredential));
    lemma_trusted_domain_paths(members, x, d);
    let raw = trimmed(vstd::utf8::encode_utf8(id));
    lemma_trim_idempotent(vstd::utf8::encode_utf8(id));
    assert(normalized_object_id(raw) is Some);
    assert(crate::domain::source_external_id::supported_standard_version("clr"@, "v2p0"@));
    assert(d.len() > 0 && forall|i: int| 0 <= i < d.len() ==> #[trigger] is_domain_byte(d[i]));
    lemma_domain_is_normal(d);
    assert(components_accepted(profile_standard(DirectStandardProfile::ClrCredential), "v2p0"@, d, raw));
}

} // verus!
