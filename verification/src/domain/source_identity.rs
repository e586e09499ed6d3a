use vstd::prelude::*;
use vstd::string::*;
use crate::text::hex_lower;

verus! {

/// Namespace of the name-based (version 5) UUIDs given to sources.
pub const SOURCE_ID_NAMESPACE: u128 = 0x5f7a4f31178b57bea92f66c5c7d0f50fu128;

/// The name from which a source identifier is derived.
pub open spec fn seed_text(canonical_id_version: Seq<char>, canonical_external_id: Seq<char>) -> Seq<char> {
    "source|"@ + canonical_id_version + "|"@ + canonical_external_id
}

pub fn source_seed(canonical_id_version: &str, canonical_external_id: &str) -> (r: String)
    ensures
        r@ == seed_text(canonical_id_version@, canonical_external_id@),
{
    let mut seed = "source|".to_owned();
    seed.append(canonical_id_version);
    seed.append("|");
    seed.append(canonical_external_id);
    seed
}

/// The name-based (SHA-1, version 5) UUID of `name` in `namespace`.
pub uninterp spec fn uuid_v5(namespace: u128, name: Seq<u8>) -> u128;

/// Calls `uuid::Uuid::new_v5`. Claims only that the result is the UUID
/// that function derives from the namespace and the name bytes.
#[verifier::external_body]
fn uuid_new_v5(namespace: u128, name: &[u8]) -> (r: u128)
    ensures
        r == uuid_v5(namespace, name@),
{
    uuid::Uuid::new_v5(&uuid::Uuid::from_u128(namespace), name).as_u128()
}

/// The sixteen bytes of a UUID, most significant first.
pub open spec fn uuid_bytes(id: u128) -> Seq<u8> {
    Seq::new(16, |i: int| ((id >> ((8 * (15 - i)) as u128)) & 0xffu128) as u8)
}

/// The hyphenated lowercase form of a UUID: 8-4-4-4-12 hexadecimal digits.
pub open spec fn uuid_text(id: u128) -> Seq<char> {
    let b = uuid_bytes(id);
    hex_lower(b.subrange(0, 4)) + "-"@ + hex_lower(b.subrange(4, 6)) + "-"@ + hex_lower(b.subrange(6, 8)) + "-"@
        + hex_lower(b.subrange(8, 10)) + "-"@ + hex_lower(b.subrange(10, 16))
}

/// Calls the `Display` of `uuid::Uuid`, which its documentation gives as
/// the hyphenated lowercase form of the UUID's bytes, most significant first.
#[verifier::external_body]
pub(crate) fn uuid_string(id: u128) -> (r: String)
    ensures
        r@ == uuid_text(id),
{
    uuid::Uuid::from_u128(id).to_string()
}

/// A random (version 4, RFC 4122 variant) UUID: the version nibble is 4 and
/// the two variant bits are `10`; the other 122 bits are free.
pub open spec fn is_random_uuid(id: u128) -> bool {
    id & 0xF000_C000_0000_0000_0000u128 == 0x4000_8000_0000_0000_0000u128
}

/// A random UUID is never the nil UUID.
pub proof fn lemma_random_uuid_not_nil(id: u128)
    requires
        is_random_uuid(id),
    ensures
        id != 0,
{
    assert(id & 0xF000_C000_0000_0000_0000u128 == 0x4000_8000_0000_0000_0000u128 ==> id != 0u128) by (bit_vector);
}

/// Calls `uuid::Uuid::new_v4`: random bits, except that its source sets
/// the version nibble to 4 and the variant bits to `10` (it masks the
/// random value and ors in `0x40008000000000000000`). Claimed is only that
/// shape; the remaining bits are random.
#[verifier::external_body]
pub(crate) fn random_uuid() -> (r: u128)
    ensures
        is_random_uuid(r),
{
    uuid::Uuid::new_v4().as_u128()
}

/// The identifier of the source with this canonical external identifier.
pub open spec fn source_id_for(canonical_id_version: Seq<char>, canonical_external_id: Seq<char>) -> u128 {
    uuid_v5(
        SOURCE_ID_NAMESPACE,
        vstd::utf8::encode_utf8(seed_text(canonical_id_version, canonical_external_id)),
    )
}

pub fn deterministic_source_id(canonical_id_version: &str, canonical_external_id: &str) -> (r: u128)
    ensures
        r == source_id_for(canonical_id_version@, canonical_external_id@),
{
    let seed = source_seed(canonical_id_version, canonical_external_id);
    uuid_new_v5(SOURCE_ID_NAMESPACE, seed.as_str().as_bytes())
}

pub fn verify_source_id(canonical_id_version: &str, canonical_external_id: &str, source_id: u128) -> (r: bool)
    ensures
        r == (source_id == source_id_for(canonical_id_version@, canonical_external_id@)),
{
    deterministic_source_id(canonical_id_version, canonical_external_id) == source_id
}

/// Distinct canonical external identifiers (under one identity version)
/// have distinct seeds, so the name a source identifier is derived from
/// determines the external identifier.
pub proof fn lemma_seed_injective(v: Seq<char>, e1: Seq<char>, e2: Seq<char>)
    requires
        seed_text(v, e1) == seed_text(v, e2),
    ensures
        e1 == e2,
{
    let p = "source|"@ + v + "|"@;
    assert(seed_text(v, e1) =~= p + e1);
    assert(seed_text(v, e2) =~= p + e2);
    assert(e1 =~= (p + e1).subrange(p.len() as int, (p + e1).len() as int));
    assert(e2 =~= (p + e2).subrange(p.len() as int, (p + e2).len() as int));
}

} // verus!
