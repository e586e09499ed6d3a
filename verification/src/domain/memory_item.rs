use vstd::prelude::*;
use crate::text::{str_eq, u64_to_decimal, decimal};
use crate::domain::json::{JsonValue, Json};

verus! {

/// Shape of the content span a memory item covers.
#[derive(Debug, Clone, Copy, PartialEq, Eq, Structural)]
pub enum UnitType {
    Paragraph,
    Section,
    JsonDocument,
    MetadataPlaceholder,
}

impl UnitType {
    pub open spec fn name(self) -> Seq<char> {
        match self {
            UnitType::Paragraph => "paragraph"@,
            UnitType::Section => "section"@,
            UnitType::JsonDocument => "json_document"@,
            UnitType::MetadataPlaceholder => "metadata_placeholder"@,
        }
    }

    pub fn as_str(&self) -> (r: &'static str)
        ensures
            r@ == self.name(),
    {
        match self {
            UnitType::Paragraph => "paragraph",
            UnitType::Section => "section",
            UnitType::JsonDocument => "json_document",
            UnitType::MetadataPlaceholder => "metadata_placeholder",
        }
    }
}

pub open spec fn unit_type_named(value: Seq<char>) -> Option<UnitType> {
    if value == "paragraph"@ {
        Some(UnitType::Paragraph)
    } else if value == "section"@ {
        Some(UnitType::Section)
    } else if value == "json_document"@ {
        Some(UnitType::JsonDocument)
    } else if value == "metadata_placeholder"@ {
        Some(UnitType::MetadataPlaceholder)
    } else {
        None
    }
}

pub fn unit_type_from_name(value: &str) -> (r: Option<UnitType>)
    ensures
        r == unit_type_named(value@),
{
    if str_eq(value, "paragraph") {
        Some(UnitType::Paragraph)
    } else if str_eq(value, "section") {
        Some(UnitType::Section)
    } else if str_eq(value, "json_document") {
        Some(UnitType::JsonDocument)
    } else if str_eq(value, "metadata_placeholder") {
        Some(UnitType::MetadataPlaceholder)
    } else {
        None
    }
}

/// Reading back the name of a unit type gives the same unit type.
pub proof fn lemma_unit_type_name_round_trip(u: UnitType)
    ensures
        unit_type_named(u.name()) == Some(u),
{
    reveal_strlit("paragraph");
    reveal_strlit("section");
    reveal_strlit("json_document");
    reveal_strlit("metadata_placeholder");
    assert("paragraph"@[0] != "section"@[0]);
    assert("paragraph"@[0] != "json_document"@[0]);
    assert("paragraph"@[0] != "metadata_placeholder"@[0]);
    assert("section"@[0] != "json_document"@[0]);
    assert("section"@[0] != "metadata_placeholder"@[0]);
    assert("json_document"@[0] != "metadata_placeholder"@[0]);
}

/// A contiguous span of a source's authoritative content. Offsets are UTF-8
/// byte offsets into that content; instants are Unix nanoseconds.
#[derive(Debug)]
pub struct MemoryItem {
    pub urn: String,
    pub source_id: u128,
    pub sequence: u32,
    pub unit_type: UnitType,
    pub start_offset: u32,
    pub end_offset: u32,
    pub version: String,
    pub content: String,
    pub content_hash: String,
    pub item_metadata: JsonValue,
    pub created_at: i128,
    pub updated_at: i128,
}

/// The metadata object recorded with each memory item (members in key
/// order).
pub open spec fn item_metadata_json(unit_type: UnitType, start_offset: u32, end_offset: u32) -> Json {
    Json::Object(
        seq![
            ("end_offset"@, Json::Number(decimal(end_offset as nat))),
            ("start_offset"@, Json::Number(decimal(start_offset as nat))),
            ("unit_type"@, Json::String(unit_type.name())),
            ("version"@, Json::String("1"@)),
        ],
    )
}

pub fn item_metadata(unit_type: UnitType, start_offset: u32, end_offset: u32) -> (r: JsonValue)
    ensures
        r@ == item_metadata_json(unit_type, start_offset, end_offset),
{
    let mut members: Vec<(String, JsonValue)> = Vec::new();
    members.push(("end_offset".to_owned(), JsonValue::Number(u64_to_decimal(end_offset as u64))));
    members.push(("start_offset".to_owned(), JsonValue::Number(u64_to_decimal(start_offset as u64))));
    members.push(("unit_type".to_owned(), JsonValue::String(unit_type.as_str().to_owned())));
    members.push(("version".to_owned(), JsonValue::String("1".to_owned())));
    proof {
        assert(members@[0].1@ == Json::Number(decimal(end_offset as nat)));
        assert(members@[1].1@ == Json::Number(decimal(start_offset as nat)));
        assert(members@[2].1@ == Json::String(unit_type.name()));
        assert(members@[3].1@ == Json::String("1"@));
    }
    let r = JsonValue::Object(members);
    proof {
        if let Json::Object(m) = r@ {
            assert(m =~= seq![
                ("end_offset"@, Json::Number(decimal(end_offset as nat))),
                ("start_offset"@, Json::Number(decimal(start_offset as nat))),
                ("unit_type"@, Json::String(unit_type.name())),
                ("version"@, Json::String("1"@)),
            ]);
        }
    }
    r
}

} // verus!
