use vstd::prelude::*;
use crate::domain::normalization::IdGenerator;
use crate::domain::source_identity::{uuid_string, uuid_text};
use crate::text::{decimal, u64_to_decimal};

verus! {

/// Memory item URNs of the form
/// `urn:memory-item:<source uuid>:<sequence>:<start>:<end>:<content hash>`.
#[derive(Debug, Clone, Copy, Default)]
pub struct DefaultIdGenerator;

impl IdGenerator for DefaultIdGenerator {
    open spec fn urn_for(
        &self,
        source_id: u128,
        sequence: u32,
        start_offset: u32,
        end_offset: u32,
        content_hash: Seq<char>,
    ) -> Seq<char> {
        "urn:memory-item:"@ + uuid_text(source_id) + ":"@ + decimal(sequence as nat) + ":"@ + decimal(start_offset as nat)
            + ":"@ + decimal(end_offset as nat) + ":"@ + content_hash
    }

    fn memory_item_urn(
        &self,
        source_id: u128,
        sequence: u32,
        start_offset: u32,
        end_offset: u32,
        content_hash: &str,
    ) -> (r: String) {
        let mut urn = "urn:memory-item:".to_owned();
        let id = uuid_string(source_id);
        urn.append(id.as_str());
        urn.append(":");
        let s = u64_to_decimal(sequence as u64);
        urn.append(s.as_str());
        urn.append(":");
        let a = u64_to_decimal(start_offset as u64);
        urn.append(a.as_str());
        urn.append(":");
        let b = u64_to_decimal(end_offset as u64);
        urn.append(b.as_str());
        urn.append(":");
        urn.append(content_hash);
        urn
    }
}

} // verus!
