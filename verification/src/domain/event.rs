use vstd::prelude::*;
use crate::domain::memory_item::MemoryItem;
use crate::domain::source::{DocumentType, Source};

verus! {

/// A memory item as the graph projection receives it.
#[derive(Debug)]
pub struct GraphMemoryItemProjection {
    pub urn: String,
    pub sequence: u32,
    pub unit_type: String,
}

/// A source was registered, with its memory items in sequence order.
#[derive(Debug)]
pub struct SourceRegisteredEvent {
    pub source_id: u128,
    pub document_type: DocumentType,
    pub memory_items: Vec<GraphMemoryItemProjection>,
}

/// An event for the graph projection.
#[derive(Debug)]
pub enum GraphProjectionEvent {
    SourceRegistered(SourceRegisteredEvent),
}

pub open spec fn projected_item(m: MemoryItem, x: GraphMemoryItemProjection) -> bool {
    &&& x.urn == m.urn
    &&& x.sequence == m.sequence
    &&& x.unit_type@ == m.unit_type.name()
}

impl GraphProjectionEvent {
    /// The event announcing a registered source and its memory items.
    pub fn source_registered(source: &Source, memory_items: &[MemoryItem]) -> (r: GraphProjectionEvent)
        ensures
            r matches GraphProjectionEvent::SourceRegistered(e) && {
                &&& e.source_id == source.source_id
                &&& e.document_type == source.document_type
                &&& e.memory_items@.len() == memory_items@.len()
                &&& forall|k: int| 0 <= k < memory_items@.len() ==> projected_item(memory_items@[k], #[trigger] e.memory_items@[k])
            },
    {
        let mut items: Vec<GraphMemoryItemProjection> = Vec::new();
        let mut i: usize = 0;
        while i < memory_items.len()
            invariant
                i <= memory_items@.len(),
                items@.len() == i,
                forall|k: int| 0 <= k < i ==> projected_item(memory_items@[k], #[trigger] items@[k]),
            decreases memory_items@.len() - i,
        {
            let item = &memory_items[i];
            items.push(
                GraphMemoryItemProjection {
                    urn: item.urn.clone(),
                    sequence: item.sequence,
                    unit_type: item.unit_type.as_str().to_owned(),
                },
            );
            i = i + 1;
        }
        GraphProjectionEvent::SourceRegistered(
            SourceRegisteredEvent {
                source_id: source.source_id,
                document_type: source.document_type,
                memory_items: items,
            },
        )
    }
}

} // verus!
