//! The data carried by the content index: records, their metadata, and the
//! identifiers and slots the index hands out.

use vstd::prelude::*;

verus! {

/// The media kind of a stored record. Only `Text` records are exported; every
/// other kind is treated identically as "non-text".
#[derive(Clone, Copy, PartialEq, Eq, Structural, Debug)]
pub enum MediaKind {
    Text,
    Image,
    Audio,
    Video,
    Binary,
    Unknown,
}

/// One stored content item: a media kind and an optional raw body.
#[derive(Debug)]
pub struct Record {
    pub media: MediaKind,
    pub body: Option<Vec<u8>>,
}

/// Timestamp metadata associated one-to-one with a record: epoch seconds.
#[derive(Clone, Copy, PartialEq, Eq, Structural, Debug)]
pub struct RecordEntry {
    pub timestamp: u32,
}

/// Opaque key of one indexed record, ordered by index-internal sequence.
#[derive(Clone, Copy, PartialEq, Eq, Structural, Debug)]
pub struct RecordId {
    pub value: u64,
}

/// One position of the index: an identifier together with what the index can
/// resolve for it. A missing record or entry is skipped by the pipeline but
/// still counts as scanned.
#[derive(Debug)]
pub struct IndexSlot {
    pub id: RecordId,
    pub record: Option<Record>,
    pub entry: Option<RecordEntry>,
}

} // verus!
