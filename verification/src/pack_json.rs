//! Event packs imported from JSON: the parsed pack becomes an import batch,
//! so that its candidates can be previewed before the pack is materialized.
use vstd::prelude::*;
use crate::import_batch::{materialized, ImportBatch, ImportSourceKind};
use crate::pack::{EventPack, PackKind, PackMetadata};
use crate::pack_import::{import_batch_from_event_pack, imported_batch};

verus! {

#[derive(Debug, PartialEq, Eq)]
pub struct ImportedEventPack {
    pub metadata: PackMetadata,
    pub kind: PackKind,
    pub batch: ImportBatch,
}

impl ImportedEventPack {
    /// The pack made of the accepted candidates.
    pub fn materialize(self) -> (r: EventPack)
        ensures
            r.metadata == self.metadata,
            r.kind == self.kind,
            (
                r.domain_profiles@,
                r.entities@,
                r.events@,
                r.event_collections@,
                r.event_relations@,
                r.sources@,
                r.tags@,
            ) == materialized(self.batch.candidates@),
            r.provenance == self.batch.provenance,
    {
        self.batch.materialize_event_pack(self.metadata, self.kind)
    }
}

/// The import of `pack`, parsed from the JSON text `json` read from
/// `source_name`: one record holding the text, and the pack's items as
/// accepted candidates.
pub fn import_event_pack_json(source_name: &str, json: &str, pack: EventPack) -> (r: ImportedEventPack)
    ensures
        r.metadata == pack.metadata,
        r.kind == pack.kind,
        imported_batch(
            r.batch,
            source_name@,
            ImportSourceKind::Json,
            "record:json:0"@,
            Some(json@),
            pack,
        ),
{
    let raw = json.to_owned();
    let batch = import_batch_from_event_pack(
        source_name,
        ImportSourceKind::Json,
        "record:json:0",
        Some(raw),
        &pack,
    );
    ImportedEventPack { metadata: pack.metadata, kind: pack.kind, batch }
}

} // verus!
