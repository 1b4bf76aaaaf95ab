//! Ready-made timeline documents.
//!
//! Packs are the main exchange unit, but a document captures which packs are
//! attached and active for a working timeline context.
use vstd::prelude::*;
use crate::pack::TimelineDocument;
use crate::pack_samples::{
    is_life_stages_source, is_sample_biography_pack, is_sample_history_pack, is_sample_journal_pack,
    sample_biography_pack, sample_history_pack, sample_journal_pack, sample_life_stages_pack,
};
use crate::timeline_source::{compiled_from, TimelineSource};

verus! {

/// A document holding the four sample packs, all active.
pub fn sample_timeline_document() -> (r: TimelineDocument)
    ensures
        r.version == TimelineDocument::CURRENT_VERSION,
        r.packs@.len() == 4,
        is_sample_journal_pack(r.packs@[0]),
        is_sample_biography_pack(r.packs@[1]),
        is_sample_history_pack(r.packs@[2]),
        exists|s: TimelineSource| is_life_stages_source(s) && compiled_from(s, r.packs@[3]),
        r.active_pack_ids@.len() == 4,
        r.active_pack_ids@[0].0@ == "sample:journal"@,
        r.active_pack_ids@[1].0@ == "sample:biography"@,
        r.active_pack_ids@[2].0@ == "sample:history"@,
        r.active_pack_ids@[3].0@ == "sample:life-stages"@,
{
    proof {
        reveal_strlit("sample:journal");
        reveal_strlit("sample:biography");
        reveal_strlit("sample:history");
        reveal_strlit("sample:life-stages");
    }
    let mut document = TimelineDocument::empty();
    let journal = sample_journal_pack();
    document.add_pack(journal, true);
    let biography = sample_biography_pack();
    assert(!document.spec_is_active(biography.metadata.id.0@)) by {
        assert(document.active_pack_ids@[0].0@[7] != biography.metadata.id.0@[7]);
    }
    document.add_pack(biography, true);
    let history = sample_history_pack();
    assert(!document.spec_is_active(history.metadata.id.0@)) by {
        assert(document.active_pack_ids@[0].0@[7] != history.metadata.id.0@[7]);
        assert(document.active_pack_ids@[1].0@.len() != history.metadata.id.0@.len());
    }
    document.add_pack(history, true);
    let life = sample_life_stages_pack();
    assert(life.metadata.id.0@ == "sample:life-stages"@);
    assert(!document.spec_is_active(life.metadata.id.0@)) by {
        assert(document.active_pack_ids@[0].0@.len() != life.metadata.id.0@.len());
        assert(document.active_pack_ids@[1].0@.len() != life.metadata.id.0@.len());
        assert(document.active_pack_ids@[2].0@.len() != life.metadata.id.0@.len());
    }
    document.add_pack(life, true);
    document
}

} // verus!
