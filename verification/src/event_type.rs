//! The built-in domain profiles: the event types that genealogy and journal
//! packs use, and the participant role each type asks for.
use vstd::prelude::*;
use crate::event::{DomainProfile, EventTypeDefinition};

verus! {

/// `d` is the type `id`, labelled `label`, asking for the role `role`.
pub open spec fn defines(
    d: EventTypeDefinition,
    id: Seq<char>,
    label: Seq<char>,
    role: Option<Seq<char>>,
) -> bool {
    &&& d.id.0@ == id
    &&& d.label@ == label
    &&& match (d.required_role, role) {
        (Some(x), Some(y)) => x@ == y,
        (None, None) => true,
        _ => false,
    }
}

/// `p` is the genealogy profile that [`genealogy_domain_profile`] returns.
pub open spec fn is_genealogy_profile(p: DomainProfile) -> bool {
    &&& p.id@ == "genealogy"@
    &&& p.title@ == "Genealogy"@
    &&& p.event_types@.len() == 6
    &&& defines(p.event_types@[0], "genealogy.birth"@, "Birth"@, Some("child"@))
    &&& defines(p.event_types@[1], "genealogy.death"@, "Death"@, Some("deceased"@))
    &&& defines(p.event_types@[2], "genealogy.life"@, "Life"@, Some("subject"@))
    &&& defines(p.event_types@[3], "genealogy.marriage"@, "Marriage"@, None)
    &&& defines(p.event_types@[4], "genealogy.residence"@, "Residence"@, Some("resident"@))
    &&& defines(p.event_types@[5], "genealogy.event"@, "Family event"@, None)
}

/// `p` is the journal profile that [`journal_domain_profile`] returns.
pub open spec fn is_journal_profile(p: DomainProfile) -> bool {
    &&& p.id@ == "journal"@
    &&& p.title@ == "Journal"@
    &&& p.event_types@.len() == 1
    &&& defines(p.event_types@[0], "journal.entry"@, "Journal entry"@, None)
}

/// The genealogy profile: births, deaths, lives, marriages, residences and
/// other family events.
pub fn genealogy_domain_profile() -> (r: DomainProfile)
    ensures
        is_genealogy_profile(r),
{
    let mut event_types: Vec<EventTypeDefinition> = Vec::new();
    event_types.push(EventTypeDefinition::new("genealogy.birth", "Birth").with_required_role("child"));
    event_types.push(
        EventTypeDefinition::new("genealogy.death", "Death").with_required_role("deceased"),
    );
    event_types.push(EventTypeDefinition::new("genealogy.life", "Life").with_required_role("subject"));
    event_types.push(EventTypeDefinition::new("genealogy.marriage", "Marriage"));
    event_types.push(
        EventTypeDefinition::new("genealogy.residence", "Residence").with_required_role("resident"),
    );
    event_types.push(EventTypeDefinition::new("genealogy.event", "Family event"));
    DomainProfile { id: "genealogy".to_owned(), title: "Genealogy".to_owned(), event_types }
}

/// The journal profile: dated journal entries.
pub fn journal_domain_profile() -> (r: DomainProfile)
    ensures
        is_journal_profile(r),
{
    let mut event_types: Vec<EventTypeDefinition> = Vec::new();
    event_types.push(EventTypeDefinition::new("journal.entry", "Journal entry"));
    DomainProfile { id: "journal".to_owned(), title: "Journal".to_owned(), event_types }
}

} // verus!
