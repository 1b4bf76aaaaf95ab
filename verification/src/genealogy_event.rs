//! Genealogy events: what happened, when, where, and to whom.
use vstd::prelude::*;
use crate::attribution::Provenance;
use crate::model::{DateValue, EventId, PersonId, PlaceId};

verus! {

/// The kind of a genealogy event.
#[derive(Debug, Clone, PartialEq, Eq)]
pub enum GenealogyEventKind {
    Birth,
    Death,
    Marriage,
    Baptism,
    Burial,
    Residence,
    Occupation,
    Other(String),
}

/// One event of a tree, with the people who took part in it.
#[derive(Debug, PartialEq, Eq)]
pub struct GenealogyEvent {
    pub id: EventId,
    pub kind: GenealogyEventKind,
    pub date: Option<DateValue>,
    /// Time of day as written, when the source gives one.
    pub time: Option<String>,
    pub time_zone: Option<String>,
    pub place: Option<PlaceId>,
    pub description: Option<String>,
    pub participants: Vec<PersonId>,
    pub provenance: Provenance,
}

} // verus!
