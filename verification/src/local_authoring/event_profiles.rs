//! Event types and what each implies: the role of its participants, the
//! role of its place, and how an event is labelled when it has no title.
use vstd::prelude::*;
use crate::local_authoring::data::{lookup, opt_str, JsonValue, LocalMarkdownRecord};
use crate::local_authoring::error::{is_validation, LocalAuthoringError};
use crate::local_authoring::read::{file_name, file_name_exec, find_str, first_occurrence, lemma_first_occurrence};
use crate::local_authoring::refs::{normalize_person_id, spec_contextual_id};
use crate::local_authoring::summary::{attr_text, opt_string, opt_text};
use crate::sorted_text::texts;
use crate::text::{char_is_whitespace, is_blank, is_blank_str, is_unicode_whitespace, starts_with, str_eq};
use crate::timeline_source::has_prefix;

verus! {

broadcast use vstd::seq_lib::group_seq_properties;

/// The types of events that the authoring format knows, and any other.
#[derive(Debug, PartialEq, Eq)]
pub enum LocalEventType {
    Birth,
    Death,
    Marriage,
    Baptism,
    Burial,
    Residence,
    Occupation,
    Divorce,
    Adoption,
    Education,
    MilitaryService,
    Immigration,
    Emigration,
    Naturalization,
    Census,
    NameChange,
    Custom(String),
}

/// The kind of an event type, without the name of a custom one.
#[derive(Debug, Clone, Copy, PartialEq, Eq, Structural)]
pub enum EventTypeTag {
    Birth,
    Death,
    Marriage,
    Baptism,
    Burial,
    Residence,
    Occupation,
    Divorce,
    Adoption,
    Education,
    MilitaryService,
    Immigration,
    Emigration,
    Naturalization,
    Census,
    NameChange,
    Other,
}

pub open spec fn tag_of(t: LocalEventType) -> EventTypeTag {
    match t {
        LocalEventType::Birth => EventTypeTag::Birth,
        LocalEventType::Death => EventTypeTag::Death,
        LocalEventType::Marriage => EventTypeTag::Marriage,
        LocalEventType::Baptism => EventTypeTag::Baptism,
        LocalEventType::Burial => EventTypeTag::Burial,
        LocalEventType::Residence => EventTypeTag::Residence,
        LocalEventType::Occupation => EventTypeTag::Occupation,
        LocalEventType::Divorce => EventTypeTag::Divorce,
        LocalEventType::Adoption => EventTypeTag::Adoption,
        LocalEventType::Education => EventTypeTag::Education,
        LocalEventType::MilitaryService => EventTypeTag::MilitaryService,
        LocalEventType::Immigration => EventTypeTag::Immigration,
        LocalEventType::Emigration => EventTypeTag::Emigration,
        LocalEventType::Naturalization => EventTypeTag::Naturalization,
        LocalEventType::Census => EventTypeTag::Census,
        LocalEventType::NameChange => EventTypeTag::NameChange,
        LocalEventType::Custom(_) => EventTypeTag::Other,
    }
}

/// The kind of the event type named `v`.
pub open spec fn tag_of_name(v: Seq<char>) -> EventTypeTag {
    if v == "birth"@ {
        EventTypeTag::Birth
    } else if v == "death"@ {
        EventTypeTag::Death
    } else if v == "marriage"@ {
        EventTypeTag::Marriage
    } else if v == "baptism"@ {
        EventTypeTag::Baptism
    } else if v == "burial"@ {
        EventTypeTag::Burial
    } else if v == "residence"@ {
        EventTypeTag::Residence
    } else if v == "occupation"@ {
        EventTypeTag::Occupation
    } else if v == "divorce"@ {
        EventTypeTag::Divorce
    } else if v == "adoption"@ {
        EventTypeTag::Adoption
    } else if v == "education"@ {
        EventTypeTag::Education
    } else if v == "military-service"@ {
        EventTypeTag::MilitaryService
    } else if v == "immigration"@ {
        EventTypeTag::Immigration
    } else if v == "emigration"@ {
        EventTypeTag::Emigration
    } else if v == "naturalization"@ {
        EventTypeTag::Naturalization
    } else if v == "census"@ {
        EventTypeTag::Census
    } else if v == "name-change"@ {
        EventTypeTag::NameChange
    } else {
        EventTypeTag::Other
    }
}

/// How an event without a title is labelled from the names of its
/// participants.
#[derive(Debug, Clone, Copy, PartialEq, Eq)]
pub enum LabelTemplate {
    /// `<subject> was <action>`.
    SubjectWas(&'static str),
    /// `<subject> <action>`.
    SubjectDid(&'static str),
    /// `<first> and <second> married`.
    Marriage,
    /// `<first> and <second> divorced`.
    Divorce,
    /// No label.
    NoLabel,
}

/// What an event type implies.
#[derive(Debug, PartialEq, Eq)]
pub struct LocalEventProfile {
    pub event_type: String,
    pub default_participant_role: Option<&'static str>,
    pub default_location_role: Option<&'static str>,
    pub label: LabelTemplate,
}

/// The name of an event type.
pub open spec fn event_type_name(t: LocalEventType) -> Seq<char> {
    match t {
        LocalEventType::Birth => "birth"@,
        LocalEventType::Death => "death"@,
        LocalEventType::Marriage => "marriage"@,
        LocalEventType::Baptism => "baptism"@,
        LocalEventType::Burial => "burial"@,
        LocalEventType::Residence => "residence"@,
        LocalEventType::Occupation => "occupation"@,
        LocalEventType::Divorce => "divorce"@,
        LocalEventType::Adoption => "adoption"@,
        LocalEventType::Education => "education"@,
        LocalEventType::MilitaryService => "military-service"@,
        LocalEventType::Immigration => "immigration"@,
        LocalEventType::Emigration => "emigration"@,
        LocalEventType::Naturalization => "naturalization"@,
        LocalEventType::Census => "census"@,
        LocalEventType::NameChange => "name-change"@,
        LocalEventType::Custom(s) => s@,
    }
}

/// Reading back the name that a type's profile gives (`from_str` of
/// `profile().event_type`) yields the same type: the name is the type's
/// own, and it reads back to the type's kind. A custom type keeps its name
/// and reads back as custom, as long as that name is none of the known ones.
pub proof fn law_profile_name_reads_back(t: LocalEventType)
    requires
        t matches LocalEventType::Custom(s) ==> !is_known_type(s@),
    ensures
        tag_of_name(event_type_name(t)) == tag_of(t),
{
    reveal_strlit("birth");
    reveal_strlit("death");
    reveal_strlit("marriage");
    reveal_strlit("baptism");
    reveal_strlit("burial");
    reveal_strlit("residence");
    reveal_strlit("occupation");
    reveal_strlit("divorce");
    reveal_strlit("adoption");
    reveal_strlit("education");
    reveal_strlit("military-service");
    reveal_strlit("immigration");
    reveal_strlit("emigration");
    reveal_strlit("naturalization");
    reveal_strlit("census");
    reveal_strlit("name-change");
    match t {
        LocalEventType::Birth => {

        },
        LocalEventType::Death => {
            assert("death"@[0] != "birth"@[0]);
        },
        LocalEventType::Marriage => {
            assert("marriage"@[0] != "birth"@[0]);
            assert("marriage"@[0] != "death"@[0]);
        },
        LocalEventType::Baptism => {
            assert("baptism"@[1] != "birth"@[1]);
            assert("baptism"@[0] != "death"@[0]);
            assert("baptism"@[0] != "marriage"@[0]);
        },
        LocalEventType::Burial => {
            assert("burial"@[1] != "birth"@[1]);
            assert("burial"@[0] != "death"@[0]);
            assert("burial"@[0] != "marriage"@[0]);
            assert("burial"@[1] != "baptism"@[1]);
        },
        LocalEventType::Residence => {
            assert("residence"@[0] != "birth"@[0]);
            assert("residence"@[0] != "death"@[0]);
            assert("residence"@[0] != "marriage"@[0]);
            assert("residence"@[0] != "baptism"@[0]);
            assert("residence"@[0] != "burial"@[0]);
        },
        LocalEventType::Occupation => {
            assert("occupation"@[0] != "birth"@[0]);
            assert("occupation"@[0] != "death"@[0]);
            assert("occupation"@[0] != "marriage"@[0]);
            assert("occupation"@[0] != "baptism"@[0]);
            assert("occupation"@[0] != "burial"@[0]);
            assert("occupation"@[0] != "residence"@[0]);
        },
        LocalEventType::Divorce => {
            assert("divorce"@[0] != "birth"@[0]);
            assert("divorce"@[1] != "death"@[1]);
            assert("divorce"@[0] != "marriage"@[0]);
            assert("divorce"@[0] != "baptism"@[0]);
            assert("divorce"@[0] != "burial"@[0]);
            assert("divorce"@[0] != "residence"@[0]);
            assert("divorce"@[0] != "occupation"@[0]);
        },
        LocalEventType::Adoption => {
            assert("adoption"@[0] != "birth"@[0]);
            assert("adoption"@[0] != "death"@[0]);
            assert("adoption"@[0] != "marriage"@[0]);
            assert("adoption"@[0] != "baptism"@[0]);
            assert("adoption"@[0] != "burial"@[0]);
            assert("adoption"@[0] != "residence"@[0]);
            assert("adoption"@[0] != "occupation"@[0]);
            assert("adoption"@[0] != "divorce"@[0]);
        },
        LocalEventType::Education => {
            assert("education"@[0] != "birth"@[0]);
            assert("education"@[0] != "death"@[0]);
            assert("education"@[0] != "marriage"@[0]);
            assert("education"@[0] != "baptism"@[0]);
            assert("education"@[0] != "burial"@[0]);
            assert("education"@[0] != "residence"@[0]);
            assert("education"@[0] != "occupation"@[0]);
            assert("education"@[0] != "divorce"@[0]);
            assert("education"@[0] != "adoption"@[0]);
        },
        LocalEventType::MilitaryService => {
            assert("military-service"@[0] != "birth"@[0]);
            assert("military-service"@[0] != "death"@[0]);
            assert("military-service"@[1] != "marriage"@[1]);
            assert("military-service"@[0] != "baptism"@[0]);
            assert("military-service"@[0] != "burial"@[0]);
            assert("military-service"@[0] != "residence"@[0]);
            assert("military-service"@[0] != "occupation"@[0]);
            assert("military-service"@[0] != "divorce"@[0]);
            assert("military-service"@[0] != "adoption"@[0]);
            assert("military-service"@[0] != "education"@[0]);
        },
        LocalEventType::Immigration => {
            assert("immigration"@[0] != "birth"@[0]);
            assert("immigration"@[0] != "death"@[0]);
            assert("immigration"@[0] != "marriage"@[0]);
            assert("immigration"@[0] != "baptism"@[0]);
            assert("immigration"@[0] != "burial"@[0]);
            assert("immigration"@[0] != "residence"@[0]);
            assert("immigration"@[0] != "occupation"@[0]);
            assert("immigration"@[0] != "divorce"@[0]);
            assert("immigration"@[0] != "adoption"@[0]);
            assert("immigration"@[0] != "education"@[0]);
            assert("immigration"@[0] != "military-service"@[0]);
        },
        LocalEventType::Emigration => {
            assert("emigration"@[0] != "birth"@[0]);
            assert("emigration"@[0] != "death"@[0]);
            assert("emigration"@[0] != "marriage"@[0]);
            assert("emigration"@[0] != "baptism"@[0]);
            assert("emigration"@[0] != "burial"@[0]);
            assert("emigration"@[0] != "residence"@[0]);
            assert("emigration"@[0] != "occupation"@[0]);
            assert("emigration"@[0] != "divorce"@[0]);
            assert("emigration"@[0] != "adoption"@[0]);
            assert("emigration"@[1] != "education"@[1]);
            assert("emigration"@[0] != "military-service"@[0]);
            assert("emigration"@[0] != "immigration"@[0]);
        },
        LocalEventType::Naturalization => {
            assert("naturalization"@[0] != "birth"@[0]);
            assert("naturalization"@[0] != "death"@[0]);
            assert("naturalization"@[0] != "marriage"@[0]);
            assert("naturalization"@[0] != "baptism"@[0]);
            assert("naturalization"@[0] != "burial"@[0]);
            assert("naturalization"@[0] != "residence"@[0]);
            assert("naturalization"@[0] != "occupation"@[0]);
            assert("naturalization"@[0] != "divorce"@[0]);
            assert("naturalization"@[0] != "adoption"@[0]);
            assert("naturalization"@[0] != "education"@[0]);
            assert("naturalization"@[0] != "military-service"@[0]);
            assert("naturalization"@[0] != "immigration"@[0]);
            assert("naturalization"@[0] != "emigration"@[0]);
        },
        LocalEventType::Census => {
            assert("census"@[0] != "birth"@[0]);
            assert("census"@[0] != "death"@[0]);
            assert("census"@[0] != "marriage"@[0]);
            assert("census"@[0] != "baptism"@[0]);
            assert("census"@[0] != "burial"@[0]);
            assert("census"@[0] != "residence"@[0]);
            assert("census"@[0] != "occupation"@[0]);
            assert("census"@[0] != "divorce"@[0]);
            assert("census"@[0] != "adoption"@[0]);
            assert("census"@[0] != "education"@[0]);
            assert("census"@[0] != "military-service"@[0]);
            assert("census"@[0] != "immigration"@[0]);
            assert("census"@[0] != "emigration"@[0]);
            assert("census"@[0] != "naturalization"@[0]);
        },
        LocalEventType::NameChange => {
            assert("name-change"@[0] != "birth"@[0]);
            assert("name-change"@[0] != "death"@[0]);
            assert("name-change"@[0] != "marriage"@[0]);
            assert("name-change"@[0] != "baptism"@[0]);
            assert("name-change"@[0] != "burial"@[0]);
            assert("name-change"@[0] != "residence"@[0]);
            assert("name-change"@[0] != "occupation"@[0]);
            assert("name-change"@[0] != "divorce"@[0]);
            assert("name-change"@[0] != "adoption"@[0]);
            assert("name-change"@[0] != "education"@[0]);
            assert("name-change"@[0] != "military-service"@[0]);
            assert("name-change"@[0] != "immigration"@[0]);
            assert("name-change"@[0] != "emigration"@[0]);
            assert("name-change"@[2] != "naturalization"@[2]);
            assert("name-change"@[0] != "census"@[0]);
        },
        LocalEventType::Custom(s) => {
            assert(!is_known_type(s@));
        },
    }
}

/// The names of the known event types.
pub open spec fn is_known_type(v: Seq<char>) -> bool {
    ||| v == "birth"@
    ||| v == "death"@
    ||| v == "marriage"@
    ||| v == "baptism"@
    ||| v == "burial"@
    ||| v == "residence"@
    ||| v == "occupation"@
    ||| v == "divorce"@
    ||| v == "adoption"@
    ||| v == "education"@
    ||| v == "military-service"@
    ||| v == "immigration"@
    ||| v == "emigration"@
    ||| v == "naturalization"@
    ||| v == "census"@
    ||| v == "name-change"@
}

/// The role of an event's people, by type.
pub open spec fn participant_role(t: EventTypeTag) -> Option<Seq<char>> {
    match t {
        EventTypeTag::Marriage | EventTypeTag::Divorce => Some("partner"@),
        EventTypeTag::Education => Some("student"@),
        EventTypeTag::MilitaryService => Some("service-member"@),
        EventTypeTag::Immigration | EventTypeTag::Emigration => Some("migrant"@),
        EventTypeTag::Census => Some("enumerated-person"@),
        EventTypeTag::Other => None,
        _ => Some("subject"@),
    }
}

/// The role of an event's place, by type.
pub open spec fn location_role(t: EventTypeTag) -> Option<Seq<char>> {
    match t {
        EventTypeTag::Birth => Some("birthplace"@),
        EventTypeTag::Death => Some("death-place"@),
        EventTypeTag::Marriage => Some("marriage-place"@),
        EventTypeTag::Baptism => Some("baptism-place"@),
        EventTypeTag::Burial => Some("burial-place"@),
        EventTypeTag::Residence => Some("residence"@),
        EventTypeTag::Occupation => Some("workplace"@),
        EventTypeTag::Divorce => Some("divorce-place"@),
        EventTypeTag::Adoption => Some("adoption-place"@),
        EventTypeTag::Education => Some("school"@),
        EventTypeTag::MilitaryService => Some("service-place"@),
        EventTypeTag::Immigration => Some("destination"@),
        EventTypeTag::Emigration => Some("origin"@),
        EventTypeTag::Naturalization => Some("naturalization-place"@),
        EventTypeTag::Census => Some("enumeration-place"@),
        EventTypeTag::NameChange => None,
        EventTypeTag::Other => None,
    }
}

/// The label template of each type.
pub open spec fn profile_label(t: EventTypeTag) -> LabelTemplate {
    match t {
        EventTypeTag::Birth => LabelTemplate::SubjectWas("born"),
        EventTypeTag::Death => LabelTemplate::SubjectDid("died"),
        EventTypeTag::Marriage => LabelTemplate::Marriage,
        EventTypeTag::Baptism => LabelTemplate::SubjectWas("baptized"),
        EventTypeTag::Burial => LabelTemplate::SubjectWas("buried"),
        EventTypeTag::Residence => LabelTemplate::SubjectDid("lived somewhere"),
        EventTypeTag::Occupation => LabelTemplate::SubjectDid("had an occupation"),
        EventTypeTag::Divorce => LabelTemplate::Divorce,
        EventTypeTag::Adoption => LabelTemplate::SubjectWas("adopted"),
        EventTypeTag::Education => LabelTemplate::SubjectDid("studied"),
        EventTypeTag::MilitaryService => LabelTemplate::SubjectDid("served in the military"),
        EventTypeTag::Immigration => LabelTemplate::SubjectDid("immigrated"),
        EventTypeTag::Emigration => LabelTemplate::SubjectDid("emigrated"),
        EventTypeTag::Naturalization => LabelTemplate::SubjectWas("naturalized"),
        EventTypeTag::Census => LabelTemplate::SubjectWas("recorded in a census"),
        EventTypeTag::NameChange => LabelTemplate::SubjectDid("changed names"),
        EventTypeTag::Other => LabelTemplate::NoLabel,
    }
}

/// The label of an event of type `t` for people named `names`.
pub open spec fn spec_default_label(t: EventTypeTag, names: Seq<Seq<char>>) -> Option<Seq<char>> {
    label_text(profile_label(t), names)
}

pub open spec fn opt_static(o: Option<&'static str>) -> Option<Seq<char>> {
    match o {
        Some(s) => Some(s@),
        None => None,
    }
}

impl LabelTemplate {
    /// The label for people named `names` (none without a first name).
    pub fn render(self, names: &Vec<String>) -> (r: Option<String>)
        ensures
            opt_string(r) == label_text(self, texts(names@)),
    {
        if names.len() == 0 {
            return None;
        }
        let ghost ns = texts(names@);
        assert(ns[0] == names@[0]@);
        let verb = match self {
            LabelTemplate::SubjectWas(a) => {
                let mut s = names[0].clone();
                s.append(" was ");
                s.append(a);
                return Some(s);
            },
            LabelTemplate::SubjectDid(a) => {
                let mut s = names[0].clone();
                s.append(" ");
                s.append(a);
                return Some(s);
            },
            LabelTemplate::Marriage => " married",
            LabelTemplate::Divorce => " divorced",
            LabelTemplate::NoLabel => return None,
        };
        let mut s = names[0].clone();
        if names.len() >= 2 {
            assert(ns[1] == names@[1]@);
            s.append(" and ");
            s.append(names[1].as_str());
        }
        s.append(verb);
        Some(s)
    }
}

impl LocalEventType {
    /// The event type named `value`.
    pub fn from_str(value: &str) -> (t: LocalEventType)
        ensures
            event_type_name(t) == value@,
            tag_of(t) == tag_of_name(value@),
    {
        if str_eq(value, "birth") {
            LocalEventType::Birth
        } else if str_eq(value, "death") {
            LocalEventType::Death
        } else if str_eq(value, "marriage") {
            LocalEventType::Marriage
        } else if str_eq(value, "baptism") {
            LocalEventType::Baptism
        } else if str_eq(value, "burial") {
            LocalEventType::Burial
        } else if str_eq(value, "residence") {
            LocalEventType::Residence
        } else if str_eq(value, "occupation") {
            LocalEventType::Occupation
        } else if str_eq(value, "divorce") {
            LocalEventType::Divorce
        } else if str_eq(value, "adoption") {
            LocalEventType::Adoption
        } else if str_eq(value, "education") {
            LocalEventType::Education
        } else if str_eq(value, "military-service") {
            LocalEventType::MilitaryService
        } else if str_eq(value, "immigration") {
            LocalEventType::Immigration
        } else if str_eq(value, "emigration") {
            LocalEventType::Emigration
        } else if str_eq(value, "naturalization") {
            LocalEventType::Naturalization
        } else if str_eq(value, "census") {
            LocalEventType::Census
        } else if str_eq(value, "name-change") {
            LocalEventType::NameChange
        } else {
            LocalEventType::Custom(value.to_owned())
        }
    }

    /// What this type implies.
    pub fn profile(&self) -> (p: LocalEventProfile)
        ensures
            p.event_type@ == event_type_name(*self),
            opt_static(p.default_participant_role) == participant_role(tag_of(*self)),
            opt_static(p.default_location_role) == location_role(tag_of(*self)),
            p.label == profile_label(tag_of(*self)),
    {
        let (event_type, participant, location, label): (&str, Option<&'static str>, Option<&'static str>, LabelTemplate) = match self {
            LocalEventType::Birth => ("birth", Some("subject"), Some("birthplace"), LabelTemplate::SubjectWas("born")),
            LocalEventType::Death => ("death", Some("subject"), Some("death-place"), LabelTemplate::SubjectDid("died")),
            LocalEventType::Marriage => ("marriage", Some("partner"), Some("marriage-place"), LabelTemplate::Marriage),
            LocalEventType::Baptism => ("baptism", Some("subject"), Some("baptism-place"), LabelTemplate::SubjectWas("baptized")),
            LocalEventType::Burial => ("burial", Some("subject"), Some("burial-place"), LabelTemplate::SubjectWas("buried")),
            LocalEventType::Residence => ("residence", Some("subject"), Some("residence"), LabelTemplate::SubjectDid("lived somewhere")),
            LocalEventType::Occupation => ("occupation", Some("subject"), Some("workplace"), LabelTemplate::SubjectDid("had an occupation")),
            LocalEventType::Divorce => ("divorce", Some("partner"), Some("divorce-place"), LabelTemplate::Divorce),
            LocalEventType::Adoption => ("adoption", Some("subject"), Some("adoption-place"), LabelTemplate::SubjectWas("adopted")),
            LocalEventType::Education => ("education", Some("student"), Some("school"), LabelTemplate::SubjectDid("studied")),
            LocalEventType::MilitaryService => ("military-service", Some("service-member"), Some("service-place"), LabelTemplate::SubjectDid("served in the military")),
            LocalEventType::Immigration => ("immigration", Some("migrant"), Some("destination"), LabelTemplate::SubjectDid("immigrated")),
            LocalEventType::Emigration => ("emigration", Some("migrant"), Some("origin"), LabelTemplate::SubjectDid("emigrated")),
            LocalEventType::Naturalization => ("naturalization", Some("subject"), Some("naturalization-place"), LabelTemplate::SubjectWas("naturalized")),
            LocalEventType::Census => ("census", Some("enumerated-person"), Some("enumeration-place"), LabelTemplate::SubjectWas("recorded in a census")),
            LocalEventType::NameChange => ("name-change", Some("subject"), None, LabelTemplate::SubjectDid("changed names")),
            LocalEventType::Custom(value) => (value.as_str(), None, None, LabelTemplate::NoLabel),
        };
        LocalEventProfile {
            event_type: event_type.to_owned(),
            default_participant_role: participant,
            default_location_role: location,
            label,
        }
    }

    /// The label of an event of this type for people named `names`.
    pub fn default_label(&self, names: &Vec<String>) -> (r: Option<String>)
        ensures
            opt_string(r) == spec_default_label(tag_of(*self), texts(names@)),
    {
        let p = self.profile();
        p.label.render(names)
    }

    pub fn default_participant_role(&self) -> (r: Option<&'static str>)
        ensures
            opt_static(r) == participant_role(tag_of(*self)),
    {
        self.profile().default_participant_role
    }

    pub fn default_location_role(&self) -> (r: Option<&'static str>)
        ensures
            opt_static(r) == location_role(tag_of(*self)),
    {
        self.profile().default_location_role
    }
}

/// The text a label template gives for people named `names`.
pub open spec fn label_text(l: LabelTemplate, names: Seq<Seq<char>>) -> Option<Seq<char>> {
    if names.len() == 0 {
        None
    } else {
        match l {
            LabelTemplate::SubjectWas(a) => Some(names[0] + " was "@ + a@),
            LabelTemplate::SubjectDid(a) => Some(names[0] + " "@ + a@),
            LabelTemplate::Marriage => Some(
                if names.len() >= 2 {
                    names[0] + " and "@ + names[1] + " married"@
                } else {
                    names[0] + " married"@
                },
            ),
            LabelTemplate::Divorce => Some(
                if names.len() >= 2 {
                    names[0] + " and "@ + names[1] + " divorced"@
                } else {
                    names[0] + " divorced"@
                },
            ),
            LabelTemplate::NoLabel => None,
        }
    }
}


// ---------------------------------------------------------------------------
// Event records.

/// The type name of an event record.
pub open spec fn record_type_name(r: LocalMarkdownRecord) -> Option<Seq<char>> {
    if r.kind@ == "event"@ {
        attr_text(r, "type"@)
    } else {
        None
    }
}

/// The role of an event record's people.
pub open spec fn record_default_role(r: LocalMarkdownRecord) -> Option<Seq<char>> {
    match record_type_name(r) {
        Some(n) => participant_role(tag_of_name(n)),
        None => None,
    }
}

/// The role of an event record's places.
pub open spec fn record_default_location_role(r: LocalMarkdownRecord) -> Option<Seq<char>> {
    match record_type_name(r) {
        Some(n) => location_role(tag_of_name(n)),
        None => None,
    }
}

fn attr_str_of<'a>(r: &'a LocalMarkdownRecord, key: &str) -> (t: Option<&'a str>)
    ensures
        opt_text(t) == attr_text(*r, key@),
{
    match r.attr(key) {
        Some(v) => v.as_str(),
        None => None,
    }
}

/// The type of an event record.
pub fn local_event_type(record: &LocalMarkdownRecord) -> (t: Option<LocalEventType>)
    ensures
        match t {
            Some(x) => record_type_name(*record) == Some(event_type_name(x)) && tag_of(x)
                == tag_of_name(event_type_name(x)),
            None => record_type_name(*record) is None,
        },
{
    if !str_eq(record.kind.as_str(), "event") {
        return None;
    }
    match attr_str_of(record, "type") {
        Some(v) => Some(LocalEventType::from_str(v)),
        None => None,
    }
}

/// The type name of an event record.
pub fn local_event_type_id(record: &LocalMarkdownRecord) -> (r: Option<String>)
    ensures
        opt_string(r) == record_type_name(*record),
{
    match local_event_type(record) {
        Some(t) => Some(t.profile().event_type),
        None => None,
    }
}

/// The parts of a file name between `--`.
pub open spec fn dd_parts(s: Seq<char>) -> Seq<Seq<char>>
    decreases s.len(),
{
    match first_occurrence(s, "--"@) {
        Some(i) => {
            proof {
                lemma_first_occurrence(s, "--"@);
                reveal_strlit("--");
            }
            seq![s.take(i)] + dd_parts(s.skip(i + 2))
        },
        None => seq![s],
    }
}

/// The first part that names a person: `person=<id>` or `participant=<id>`.
pub open spec fn first_person_part(parts: Seq<Seq<char>>) -> Option<Seq<char>>
    decreases parts.len(),
{
    if parts.len() == 0 {
        None
    } else if has_prefix(parts[0], "person="@) {
        Some(parts[0].skip(7))
    } else if has_prefix(parts[0], "participant="@) {
        Some(parts[0].skip(12))
    } else {
        first_person_part(parts.drop_first())
    }
}

/// The person a Markdown file's name names, as `--person=<id>`.
pub open spec fn filename_person(path: Seq<char>) -> Option<Seq<char>> {
    let name = file_name(path);
    if name.len() >= 3 && name.skip(name.len() - 3) == ".md"@ {
        first_person_part(dd_parts(name.take(name.len() - 3)))
    } else {
        None
    }
}

/// Who `self` stands for in a record: its `subject`, the person of a birth
/// event's id, or the person its file name names.
pub open spec fn spec_infer_self(r: LocalMarkdownRecord) -> Option<Seq<char>> {
    match attr_text(r, "subject"@) {
        Some(s) if s != "self"@ && !is_blank(s) => Some(spec_contextual_id(s, "person"@)),
        _ => if r.kind@ == "event"@ && has_prefix(r.id@, "event:birth-"@) && !is_blank(r.id@.skip(12)) {
            Some(spec_contextual_id(r.id@.skip(12), "person"@))
        } else {
            match filename_person(r.path@) {
                Some(p) => if !is_blank(p) {
                    Some(spec_contextual_id(p, "person"@))
                } else {
                    None
                },
                None => None,
            }
        },
    }
}

/// The parts of a text between `--`.
pub proof fn lemma_dd_parts_nonempty(s: Seq<char>)
    ensures
        dd_parts(s).len() >= 1,
{
}

pub fn dd_split(s: &str) -> (parts: Vec<String>)
    ensures
        texts(parts@) == dd_parts(s@),
{
    proof {
        reveal_strlit("--");
    }
    let mut out: Vec<String> = Vec::new();
    let mut rest: String = s.to_owned();
    assert(texts(out@) + dd_parts(rest@) =~= dd_parts(s@));
    loop
        invariant
            texts(out@) + dd_parts(rest@) == dd_parts(s@),
        decreases rest@.len(),
    {
        proof {
            reveal_strlit("--");
            lemma_first_occurrence(rest@, "--"@);
        }
        let n = rest.unicode_len();
        match find_str(rest.as_str(), "--") {
            Some(i) => {
                let part = rest.as_str().substring_char(0, i).to_owned();
                let tail = rest.as_str().substring_char(i + 2, n).to_owned();
                assert(part@ =~= rest@.take(i as int));
                assert(tail@ =~= rest@.skip(i + 2));
                assert(dd_parts(rest@) == seq![part@] + dd_parts(tail@));
                let ghost before = texts(out@);
                out.push(part);
                assert(texts(out@) =~= before.push(part@));
                assert(texts(out@) + dd_parts(tail@) =~= before + dd_parts(rest@));
                rest = tail;
            },
            None => {
                assert(dd_parts(rest@) == seq![rest@]);
                let ghost before = texts(out@);
                out.push(rest);
                assert(texts(out@) =~= before + dd_parts(s@).skip(before.len() as int));
                assert(texts(out@) =~= dd_parts(s@));
                return out;
            },
        }
    }
}

proof fn lemma_first_person_part(parts: Seq<Seq<char>>, k: int)
    requires
        0 <= k <= parts.len(),
        forall|j: int| 0 <= j < k ==> !has_prefix(#[trigger] parts[j], "person="@) && !has_prefix(
            parts[j],
            "participant="@,
        ),
    ensures
        first_person_part(parts) == first_person_part(parts.skip(k)),
    decreases k,
{
    if k > 0 {
        lemma_first_person_part(parts.drop_first(), k - 1);
        assert(parts.drop_first().skip(k - 1) =~= parts.skip(k));
    } else {
        assert(parts.skip(0) =~= parts);
    }
}

fn first_person_part_exec(stem: &str) -> (r: Option<String>)
    ensures
        opt_string(r) == first_person_part(dd_parts(stem@)),
{
    proof {
        reveal_strlit("person=");
        reveal_strlit("participant=");
    }
    let parts = dd_split(stem);
    let ghost ps = texts(parts@);
    let mut k: usize = 0;
    while k < parts.len()
        invariant
            k <= parts@.len(),
            ps == texts(parts@),
            ps == dd_parts(stem@),
            forall|j: int| 0 <= j < k ==> !has_prefix(#[trigger] ps[j], "person="@) && !has_prefix(
                ps[j],
                "participant="@,
            ),
        decreases parts@.len() - k,
    {
        proof {
            reveal_strlit("person=");
            reveal_strlit("participant=");
        }
        let part = parts[k].as_str();
        let m = part.unicode_len();
        if starts_with(part, "person=") {
            proof {
                lemma_first_person_part(ps, k as int);
            }
            return Some(part.substring_char(7, m).to_owned());
        }
        if starts_with(part, "participant=") {
            proof {
                lemma_first_person_part(ps, k as int);
            }
            return Some(part.substring_char(12, m).to_owned());
        }
        k = k + 1;
    }
    proof {
        lemma_first_person_part(ps, k as int);
        assert(ps.skip(k as int) =~= seq![]);
    }
    None
}

fn infer_self_participant_entity(r: &LocalMarkdownRecord) -> (e: Option<String>)
    ensures
        opt_string(e) == spec_infer_self(*r),
{
    if let Some(s) = attr_str_of(r, "subject") {
        if !str_eq(s, "self") && !is_blank_str(s) {
            return Some(normalize_person_id(s));
        }
    }
    proof {
        reveal_strlit("event:birth-");
        reveal_strlit(".md");
    }
    if str_eq(r.kind.as_str(), "event") && starts_with(r.id.as_str(), "event:birth-") {
        let n = r.id.unicode_len();
        let slug = r.id.as_str().substring_char(12, n);
        assert(slug@ =~= r.id@.skip(12));
        if !is_blank_str(slug) {
            return Some(normalize_person_id(slug));
        }
    }
    let name = file_name_exec(r.path.as_str());
    let m = name.unicode_len();
    if m >= 3 && str_eq(name.as_str().substring_char(m - 3, m), ".md") {
        assert(name@.subrange(m - 3, m as int) =~= name@.skip(m - 3));
        let stem = name.as_str().substring_char(0, m - 3);
        assert(stem@ =~= name@.take(m - 3));
        match first_person_part_exec(stem) {
            Some(p) => if !is_blank_str(p.as_str()) {
                Some(normalize_person_id(p.as_str()))
            } else {
                None
            },
            None => None,
        }
    } else {
        None
    }
}

/// A person taking part in an event, in a role.
#[derive(Debug, PartialEq, Eq)]
pub struct LocalParticipantRef {
    pub entity: String,
    pub role: Option<String>,
}

pub type RefView = (Seq<char>, Option<Seq<char>>);

pub open spec fn ref_view(p: LocalParticipantRef) -> RefView {
    (p.entity@, opt_string(p.role))
}

pub open spec fn ref_views(ps: Seq<LocalParticipantRef>) -> Seq<RefView> {
    ps.map_values(|p: LocalParticipantRef| ref_view(p))
}

/// The participant an entry of `participants` gives: an id (or `self`), or
/// a table with an `entity` and maybe a `role`; `role` is the event's
/// default role.
pub open spec fn spec_participant_ref(r: LocalMarkdownRecord, v: JsonValue, role: Option<Seq<char>>) -> Option<RefView> {
    match v {
        JsonValue::Str(e) => if e@ == "self"@ {
            match spec_infer_self(r) {
                Some(x) => Some((x, role)),
                None => None,
            }
        } else if !is_blank(e@) {
            Some((spec_contextual_id(e@, "person"@), role))
        } else {
            None
        },
        JsonValue::Object(es) => match opt_str(lookup(es@, "entity"@)) {
            Some(e) => {
                let entity = if e == "self"@ {
                    spec_infer_self(r)
                } else {
                    Some(spec_contextual_id(e, "person"@))
                };
                match entity {
                    Some(x) => Some(
                        (
                            x,
                            match opt_str(lookup(es@, "role"@)) {
                                Some(ro) => Some(ro),
                                None => role,
                            },
                        ),
                    ),
                    None => None,
                }
            },
            None => None,
        },
        _ => None,
    }
}

fn clone_role(role: Option<&str>) -> (r: Option<String>)
    ensures
        opt_string(r) == opt_text(role),
{
    match role {
        Some(x) => Some(x.to_owned()),
        None => None,
    }
}

fn normalize_participant_ref(r: &LocalMarkdownRecord, v: &JsonValue, role: Option<&str>) -> (p: Option<LocalParticipantRef>)
    ensures
        match p {
            Some(x) => spec_participant_ref(*r, *v, opt_text(role)) == Some(ref_view(x)),
            None => spec_participant_ref(*r, *v, opt_text(role)) is None,
        },
{
    match v {
        JsonValue::Str(e) => {
            if str_eq(e.as_str(), "self") {
                match infer_self_participant_entity(r) {
                    Some(x) => Some(LocalParticipantRef { entity: x, role: clone_role(role) }),
                    None => None,
                }
            } else if !is_blank_str(e.as_str()) {
                Some(LocalParticipantRef { entity: normalize_person_id(e.as_str()), role: clone_role(role) })
            } else {
                None
            }
        },
        JsonValue::Object(es) => {
            let e = match crate::local_authoring::data::get_entry(es, "entity") {
                Some(x) => x.as_str(),
                None => None,
            };
            let e = match e {
                Some(e) => e,
                None => return None,
            };
            let entity = if str_eq(e, "self") {
                infer_self_participant_entity(r)
            } else {
                Some(normalize_person_id(e))
            };
            let entity = match entity {
                Some(x) => x,
                None => return None,
            };
            let own = match crate::local_authoring::data::get_entry(es, "role") {
                Some(x) => x.as_str(),
                None => None,
            };
            let role = match own {
                Some(ro) => Some(ro.to_owned()),
                None => clone_role(role),
            };
            Some(LocalParticipantRef { entity, role })
        },
        _ => None,
    }
}

/// The participants that the entries of `participants` give, in order.
pub open spec fn explicit_refs(r: LocalMarkdownRecord, role: Option<Seq<char>>, items: Seq<JsonValue>) -> Seq<RefView>
    decreases items.len(),
{
    if items.len() == 0 {
        seq![]
    } else {
        explicit_refs(r, role, items.drop_last()) + match spec_participant_ref(r, items.last(), role) {
            Some(x) => seq![x],
            None => seq![],
        }
    }
}

/// Some participant in `acc` is `e`.
pub open spec fn has_ref_entity(acc: Seq<RefView>, e: Seq<char>) -> bool {
    exists|i: int| 0 <= i < acc.len() && (#[trigger] acc[i]).0 == e
}

/// `items` added to `acc`, leaving out people that are there already.
pub open spec fn add_new_refs(acc: Seq<RefView>, items: Seq<RefView>) -> Seq<RefView>
    decreases items.len(),
{
    if items.len() == 0 {
        acc
    } else {
        let next = if has_ref_entity(acc, items[0].0) {
            acc
        } else {
            acc.push(items[0])
        };
        add_new_refs(next, items.drop_first())
    }
}

/// The people of an event: its `subject` (in the event's role, or as
/// subject), then those of `participants` that are not there already.
pub open spec fn spec_participant_refs(r: LocalMarkdownRecord) -> Seq<RefView> {
    let role = record_default_role(r);
    let first = match attr_text(r, "subject"@) {
        Some(s) if !is_blank(s) => seq![
            (
                spec_contextual_id(s, "person"@),
                match role {
                    Some(x) => Some(x),
                    None => Some("subject"@),
                },
            ),
        ],
        _ => seq![],
    };
    match lookup(r.attributes@, "participants"@) {
        Some(JsonValue::Array(items)) => add_new_refs(first, explicit_refs(r, role, items@)),
        _ => first,
    }
}

fn has_entity(acc: &Vec<LocalParticipantRef>, e: &str) -> (b: bool)
    ensures
        b == has_ref_entity(ref_views(acc@), e@),
{
    let mut i: usize = 0;
    while i < acc.len()
        invariant
            i <= acc@.len(),
            forall|j: int| 0 <= j < i ==> (#[trigger] acc@[j]).entity@ != e@,
        decreases acc@.len() - i,
    {
        if str_eq(acc[i].entity.as_str(), e) {
            assert(ref_views(acc@)[i as int].0 == e@);
            return true;
        }
        i = i + 1;
    }
    assert(!has_ref_entity(ref_views(acc@), e@)) by {
        if has_ref_entity(ref_views(acc@), e@) {
            let k = choose|k: int| 0 <= k < ref_views(acc@).len() && (#[trigger] ref_views(acc@)[k]).0 == e@;
            assert(acc@[k].entity@ == e@);
        }
    }
    false
}

proof fn lemma_add_new_refs_push(acc: Seq<RefView>, items: Seq<RefView>, x: RefView)
    ensures
        add_new_refs(acc, items.push(x)) == (if has_ref_entity(add_new_refs(acc, items), x.0) {
            add_new_refs(acc, items)
        } else {
            add_new_refs(acc, items).push(x)
        }),
    decreases items.len(),
{
    if items.len() == 0 {
        assert(items.push(x)[0] == x);
        assert(items.push(x).drop_first() =~= seq![]);
        let n2 = if has_ref_entity(acc, x.0) {
            acc
        } else {
            acc.push(x)
        };
        assert(add_new_refs(n2, seq![]) == n2);
        assert(add_new_refs(acc, items) == acc);
    } else {
        assert(items.push(x)[0] == items[0]);
        assert(items.push(x).drop_first() =~= items.drop_first().push(x));
        let next = if has_ref_entity(acc, items[0].0) {
            acc
        } else {
            acc.push(items[0])
        };
        lemma_add_new_refs_push(next, items.drop_first(), x);
    }
}

/// The people of an event, each once.
pub fn event_participant_refs(r: &LocalMarkdownRecord) -> (ps: Vec<LocalParticipantRef>)
    ensures
        ref_views(ps@) == spec_participant_refs(*r),
{
    let role: Option<&'static str> = match local_event_type(r) {
        Some(t) => t.default_participant_role(),
        None => None,
    };
    assert(opt_static(role) == record_default_role(*r));
    let mut out: Vec<LocalParticipantRef> = Vec::new();
    if let Some(s) = attr_str_of(r, "subject") {
        if !is_blank_str(s) {
            let subject_role = match role {
                Some(x) => Some(x.to_owned()),
                None => Some("subject".to_owned()),
            };
            out.push(LocalParticipantRef { entity: normalize_person_id(s), role: subject_role });
        }
    }
    let ghost first = ref_views(out@);
    assert(first =~= match attr_text(*r, "subject"@) {
        Some(s) if !is_blank(s) => seq![
            (
                spec_contextual_id(s, "person"@),
                match record_default_role(*r) {
                    Some(x) => Some(x),
                    None => Some("subject"@),
                },
            ),
        ],
        _ => seq![],
    });
    let items = match r.attr("participants") {
        Some(JsonValue::Array(items)) => items,
        _ => return out,
    };
    let mut i: usize = 0;
    while i < items.len()
        invariant
            i <= items@.len(),
            opt_static(role) == record_default_role(*r),
            ref_views(out@) == add_new_refs(first, explicit_refs(*r, record_default_role(*r), items@.take(i as int))),
        decreases items@.len() - i,
    {
        let ghost t = items@.take(i + 1);
        assert(t.drop_last() =~= items@.take(i as int));
        assert(t.last() == items@[i as int]);
        let ghost prev = explicit_refs(*r, record_default_role(*r), items@.take(i as int));
        match normalize_participant_ref(r, &items[i], role) {
            Some(p) => {
                proof {
                    lemma_add_new_refs_push(first, prev, ref_view(p));
                    assert(explicit_refs(*r, record_default_role(*r), t) =~= prev.push(ref_view(p)));
                }
                if !has_entity(&out, p.entity.as_str()) {
                    let ghost before = ref_views(out@);
                    out.push(p);
                    assert(ref_views(out@) =~= before.push(ref_view(p)));
                }
            },
            None => {
                assert(explicit_refs(*r, record_default_role(*r), t) =~= prev);
            },
        }
        i = i + 1;
    }
    assert(items@.take(i as int) =~= items@);
    out
}

/// The ids of the people of an event.
pub fn event_participant_entity_ids(r: &LocalMarkdownRecord) -> (ids: Vec<String>)
    ensures
        texts(ids@) == spec_participant_refs(*r).map_values(|x: RefView| x.0),
{
    let ps = event_participant_refs(r);
    let mut out: Vec<String> = Vec::new();
    let mut i: usize = 0;
    while i < ps.len()
        invariant
            i <= ps@.len(),
            ref_views(ps@) == spec_participant_refs(*r),
            texts(out@) == ref_views(ps@).take(i as int).map_values(|x: RefView| x.0),
        decreases ps@.len() - i,
    {
        let ghost before = texts(out@);
        out.push(ps[i].entity.clone());
        assert(texts(out@) =~= before.push(ps@[i as int].entity@));
        assert(ref_views(ps@).take(i + 1) =~= ref_views(ps@).take(i as int).push(ref_view(ps@[i as int])));
        assert(texts(out@) =~= ref_views(ps@).take(i + 1).map_values(|x: RefView| x.0));
        i = i + 1;
    }
    assert(ref_views(ps@).take(i as int) =~= ref_views(ps@));
    out
}

/// A character an event type may not hold.
pub open spec fn bad_type_char(c: char) -> bool {
    is_unicode_whitespace(c) || c == '/' || c == '\\' || c == ':'
}

pub open spec fn has_bad_type_char(value: Seq<char>) -> bool {
    exists|i: int| 0 <= i < value.len() && bad_type_char(#[trigger] value[i])
}

/// Why an event type is not accepted, if it is not.
pub open spec fn event_type_error(value: Seq<char>, path: Seq<char>) -> Option<Seq<char>> {
    if is_blank(value) {
        Some(path + " event `type` cannot be empty"@)
    } else if has_bad_type_char(value) {
        Some(path + " event type `"@ + value + "` may not contain whitespace, slashes, or colons"@)
    } else {
        None
    }
}

/// An event type is a non-blank word without whitespace, slashes or colons.
pub fn validate_event_type_value(value: &str, path: &str) -> (r: Result<(), LocalAuthoringError>)
    ensures
        match event_type_error(value@, path@) {
            Some(m) => r matches Err(e) && is_validation(e, m),
            None => r is Ok,
        },
{
    if is_blank_str(value) {
        let mut m = path.to_owned();
        m.append(" event `type` cannot be empty");
        return Err(LocalAuthoringError::validation(m));
    }
    let n = value.unicode_len();
    let mut i: usize = 0;
    while i < n
        invariant
            n == value@.len(),
            i <= n,
            !is_blank(value@),
            forall|j: int| 0 <= j < i ==> !bad_type_char(#[trigger] value@[j]),
        decreases n - i,
    {
        let c = value.get_char(i);
        if char_is_whitespace(c) || c == '/' || c == '\\' || c == ':' {
            assert(bad_type_char(value@[i as int]));
            assert(has_bad_type_char(value@));
            let mut m = path.to_owned();
            m.append(" event type `");
            m.append(value);
            m.append("` may not contain whitespace, slashes, or colons");
            return Err(LocalAuthoringError::validation(m));
        }
        i = i + 1;
    }
    Ok(())
}
} // verus!
