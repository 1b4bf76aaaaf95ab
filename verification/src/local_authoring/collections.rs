//! Event collections: named sets or sequences of events, one TOML file each.
use vstd::prelude::*;
use crate::local_authoring::error::{fails_with, LocalAuthoringError};
use crate::local_authoring::paths::WorldPaths;
use crate::local_authoring::plan::{
    existing_rule, spec_existing_rule, text_file, text_file_new, WritePlan,
};
use crate::local_authoring::refs::{
    checked, collection_slug_error, prefixed_id_error, validate_collection_slug,
    validate_prefixed_id,
};
use crate::text::{decimal, escape_toml, escape_toml_basic, path_join, u64_to_decimal};

verus! {

/// An unordered set of events, or a sequence.
#[derive(Debug, Clone, Copy, PartialEq, Eq, Structural)]
pub enum LocalCollectionKind {
    Unordered,
    Sequence,
}

#[derive(Debug, Clone, Copy, PartialEq, Eq, Structural)]
pub enum LocalCollectionOrder {
    Chronological,
    Manual,
    ManualThenChronological,
}

#[derive(Debug, PartialEq, Eq)]
pub struct LocalCollectionOptions {
    pub collection_slug: String,
    pub title: String,
    pub kind: LocalCollectionKind,
    pub order: LocalCollectionOrder,
    pub members: Vec<String>,
    pub force: bool,
}

impl LocalCollectionOptions {
    pub open spec fn spec_id(&self) -> Seq<char> {
        "collection:"@ + self.collection_slug@
    }

    pub fn id(&self) -> (r: String)
        ensures
            r@ == self.spec_id(),
    {
        let mut r = "collection:".to_owned();
        r.append(self.collection_slug.as_str());
        r
    }
}

impl LocalCollectionKind {
    pub open spec fn spec_as_str(self) -> Seq<char> {
        match self {
            LocalCollectionKind::Unordered => "set"@,
            LocalCollectionKind::Sequence => "sequence"@,
        }
    }

    pub fn as_str(self) -> (r: &'static str)
        ensures
            r@ == self.spec_as_str(),
    {
        match self {
            LocalCollectionKind::Unordered => "set",
            LocalCollectionKind::Sequence => "sequence",
        }
    }
}

impl LocalCollectionOrder {
    pub open spec fn spec_as_str(self) -> Seq<char> {
        match self {
            LocalCollectionOrder::Chronological => "chronological"@,
            LocalCollectionOrder::Manual => "manual"@,
            LocalCollectionOrder::ManualThenChronological => "manual_then_chronological"@,
        }
    }

    pub fn as_str(self) -> (r: &'static str)
        ensures
            r@ == self.spec_as_str(),
    {
        match self {
            LocalCollectionOrder::Chronological => "chronological",
            LocalCollectionOrder::Manual => "manual",
            LocalCollectionOrder::ManualThenChronological => "manual_then_chronological",
        }
    }
}

/// The first member that is no prefixed id, as an error.
pub open spec fn members_error(members: Seq<String>) -> Option<Seq<char>>
    decreases members.len(),
{
    if members.len() == 0 {
        None
    } else {
        match members_error(members.drop_last()) {
            Some(m) => Some(m),
            None => prefixed_id_error(members.last()@, "collection member"@),
        }
    }
}

proof fn lemma_members_error_prefix(members: Seq<String>, k: int)
    requires
        0 <= k <= members.len(),
        members_error(members.take(k)).is_some(),
    ensures
        members_error(members) == members_error(members.take(k)),
    decreases members.len(),
{
    if k < members.len() {
        assert(members.drop_last().take(k) =~= members.take(k));
        lemma_members_error_prefix(members.drop_last(), k);
    } else {
        assert(members.take(k) =~= members);
    }
}

/// The member tables of the first `n` members, numbered 10, 20, ...
pub open spec fn member_tables(members: Seq<String>, n: int) -> Seq<char>
    decreases n,
{
    if n <= 0 {
        seq![]
    } else {
        member_tables(members, n - 1) + "\n[[members]]\nevent = \""@ + escape_toml(members[n - 1]@)
            + "\"\nordinal = "@ + decimal((n * 10) as nat) + "\n"@
    }
}

/// The TOML text of a collection file.
pub open spec fn spec_collection_toml(options: LocalCollectionOptions) -> Seq<char> {
    "schema_version = 1\nid = \""@ + escape_toml(options.spec_id()) + "\"\nkind = \"event-collection\"\ntitle = \""@
        + escape_toml(options.title@) + "\"\ncollection_kind = \""@ + options.kind.spec_as_str()
        + "\"\n"@ + (if options.kind == LocalCollectionKind::Sequence {
        "order = \""@ + options.order.spec_as_str() + "\"\n"@
    } else {
        seq![]
    }) + (if options.members@.len() == 0 {
        "\n# Add events in editor-friendly TOML:\n# [[members]]\n# event = \"event:example\"\n# label = \"Example\"\n# role = \"reference\"\n"@
    } else {
        member_tables(options.members@, options.members@.len() as int)
    })
}

fn collection_toml(options: &LocalCollectionOptions) -> (r: String)
    requires
        options.members@.len() <= 214748364,
    ensures
        r@ == spec_collection_toml(*options),
{
    let mut text = "schema_version = 1\nid = \"".to_owned();
    text.append(escape_toml_basic(options.id().as_str()).as_str());
    text.append("\"\nkind = \"event-collection\"\ntitle = \"");
    text.append(escape_toml_basic(options.title.as_str()).as_str());
    text.append("\"\ncollection_kind = \"");
    text.append(options.kind.as_str());
    text.append("\"\n");
    if options.kind == LocalCollectionKind::Sequence {
        text.append("order = \"");
        text.append(options.order.as_str());
        text.append("\"\n");
    }
    let ghost head = text@;
    let n = options.members.len();
    if n == 0 {
        text.append(
            "\n# Add events in editor-friendly TOML:\n# [[members]]\n# event = \"event:example\"\n# label = \"Example\"\n# role = \"reference\"\n",
        );
    } else {
        let mut i: usize = 0;
        while i < n
            invariant
                n == options.members@.len(),
                n <= 214748364,
                i <= n,
                text@ == head + member_tables(options.members@, i as int),
            decreases n - i,
        {
            text.append("\n[[members]]\nevent = \"");
            text.append(escape_toml_basic(options.members[i].as_str()).as_str());
            text.append("\"\nordinal = ");
            let ordinal: u64 = ((i as u64) + 1) * 10;
            text.append(u64_to_decimal(ordinal).as_str());
            text.append("\n");
            i = i + 1;
        }
    }
    text
}

/// The plan of a collection file, or the first problem with the options:
/// the slug, then each member.
pub open spec fn collection_plan_ok(world_root: Seq<char>, options: LocalCollectionOptions, p: WritePlan) -> bool {
    let dir = path_join(world_root, "collections"@);
    &&& p.root@ == world_root
    &&& p.dirs@.len() == 1
    &&& p.dirs@[0]@ == dir
    &&& p.files@.len() == 1
    &&& text_file(
        p.files@[0],
        path_join(dir, options.collection_slug@ + ".toml"@),
        spec_collection_toml(options),
        spec_existing_rule(options.force, true),
    )
}

/// Plans the file of a new collection under `collections/`. Without
/// `force`, an existing file of that name is refused.
pub fn create_local_collection(world_root: &str, options: &LocalCollectionOptions) -> (r: Result<
    WritePlan,
    LocalAuthoringError,
>)
    requires
        options.members@.len() <= 214748364,
    ensures
        match collection_slug_error(options.collection_slug@, "collection slug"@) {
            Some(m) => fails_with(r, m),
            None => match members_error(options.members@) {
                Some(m) => fails_with(r, m),
                None => r matches Ok(p) && collection_plan_ok(world_root@, *options, p),
            },
        },
{
    validate_collection_slug(options.collection_slug.as_str(), "collection slug")?;
    let n = options.members.len();
    let mut i: usize = 0;
    while i < n
        invariant
            n == options.members@.len(),
            i <= n,
            collection_slug_error(options.collection_slug@, "collection slug"@).is_none(),
            members_error(options.members@.take(i as int)).is_none(),
        decreases n - i,
    {
        assert(options.members@.take(i + 1).drop_last() =~= options.members@.take(i as int));
        match validate_prefixed_id(options.members[i].as_str(), "collection member") {
            Err(e) => {
                proof {
                    assert(options.members@.take(i + 1).last() == options.members@[i as int]);
                    lemma_members_error_prefix(options.members@, i + 1);
                }
                return Err(e);
            },
            Ok(()) => {},
        }
        i = i + 1;
    }
    assert(options.members@.take(n as int) =~= options.members@);
    let paths = WorldPaths::new(world_root);
    let dir = paths.collections_dir();
    let mut file_name = options.collection_slug.clone();
    file_name.append(".toml");
    let path = crate::text::join_path(dir.as_str(), file_name.as_str());
    let mut dirs: Vec<String> = Vec::new();
    dirs.push(dir);
    let mut files = Vec::new();
    files.push(text_file_new(path, collection_toml(options), existing_rule(options.force, true)));
    Ok(WritePlan { root: world_root.to_owned(), dirs, files })
}

} // verus!
