use vstd::prelude::*;
use crate::projects::QueryProject;

verus! {

/// A moment in time, held as the timestamp the storage layer keeps.
#[derive(Debug, Clone, Copy, PartialEq, Eq, Structural)]
pub struct DateTime {
    pub seconds: i64,
}

/// A testbed row as read from storage.
#[derive(Debug, PartialEq, Eq)]
pub struct QueryTestbed {
    pub id: i32,
    pub uuid: String,
    pub project_id: i32,
    pub name: String,
    pub slug: String,
    pub created: DateTime,
    pub modified: DateTime,
}

/// The testbed as the interface returns it, carrying its project's
/// identifier in place of internal row ids.
#[derive(Debug, PartialEq, Eq)]
pub struct JsonTestbed {
    pub uuid: String,
    pub project: String,
    pub name: String,
    pub slug: String,
    pub created: DateTime,
    pub modified: DateTime,
}

impl QueryTestbed {
    /// Repacks the row for the interface. The row must belong to the given
    /// project: a parentage mismatch is a programming error, so those
    /// inputs are excluded here.
    pub fn into_json_for_project(self, project: &QueryProject) -> (r: JsonTestbed)
        requires
            self.project_id == project.id,
        ensures
            r.uuid == self.uuid,
            r.project == project.uuid,
            r.name == self.name,
            r.slug == self.slug,
            r.created == self.created,
            r.modified == self.modified,
    {
        let QueryTestbed { uuid, name, slug, created, modified, .. } = self;
        JsonTestbed {
            uuid,
            project: project.uuid.clone(),
            name,
            slug,
            created,
            modified,
        }
    }
}

/// A testbed row as inserted into storage.
#[derive(Debug, PartialEq, Eq)]
pub struct InsertTestbed {
    pub uuid: String,
    pub project_id: i32,
    pub name: String,
    pub slug: String,
    pub created: DateTime,
    pub modified: DateTime,
}

impl InsertTestbed {
    /// A new row carries the chosen identifiers and one timestamp for both
    /// its creation and its last change.
    pub fn from_parts(
        uuid: String,
        project_id: i32,
        name: String,
        slug: String,
        now: DateTime,
    ) -> (r: InsertTestbed)
        ensures
            r.uuid == uuid,
            r.project_id == project_id,
            r.name == name,
            r.slug == slug,
            r.created == now,
            r.modified == now,
    {
        InsertTestbed { uuid, project_id, name, slug, created: now, modified: now }
    }
}

/// How a caller may point at a testbed: by identifier, by slug, or by
/// display name.
#[derive(Debug, Clone, PartialEq, Eq)]
pub enum NameIdKind {
    Uuid(String),
    Slug(String),
    Name(String),
}

/// What a get-or-create pass decides once the lookup outcome is in hand.
#[derive(Debug, Clone, PartialEq, Eq)]
pub enum TestbedDecision {
    Found(i32),
    NoSuchTestbed,
    Insert { name: String, slug: Option<String> },
}

/// The get-or-create rule: a found row wins; an identifier that matched no
/// row is an error; a slug asks for a row under that slug and name; a name
/// asks for a row whose slug is still to be chosen.
pub open spec fn spec_testbed_decision(
    found: Option<i32>,
    kind: Option<NameIdKind>,
) -> TestbedDecision {
    match found {
        Some(id) => TestbedDecision::Found(id),
        None => match kind {
            None => TestbedDecision::NoSuchTestbed,
            Some(NameIdKind::Uuid(_)) => TestbedDecision::NoSuchTestbed,
            Some(NameIdKind::Slug(s)) => TestbedDecision::Insert { name: s, slug: Some(s) },
            Some(NameIdKind::Name(n)) => TestbedDecision::Insert { name: n, slug: None },
        },
    }
}

/// Decides one get-or-create pass from the lookup outcome and the caller's
/// way of naming the testbed; the storage calls themselves stay with the
/// caller.
pub fn testbed_decision(found: Option<i32>, kind: Option<NameIdKind>) -> (r: TestbedDecision)
    ensures
        r == spec_testbed_decision(found, kind),
{
    match found {
        Some(id) => TestbedDecision::Found(id),
        None => match kind {
            None => TestbedDecision::NoSuchTestbed,
            Some(NameIdKind::Uuid(_)) => TestbedDecision::NoSuchTestbed,
            Some(NameIdKind::Slug(s)) => {
                let name = s.clone();
                TestbedDecision::Insert { name, slug: Some(s) }
            },
            Some(NameIdKind::Name(n)) => TestbedDecision::Insert { name: n, slug: None },
        },
    }
}

/// A pending change to a testbed row.
#[derive(Debug, PartialEq, Eq)]
pub struct UpdateTestbed {
    pub name: Option<String>,
    pub slug: Option<String>,
    pub modified: DateTime,
}

impl UpdateTestbed {
    /// An update touches exactly the given fields and stamps the change.
    pub fn from_json(name: Option<String>, slug: Option<String>, now: DateTime) -> (r:
        UpdateTestbed)
        ensures
            r.name == name,
            r.slug == slug,
            r.modified == now,
    {
        UpdateTestbed { name, slug, modified: now }
    }
}

} // verus!
