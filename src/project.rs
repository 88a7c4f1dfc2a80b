//! The record of one discovered project.

use vstd::prelude::*;
use crate::paths::uncategorized;
use crate::tags::texts;

verus! {

/// Where a project stands, as far as its version control tells.
#[derive(Clone, Copy, Debug, PartialEq, Eq, Structural)]
pub enum ProjectStatus {
    /// Under version control, and the status query succeeded.
    Active,
    /// No longer maintained.
    Archived,
    /// Not under version control, or its state could not be read.
    Unknown,
}

impl ProjectStatus {
    /// The lowercase name under which the status is written in the index.
    pub fn as_str(&self) -> (r: &'static str)
        ensures
            *self == ProjectStatus::Active ==> r@ == "active"@,
            *self == ProjectStatus::Archived ==> r@ == "archived"@,
            *self == ProjectStatus::Unknown ==> r@ == "unknown"@,
    {
        match self {
            ProjectStatus::Active => "active",
            ProjectStatus::Archived => "archived",
            ProjectStatus::Unknown => "unknown",
        }
    }
}

/// What the index records of a project: name, path, category, status and
/// tags.
pub type ProjectRecord = (Seq<char>, Seq<char>, Seq<char>, ProjectStatus, Seq<Seq<char>>);

/// One discovered project directory.
#[derive(Clone, Debug)]
pub struct Project {
    /// The last segment of the path.
    pub name: String,
    /// The directory's path.
    pub path: String,
    /// The grouping label taken from the directory's position.
    pub category: String,
    pub status: ProjectStatus,
    /// Lowercase tags, in the order they were produced.
    pub tags: Vec<String>,
    /// When the directory was observed, in seconds since the Unix epoch;
    /// `None` until it is.
    pub last_modified: Option<i64>,
}

impl View for Project {
    type V = ProjectRecord;

    /// The fields that the index holds; the time of observation is not one.
    open spec fn view(&self) -> ProjectRecord {
        (self.name@, self.path@, self.category@, self.status, texts(self.tags@))
    }
}

impl Project {
    /// A project with the given name and path, not yet classified: category
    /// `uncategorized`, status unknown, no tags, no time of observation.
    pub fn new(name: String, path: String) -> (r: Project)
        ensures
            r@ == (name@, path@, uncategorized(), ProjectStatus::Unknown, Seq::<Seq<char>>::empty()),
            r.last_modified is None,
    {
        let category = String::from_str("uncategorized");
        proof {
            reveal_strlit("uncategorized");
            assert(category@ =~= uncategorized());
        }
        let tags: Vec<String> = Vec::new();
        assert(texts(tags@) =~= Seq::<Seq<char>>::empty());
        Project {
            name,
            path,
            category,
            status: ProjectStatus::Unknown,
            tags,
            last_modified: None,
        }
    }
}

} // verus!
