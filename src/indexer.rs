//! The indexer: which walked directories are candidates, what each becomes,
//! and the order of the index.
//!
//! The caller walks the tree, asks the version-control tool and the
//! generation service, and reports what it saw; every decision on those
//! observations is taken here.

use vstd::prelude::*;
use crate::error::{ConfigurationError, OllamaError};
use crate::paths::{
    category_of, git_dir_name, inside_git, path_segments, relative, relative_segments, segments,
    uncategorized,
};
use crate::project::{Project, ProjectRecord, ProjectStatus};
use crate::tags::{
    is_clean_tag, lemma_response_tags_clean, response_tags, tags_from_enrichment, texts,
};
use crate::text::{
    lemma_text_lt_irreflexive, lemma_text_lt_transitive, text_less, text_lt, trim, trim_text,
};

verus! {

/// The directory names left out of a walk unless told otherwise.
pub open spec fn default_excluded() -> Seq<Seq<char>> {
    seq![
        ".git"@, "node_modules"@, "__pycache__"@, "target"@, ".idea"@, ".vscode"@, ".env"@,
        ".mypy_cache"@, "venv"@, ".gradio"@, "__MACOSX"@, "build"@, "dist"@, ".next"@, ".cache"@,
        ".pytest_cache"@, ".tox"@, ".eggs"@, "*.egg-info"@, "coverage"@, "htmlcov"@, ".coverage"@,
        ".DS_Store"@,
    ]
}

/// The directory names left out of a walk unless told otherwise.
pub fn default_excluded_dirs() -> (r: Vec<String>)
    ensures
        texts(r@) == default_excluded(),
{
    let mut v: Vec<String> = Vec::new();
    v.push(String::from_str(".git"));
    v.push(String::from_str("node_modules"));
    v.push(String::from_str("__pycache__"));
    v.push(String::from_str("target"));
    v.push(String::from_str(".idea"));
    v.push(String::from_str(".vscode"));
    v.push(String::from_str(".env"));
    v.push(String::from_str(".mypy_cache"));
    v.push(String::from_str("venv"));
    v.push(String::from_str(".gradio"));
    v.push(String::from_str("__MACOSX"));
    v.push(String::from_str("build"));
    v.push(String::from_str("dist"));
    v.push(String::from_str(".next"));
    v.push(String::from_str(".cache"));
    v.push(String::from_str(".pytest_cache"));
    v.push(String::from_str(".tox"));
    v.push(String::from_str(".eggs"));
    v.push(String::from_str("*.egg-info"));
    v.push(String::from_str("coverage"));
    v.push(String::from_str("htmlcov"));
    v.push(String::from_str(".coverage"));
    v.push(String::from_str(".DS_Store"));
    assert(texts(v@) =~= default_excluded());
    v
}

/// What a run is asked to do.
#[derive(Clone, Debug)]
pub struct IndexerConfig {
    /// The root of the walk.
    pub projects_dir: String,
    /// Where the index is written.
    pub index_file: String,
    /// Whether tags are asked of the generation service.
    pub enable_ollama: bool,
    /// The smallest depth below the root at which candidates lie.
    pub min_depth: usize,
    /// The largest depth below the root at which candidates lie.
    pub max_depth: usize,
    /// Directory names that are pruned with all they hold.
    pub excluded: Vec<String>,
}

impl IndexerConfig {
    /// A configuration over the given root and output, with candidates three
    /// levels down and the default exclusions.
    pub fn new(projects_dir: String, index_file: String, enable_ollama: bool) -> (r: IndexerConfig)
        ensures
            r.projects_dir == projects_dir,
            r.index_file == index_file,
            r.enable_ollama == enable_ollama,
            r.min_depth == 3,
            r.max_depth == 3,
            texts(r.excluded@) == default_excluded(),
    {
        IndexerConfig {
            projects_dir,
            index_file,
            enable_ollama,
            min_depth: 3,
            max_depth: 3,
            excluded: default_excluded_dirs(),
        }
    }
}

/// Whether a directory of this name is pruned: it is excluded by name, or
/// hidden.
pub open spec fn is_pruned(name: Seq<char>, excluded: Seq<Seq<char>>) -> bool {
    excluded.contains(name) || (name.len() > 0 && name[0] == '.')
}

/// The segments of `path` below the root of the walk.
pub open spec fn below_root(cfg: IndexerConfig, path: Seq<char>) -> Option<Seq<Seq<char>>> {
    relative(segments(cfg.projects_dir@), segments(path))
}

/// Whether a walked entry is a candidate: a directory under the root, at a
/// depth within the bounds, below no pruned directory and not pruned itself.
pub open spec fn selects(cfg: IndexerConfig, path: Seq<char>, is_dir: bool) -> bool {
    match relative(segments(cfg.projects_dir@), segments(path)) {
        Some(rel) => is_dir && cfg.min_depth <= rel.len() <= cfg.max_depth && forall|i: int|
            0 <= i < rel.len() ==> !is_pruned(#[trigger] rel[i], texts(cfg.excluded@)),
        None => false,
    }
}

/// An entry met during the walk.
#[derive(Clone, Debug)]
pub struct WalkEntry {
    pub path: String,
    pub is_dir: bool,
}

/// The paths of the candidates among `entries`, in order.
pub open spec fn selected(cfg: IndexerConfig, entries: Seq<WalkEntry>) -> Seq<Seq<char>>
    decreases entries.len(),
{
    if entries.len() == 0 {
        Seq::empty()
    } else if selects(cfg, entries.last().path@, entries.last().is_dir) {
        selected(cfg, entries.drop_last()).push(entries.last().path@)
    } else {
        selected(cfg, entries.drop_last())
    }
}

/// Whether `path` stands inside a `.git` directory, and so is none of the
/// projects' own.
pub fn is_inside_git(path: &str) -> (r: bool)
    ensures
        r == inside_git(segments(path@)),
{
    let segs = path_segments(path);
    let git = String::from_str(".git");
    proof {
        reveal_strlit(".git");
        assert(git@ =~= git_dir_name());
    }
    let ghost st = texts(segs@);
    if segs.len() == 0 {
        return false;
    }
    let mut i: usize = 0;
    while i + 1 < segs.len()
        invariant
            segs.len() > 0,
            i < segs.len(),
            st == texts(segs@),
            st == segments(path@),
            st.len() == segs@.len(),
            git@ == git_dir_name(),
            forall|k: int| 0 <= k < i ==> st[k] != git_dir_name(),
        decreases segs.len() - i,
    {
        if segs[i] == git {
            assert(st[i as int] == segs@[i as int]@);
            assert(0 <= i < st.len() - 1 && st[i as int] == git_dir_name());
            return true;
        }
        i = i + 1;
    }
    false
}

/// The status that the observations give: active when the directory holds
/// `.git`, stands inside none, and the status query succeeded.
pub open spec fn status_of(path: Seq<char>, git_dir_exists: bool, query: Option<bool>) -> ProjectStatus {
    if git_dir_exists && !inside_git(segments(path)) && query == Some(true) {
        ProjectStatus::Active
    } else {
        ProjectStatus::Unknown
    }
}

/// Whether the version-control status query is to be run for `path`.
pub fn needs_status_query(path: &str, git_dir_exists: bool) -> (r: bool)
    ensures
        r == (git_dir_exists && !inside_git(segments(path@))),
{
    git_dir_exists && !is_inside_git(path)
}

/// The status of a project directory, from whether it holds `.git` and from
/// the outcome of the status query when one was run (`Some(true)`: it
/// succeeded).
pub fn detect_status(path: &str, git_dir_exists: bool, query: Option<bool>) -> (r: ProjectStatus)
    ensures
        r == status_of(path@, git_dir_exists, query),
{
    if !git_dir_exists {
        return ProjectStatus::Unknown;
    }
    if is_inside_git(path) {
        return ProjectStatus::Unknown;
    }
    match query {
        Some(true) => ProjectStatus::Active,
        _ => ProjectStatus::Unknown,
    }
}

/// The indexer for one configuration.
#[derive(Clone, Debug)]
pub struct ProjectIndexer {
    pub config: IndexerConfig,
}

impl ProjectIndexer {
    /// An indexer for `config`, refused when its depth bounds are crossed.
    pub fn new(config: IndexerConfig) -> (r: Result<ProjectIndexer, ConfigurationError>)
        ensures
            config.min_depth <= config.max_depth <==> r is Ok,
            r matches Ok(ix) ==> ix.config == config,
            r matches Err(e) ==> e == (ConfigurationError::DepthBounds {
                min_depth: config.min_depth,
                max_depth: config.max_depth,
            }),
    {
        if config.min_depth > config.max_depth {
            Err(
                ConfigurationError::DepthBounds {
                    min_depth: config.min_depth,
                    max_depth: config.max_depth,
                },
            )
        } else {
            Ok(ProjectIndexer { config })
        }
    }

    /// Whether a directory of this name is pruned from the walk.
    pub fn is_pruned_name(&self, name: &str) -> (r: bool)
        ensures
            r == is_pruned(name@, texts(self.config.excluded@)),
    {
        let ghost ex = texts(self.config.excluded@);
        let n = name.unicode_len();
        if n > 0 && name.get_char(0) == '.' {
            return true;
        }
        let owned = String::from_str(name);
        let mut i: usize = 0;
        while i < self.config.excluded.len()
            invariant
                i <= self.config.excluded@.len(),
                owned@ == name@,
                ex == texts(self.config.excluded@),
                ex.len() == self.config.excluded@.len(),
                forall|k: int| 0 <= k < i ==> ex[k] != name@,
            decreases self.config.excluded.len() - i,
        {
            assert(ex[i as int] == self.config.excluded@[i as int]@);
            if self.config.excluded[i] == owned {
                return true;
            }
            i = i + 1;
        }
        assert(!ex.contains(name@));
        false
    }

    /// Whether a walked entry is a candidate.
    pub fn selects_entry(&self, path: &str, is_dir: bool) -> (r: bool)
        ensures
            r == selects(self.config, path@, is_dir),
    {
        if !is_dir {
            return false;
        }
        let root = path_segments(self.config.projects_dir.as_str());
        let segs = path_segments(path);
        match relative_segments(&root, &segs) {
            None => false,
            Some(rel) => {
                let ghost rt = texts(rel@);
                if rel.len() < self.config.min_depth || rel.len() > self.config.max_depth {
                    return false;
                }
                let mut i: usize = 0;
                while i < rel.len()
                    invariant
                        i <= rel@.len(),
                        rt == texts(rel@),
                        rt.len() == rel@.len(),
                        is_dir,
                        relative(segments(self.config.projects_dir@), segments(path@)) == Some(rt),
                        self.config.min_depth <= rt.len() <= self.config.max_depth,
                        forall|k: int|
                            0 <= k < i ==> !is_pruned(#[trigger] rt[k], texts(self.config.excluded@)),
                    decreases rel.len() - i,
                {
                    if self.is_pruned_name(rel[i].as_str()) {
                        assert(rt[i as int] == rel@[i as int]@);
                        return false;
                    }
                    i = i + 1;
                }
                true
            },
        }
    }

    /// The paths of the candidates among the walked entries, in walk order.
    /// Each lies within the depth bounds, and neither it nor any directory
    /// between it and the root is excluded.
    pub fn select_candidates(&self, entries: &Vec<WalkEntry>) -> (r: Vec<String>)
        ensures
            texts(r@) == selected(self.config, entries@),
            forall|k: int|
                0 <= k < r@.len() ==> (#[trigger] below_root(self.config, r@[k]@)) is Some
                    && self.config.min_depth <= below_root(self.config, r@[k]@)->0.len()
                    <= self.config.max_depth,
            forall|k: int, i: int|
                0 <= k < r@.len() && 0 <= i < below_root(self.config, r@[k]@)->0.len()
                    ==> !texts(self.config.excluded@).contains(
                    #[trigger] below_root(self.config, r@[k]@)->0[i],
                ),
    {
        let mut out: Vec<String> = Vec::new();
        let mut j: usize = 0;
        assert(entries@.subrange(0, 0) =~= Seq::<WalkEntry>::empty());
        assert(texts(out@) =~= Seq::<Seq<char>>::empty());
        while j < entries.len()
            invariant
                j <= entries@.len(),
                texts(out@) == selected(self.config, entries@.subrange(0, j as int)),
                forall|k: int| 0 <= k < out@.len() ==> selects(self.config, #[trigger] out@[k]@, true),
            decreases entries.len() - j,
        {
            assert(entries@.subrange(0, j + 1).drop_last() =~= entries@.subrange(0, j as int));
            if self.selects_entry(entries[j].path.as_str(), entries[j].is_dir) {
                let ghost prev = out@;
                out.push(entries[j].path.clone());
                assert(texts(out@) =~= texts(prev).push(entries@[j as int].path@));
            }
            j = j + 1;
        }
        assert(entries@.subrange(0, entries@.len() as int) =~= entries@);
        out
    }
}

/// What the caller saw of one candidate directory.
#[derive(Clone, Debug)]
pub struct DirectoryObservation {
    pub path: String,
    /// Whether the directory holds `.git`.
    pub git_dir_exists: bool,
    /// The outcome of the status query, when one was run: `Some(true)` when
    /// it succeeded.
    pub status_query: Option<bool>,
    /// The response text of the generation service, or why there is none,
    /// when tags were asked for.
    pub enrichment: Option<Result<String, OllamaError>>,
    /// When the directory was observed, in seconds since the Unix epoch.
    pub observed_at: i64,
}

/// What of an observation decides the project: the path, the two answers of
/// version control, and the response text when one came.
pub type ObservationView = (Seq<char>, bool, Option<bool>, Option<Seq<char>>);

impl View for DirectoryObservation {
    type V = ObservationView;

    open spec fn view(&self) -> ObservationView {
        (self.path@, self.git_dir_exists, self.status_query, match self.enrichment {
            Some(Ok(t)) => Some(t@),
            _ => None,
        })
    }
}

/// The tags that an observation gives: none unless tags are asked for and
/// a response came.
pub open spec fn tags_of(enabled: bool, response: Option<Seq<char>>) -> Seq<Seq<char>> {
    match response {
        Some(t) => if enabled {
            response_tags(t)
        } else {
            Seq::empty()
        },
        None => Seq::empty(),
    }
}

/// The record that an observation gives, if any: none for a directory that
/// the configuration does not select, for a path without segments, or for
/// one inside `.git`.
pub open spec fn record_of(cfg: IndexerConfig, o: ObservationView) -> Option<ProjectRecord> {
    let segs = segments(o.0);
    if !selects(cfg, o.0, true) || segs.len() == 0 || inside_git(segs) {
        None
    } else {
        Some(
            (
                segs.last(),
                o.0,
                category_of(relative(segments(cfg.projects_dir@), segs)),
                status_of(o.0, o.1, o.2),
                tags_of(cfg.enable_ollama, o.3),
            ),
        )
    }
}

/// The records that the observations give, in order.
pub open spec fn records_of(cfg: IndexerConfig, os: Seq<ObservationView>) -> Seq<ProjectRecord>
    decreases os.len(),
{
    if os.len() == 0 {
        Seq::empty()
    } else {
        match record_of(cfg, os.last()) {
            Some(r) => records_of(cfg, os.drop_last()).push(r),
            None => records_of(cfg, os.drop_last()),
        }
    }
}

/// The order of the index: by category, then name, then path.
pub open spec fn record_lt(a: ProjectRecord, b: ProjectRecord) -> bool {
    text_lt(a.2, b.2) || (a.2 == b.2 && (text_lt(a.0, b.0) || (a.0 == b.0 && text_lt(a.1, b.1))))
}

/// No record comes after one that it precedes in the order.
pub open spec fn is_sorted(s: Seq<ProjectRecord>) -> bool {
    forall|i: int, j: int| 0 <= i < j < s.len() ==> !record_lt(#[trigger] s[j], #[trigger] s[i])
}

/// The records of a list of projects.
pub open spec fn records(v: Seq<Project>) -> Seq<ProjectRecord> {
    v.map_values(|p: Project| p@)
}

/// The views of a list of observations.
pub open spec fn observed(v: Seq<DirectoryObservation>) -> Seq<ObservationView> {
    v.map_values(|o: DirectoryObservation| o@)
}

/// An index of the observations: their records, in the order of the index.
pub open spec fn is_index_of(cfg: IndexerConfig, os: Seq<ObservationView>, index: Seq<ProjectRecord>) -> bool {
    is_sorted(index) && index.to_multiset() == records_of(cfg, os).to_multiset()
}

/// No record comes before itself.
pub proof fn lemma_record_lt_irreflexive(a: ProjectRecord)
    ensures
        !record_lt(a, a),
{
    lemma_text_lt_irreflexive(a.0);
    lemma_text_lt_irreflexive(a.1);
    lemma_text_lt_irreflexive(a.2);
}

/// The order of the index is transitive.
pub proof fn lemma_record_lt_transitive(a: ProjectRecord, b: ProjectRecord, c: ProjectRecord)
    requires
        record_lt(a, b),
        record_lt(b, c),
    ensures
        record_lt(a, c),
{
    if text_lt(a.2, b.2) && text_lt(b.2, c.2) {
        lemma_text_lt_transitive(a.2, b.2, c.2);
    }
    if a.2 == b.2 && b.2 == c.2 {
        if text_lt(a.0, b.0) && text_lt(b.0, c.0) {
            lemma_text_lt_transitive(a.0, b.0, c.0);
        }
        if a.0 == b.0 && b.0 == c.0 && text_lt(a.1, b.1) && text_lt(b.1, c.1) {
            lemma_text_lt_transitive(a.1, b.1, c.1);
        }
    }
}

/// Whether `a` comes before `b` in the order of the index.
pub fn project_less(a: &Project, b: &Project) -> (r: bool)
    ensures
        r == record_lt(a@, b@),
{
    if text_less(a.category.as_str(), b.category.as_str()) {
        return true;
    }
    if a.category != b.category {
        return false;
    }
    if text_less(a.name.as_str(), b.name.as_str()) {
        return true;
    }
    if a.name != b.name {
        return false;
    }
    text_less(a.path.as_str(), b.path.as_str())
}

/// Puts projects in the order of the index.
pub fn sort_projects(v: &mut Vec<Project>)
    ensures
        is_sorted(records(final(v)@)),
        records(final(v)@).to_multiset() == records(old(v)@).to_multiset(),
{
    broadcast use vstd::seq_lib::group_to_multiset_ensures, vstd::multiset::group_multiset_axioms;

    let mut sorted: Vec<Project> = Vec::new();
    assert(records(sorted@) =~= Seq::<ProjectRecord>::empty());
    while v.len() > 0
        invariant
            is_sorted(records(sorted@)),
            records(sorted@).to_multiset().add(records(v@).to_multiset()) == records(
                old(v)@,
            ).to_multiset(),
        decreases v.len(),
    {
        let ghost before = v@;
        let x = v.pop().unwrap();
        assert(records(before) =~= records(v@).push(x@));
        let ghost s = records(sorted@);
        let mut pos: usize = 0;
        while pos < sorted.len() && !project_less(&x, &sorted[pos])
            invariant
                pos <= sorted@.len(),
                s == records(sorted@),
                forall|k: int| 0 <= k < pos ==> !record_lt(x@, #[trigger] s[k]),
            decreases sorted.len() - pos,
        {
            pos = pos + 1;
        }
        let ghost prev = sorted@;
        sorted.insert(pos, x);
        let ghost t = records(sorted@);
        assert(t =~= s.insert(pos as int, x@));
        proof {
            vstd::seq_lib::to_multiset_insert(s, pos as int, x@);
            vstd::seq_lib::to_multiset_build(records(v@), x@);
        }
        assert(t.to_multiset().add(records(v@).to_multiset()) =~= s.to_multiset().add(
            records(before).to_multiset(),
        ));
        assert forall|i: int, j: int| 0 <= i < j < t.len() implies !record_lt(
            #[trigger] t[j],
            #[trigger] t[i],
        ) by {
            if i < pos && j == pos {
            } else if i == pos && j > pos {
                if record_lt(t[j], t[i]) {
                    assert(t[j] == s[j - 1]);
                    assert(record_lt(x@, s[pos as int]));
                    lemma_record_lt_transitive(s[j - 1], x@, s[pos as int]);
                    if j - 1 == pos {
                        lemma_record_lt_irreflexive(s[pos as int]);
                    }
                }
            } else if i < pos && j > pos {
                assert(t[i] == s[i] && t[j] == s[j - 1]);
            } else if i > pos {
                assert(t[i] == s[i - 1] && t[j] == s[j - 1]);
            }
        }
    }
    *v = sorted;
}

impl ProjectIndexer {
    /// The category of a project directory: the first segment below the
    /// root when the directory lies deeper than that, else `uncategorized`.
    pub fn determine_project_category(&self, path: &str) -> (r: String)
        ensures
            r@ == category_of(below_root(self.config, path@)),
    {
        let root = path_segments(self.config.projects_dir.as_str());
        let segs = path_segments(path);
        match relative_segments(&root, &segs) {
            Some(rel) => {
                if rel.len() >= 2 {
                    let c = rel[0].clone();
                    assert(c@ == texts(rel@)[0]);
                    return c;
                }
            },
            None => {},
        }
        let c = String::from_str("uncategorized");
        proof {
            reveal_strlit("uncategorized");
            assert(c@ =~= uncategorized());
        }
        c
    }

    /// The project that one observation gives, if any: none for a directory
    /// that the configuration does not select, for a path without a name, or
    /// for one inside `.git`.
    pub fn process_project_directory(&self, o: &DirectoryObservation) -> (r: Option<Project>)
        ensures
            r matches Some(p) ==> record_of(self.config, o@) == Some(p@),
            r is None ==> record_of(self.config, o@) is None,
            r matches Some(p) ==> p.last_modified == Some(o.observed_at),
            r matches Some(p) ==> forall|m: int| 0 <= m < p@.4.len() ==> is_clean_tag(#[trigger] p@.4[m]),
    {
        if !self.selects_entry(o.path.as_str(), true) {
            return None;
        }
        let segs = path_segments(o.path.as_str());
        let ghost st = texts(segs@);
        if segs.len() == 0 || is_inside_git(o.path.as_str()) {
            return None;
        }
        let name = segs[segs.len() - 1].clone();
        assert(name@ == st.last());
        let mut project = Project::new(name, o.path.clone());
        project.category = self.determine_project_category(o.path.as_str());
        project.status = detect_status(o.path.as_str(), o.git_dir_exists, o.status_query);
        project.last_modified = Some(o.observed_at);
        if self.config.enable_ollama {
            match &o.enrichment {
                Some(outcome) => {
                    project.tags = tags_from_enrichment(outcome);
                },
                None => {},
            }
        }
        proof {
            assert(texts(project.tags@) == tags_of(self.config.enable_ollama, o@.3));
            if let Some(t) = o@.3 {
                lemma_response_tags_clean(t);
            }
        }
        Some(project)
    }

    /// The index of the observed directories: the project of each that the
    /// configuration selects, in the order of category, name and path. Each
    /// lies within the depth bounds, and neither it nor any directory between
    /// it and the root is excluded.
    pub fn index_projects(&self, observations: &Vec<DirectoryObservation>) -> (r: Vec<Project>)
        ensures
            is_index_of(self.config, observed(observations@), records(r@)),
            forall|k: int, m: int|
                0 <= k < r@.len() && 0 <= m < r@[k]@.4.len() ==> is_clean_tag(
                    #[trigger] r@[k]@.4[m],
                ),
            forall|k: int| 0 <= k < r@.len() ==> selects(self.config, #[trigger] r@[k].path@, true),
            forall|k: int|
                0 <= k < r@.len() ==> (#[trigger] below_root(self.config, r@[k].path@)) is Some
                    && self.config.min_depth <= below_root(self.config, r@[k].path@)->0.len()
                    <= self.config.max_depth,
            forall|k: int, i: int|
                0 <= k < r@.len() && 0 <= i < below_root(self.config, r@[k].path@)->0.len()
                    ==> !texts(self.config.excluded@).contains(
                    #[trigger] below_root(self.config, r@[k].path@)->0[i],
                ),
    {
        let mut projects: Vec<Project> = Vec::new();
        let ghost os = observed(observations@);
        let mut j: usize = 0;
        assert(os.subrange(0, 0) =~= Seq::<ObservationView>::empty());
        assert(records(projects@) =~= Seq::<ProjectRecord>::empty());
        while j < observations.len()
            invariant
                j <= observations@.len(),
                os == observed(observations@),
                records(projects@) == records_of(self.config, os.subrange(0, j as int)),
                forall|k: int, m: int|
                    0 <= k < projects@.len() && 0 <= m < projects@[k]@.4.len() ==> is_clean_tag(
                        #[trigger] projects@[k]@.4[m],
                    ),
                forall|k: int|
                    0 <= k < projects@.len() ==> selects(self.config, #[trigger] projects@[k].path@, true),
            decreases observations.len() - j,
        {
            assert(os.subrange(0, j + 1).drop_last() =~= os.subrange(0, j as int));
            assert(os.subrange(0, j + 1).last() == observations@[j as int]@);
            match self.process_project_directory(&observations[j]) {
                Some(p) => {
                    let ghost prev = projects@;
                    projects.push(p);
                    assert(records(projects@) =~= records(prev).push(p@));
                },
                None => {},
            }
            j = j + 1;
        }
        assert(os.subrange(0, os.len() as int) =~= os);
        let ghost unsorted = projects@;
        sort_projects(&mut projects);
        proof {
            assert forall|k: int, m: int|
                0 <= k < projects@.len() && 0 <= m < projects@[k]@.4.len() implies is_clean_tag(
                #[trigger] projects@[k]@.4[m],
            ) by {
                let rec = records(projects@)[k];
                vstd::seq_lib::to_multiset_contains(records(projects@), rec);
                vstd::seq_lib::to_multiset_contains(records(unsorted), rec);
                let q = choose|q: int| 0 <= q < unsorted.len() && records(unsorted)[q] == rec;
                assert(unsorted[q]@.4[m] == rec.4[m]);
            }
            assert forall|k: int| 0 <= k < projects@.len() implies selects(
                self.config,
                #[trigger] projects@[k].path@,
                true,
            ) by {
                let rec = records(projects@)[k];
                vstd::seq_lib::to_multiset_contains(records(projects@), rec);
                vstd::seq_lib::to_multiset_contains(records(unsorted), rec);
                let q = choose|q: int| 0 <= q < unsorted.len() && records(unsorted)[q] == rec;
                assert(unsorted[q].path@ == projects@[k].path@);
            }
            assert forall|k: int| 0 <= k < projects@.len() implies (#[trigger] below_root(
                self.config,
                projects@[k].path@,
            )) is Some && self.config.min_depth <= below_root(self.config, projects@[k].path@)->0.len()
                <= self.config.max_depth by {
                assert(selects(self.config, projects@[k].path@, true));
            }
            assert forall|k: int, i: int|
                0 <= k < projects@.len() && 0 <= i < below_root(self.config, projects@[k].path@)->0.len()
                    implies !texts(self.config.excluded@).contains(
                #[trigger] below_root(self.config, projects@[k].path@)->0[i],
            ) by {
                assert(selects(self.config, projects@[k].path@, true));
                let rel = below_root(self.config, projects@[k].path@)->0;
                assert(!is_pruned(rel[i], texts(self.config.excluded@)));
            }
        }
        projects
    }
}

/// In an index, a project of a smaller category comes first, and among
/// projects of one category, one of a smaller name comes first.
pub proof fn lemma_index_order(index: Seq<ProjectRecord>, i: int, j: int)
    requires
        is_sorted(index),
        0 <= i < index.len(),
        0 <= j < index.len(),
    ensures
        text_lt(index[i].2, index[j].2) ==> i < j,
        index[i].2 == index[j].2 && text_lt(index[i].0, index[j].0) ==> i < j,
{
    if record_lt(index[i], index[j]) {
        if i == j {
            lemma_record_lt_irreflexive(index[i]);
        } else if i > j {
            assert(!record_lt(index[i], index[j]));
        }
    }
}

/// The pieces of `s` between commas, empty ones included.
pub open spec fn comma_pieces(s: Seq<char>) -> Seq<Seq<char>>
    decreases s.len(),
{
    if s.len() == 0 {
        seq![Seq::<char>::empty()]
    } else {
        let p = comma_pieces(s.drop_last());
        if s.last() == ',' {
            p.push(Seq::<char>::empty())
        } else {
            p.update(p.len() - 1, p.last().push(s.last()))
        }
    }
}

/// The trimmed pieces that are not empty, in order.
pub open spec fn names_in(ps: Seq<Seq<char>>) -> Seq<Seq<char>>
    decreases ps.len(),
{
    if ps.len() == 0 {
        Seq::empty()
    } else if trim(ps.last()).len() > 0 {
        names_in(ps.drop_last()).push(trim(ps.last()))
    } else {
        names_in(ps.drop_last())
    }
}

/// The directory names of a comma-separated list, trimmed, empty ones left
/// out.
pub fn exclusion_list(list: &str) -> (r: Vec<String>)
    ensures
        texts(r@) == names_in(comma_pieces(list@)),
{
    let n = list.unicode_len();
    let mut names: Vec<String> = Vec::new();
    let mut start: usize = 0;
    let mut i: usize = 0;
    proof {
        assert(list@.subrange(0, 0) =~= Seq::<char>::empty());
        assert(texts(names@) =~= Seq::<Seq<char>>::empty());
    }
    while i < n
        invariant
            n == list@.len(),
            start <= i <= n,
            comma_pieces(list@.subrange(0, i as int)).len() > 0,
            comma_pieces(list@.subrange(0, i as int)).last() == list@.subrange(start as int, i as int),
            texts(names@) == names_in(comma_pieces(list@.subrange(0, i as int)).drop_last()),
        decreases n - i,
    {
        let ghost before = comma_pieces(list@.subrange(0, i as int));
        let c = list.get_char(i);
        assert(list@.subrange(0, i + 1).drop_last() =~= list@.subrange(0, i as int));
        if c == ',' {
            assert(before.drop_last().push(before.last()) =~= before);
            let name = trim_text(list.substring_char(start, i));
            if name.unicode_len() > 0 {
                let ghost prev = names@;
                names.push(String::from_str(name));
                assert(texts(names@) =~= texts(prev).push(name@));
            }
            start = i + 1;
            proof {
                let after = comma_pieces(list@.subrange(0, i + 1));
                assert(after.drop_last() =~= before);
                assert(after.last() =~= list@.subrange(start as int, i + 1));
            }
        } else {
            proof {
                let after = comma_pieces(list@.subrange(0, i + 1));
                assert(after.drop_last() =~= before.drop_last());
                assert(after.last() =~= list@.subrange(start as int, i + 1));
            }
        }
        i = i + 1;
    }
    assert(list@.subrange(0, n as int) =~= list@);
    let ghost all = comma_pieces(list@);
    assert(all.drop_last().push(all.last()) =~= all);
    let name = trim_text(list.substring_char(start, n));
    if name.unicode_len() > 0 {
        let ghost prev = names@;
        names.push(String::from_str(name));
        assert(texts(names@) =~= texts(prev).push(name@));
    }
    names
}

} // verus!
