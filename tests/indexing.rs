use projets_indexer::error::{ConfigurationError, OllamaError};
use projets_indexer::indexer::{
    default_excluded_dirs, detect_status, exclusion_list, is_inside_git, needs_status_query, DirectoryObservation,
    IndexerConfig, ProjectIndexer, WalkEntry,
};
use projets_indexer::paths::path_segments;
use projets_indexer::project::{Project, ProjectStatus};
use projets_indexer::stats::index_stats;

fn config(root: &str, min_depth: usize, max_depth: usize, excluded: &[&str]) -> IndexerConfig {
    let mut c = IndexerConfig::new(root.to_string(), "index.json".to_string(), false);
    c.min_depth = min_depth;
    c.max_depth = max_depth;
    c.excluded = excluded.iter().map(|s| s.to_string()).collect();
    c
}

fn dir(path: &str) -> WalkEntry {
    WalkEntry { path: path.to_string(), is_dir: true }
}

fn seen(path: &str, git: bool, query: Option<bool>) -> DirectoryObservation {
    DirectoryObservation {
        path: path.to_string(),
        git_dir_exists: git,
        status_query: query,
        enrichment: None,
        observed_at: 1_700_000_000,
    }
}

fn summary(ps: &[Project]) -> Vec<(String, String, String, ProjectStatus, Vec<String>)> {
    ps.iter()
        .map(|p| (p.name.clone(), p.path.clone(), p.category.clone(), p.status, p.tags.clone()))
        .collect()
}

#[test]
fn scenario_two_projects_in_one_category() {
    let ix = ProjectIndexer::new(config("/projects", 2, 2, &[".git", "node_modules"])).unwrap();
    let entries = vec![
        dir("/projects"),
        dir("/projects/tools"),
        dir("/projects/tools/beta"),
        dir("/projects/tools/alpha"),
        dir("/projects/tools/alpha/.git"),
        dir("/projects/tools/alpha/.git/objects"),
    ];
    let candidates = ix.select_candidates(&entries);
    assert_eq!(candidates, vec!["/projects/tools/beta", "/projects/tools/alpha"]);

    let facts = [("/projects/tools/beta", false), ("/projects/tools/alpha", true)];
    let mut observations = Vec::new();
    for (path, git) in facts {
        let query = if needs_status_query(path, git) { Some(true) } else { None };
        observations.push(seen(path, git, query));
    }
    let index = ix.index_projects(&observations);
    assert_eq!(index.len(), 2);
    assert_eq!(index[0].name, "alpha");
    assert_eq!(index[0].category, "tools");
    assert_eq!(index[0].status, ProjectStatus::Active);
    assert_eq!(index[1].name, "beta");
    assert_eq!(index[1].category, "tools");
    assert_eq!(index[1].status, ProjectStatus::Unknown);
}

#[test]
fn scenario_excluded_directory_and_its_subtree_are_absent() {
    let ix = ProjectIndexer::new(config("/projects", 2, 3, &[".git", "node_modules"])).unwrap();
    let entries = vec![
        dir("/projects/web/node_modules"),
        dir("/projects/web/node_modules/left-pad"),
        dir("/projects/web/site"),
        dir("/projects/node_modules/pkg"),
        dir("/projects/node_modules/pkg/lib"),
    ];
    assert_eq!(ix.select_candidates(&entries), vec!["/projects/web/site"]);
}

#[test]
fn candidates_lie_within_the_depth_bounds() {
    let ix = ProjectIndexer::new(config("/r", 2, 3, &[])).unwrap();
    let entries = vec![
        dir("/r"),
        dir("/r/a"),
        dir("/r/a/b"),
        dir("/r/a/b/c"),
        dir("/r/a/b/c/d"),
        dir("/elsewhere/a/b"),
        WalkEntry { path: "/r/a/file".to_string(), is_dir: false },
    ];
    assert_eq!(ix.select_candidates(&entries), vec!["/r/a/b", "/r/a/b/c"]);
}

#[test]
fn hidden_and_excluded_ancestors_prune_candidates() {
    let ix = ProjectIndexer::new(config("/r/", 2, 2, &["target"])).unwrap();
    let entries = vec![
        dir("/r/target/x"),
        dir("/r/x/target"),
        dir("/r/.hidden/x"),
        dir("/r/x/.cache"),
        dir("/r//x//y/"),
    ];
    assert_eq!(ix.select_candidates(&entries), vec!["/r//x//y/"]);
    assert!(ix.is_pruned_name("target"));
    assert!(ix.is_pruned_name(".anything"));
    assert!(!ix.is_pruned_name("targets"));
}

#[test]
fn default_configuration() {
    let c = IndexerConfig::new("/p".to_string(), "out.json".to_string(), true);
    assert_eq!((c.min_depth, c.max_depth), (3, 3));
    assert!(c.enable_ollama);
    assert_eq!(c.excluded.len(), 23);
    assert_eq!(c.excluded, default_excluded_dirs());
    assert_eq!(c.excluded[0], ".git");
    assert_eq!(c.excluded[22], ".DS_Store");
}

#[test]
fn crossed_depth_bounds_are_refused() {
    let err = ProjectIndexer::new(config("/p", 4, 2, &[])).unwrap_err();
    assert_eq!(err, ConfigurationError::DepthBounds { min_depth: 4, max_depth: 2 });
    assert!(ProjectIndexer::new(config("/p", 2, 2, &[])).is_ok());
}

#[test]
fn status_follows_the_version_control_answers() {
    assert_eq!(detect_status("/p/a", false, Some(true)), ProjectStatus::Unknown);
    assert_eq!(detect_status("/p/a", true, Some(true)), ProjectStatus::Active);
    assert_eq!(detect_status("/p/a", true, Some(false)), ProjectStatus::Unknown);
    assert_eq!(detect_status("/p/a", true, None), ProjectStatus::Unknown);
    assert_eq!(detect_status("/p/.git/a", true, Some(true)), ProjectStatus::Unknown);
    assert!(needs_status_query("/p/a", true));
    assert!(!needs_status_query("/p/a", false));
    assert!(!needs_status_query("/p/.git/hooks", true));
}

#[test]
fn paths_inside_git_are_recognised() {
    assert!(is_inside_git("/p/.git/x"));
    assert!(!is_inside_git("/p/.git"));
    assert!(!is_inside_git("/p/x.git/y"));
    assert_eq!(path_segments("//a/b//c/"), vec!["a", "b", "c"]);
    assert!(path_segments("/").is_empty());
}

#[test]
fn directories_inside_git_or_without_a_name_give_no_project() {
    let ix = ProjectIndexer::new(config("/p", 1, 3, &[])).unwrap();
    assert!(ix.process_project_directory(&seen("/p/.git/objects", true, None)).is_none());
    assert!(ix.process_project_directory(&seen("/", false, None)).is_none());
    let p = ix.process_project_directory(&seen("/p/solo", false, None)).unwrap();
    assert_eq!(p.name, "solo");
    assert_eq!(p.category, "uncategorized");
}

#[test]
fn tags_come_only_when_enrichment_is_enabled() {
    let mut c = config("/p", 2, 2, &[]);
    let mut o = seen("/p/c/x", false, None);
    o.enrichment = Some(Ok("A, *, (B)".to_string()));
    let off = ProjectIndexer::new(c.clone()).unwrap();
    assert!(off.process_project_directory(&o).unwrap().tags.is_empty());
    c.enable_ollama = true;
    let on = ProjectIndexer::new(c).unwrap();
    let index = on.index_projects(&vec![o.clone()]);
    assert_eq!(index[0].tags, vec!["a", "b"]);
    for t in &index[0].tags {
        assert!(!t.is_empty());
        assert!(!t.contains(&['*', ':', '.', '(', ')', '[', ']', '{', '}'][..]));
    }
    let mut failed = o;
    failed.enrichment = Some(Err(OllamaError::ApiError {
        message: "status 500".to_string(),
        status_code: Some(500),
    }));
    assert!(on.index_projects(&vec![failed])[0].tags.is_empty());
}

#[test]
fn index_is_sorted_by_category_then_name_then_path() {
    let ix = ProjectIndexer::new(config("/r", 2, 3, &[])).unwrap();
    let obs = vec![
        seen("/r/web/zeta", false, None),
        seen("/r/apps/beta", false, None),
        seen("/r/web/alpha", false, None),
        seen("/r/apps/alpha", false, None),
        seen("/r/web/y/alpha", false, None),
    ];
    let index = ix.index_projects(&obs);
    let order: Vec<&str> = index.iter().map(|p| p.path.as_str()).collect();
    assert_eq!(
        order,
        vec!["/r/apps/alpha", "/r/apps/beta", "/r/web/alpha", "/r/web/y/alpha", "/r/web/zeta"]
    );
}

#[test]
fn rebuilding_in_another_walk_order_gives_the_same_index() {
    let ix = ProjectIndexer::new(config("/r", 2, 2, &[])).unwrap();
    let a = vec![
        seen("/r/x/one", true, Some(true)),
        seen("/r/y/two", false, None),
        seen("/r/x/three", true, Some(false)),
    ];
    let b = vec![a[2].clone(), a[0].clone(), a[1].clone()];
    assert_eq!(summary(&ix.index_projects(&a)), summary(&ix.index_projects(&b)));
    assert_eq!(summary(&ix.index_projects(&a)), summary(&ix.index_projects(&a)));
}

#[test]
fn statistics_of_an_index() {
    let ix = ProjectIndexer::new(config("/r", 2, 2, &[])).unwrap();
    let mut p = ix.index_projects(&vec![
        seen("/r/b/one", true, Some(true)),
        seen("/r/a/two", false, None),
        seen("/r/b/three", false, None),
    ]);
    p[0].tags = vec!["x".to_string(), "y".to_string()];
    p[2].status = ProjectStatus::Archived;
    let s = index_stats(&p);
    assert_eq!(s.total, 3);
    assert_eq!(s.active, 1);
    assert_eq!(s.archived, 1);
    assert_eq!(s.total_tags, 2);
    assert_eq!(s.by_category, vec![("a".to_string(), 1), ("b".to_string(), 2)]);
}

#[test]
fn exclusion_lists_are_split_at_commas() {
    assert_eq!(
        exclusion_list(".git, node_modules,,__pycache__ ,"),
        vec![".git", "node_modules", "__pycache__"]
    );
    assert!(exclusion_list(" , ").is_empty());
}

#[test]
fn category_is_the_first_segment_below_the_root() {
    let ix = ProjectIndexer::new(config("/projects", 2, 3, &[])).unwrap();
    assert_eq!(ix.determine_project_category("/projects/tools/alpha"), "tools");
    assert_eq!(ix.determine_project_category("/projects/tools/x/alpha"), "tools");
    assert_eq!(ix.determine_project_category("/projects/alpha"), "uncategorized");
    assert_eq!(ix.determine_project_category("/other/tools/alpha"), "uncategorized");
}

#[test]
fn projects_carry_the_time_of_observation() {
    let ix = ProjectIndexer::new(config("/r", 2, 2, &[])).unwrap();
    let mut o = seen("/r/a/x", false, None);
    o.observed_at = 1_234;
    assert_eq!(ix.process_project_directory(&o).unwrap().last_modified, Some(1_234));
}

#[test]
fn observations_that_the_configuration_does_not_select_are_dropped() {
    let ix = ProjectIndexer::new(config("/projects", 2, 2, &["node_modules"])).unwrap();
    let obs = vec![
        seen("/projects/tools/alpha", false, None),
        seen("/projects/tools", false, None),
        seen("/projects/tools/alpha/deep", false, None),
        seen("/projects/web/node_modules", false, None),
        seen("/projects/node_modules/pkg", false, None),
        seen("/projects/web/.cache", false, None),
        seen("/elsewhere/tools/beta", false, None),
    ];
    let index = ix.index_projects(&obs);
    let paths: Vec<&str> = index.iter().map(|p| p.path.as_str()).collect();
    assert_eq!(paths, vec!["/projects/tools/alpha"]);
}

#[test]
fn failed_enrichment_gives_the_index_of_a_run_without_it() {
    let mut on = config("/r", 2, 2, &[]);
    on.enable_ollama = true;
    let off = config("/r", 2, 2, &[]);
    let mut obs = vec![seen("/r/b/one", true, Some(true)), seen("/r/a/two", false, None)];
    for o in obs.iter_mut() {
        o.enrichment = Some(Err(OllamaError::ApiError {
            message: "status 500".to_string(),
            status_code: Some(500),
        }));
    }
    let with = ProjectIndexer::new(on).unwrap().index_projects(&obs);
    let without = ProjectIndexer::new(off).unwrap().index_projects(&obs);
    assert_eq!(summary(&with), summary(&without));
    assert!(with.iter().all(|p| p.tags.is_empty()));
}
