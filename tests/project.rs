use projets_indexer::project::{Project, ProjectStatus};

#[test]
fn test_project_creation() {
    let project = Project::new("test-project".to_string(), "/path/to/project".to_string());
    assert_eq!(project.name, "test-project");
    assert_eq!(project.path, "/path/to/project");
    assert_eq!(project.category, "uncategorized");
    assert!(matches!(project.status, ProjectStatus::Unknown));
    assert!(project.tags.is_empty());
}

#[test]
fn new_project_has_no_time_of_observation() {
    let project = Project::new("p".to_string(), "/p".to_string());
    assert_eq!(project.last_modified, None);
}

#[test]
fn status_names_are_lowercase() {
    assert_eq!(ProjectStatus::Active.as_str(), "active");
    assert_eq!(ProjectStatus::Archived.as_str(), "archived");
    assert_eq!(ProjectStatus::Unknown.as_str(), "unknown");
}
