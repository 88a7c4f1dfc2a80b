use projets_indexer::error::OllamaError;
use projets_indexer::generation::{
    model_listed, path_tag_request, tag_request, ClientConfig, GenerateResponse, REQUIRED_MODEL,
    TAG_MODEL, TAG_SYSTEM,
};
use projets_indexer::generation::{setup_action, SetupAction};
use projets_indexer::tags::{clean_piece, extract_tags, remove_marks, tags_from_enrichment};

fn response(text: &str) -> GenerateResponse {
    GenerateResponse {
        model: "mistral".to_string(),
        created_at: String::new(),
        response: text.to_string(),
        done: true,
        done_reason: None,
        context: None,
    }
}

#[test]
fn test_generate_tags() {
    let tags = response("project management, task tracking, productivity").tags();
    assert!(!tags.is_empty());
    assert_eq!(tags, vec!["project management", "task tracking", "productivity"]);
}

#[test]
fn tags_are_lowercased_and_stripped_of_marks() {
    assert_eq!(extract_tags("Rust, CLI, *Tool*."), vec!["rust", "cli", "tool"]);
}

#[test]
fn tags_are_cut_at_line_breaks_and_commas() {
    assert_eq!(
        extract_tags("  Web\nAPI, [Async]\r\n{Tokio}: runtime  "),
        vec!["web", "api", "async", "tokio runtime"]
    );
}

#[test]
fn pieces_that_hold_only_marks_or_space_give_no_tag() {
    assert_eq!(extract_tags("a, *, (), ,\n\n b"), vec!["a", "b"]);
}

#[test]
fn a_response_without_tags_gives_the_default_tags() {
    assert_eq!(extract_tags(""), vec!["rust", "cli"]);
    assert_eq!(extract_tags(" , ** ,\n"), vec!["rust", "cli"]);
}

#[test]
fn cleaning_a_piece_trims_lowercases_and_strips() {
    assert_eq!(clean_piece("  Hello (World).  "), "hello world");
    assert_eq!(clean_piece("\u{3000}ÉCOLE\t"), "école");
}

#[test]
fn a_failed_request_gives_no_tags() {
    let err = OllamaError::ApiError {
        message: "API request failed with status: 500".to_string(),
        status_code: Some(500),
    };
    assert!(tags_from_enrichment(&Err(err)).is_empty());
}

#[test]
fn a_successful_request_gives_its_tags() {
    assert_eq!(tags_from_enrichment(&Ok("Go, gRPC".to_string())), vec!["go", "grpc"]);
}

#[test]
fn tag_request_names_the_project() {
    let r = tag_request("alpha", "/projects/tools/alpha");
    assert_eq!(r.model, TAG_MODEL);
    assert_eq!(r.model, "gemma3:1b");
    assert_eq!(
        r.prompt,
        "Generate 3-5 technical tags for this project named 'alpha'. Description: /projects/tools/alpha. \
Output ONLY comma-separated tags, no explanations or additional text."
    );
    assert_eq!(r.system.as_deref(), Some(TAG_SYSTEM));
    assert!(r.template.is_none() && r.context.is_none() && r.format.is_none());
    assert!(!r.stream);
}

#[test]
fn default_client_config_points_at_the_local_service() {
    let c = ClientConfig::default();
    assert_eq!(c.base_url, "http://localhost:11434");
    assert_eq!(c.timeout_secs, 30);
    assert_eq!(c.generate_url(), "http://localhost:11434/api/generate");
    assert_eq!(c.version_url(), "http://localhost:11434/api/version");
    assert_eq!(c.embeddings_url(), "http://localhost:11434/api/embeddings");
    assert_eq!(c.models_url(), "http://localhost:11434/api/tags");
}

#[test]
fn model_listing_is_searched_for_the_required_model() {
    assert!(model_listed("NAME ID SIZE\nmistral:latest 61e88e884507 4.1 GB\n"));
    assert!(!model_listed("NAME ID SIZE\nllama2:latest 78e26419b446 3.8 GB\n"));
    assert!(!model_listed(""));
}

#[test]
fn path_tag_request_asks_the_required_model() {
    let r = path_tag_request("/path/to/project");
    assert_eq!(r.model, REQUIRED_MODEL);
    assert_eq!(r.model, "mistral");
    assert_eq!(
        r.prompt,
        "Generate 3-5 technical tags for this project: /path/to/project. \
Output ONLY comma-separated tags, no explanations or additional text."
    );
    assert!(r.system.is_none());
}

#[test]
fn marks_are_removed_after_lowercasing() {
    assert_eq!(remove_marks("*tool*."), "tool");
    assert_eq!(remove_marks("a(b)[c]{d}:e"), "abcde");
    assert_eq!(remove_marks("**"), "");
    assert_eq!(remove_marks("Keep Case"), "Keep Case");
}

#[test]
fn setup_calls_for_install_pull_or_nothing() {
    assert_eq!(setup_action(false, "mistral:latest"), SetupAction::NotInstalled);
    assert_eq!(setup_action(true, "NAME\nmistral:latest 4.1 GB\n"), SetupAction::Ready);
    assert_eq!(setup_action(true, "NAME\nllama2:latest\n"), SetupAction::PullModel);
}
