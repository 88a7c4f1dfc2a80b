//! Requests to and responses from the text-generation service.

use vstd::prelude::*;
use crate::tags::{extract_tags, response_tags, texts};
use crate::text::text_eq;

verus! {

/// The model asked for project tags.
pub const TAG_MODEL: &'static str = "gemma3:1b";

/// The system message sent with a tag request.
pub const TAG_SYSTEM: &'static str = "You are a technical project tagger. Output ONLY comma-separated tags, no explanations or additional text.";

/// A generation request. Sampling options are left to the service.
#[derive(Clone, Debug)]
pub struct GenerateRequest {
    pub model: String,
    pub prompt: String,
    pub system: Option<String>,
    pub template: Option<String>,
    pub context: Option<Vec<u32>>,
    pub stream: bool,
    pub format: Option<String>,
}

/// A generation response; only `response` carries what the index needs.
#[derive(Clone, Debug)]
pub struct GenerateResponse {
    pub model: String,
    pub created_at: String,
    pub response: String,
    pub done: bool,
    pub done_reason: Option<String>,
    pub context: Option<Vec<u32>>,
}

/// An embedding request.
#[derive(Clone, Debug)]
pub struct EmbeddingRequest {
    pub model: String,
    pub prompt: String,
}

/// The prompt that asks for the tags of a project.
pub open spec fn tag_prompt(name: Seq<char>, description: Seq<char>) -> Seq<char> {
    "Generate 3-5 technical tags for this project named '"@ + name + "'. Description: "@
        + description + ". Output ONLY comma-separated tags, no explanations or additional text."@
}

/// The request that asks for the tags of a project.
pub fn tag_request(project_name: &str, description: &str) -> (r: GenerateRequest)
    ensures
        r.model@ == TAG_MODEL@,
        r.prompt@ == tag_prompt(project_name@, description@),
        r.system matches Some(s) && s@ == TAG_SYSTEM@,
        r.template is None,
        r.context is None,
        !r.stream,
        r.format is None,
{
    let mut prompt = String::from_str("Generate 3-5 technical tags for this project named '");
    prompt.append(project_name);
    prompt.append("'. Description: ");
    prompt.append(description);
    prompt.append(". Output ONLY comma-separated tags, no explanations or additional text.");
    GenerateRequest {
        model: String::from_str(TAG_MODEL),
        prompt,
        system: Some(String::from_str(TAG_SYSTEM)),
        template: None,
        context: None,
        stream: false,
        format: None,
    }
}

impl GenerateResponse {
    /// The tags that the response text gives.
    pub fn tags(&self) -> (r: Vec<String>)
        ensures
            texts(r@) == response_tags(self.response@),
    {
        extract_tags(self.response.as_str())
    }
}

/// The model that the service must have pulled.
pub const REQUIRED_MODEL: &'static str = "mistral";

/// Where and how patiently the service is asked.
#[derive(Clone, Debug)]
pub struct ClientConfig {
    /// The service's address, without a trailing slash.
    pub base_url: String,
    /// How long one request may take, in seconds.
    pub timeout_secs: u64,
}

impl Default for ClientConfig {
    /// The local service, with half a minute per request.
    fn default() -> (r: ClientConfig)
        ensures
            r.base_url@ == "http://localhost:11434"@,
            r.timeout_secs == 30,
    {
        ClientConfig { base_url: String::from_str("http://localhost:11434"), timeout_secs: 30 }
    }
}

impl ClientConfig {
    /// The address of the generation endpoint.
    pub fn generate_url(&self) -> (r: String)
        ensures
            r@ == self.base_url@ + "/api/generate"@,
    {
        let mut u = self.base_url.clone();
        u.append("/api/generate");
        u
    }

    /// The address of the embedding endpoint.
    pub fn embeddings_url(&self) -> (r: String)
        ensures
            r@ == self.base_url@ + "/api/embeddings"@,
    {
        let mut u = self.base_url.clone();
        u.append("/api/embeddings");
        u
    }

    /// The address of the endpoint that lists the pulled models.
    pub fn models_url(&self) -> (r: String)
        ensures
            r@ == self.base_url@ + "/api/tags"@,
    {
        let mut u = self.base_url.clone();
        u.append("/api/tags");
        u
    }

    /// The address of the version endpoint, which tells whether the service
    /// is up.
    pub fn version_url(&self) -> (r: String)
        ensures
            r@ == self.base_url@ + "/api/version"@,
    {
        let mut u = self.base_url.clone();
        u.append("/api/version");
        u
    }
}

/// Whether `needle` occurs in `hay`.
pub open spec fn occurs_in(hay: Seq<char>, needle: Seq<char>) -> bool {
    exists|i: int| 0 <= i && i + needle.len() <= hay.len() && #[trigger] hay.subrange(i, i + needle.len()) == needle
}

/// Whether the service's list of models names the required model.
pub fn model_listed(listing: &str) -> (r: bool)
    ensures
        r == occurs_in(listing@, REQUIRED_MODEL@),
{
    let n = listing.unicode_len();
    let m = REQUIRED_MODEL.unicode_len();
    if m == 0 {
        assert(listing@.subrange(0int, 0int + REQUIRED_MODEL@.len()) =~= REQUIRED_MODEL@);
        return true;
    }
    if m > n {
        return false;
    }
    let mut i: usize = 0;
    while i <= n - m
        invariant
            n == listing@.len(),
            m == REQUIRED_MODEL@.len(),
            0 < m <= n,
            i <= n - m + 1,
            forall|j: int|
                0 <= j < i ==> #[trigger] listing@.subrange(j, j + REQUIRED_MODEL@.len()) != REQUIRED_MODEL@,
        decreases n - m + 1 - i,
    {
        if text_eq(listing.substring_char(i, i + m), REQUIRED_MODEL) {
            return true;
        }
        i = i + 1;
    }
    false
}

/// The prompt that asks for the tags of a project by its path alone.
pub open spec fn path_tag_prompt(project_path: Seq<char>) -> Seq<char> {
    "Generate 3-5 technical tags for this project: "@ + project_path
        + ". Output ONLY comma-separated tags, no explanations or additional text."@
}

/// The request that asks the required model for the tags of a project by
/// its path alone.
pub fn path_tag_request(project_path: &str) -> (r: GenerateRequest)
    ensures
        r.model@ == REQUIRED_MODEL@,
        r.prompt@ == path_tag_prompt(project_path@),
        r.system is None,
        r.template is None,
        r.context is None,
        !r.stream,
        r.format is None,
{
    let mut prompt = String::from_str("Generate 3-5 technical tags for this project: ");
    prompt.append(project_path);
    prompt.append(". Output ONLY comma-separated tags, no explanations or additional text.");
    GenerateRequest {
        model: String::from_str(REQUIRED_MODEL),
        prompt,
        system: None,
        template: None,
        context: None,
        stream: false,
        format: None,
    }
}

/// What setting up the service calls for.
#[derive(Clone, Copy, Debug, PartialEq, Eq, Structural)]
pub enum SetupAction {
    /// The service is installed and has the required model.
    Ready,
    /// The service is installed; the required model is to be pulled.
    PullModel,
    /// The service is not installed.
    NotInstalled,
}

/// What to do from whether the service is installed and from its list of
/// models (looked at only when it is installed).
pub fn setup_action(installed: bool, listing: &str) -> (r: SetupAction)
    ensures
        !installed ==> r == SetupAction::NotInstalled,
        installed && occurs_in(listing@, REQUIRED_MODEL@) ==> r == SetupAction::Ready,
        installed && !occurs_in(listing@, REQUIRED_MODEL@) ==> r == SetupAction::PullModel,
{
    if !installed {
        SetupAction::NotInstalled
    } else if model_listed(listing) {
        SetupAction::Ready
    } else {
        SetupAction::PullModel
    }
}

} // verus!
