//! Settings of the program, and the cloud keys that it borrows from Nexo.

use vstd::prelude::*;
use crate::json;
use crate::json::{Json, JsonView};
use crate::paths;

verus! {

/// The settings.
pub struct AppConfig {
    /// The Canvas instance of the university.
    pub canvas_url: String,
    /// Personal access token of Canvas.
    pub canvas_token: String,
    /// Folder into which the files are downloaded.
    pub download_dir: String,
    /// ISO date on which the token was saved.
    pub token_created: String,
    /// Where the local models are served.
    pub ollama_url: String,
    /// Local model that classifies documents.
    pub classify_model: String,
    /// Local model that makes embeddings.
    pub embed_model: String,
    /// Cloud provider of the summaries: `gemini` or `openrouter`.
    pub summary_provider: String,
    /// Cloud model of the summaries.
    pub summary_model: String,
    /// Whether the theme follows the colours of the wallpaper.
    pub dynamic_theme: bool,
}

/// What an `AppConfig` holds.
#[verifier::ext_equal]
pub struct AppConfigView {
    pub canvas_url: Seq<char>,
    pub canvas_token: Seq<char>,
    pub download_dir: Seq<char>,
    pub token_created: Seq<char>,
    pub ollama_url: Seq<char>,
    pub classify_model: Seq<char>,
    pub embed_model: Seq<char>,
    pub summary_provider: Seq<char>,
    pub summary_model: Seq<char>,
    pub dynamic_theme: bool,
}

impl View for AppConfig {
    type V = AppConfigView;

    open spec fn view(&self) -> AppConfigView {
        AppConfigView {
            canvas_url: self.canvas_url@,
            canvas_token: self.canvas_token@,
            download_dir: self.download_dir@,
            token_created: self.token_created@,
            ollama_url: self.ollama_url@,
            classify_model: self.classify_model@,
            embed_model: self.embed_model@,
            summary_provider: self.summary_provider@,
            summary_model: self.summary_model@,
            dynamic_theme: self.dynamic_theme,
        }
    }
}

impl Clone for AppConfig {
    fn clone(&self) -> (r: AppConfig)
        ensures
            r@ == self@,
    {
        AppConfig {
            canvas_url: self.canvas_url.clone(),
            canvas_token: self.canvas_token.clone(),
            download_dir: self.download_dir.clone(),
            token_created: self.token_created.clone(),
            ollama_url: self.ollama_url.clone(),
            classify_model: self.classify_model.clone(),
            embed_model: self.embed_model.clone(),
            summary_provider: self.summary_provider.clone(),
            summary_model: self.summary_model.clone(),
            dynamic_theme: self.dynamic_theme,
        }
    }
}

/// The setting `canvas_url` where none was made.
pub fn default_canvas_url() -> (r: String)
    ensures
        r@ == "https://cursos.canvas.uc.cl"@,
{
    "https://cursos.canvas.uc.cl".to_owned()
}

/// The setting `download_dir` where none was made.
pub fn default_download_dir() -> (r: String)
    ensures
        r@ == "/mnt/linux/Universidad"@,
{
    "/mnt/linux/Universidad".to_owned()
}

/// The setting `ollama_url` where none was made.
pub fn default_ollama() -> (r: String)
    ensures
        r@ == "http://localhost:11434"@,
{
    "http://localhost:11434".to_owned()
}

/// The setting `classify_model` where none was made.
pub fn default_classify_model() -> (r: String)
    ensures
        r@ == "qwen2.5:7b"@,
{
    "qwen2.5:7b".to_owned()
}

/// The setting `embed_model` where none was made.
pub fn default_embed_model() -> (r: String)
    ensures
        r@ == "nomic-embed-text:latest"@,
{
    "nomic-embed-text:latest".to_owned()
}

/// The setting `summary_provider` where none was made.
pub fn default_summary_provider() -> (r: String)
    ensures
        r@ == "gemini"@,
{
    "gemini".to_owned()
}

/// The setting `summary_model` where none was made.
pub fn default_summary_model() -> (r: String)
    ensures
        r@ == "gemini-3-flash-preview"@,
{
    "gemini-3-flash-preview".to_owned()
}

/// The settings where none was made.
pub open spec fn default_config() -> AppConfigView {
    AppConfigView {
        canvas_url: "https://cursos.canvas.uc.cl"@,
        canvas_token: seq![],
        download_dir: "/mnt/linux/Universidad"@,
        token_created: seq![],
        ollama_url: "http://localhost:11434"@,
        classify_model: "qwen2.5:7b"@,
        embed_model: "nomic-embed-text:latest"@,
        summary_provider: "gemini"@,
        summary_model: "gemini-3-flash-preview"@,
        dynamic_theme: false,
    }
}

impl Default for AppConfig {
    fn default() -> (r: AppConfig)
        ensures
            r@ == default_config(),
    {
        AppConfig {
            canvas_url: default_canvas_url(),
            canvas_token: String::new(),
            download_dir: default_download_dir(),
            token_created: String::new(),
            ollama_url: default_ollama(),
            classify_model: default_classify_model(),
            embed_model: default_embed_model(),
            summary_provider: default_summary_provider(),
            summary_model: default_summary_model(),
            dynamic_theme: false,
        }
    }
}

/// Where the settings are kept, under the user's configuration folder.
pub fn config_path(config_dir: &str) -> (r: String)
    ensures
        r@ == paths::path_push(paths::path_push(config_dir@, "aula"@), "config.json"@),
{
    paths::join_path(paths::join_path(config_dir, "aula").as_str(), "config.json")
}

/// Where Nexo keeps its settings, under the user's configuration folder.
pub fn nexo_path(config_dir: &str) -> (r: String)
    ensures
        r@ == paths::path_push(paths::path_push(config_dir@, "cortado"@), "config.json"@),
{
    paths::join_path(paths::join_path(config_dir, "cortado").as_str(), "config.json")
}

/// The key of one provider in the settings of Nexo, or nothing.
pub open spec fn nexo_key(v: JsonView, provider: Seq<char>) -> Seq<char> {
    match v.get("keys"@) {
        Some(keys) => keys.text_of(provider),
        None => seq![],
    }
}

/// The key of one provider in the settings of Nexo, or nothing.
fn key_of(v: &Json, provider: &str) -> (r: String)
    ensures
        r@ == nexo_key(v@, provider@),
{
    match v.get("keys") {
        Some(keys) => keys.text_of(provider),
        None => String::new(),
    }
}

/// The keys of OpenRouter and of Gemini in the settings of Nexo.
pub fn nexo_keys_in(v: &Json) -> (r: (String, String))
    ensures
        r.0@ == nexo_key(v@, "openrouter"@),
        r.1@ == nexo_key(v@, "gemini"@),
{
    (key_of(v, "openrouter"), key_of(v, "gemini"))
}

/// The keys of OpenRouter and of Gemini in the text of Nexo's settings file;
/// two empty texts where it is not JSON.
pub fn nexo_keys(file: &str) -> (r: (String, String))
    ensures
        match json::json_of_text(file@) {
            Some(v) => r.0@ == nexo_key(v, "openrouter"@) && r.1@ == nexo_key(v, "gemini"@),
            None => r.0@ == Seq::<char>::empty() && r.1@ == Seq::<char>::empty(),
        },
{
    match json::parse(file) {
        Some(v) => nexo_keys_in(&v),
        None => (String::new(), String::new()),
    }
}

/// Which cloud providers have a key.
pub struct ProviderStatus {
    pub openrouter: bool,
    pub gemini: bool,
}

/// Which of the two keys there is.
pub fn provider_status(openrouter: &str, gemini: &str) -> (r: ProviderStatus)
    ensures
        r.openrouter == (openrouter@.len() > 0),
        r.gemini == (gemini@.len() > 0),
{
    ProviderStatus { openrouter: !openrouter.is_empty(), gemini: !gemini.is_empty() }
}

/// The key of a provider is what stands under its name among the keys of the file, and
/// nothing where there is none.
pub proof fn lemma_key_of_provider(v: JsonView, keys: JsonView, provider: Seq<char>, key: Seq<char>)
    ensures
        v.get("keys"@) == Some(keys) && keys.get(provider) == Some(JsonView::Str(key)) ==> nexo_key(
            v,
            provider,
        ) == key,
        v.get("keys"@) == Some(keys) && keys.get(provider) is None ==> nexo_key(v, provider).len()
            == 0,
        v.get("keys"@) is None ==> nexo_key(v, provider).len() == 0,
{
}

/// What is seen of a configuration is what it holds, each thing as itself.
pub proof fn lemma_app_config_seen(x: AppConfig)
    ensures
        x@.canvas_url == x.canvas_url@,
        x@.canvas_token == x.canvas_token@,
        x@.download_dir == x.download_dir@,
        x@.token_created == x.token_created@,
        x@.ollama_url == x.ollama_url@,
        x@.classify_model == x.classify_model@,
        x@.embed_model == x.embed_model@,
        x@.summary_provider == x.summary_provider@,
        x@.summary_model == x.summary_model@,
        x@.dynamic_theme == x.dynamic_theme,
{
}

/// What holds where nothing was configured: the university's Canvas, the local models on
/// this machine, Gemini for the summaries, and no token.
pub proof fn lemma_defaults()
    ensures
        ({
            let c = default_config();
            &&& c.canvas_url == "https://cursos.canvas.uc.cl"@
            &&& c.canvas_token.len() == 0 && c.token_created.len() == 0
            &&& c.download_dir == "/mnt/linux/Universidad"@
            &&& c.ollama_url == "http://localhost:11434"@
            &&& c.classify_model == "qwen2.5:7b"@
            &&& c.embed_model == "nomic-embed-text:latest"@
            &&& c.summary_provider == "gemini"@
            &&& c.summary_model == "gemini-3-flash-preview"@
            &&& !c.dynamic_theme
        }),
{
}

} // verus!
