//! Requests to language models: what is asked, whom, what is made of the reply,
//! and when to try again.

use vstd::prelude::*;
use vstd::string::*;
use crate::config::AppConfig;
use crate::json::{array_of_one, array_value, object_of_one, object_of_two, text_value, Json, JsonView};
use crate::json;
use crate::text;

verus! {

// ---------------------------------------------------------------------------
// Replies
// ---------------------------------------------------------------------------

/// What became of a request over the network.
pub enum Reply {
    /// No answer came; `error` says why.
    Unreachable { error: String },
    /// The answer has a status that is no success, such as "503 Service
    /// Unavailable".
    Refused { code: u16, status: String, body: String },
    /// The answer is a success, but no JSON; `error` says why.
    Garbled { error: String },
    /// The answer is a success.
    Answer { json: Json },
}

/// What a reply says.
pub enum ReplyView {
    Unreachable { error: Seq<char> },
    Refused { code: u16, status: Seq<char>, body: Seq<char> },
    Garbled { error: Seq<char> },
    Answer { json: JsonView },
}

impl View for Reply {
    type V = ReplyView;

    open spec fn view(&self) -> ReplyView {
        match *self {
            Reply::Unreachable { error } => ReplyView::Unreachable { error: error@ },
            Reply::Refused { code, status, body } => ReplyView::Refused {
                code,
                status: status@,
                body: body@,
            },
            Reply::Garbled { error } => ReplyView::Garbled { error: error@ },
            Reply::Answer { json } => ReplyView::Answer { json: json@ },
        }
    }
}

/// What a result with texts inside says.
pub open spec fn result_view(r: Result<String, String>) -> Result<Seq<char>, Seq<char>> {
    match r {
        Ok(s) => Ok(s@),
        Err(e) => Err(e@),
    }
}

/// The text of the first choice in an answer of a chat.
pub open spec fn choice_text(v: JsonView) -> Option<Seq<char>> {
    match v.get("choices"@) {
        Some(choices) => match choices.first() {
            Some(choice) => match choice.get("message"@) {
                Some(message) => message.get_str("content"@),
                None => None,
            },
            None => None,
        },
        None => None,
    }
}

/// The text of the first choice in an answer of a chat.
pub fn chat_text(v: &Json) -> (r: Option<String>)
    ensures
        text::opt_view(r) == choice_text(v@),
{
    match v.get("choices") {
        Some(choices) => match choices.first() {
            Some(choice) => match choice.get("message") {
                Some(message) => match message.get_str("content") {
                    Some(s) => Some(s.to_owned()),
                    None => None,
                },
                None => None,
            },
            None => None,
        },
        None => None,
    }
}

// ---------------------------------------------------------------------------
// Whom to ask
// ---------------------------------------------------------------------------

/// Where a request to the cloud goes.
pub struct CloudTarget {
    pub endpoint: String,
    pub key: String,
    /// Whether the request names the application in headers of its own.
    pub extra_headers: bool,
}

/// What a target is.
#[verifier::ext_equal]
pub struct CloudTargetView {
    pub endpoint: Seq<char>,
    pub key: Seq<char>,
    pub extra_headers: bool,
}

impl View for CloudTarget {
    type V = CloudTargetView;

    open spec fn view(&self) -> CloudTargetView {
        CloudTargetView {
            endpoint: self.endpoint@,
            key: self.key@,
            extra_headers: self.extra_headers,
        }
    }
}

/// The endpoint of Gemini.
pub const GEMINI_ENDPOINT: &'static str = "https://generativelanguage.googleapis.com/v1beta/openai/chat/completions";

/// The endpoint of OpenRouter.
pub const OPENROUTER_ENDPOINT: &'static str = "https://openrouter.ai/api/v1/chat/completions";

/// Where a request goes, by the provider that is set and the keys that there
/// are; or why it cannot be made.
pub open spec fn target_of(
    provider: Seq<char>,
    openrouter: Seq<char>,
    gemini: Seq<char>,
) -> Result<CloudTargetView, Seq<char>> {
    if provider == "gemini"@ {
        if gemini.len() == 0 {
            Err("Falta la API key de Gemini en Nexo (~/.config/cortado/config.json)."@)
        } else {
            Ok(
                CloudTargetView {
                    endpoint: GEMINI_ENDPOINT@,
                    key: gemini,
                    extra_headers: false,
                },
            )
        }
    } else if provider == "openrouter"@ {
        if openrouter.len() == 0 {
            Err("Falta la API key de OpenRouter en Nexo."@)
        } else {
            Ok(
                CloudTargetView {
                    endpoint: OPENROUTER_ENDPOINT@,
                    key: openrouter,
                    extra_headers: true,
                },
            )
        }
    } else {
        Err("Proveedor de resúmenes desconocido: "@ + provider)
    }
}

/// Where a request goes, or why it cannot be made.
pub fn cloud_target(provider: &str, openrouter: String, gemini: String) -> (r: Result<
    CloudTarget,
    String,
>)
    ensures
        match r {
            Ok(t) => target_of(provider@, openrouter@, gemini@) == Ok::<CloudTargetView, Seq<char>>(
                t@,
            ),
            Err(e) => target_of(provider@, openrouter@, gemini@) == Err::<
                CloudTargetView,
                Seq<char>,
            >(e@),
        },
{
    if text::same(provider, "gemini") {
        if gemini.as_str().is_empty() {
            Err("Falta la API key de Gemini en Nexo (~/.config/cortado/config.json).".to_owned())
        } else {
            Ok(
                CloudTarget {
                    endpoint: GEMINI_ENDPOINT.to_owned(),
                    key: gemini,
                    extra_headers: false,
                },
            )
        }
    } else if text::same(provider, "openrouter") {
        if openrouter.as_str().is_empty() {
            Err("Falta la API key de OpenRouter en Nexo.".to_owned())
        } else {
            Ok(
                CloudTarget {
                    endpoint: OPENROUTER_ENDPOINT.to_owned(),
                    key: openrouter,
                    extra_headers: true,
                },
            )
        }
    } else {
        Err(text::concat("Proveedor de resúmenes desconocido: ", provider))
    }
}

// ---------------------------------------------------------------------------
// What to ask
// ---------------------------------------------------------------------------

/// The temperature of summaries, 0.4, as the bits of a double-precision number.
pub const SUMMARY_TEMPERATURE: u64 = 0x3FD9_9999_9999_999A;

/// The temperature of classification, 0, as the bits of a double-precision
/// number.
pub const CLASSIFY_TEMPERATURE: u64 = 0;

/// The temperature of the local model, 0.2, as the bits of a double-precision
/// number.
pub const LOCAL_TEMPERATURE: u64 = 0x3FC9_9999_9999_999A;

/// A picture as a part of a message.
pub open spec fn image_part(url: Seq<char>) -> JsonView {
    JsonView::Object(
        seq![
            ("type"@, JsonView::Str("image_url"@)),
            ("image_url"@, JsonView::Object(seq![("url"@, JsonView::Str(url))])),
        ],
    )
}

/// The content of a message: the prompt alone, or with pictures behind it.
pub open spec fn message_content(prompt: Seq<char>, images: Seq<Seq<char>>) -> JsonView {
    if images.len() == 0 {
        JsonView::Str(prompt)
    } else {
        JsonView::Array(
            seq![
                JsonView::Object(
                    seq![("type"@, JsonView::Str("text"@)), ("text"@, JsonView::Str(prompt))],
                ),
            ] + images.map_values(|url: Seq<char>| image_part(url)),
        )
    }
}

/// The content of a message: the prompt alone, or with pictures behind it.
pub fn prompt_content(prompt: &str, images: &Vec<String>) -> (r: Json)
    ensures
        r@ == message_content(prompt@, text::views(images@)),
{
    if images.len() == 0 {
        return text_value(prompt);
    }
    let ghost urls = text::views(images@);
    let ghost parts = urls.map_values(|url: Seq<char>| image_part(url));
    let mut v: Vec<Json> = Vec::new();
    let first = object_of_two("type", text_value("text"), "text", text_value(prompt));
    let ghost head = seq![first@];
    v.push(first);
    let mut i: usize = 0;
    assert(text::views(v@) =~= head + parts.take(0));
    while i < images.len()
        invariant
            i <= images@.len(),
            urls == text::views(images@),
            parts == urls.map_values(|url: Seq<char>| image_part(url)),
            text::views(v@) == head + parts.take(i as int),
        decreases images.len() - i,
    {
        let url = object_of_one("url", text_value(images[i].as_str()));
        let part = object_of_two("type", text_value("image_url"), "image_url", url);
        proof {
            assert(part@ == image_part(urls[i as int]));
            text::lemma_views_push(v@, part);
            assert(head + parts.take(i + 1) =~= (head + parts.take(i as int)).push(part@));
        }
        v.push(part);
        i += 1;
    }
    assert(parts.take(parts.len() as int) =~= parts);
    array_value(v)
}

/// A number given by its bits, as a value.
pub open spec fn number_of_bits(bits: u64) -> JsonView {
    JsonView::Number { uint: None, sint: None, bits: Some(bits) }
}

/// The body of a request to a chat. In JSON mode the model answers with an
/// object.
pub open spec fn chat_request_of(
    model: Seq<char>,
    content: JsonView,
    temperature: u64,
    json_mode: bool,
) -> JsonView {
    let plain = seq![
        ("model"@, JsonView::Str(model)),
        (
            "messages"@,
            JsonView::Array(
                seq![
                    JsonView::Object(
                        seq![("role"@, JsonView::Str("user"@)), ("content"@, content)],
                    ),
                ],
            ),
        ),
        ("stream"@, JsonView::Bool(false)),
        ("temperature"@, number_of_bits(temperature)),
    ];
    JsonView::Object(
        if json_mode {
            plain.push(
                (
                    "response_format"@,
                    JsonView::Object(seq![("type"@, JsonView::Str("json_object"@))]),
                ),
            )
        } else {
            plain
        },
    )
}

/// The body of a request to a chat: a single message of the user.
pub fn chat_request(model: &str, content: Json, temperature: u64, json_mode: bool) -> (r: Json)
    ensures
        r@ == chat_request_of(model@, content@, temperature, json_mode),
{
    let ghost cv = content@;
    let message = object_of_two("role", text_value("user"), "content", content);
    let messages = array_of_one(message);
    let ghost mv = messages@;
    let mut v: Vec<(String, Json)> = Vec::new();
    v.push(("model".to_owned(), text_value(model)));
    v.push(("messages".to_owned(), messages));
    v.push(("stream".to_owned(), Json::Bool(false)));
    v.push(("temperature".to_owned(), Json::Number { uint: None, sint: None, bits: Some(temperature) }));
    if json_mode {
        v.push(
            (
                "response_format".to_owned(),
                object_of_one("type", text_value("json_object")),
            ),
        );
    }
    proof {
        json::lemma_object_view(v@);
        let want = chat_request_of(model@, cv, temperature, json_mode)->Object_0;
        assert(json::object_view(v@) =~= want);
    }
    Json::Object(v)
}

/// The body of a request to the cloud.
pub fn cloud_request(cfg: &AppConfig, content: Json, temperature: u64, json_mode: bool) -> (r: Json)
    ensures
        r@ == chat_request_of(cfg@.summary_model, content@, temperature, json_mode),
{
    chat_request(cfg.summary_model.as_str(), content, temperature, json_mode)
}

// ---------------------------------------------------------------------------
// Trying again
// ---------------------------------------------------------------------------

/// How often a request to the cloud is made at most.
pub const MAX_ATTEMPTS: u32 = 4;

/// The statuses that may pass by themselves: too many requests, or a server that
/// is overloaded or out of order.
pub open spec fn transient_code(code: u16) -> bool {
    code == 429 || code == 500 || code == 502 || code == 503 || code == 504
}

/// What a reply is worth.
pub enum WorthView {
    /// The text that was asked for.
    Text(Seq<char>),
    /// An error that may pass by itself.
    Passing(Seq<char>),
    /// An error that will not.
    Lasting(Seq<char>),
}

/// What a reply of the cloud is worth.
pub open spec fn worth(reply: ReplyView) -> WorthView {
    match reply {
        ReplyView::Unreachable { error } => WorthView::Passing("Conexión cloud: "@ + error),
        ReplyView::Garbled { error } => WorthView::Passing(error),
        ReplyView::Answer { json } => match choice_text(json) {
            Some(s) => if text::blank(s) {
                WorthView::Passing("Respuesta cloud vacía"@)
            } else {
                WorthView::Text(s)
            },
            None => WorthView::Passing("Respuesta cloud vacía"@),
        },
        ReplyView::Refused { code, status, body } => {
            let error = "HTTP "@ + status + ": "@ + text::first_chars(body, 300);
            if transient_code(code) {
                WorthView::Passing(error)
            } else {
                WorthView::Lasting(error)
            }
        },
    }
}

/// What to do after a reply.
pub enum CloudStep {
    /// Wait so many seconds, then ask again.
    Retry { wait: u64 },
    /// The text that was asked for.
    Answer { text: String },
    /// Give up.
    Fail { error: String },
}

/// What a step is.
pub enum CloudStepView {
    Retry { wait: u64 },
    Answer { text: Seq<char> },
    Fail { error: Seq<char> },
}

impl View for CloudStep {
    type V = CloudStepView;

    open spec fn view(&self) -> CloudStepView {
        match *self {
            CloudStep::Retry { wait } => CloudStepView::Retry { wait },
            CloudStep::Answer { text } => CloudStepView::Answer { text: text@ },
            CloudStep::Fail { error } => CloudStepView::Fail { error: error@ },
        }
    }
}

/// The seconds to wait before the attempt with this number, the first being 0.
pub open spec fn wait_before(attempt: int) -> u64 {
    if attempt <= 0 {
        0
    } else if attempt == 1 {
        2
    } else if attempt == 2 {
        5
    } else {
        12
    }
}

/// What to do after the reply to the attempt with this number, the first being 0.
pub open spec fn step_after(attempt: int, reply: ReplyView) -> CloudStepView {
    match worth(reply) {
        WorthView::Text(text) => CloudStepView::Answer { text },
        WorthView::Lasting(error) => CloudStepView::Fail { error },
        WorthView::Passing(error) => if attempt + 1 >= MAX_ATTEMPTS {
            CloudStepView::Fail {
                error: "Agotados los reintentos cloud. Último error: "@ + error,
            }
        } else {
            CloudStepView::Retry { wait: wait_before(attempt + 1) }
        },
    }
}

/// What to do after an error that may pass by itself.
fn after_passing(attempt: u32, error: String) -> (r: CloudStep)
    requires
        attempt < MAX_ATTEMPTS,
    ensures
        r@ == if attempt + 1 >= MAX_ATTEMPTS {
            CloudStepView::Fail {
                error: "Agotados los reintentos cloud. Último error: "@ + error@,
            }
        } else {
            CloudStepView::Retry { wait: wait_before(attempt + 1) }
        },
{
    if attempt + 1 >= MAX_ATTEMPTS {
        CloudStep::Fail {
            error: text::concat("Agotados los reintentos cloud. Último error: ", error.as_str()),
        }
    } else if attempt == 0 {
        CloudStep::Retry { wait: 2 }
    } else if attempt == 1 {
        CloudStep::Retry { wait: 5 }
    } else {
        CloudStep::Retry { wait: 12 }
    }
}

/// What to do after the reply to the attempt with this number, the first being 0:
/// errors that may pass are tried again after a growing wait, any other ends the
/// run at once.
pub fn cloud_step(attempt: u32, reply: Reply) -> (r: CloudStep)
    requires
        attempt < MAX_ATTEMPTS,
    ensures
        r@ == step_after(attempt as int, reply@),
{
    match reply {
        Reply::Unreachable { error } => after_passing(
            attempt,
            text::concat("Conexión cloud: ", error.as_str()),
        ),
        Reply::Garbled { error } => after_passing(attempt, error),
        Reply::Answer { json } => match chat_text(&json) {
            Some(s) => if text::is_blank(s.as_str()) {
                after_passing(attempt, "Respuesta cloud vacía".to_owned())
            } else {
                CloudStep::Answer { text: s }
            },
            None => after_passing(attempt, "Respuesta cloud vacía".to_owned()),
        },
        Reply::Refused { code, status, body } => {
            let mut error = "HTTP ".to_owned();
            error.append(status.as_str());
            error.append(": ");
            error.append(text::take_chars(body.as_str(), 300).as_str());
            if code == 429 || code == 500 || code == 502 || code == 503 || code == 504 {
                after_passing(attempt, error)
            } else {
                CloudStep::Fail { error }
            }
        },
    }
}

/// What a run from this attempt on comes to, `replies[i]` being the reply to the
/// attempt `i`.
pub open spec fn run_result(replies: Seq<ReplyView>, attempt: int) -> Result<Seq<char>, Seq<char>>
    decreases MAX_ATTEMPTS - attempt,
{
    match step_after(attempt, replies[attempt]) {
        CloudStepView::Answer { text } => Ok(text),
        CloudStepView::Fail { error } => Err(error),
        CloudStepView::Retry { wait } => if attempt < 0 || attempt >= MAX_ATTEMPTS {
            Err(seq![])
        } else {
            run_result(replies, attempt + 1)
        },
    }
}

/// Every run is over after its last attempt at the latest, never waits longer
/// than twelve seconds at a time, and takes no error that lasts for one to try
/// again.
pub proof fn lemma_run_ends(attempt: int, reply: ReplyView)
    requires
        0 <= attempt < MAX_ATTEMPTS,
    ensures
        step_after(attempt, reply) is Retry ==> attempt + 1 < MAX_ATTEMPTS,
        step_after(attempt, reply) is Retry ==> 0 < step_after(attempt, reply)->wait <= 12,
        worth(reply) is Lasting ==> step_after(attempt, reply) is Fail,
        worth(reply) is Text ==> step_after(attempt, reply) is Answer,
{
}

/// A run succeeds exactly where one of its attempts brings a text and every
/// attempt before it an error that may pass, and then with that text.
pub proof fn lemma_run_result(replies: Seq<ReplyView>, attempt: int, k: int)
    requires
        0 <= attempt <= k < MAX_ATTEMPTS,
        forall|j: int| attempt <= j < k ==> worth(#[trigger] replies[j]) is Passing,
    ensures
        worth(replies[k]) is Text ==> run_result(replies, attempt) == Ok::<Seq<char>, Seq<char>>(
            worth(replies[k])->Text_0,
        ),
        worth(replies[k]) is Lasting ==> run_result(replies, attempt) == Err::<
            Seq<char>,
            Seq<char>,
        >(worth(replies[k])->Lasting_0),
        worth(replies[k]) is Passing && k == MAX_ATTEMPTS - 1 ==> run_result(replies, attempt)
            is Err,
    decreases k - attempt,
{
    if attempt < k {
        assert(worth(replies[attempt]) is Passing);
        lemma_run_result(replies, attempt + 1, k);
    }
}

// ---------------------------------------------------------------------------
// The local model
// ---------------------------------------------------------------------------

/// The address of the chat of the local model.
pub fn ollama_chat_url(cfg: &AppConfig) -> (r: String)
    ensures
        r@ == text::without_last(cfg@.ollama_url, '/') + "/v1/chat/completions"@,
{
    let mut s = text::strip_last(cfg.ollama_url.as_str(), '/');
    s.append("/v1/chat/completions");
    s
}

/// The body of a request to the chat of the local model.
pub fn ollama_request(model: &str, prompt: &str) -> (r: Json)
    ensures
        r@ == chat_request_of(model@, JsonView::Str(prompt@), LOCAL_TEMPERATURE, false),
{
    chat_request(model, text_value(prompt), LOCAL_TEMPERATURE, false)
}

/// What a reply of the local model's chat comes to.
pub open spec fn ollama_result(reply: ReplyView) -> Result<Seq<char>, Seq<char>> {
    match reply {
        ReplyView::Unreachable { error } => Err(
            "Ollama: "@ + error + " (¿está corriendo `ollama serve`?)"@,
        ),
        ReplyView::Refused { code, status, body } => Err("Ollama HTTP "@ + status),
        ReplyView::Garbled { error } => Err(error),
        ReplyView::Answer { json } => match choice_text(json) {
            Some(s) => Ok(text::trimmed(s)),
            None => Err("Respuesta vacía de Ollama"@),
        },
    }
}

/// What a reply of the local model's chat comes to.
pub fn ollama_chat(reply: Reply) -> (r: Result<String, String>)
    ensures
        result_view(r) == ollama_result(reply@),
{
    match reply {
        Reply::Unreachable { error } => {
            let mut s = "Ollama: ".to_owned();
            s.append(error.as_str());
            s.append(" (¿está corriendo `ollama serve`?)");
            Err(s)
        },
        Reply::Refused { code: _, status, body: _ } => Err(
            text::concat("Ollama HTTP ", status.as_str()),
        ),
        Reply::Garbled { error } => Err(error),
        Reply::Answer { json } => match chat_text(&json) {
            Some(s) => Ok(text::trim(s.as_str())),
            None => Err("Respuesta vacía de Ollama".to_owned()),
        },
    }
}

/// The address of the embeddings of the local model.
pub fn embed_url(cfg: &AppConfig) -> (r: String)
    ensures
        r@ == text::without_last(cfg@.ollama_url, '/') + "/api/embeddings"@,
{
    let mut s = text::strip_last(cfg.ollama_url.as_str(), '/');
    s.append("/api/embeddings");
    s
}

/// The body of a request for the embedding of a text.
pub fn embed_request(cfg: &AppConfig, s: &str) -> (r: Json)
    ensures
        r@ == JsonView::Object(
            seq![
                ("model"@, JsonView::Str(cfg@.embed_model)),
                ("prompt"@, JsonView::Str(text::first_chars(s@, 6000))),
            ],
        ),
{
    let sample = text::take_chars(s, 6000);
    object_of_two(
        "model",
        text_value(cfg.embed_model.as_str()),
        "prompt",
        text_value(sample.as_str()),
    )
}

/// The numbers among the first `n` values, by their bits.
pub open spec fn numbers_upto(vs: Seq<JsonView>, n: int) -> Seq<u64>
    decreases n,
{
    if n <= 0 {
        seq![]
    } else {
        match vs[n - 1].as_bits() {
            Some(bits) => numbers_upto(vs, n - 1).push(bits),
            None => numbers_upto(vs, n - 1),
        }
    }
}

/// What a reply to a request for an embedding comes to: the numbers of the
/// embedding, as the bits of double-precision numbers.
pub open spec fn embed_result(reply: ReplyView) -> Result<Seq<u64>, Seq<char>> {
    match reply {
        ReplyView::Unreachable { error } => Err("Ollama embeddings: "@ + error),
        ReplyView::Refused { code, status, body } => Err("Ollama HTTP "@ + status),
        ReplyView::Garbled { error } => Err(error),
        ReplyView::Answer { json } => match json.get("embedding"@) {
            Some(e) => match e.as_array() {
                Some(vs) => Ok(numbers_upto(vs, vs.len() as int)),
                None => Err("Respuesta de embedding vacía"@),
            },
            None => Err("Respuesta de embedding vacía"@),
        },
    }
}

/// The numbers among values, by their bits.
fn numbers_in(vs: &Vec<Json>) -> (r: Vec<u64>)
    ensures
        r@ == numbers_upto(text::views(vs@), vs@.len() as int),
{
    let mut out: Vec<u64> = Vec::new();
    let ghost all = text::views(vs@);
    let mut i: usize = 0;
    while i < vs.len()
        invariant
            i <= vs@.len(),
            all == text::views(vs@),
            out@ == numbers_upto(all, i as int),
        decreases vs.len() - i,
    {
        assert(all[i as int] == vs@[i as int]@);
        match vs[i].as_bits() {
            Some(bits) => {
                out.push(bits);
            },
            None => {},
        }
        i += 1;
    }
    out
}

/// What a reply to a request for an embedding comes to.
pub fn embed(reply: Reply) -> (r: Result<Vec<u64>, String>)
    ensures
        match r {
            Ok(v) => embed_result(reply@) == Ok::<Seq<u64>, Seq<char>>(v@),
            Err(e) => embed_result(reply@) == Err::<Seq<u64>, Seq<char>>(e@),
        },
{
    match reply {
        Reply::Unreachable { error } => Err(text::concat("Ollama embeddings: ", error.as_str())),
        Reply::Refused { code: _, status, body: _ } => Err(
            text::concat("Ollama HTTP ", status.as_str()),
        ),
        Reply::Garbled { error } => Err(error),
        Reply::Answer { json } => match json.get("embedding") {
            Some(e) => match e.as_array() {
                Some(vs) => Ok(numbers_in(vs)),
                None => Err("Respuesta de embedding vacía".to_owned()),
            },
            None => Err("Respuesta de embedding vacía".to_owned()),
        },
    }
}

// ---------------------------------------------------------------------------
// What is asked of whom, and what the reply is worth
// ---------------------------------------------------------------------------

/// The text of a reply is the content of the message of its first choice.
pub proof fn lemma_choice_text(
    v: JsonView,
    choices: Seq<JsonView>,
    message: JsonView,
    content: Seq<char>,
)
    ensures
        v.get("choices"@) == Some(JsonView::Array(choices)) && choices.len() > 0 && choices[0].get(
            "message"@,
        ) == Some(message) && message.get("content"@) == Some(JsonView::Str(content))
            ==> choice_text(v) == Some(content),
        v.get("choices"@) is None ==> choice_text(v) is None,
        v.get("choices"@) == Some(JsonView::Array(Seq::<JsonView>::empty())) ==> choice_text(
            v,
        ) is None,
        v.get("choices"@) == Some(JsonView::Array(choices)) && choices.len() > 0 && choices[0].get(
            "message"@,
        ) is None ==> choice_text(v) is None,
{
}

/// Each provider is asked at its own address and with its own key, and only where there
/// is one; OpenRouter alone gets the headers that name the application. No other
/// provider is known.
pub proof fn lemma_target(provider: Seq<char>, openrouter: Seq<char>, gemini: Seq<char>)
    ensures
        provider == "gemini"@ ==> (target_of(provider, openrouter, gemini) is Ok <==> gemini.len()
            > 0),
        provider == "gemini"@ ==> (target_of(provider, openrouter, gemini) matches Ok(t) ==> t.key
            == gemini && t.endpoint
            == "https://generativelanguage.googleapis.com/v1beta/openai/chat/completions"@
            && !t.extra_headers),
        provider == "openrouter"@ ==> (target_of(provider, openrouter, gemini) is Ok
            <==> openrouter.len() > 0),
        provider == "openrouter"@ ==> (target_of(provider, openrouter, gemini) matches Ok(t)
            ==> t.key == openrouter && t.endpoint == "https://openrouter.ai/api/v1/chat/completions"@
            && t.extra_headers),
        provider != "gemini"@ && provider != "openrouter"@ ==> target_of(
            provider,
            openrouter,
            gemini,
        ) == Err::<CloudTargetView, Seq<char>>(
            "Proveedor de resúmenes desconocido: "@ + provider,
        ),
        target_of("gemini"@, openrouter, Seq::empty()) == Err::<CloudTargetView, Seq<char>>(
            "Falta la API key de Gemini en Nexo (~/.config/cortado/config.json)."@,
        ),
        target_of("openrouter"@, Seq::empty(), gemini) == Err::<CloudTargetView, Seq<char>>(
            "Falta la API key de OpenRouter en Nexo."@,
        ),
{
    reveal_strlit("gemini");
    reveal_strlit("openrouter");
    assert("gemini"@.len() == 6 && "openrouter"@.len() == 10);
}

/// A request names the model and its temperature, asks for the whole answer at once and
/// holds one message of the user with the content; it asks for JSON only where that is
/// wanted.
pub proof fn lemma_request_says(
    model: Seq<char>,
    content: JsonView,
    temperature: u64,
    json_mode: bool,
)
    ensures
        ({
            let r = chat_request_of(model, content, temperature, json_mode);
            &&& r.get_str("model"@) == Some(model)
            &&& r.get("temperature"@) matches Some(t) && t.as_bits() == Some(temperature)
            &&& r.get("stream"@) == Some(JsonView::Bool(false))
            &&& r.get("messages"@) matches Some(JsonView::Array(ms)) && ms.len() == 1
                && ms[0].get_str("role"@) == Some("user"@) && ms[0].get("content"@) == Some(content)
            &&& json_mode ==> (r.get("response_format"@) matches Some(f) && f.get_str("type"@)
                == Some("json_object"@))
            &&& !json_mode ==> r.get("response_format"@) is None
        }),
{
    reveal_strlit("model");
    reveal_strlit("messages");
    reveal_strlit("stream");
    reveal_strlit("temperature");
    reveal_strlit("response_format");
    reveal_strlit("role");
    reveal_strlit("content");
    assert("model"@.len() == 5 && "messages"@.len() == 8 && "stream"@.len() == 6
        && "temperature"@.len() == 11 && "response_format"@.len() == 15 && "role"@.len() == 4
        && "content"@.len() == 7);
    let r = chat_request_of(model, content, temperature, json_mode);
    let es = r->Object_0;
    json::lemma_member(es, "model"@, 0);
    json::lemma_member(es, "messages"@, 1);
    json::lemma_member(es, "stream"@, 2);
    json::lemma_member(es, "temperature"@, 3);
    json::lemma_member(es, "response_format"@, 4);
    let m = seq![("role"@, JsonView::Str("user"@)), ("content"@, content)];
    json::lemma_member(m, "role"@, 0);
    json::lemma_member(m, "content"@, 1);
    let f = seq![("type"@, JsonView::Str("json_object"@))];
    json::lemma_member(f, "type"@, 0);
}

/// The content of a message without pictures is the text; with pictures it is the text
/// and then each picture by its address, in their order.
pub proof fn lemma_content_says(prompt: Seq<char>, images: Seq<Seq<char>>)
    ensures
        images.len() == 0 ==> message_content(prompt, images) == JsonView::Str(prompt),
        images.len() > 0 ==> (message_content(prompt, images) matches JsonView::Array(ps)
            && ps.len() == images.len() + 1 && ps[0].get_str("type"@) == Some("text"@)
            && ps[0].get_str("text"@) == Some(prompt) && forall|k: int|
            0 <= k < images.len() ==> (#[trigger] ps[k + 1]).get_str("type"@) == Some("image_url"@)
                && (ps[k + 1].get("image_url"@) matches Some(u) && u.get_str("url"@) == Some(
                images[k],
            ))),
{
    reveal_strlit("type");
    reveal_strlit("text");
    reveal_strlit("image_url");
    assert("type"@.len() == 4 && "type"@[1] == 'y' && "text"@.len() == 4 && "text"@[1] == 'e'
        && "image_url"@.len() == 9);
    assert("type"@ != "text"@);
    if images.len() > 0 {
        let ps = message_content(prompt, images)->Array_0;
        let first = seq![("type"@, JsonView::Str("text"@)), ("text"@, JsonView::Str(prompt))];
        json::lemma_member(first, "type"@, 0);
        json::lemma_member(first, "text"@, 1);
        assert(ps[0] == JsonView::Object(first));
        assert forall|k: int| 0 <= k < images.len() implies (#[trigger] ps[k + 1]).get_str("type"@)
            == Some("image_url"@) && (ps[k + 1].get("image_url"@) matches Some(u) && u.get_str(
            "url"@,
        ) == Some(images[k])) by {
            assert(ps[k + 1] == image_part(images[k]));
            let es = image_part(images[k])->Object_0;
            json::lemma_member(es, "type"@, 0);
            json::lemma_member(es, "image_url"@, 1);
            let u = seq![("url"@, JsonView::Str(images[k]))];
            json::lemma_member(u, "url"@, 0);
        }
    }
}

/// A reply that names no error and is not blank ends the run with its text. A lost
/// connection, an unreadable or an empty answer and the codes of an overloaded server
/// are waited out: two, five and twelve seconds, and after the fourth attempt the run
/// fails; any other refusal fails at once.
pub proof fn lemma_reply_counts(
    attempt: int,
    error: Seq<char>,
    json: JsonView,
    code: u16,
    status: Seq<char>,
    body: Seq<char>,
)
    requires
        0 <= attempt < 4,
    ensures
        choice_text(json) matches Some(s) ==> (!text::blank(s) ==> step_after(
            attempt,
            ReplyView::Answer { json },
        ) == (CloudStepView::Answer { text: s })),
        ({
            let again = if attempt == 0 {
                2u64
            } else if attempt == 1 {
                5
            } else {
                12
            };
            let empty = choice_text(json) matches Some(s) ==> text::blank(s);
            let busy = code == 429 || code == 500 || code == 502 || code == 503 || code == 504;
            let lost = step_after(attempt, ReplyView::Unreachable { error });
            let garbled = step_after(attempt, ReplyView::Garbled { error });
            let answered = step_after(attempt, ReplyView::Answer { json });
            let refused = step_after(attempt, ReplyView::Refused { code, status, body });
            &&& attempt < 3 ==> lost == (CloudStepView::Retry { wait: again })
            &&& attempt < 3 ==> garbled == (CloudStepView::Retry { wait: again })
            &&& attempt < 3 && empty ==> answered == (CloudStepView::Retry { wait: again })
            &&& attempt < 3 && busy ==> refused == (CloudStepView::Retry { wait: again })
            &&& attempt == 3 ==> lost is Fail && garbled is Fail && refused is Fail
            &&& attempt == 3 && empty ==> answered is Fail
            &&& !busy && body.len() <= 300 ==> refused == (CloudStepView::Fail {
                error: "HTTP "@ + status + ": "@ + body,
            })
            &&& !busy && body.len() > 300 ==> refused == (CloudStepView::Fail {
                error: "HTTP "@ + status + ": "@ + body.take(300),
            })
        }),
{
}

/// The local model's answer is its text without blanks around it; every other reply is
/// an error.
pub proof fn lemma_local_answer(reply: ReplyView)
    ensures
        reply matches ReplyView::Answer { json } ==> (choice_text(json) matches Some(s)
            ==> ollama_result(reply) == Ok::<Seq<char>, Seq<char>>(text::trimmed(s))),
        reply matches ReplyView::Answer { json } ==> (choice_text(json) is None ==> ollama_result(
            reply,
        ) is Err),
        reply matches ReplyView::Unreachable { error } ==> ollama_result(reply) == Err::<
            Seq<char>,
            Seq<char>,
        >("Ollama: "@ + error + " (¿está corriendo `ollama serve`?)"@),
        reply matches ReplyView::Refused { code, status, body } ==> ollama_result(reply) == Err::<
            Seq<char>,
            Seq<char>,
        >("Ollama HTTP "@ + status),
        reply matches ReplyView::Garbled { error } ==> ollama_result(reply) == Err::<
            Seq<char>,
            Seq<char>,
        >(error),
{
}

/// The first entries alone decide what they give.
proof fn lemma_numbers_upto_prefix(
    a: Seq<JsonView>,
    b: Seq<JsonView>,
    n: int,
)
    requires
        0 <= n <= a.len(),
    ensures
        numbers_upto(a + b, n) == numbers_upto(a, n),
    decreases n,
{
    if n > 0 {
        lemma_numbers_upto_prefix(a, b, n - 1);
        assert((a + b)[n - 1] == a[n - 1]);
    }
}

/// What two lists give, one behind the other.
proof fn lemma_numbers_upto_add(
    a: Seq<JsonView>,
    b: Seq<JsonView>,
    n: int,
)
    requires
        0 <= n <= b.len(),
    ensures
        numbers_upto(a + b, a.len() + n) == numbers_upto(a, a.len() as int) + numbers_upto(b, n),
    decreases n,
{
    let first = numbers_upto(a, a.len() as int);
    if n == 0 {
        lemma_numbers_upto_prefix(a, b, a.len() as int);
        assert(first + numbers_upto(b, 0) =~= first);
    } else {
        lemma_numbers_upto_add(a, b, n - 1);
        assert((a + b)[a.len() + n - 1] == b[n - 1]);
        assert(numbers_upto(a + b, a.len() + n) =~= first + numbers_upto(b, n));
    }
}

/// An embedding is the numbers of the reply, in their order; what is no number is left
/// out, and a reply without them is an error.
pub proof fn lemma_embedding(
    a: Seq<JsonView>,
    b: Seq<JsonView>,
    x: JsonView,
    json: JsonView,
    reply: ReplyView,
)
    ensures
        numbers_upto(a + b, (a + b).len() as int) == numbers_upto(a, a.len() as int) + numbers_upto(
            b,
            b.len() as int,
        ),
        x matches JsonView::Number { uint, sint, bits } ==> (bits matches Some(n) ==> numbers_upto(
            seq![x],
            1,
        ) == seq![n]),
        !(x is Number) ==> numbers_upto(seq![x], 1).len() == 0,
        json.get("embedding"@) == Some(JsonView::Array(a)) ==> embed_result(
            ReplyView::Answer { json },
        ) == Ok::<Seq<u64>, Seq<char>>(numbers_upto(a, a.len() as int)),
        json.get("embedding"@) is None ==> embed_result(ReplyView::Answer { json }) is Err,
        !(reply is Answer) ==> embed_result(reply) is Err,
{
    lemma_numbers_upto_add(a, b, b.len() as int);
    reveal_with_fuel(numbers_upto, 2);
}

/// What is seen of a target is what it holds, each thing as itself.
pub proof fn lemma_cloud_target_seen(x: CloudTarget)
    ensures
        x@.endpoint == x.endpoint@,
        x@.key == x.key@,
        x@.extra_headers == x.extra_headers,
{
}

/// What is seen of a reply is what it is.
pub proof fn lemma_reply_seen(x: Reply)
    ensures
        x matches Reply::Unreachable { error } ==> x@ == (ReplyView::Unreachable { error: error@ }),
        x matches Reply::Refused { code, status, body } ==> x@ == (ReplyView::Refused {
            code,
            status: status@,
            body: body@,
        }),
        x matches Reply::Garbled { error } ==> x@ == (ReplyView::Garbled { error: error@ }),
        x matches Reply::Answer { json } ==> x@ == (ReplyView::Answer { json: json@ }),
{
}

/// What is seen of a step is what it is.
pub proof fn lemma_cloud_step_seen(x: CloudStep)
    ensures
        x matches CloudStep::Retry { wait } ==> x@ == (CloudStepView::Retry { wait }),
        x matches CloudStep::Answer { text } ==> x@ == (CloudStepView::Answer { text: text@ }),
        x matches CloudStep::Fail { error } ==> x@ == (CloudStepView::Fail { error: error@ }),
{
}

/// What is seen of a result is what it is.
pub proof fn lemma_result_seen(x: Result<String, String>)
    ensures
        x matches Ok(s) ==> result_view(x) == Ok::<Seq<char>, Seq<char>>(s@),
        x matches Err(e) ==> result_view(x) == Err::<Seq<char>, Seq<char>>(e@),
{
}

} // verus!
