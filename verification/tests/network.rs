use aula::canvas::{
    download_file, FileReply,
    api_base, course_from_json, fetch_courses, link_is_well_bracketed, next_link, profile_url, take_page, verify, verify_refused,
    PageStep,
};
use aula::cloud::{
    chat_text, cloud_request, cloud_step, cloud_target, embed, embed_request, embed_url, ollama_chat, ollama_chat_url,
    ollama_request, prompt_content, CloudStep, Reply, CLASSIFY_TEMPERATURE, LOCAL_TEMPERATURE, MAX_ATTEMPTS,
    SUMMARY_TEMPERATURE,
};
use aula::config::{config_path, nexo_keys, nexo_path, provider_status, AppConfig};
use aula::json::{parse, parse_array, Json};
use aula::records::{
    announcements_url, assignments_url, fetch_announcements, fetch_assignments, fetch_files, fetch_files_via_modules,
    file_from_json, files_url, folder_map, folders_url, module_file_urls, modules_url,
};
use aula::store::{state_path, Course};

fn cfg() -> AppConfig {
    AppConfig { canvas_url: "https://c.uc.cl//".to_string(), canvas_token: "t".to_string(), ..Default::default() }
}

fn json(s: &str) -> Json {
    parse(s).unwrap()
}

fn answer(s: &str) -> Reply {
    Reply::Answer { json: json(s) }
}

fn refused(code: u16, status: &str, body: &str) -> Reply {
    Reply::Refused { code, status: status.to_string(), body: body.to_string() }
}

fn down(error: &str) -> Reply {
    Reply::Unreachable { error: error.to_string() }
}

fn course() -> Course {
    Course { id: 7, name: "Física".to_string(), ..Default::default() }
}

#[test]
fn the_defaults_of_the_settings() {
    let c = AppConfig::default();
    assert_eq!(c.canvas_url, "https://cursos.canvas.uc.cl");
    assert_eq!(c.download_dir, "/mnt/linux/Universidad");
    assert_eq!(c.ollama_url, "http://localhost:11434");
    assert_eq!(c.classify_model, "qwen2.5:7b");
    assert_eq!(c.embed_model, "nomic-embed-text:latest");
    assert_eq!(c.summary_provider, "gemini");
    assert_eq!(c.summary_model, "gemini-3-flash-preview");
    assert!(!c.dynamic_theme);
    assert_eq!(config_path("/c"), "/c/aula/config.json");
    assert_eq!(nexo_path("/c"), "/c/cortado/config.json");
    assert_eq!(state_path("/d"), "/d/.aula/state.json");
}

#[test]
fn keys_of_the_providers() {
    let (o, g) = nexo_keys("{\"keys\":{\"openrouter\":\"or\",\"gemini\":3}}");
    assert_eq!((o.as_str(), g.as_str()), ("or", ""));
    let (o, g) = nexo_keys("roto");
    assert_eq!((o.as_str(), g.as_str()), ("", ""));
    let s = provider_status("or", "");
    assert!(s.openrouter && !s.gemini);
}

#[test]
fn addresses_of_canvas() {
    assert_eq!(api_base(&cfg()), "https://c.uc.cl/api/v1");
    assert_eq!(profile_url(&cfg()), "https://c.uc.cl/api/v1/users/self/profile");
    assert_eq!(
        assignments_url(&cfg(), &course()),
        "https://c.uc.cl/api/v1/courses/7/assignments?per_page=100&include[]=submission"
    );
    assert_eq!(
        announcements_url(&cfg(), &course()),
        "https://c.uc.cl/api/v1/courses/7/discussion_topics?only_announcements=true&per_page=50"
    );
    assert_eq!(folders_url(&cfg(), &course()), "https://c.uc.cl/api/v1/courses/7/folders?per_page=100");
    assert_eq!(files_url(&cfg(), &course()), "https://c.uc.cl/api/v1/courses/7/files?per_page=100");
    assert_eq!(modules_url(&cfg(), &course()), "https://c.uc.cl/api/v1/courses/7/modules?include[]=items&per_page=100");
}

#[test]
fn the_link_to_the_next_page() {
    let link = "<https://c/a?page=1>; rel=\"current\",<https://c/a?page=2>; rel=\"next\",<https://c/a?page=9>; rel=\"last\"";
    assert!(link_is_well_bracketed(link));
    assert_eq!(next_link(link), Some("https://c/a?page=2".to_string()));
    assert_eq!(next_link("<https://c/a>; rel=\"last\""), None);
    assert_eq!(next_link("rel=\"next\""), None);
    assert_eq!(next_link("<sin cierre; rel=\"next\""), None);
    assert_eq!(next_link("<>; rel=\"next\""), Some(String::new()));
    assert!(!link_is_well_bracketed("> <x; rel=\"next\""));
    assert!(link_is_well_bracketed("> <x; rel=\"last\""));
}

#[test]
fn pages_come_one_behind_the_other() {
    let mut items: Vec<Json> = Vec::new();
    let link = Some("<u2>; rel=\"next\"".to_string());
    assert!(matches!(take_page(&mut items, answer("[1,2]"), link), PageStep::Fetch { url } if url == "u2"));
    assert!(matches!(take_page(&mut items, answer("{\"a\":3}"), None), PageStep::Done));
    assert_eq!(items.len(), 3);
    assert_eq!(items[1].as_u64(), Some(2));
    assert_eq!(items[2].get_u64("a"), Some(3));
}

#[test]
fn pages_that_fail() {
    let mut items: Vec<Json> = Vec::new();
    let mut fails = |r: Reply| match take_page(&mut items, r, None) {
        PageStep::Fail { error } => error,
        _ => panic!("no failure"),
    };
    assert_eq!(fails(down("x")), "Conexión Canvas: x");
    assert_eq!(
        fails(refused(401, "401 Unauthorized", "")),
        "Token rechazado o caducado (401). Genera uno nuevo en Canvas → Cuenta → Configuración."
    );
    assert_eq!(fails(refused(500, "500 Internal Server Error", &"ñ".repeat(300))), format!("HTTP 500 Internal Server Error: {}", "ñ".repeat(200)));
    assert_eq!(fails(Reply::Garbled { error: "mal".to_string() }), "mal");
}

#[test]
fn the_token_is_verified() {
    assert_eq!(verify_refused(&cfg()), None);
    let blank = AppConfig { canvas_token: " ".to_string(), ..cfg() };
    assert_eq!(verify_refused(&blank), Some("Falta el token de Canvas (Ajustes).".to_string()));
    assert_eq!(verify(answer("{\"name\":\"Ana\"}")), Ok("Ana".to_string()));
    assert_eq!(verify(down("x")), Err("Conexión: x".to_string()));
    assert_eq!(
        verify(refused(403, "403 Forbidden", "")),
        Err("Token rechazado (HTTP 403 Forbidden). Revisa la URL y el token.".to_string())
    );
    assert_eq!(verify(Reply::Garbled { error: "mal".to_string() }), Err("mal".to_string()));
}

#[test]
fn courses_of_records() {
    let c = course_from_json(&json("{\"id\":3,\"name\":\"Física\",\"course_code\":\"FIS\",\"term\":{\"name\":\"2026-1\"}}"), true).unwrap();
    assert_eq!((c.id, c.name.as_str(), c.code.as_str(), c.term.as_str(), c.concluded), (3, "Física", "FIS", "2026-1", true));
    assert!(course_from_json(&json("{\"id\":3}"), false).is_none());
    assert!(course_from_json(&json("{\"name\":\"x\"}"), false).is_none());
    assert!(course_from_json(&json("{\"id\":0,\"name\":\"x\"}"), false).is_none());
}

#[test]
fn all_courses_are_found() {
    let mut run = fetch_courses();
    assert_eq!(
        run.next_url(&cfg()).unwrap(),
        "https://c.uc.cl/api/v1/courses?enrollment_state=active&per_page=100&include[]=term"
    );
    run.take(Ok(parse_array("[{\"id\":1,\"name\":\"A\"},{\"id\":2,\"name\":\"B\"}]").unwrap())).unwrap();
    assert!(run.next_url(&cfg()).unwrap().contains("enrollment_state=completed"));
    run.take(Ok(parse_array("[{\"id\":2,\"name\":\"B\"},{\"id\":3,\"name\":\"C\"}]").unwrap())).unwrap();
    assert!(run.next_url(&cfg()).unwrap().ends_with("/users/self/enrollments?per_page=100&state[]=active&state[]=completed&state[]=inactive"));
    run.take(Ok(parse_array("[{\"course_id\":3},{\"course_id\":9},{\"course_id\":8},{\"course_id\":9},{}]").unwrap())).unwrap();
    assert_eq!(run.next_url(&cfg()).unwrap(), "https://c.uc.cl/api/v1/courses/9?include[]=term");
    run.take(Err("falla".to_string())).unwrap();
    assert_eq!(run.next_url(&cfg()).unwrap(), "https://c.uc.cl/api/v1/courses/8?include[]=term");
    run.take(Ok(parse_array("[{\"id\":7,\"name\":\"X\"},{\"id\":8,\"name\":\"D\"}]").unwrap())).unwrap();
    assert!(run.next_url(&cfg()).is_none());
    let flat: Vec<(u64, bool)> = run.courses.iter().map(|c| (c.id, c.concluded)).collect();
    assert_eq!(flat, vec![(1, false), (2, false), (3, true), (8, true)]);
}

#[test]
fn courses_without_the_lists_of_past_ones() {
    let mut run = fetch_courses();
    assert_eq!(run.take(Err("401".to_string())), Err("401".to_string()));
    run.take(Ok(Vec::new())).unwrap();
    run.take(Err("x".to_string())).unwrap();
    run.take(Err("x".to_string())).unwrap();
    assert!(run.next_url(&cfg()).is_none());
    assert!(run.courses.is_empty());
}

#[test]
fn assignments_of_records() {
    let raw = Ok(parse_array(
        "[{\"id\":1,\"name\":\"T1\",\"due_at\":\"2026-06-10T00:00:00Z\",\"points_possible\":10.5,\"html_url\":\"h\",\"submission\":{\"workflow_state\":\"graded\",\"submitted_at\":null}},\
         {\"id\":2,\"submission\":{\"submitted_at\":\"x\"}},{\"name\":\"T3\",\"due_at\":null,\"submission\":{\"workflow_state\":\"unsubmitted\",\"submitted_at\":null}}]",
    )
    .unwrap());
    let a = fetch_assignments(&raw, &course());
    assert_eq!(a.len(), 3);
    assert_eq!((a[0].id, a[0].course_id, a[0].course_name.as_str(), a[0].name.as_str()), (1, 7, "Física", "T1"));
    assert_eq!(a[0].due_at, Some("2026-06-10T00:00:00Z".to_string()));
    assert_eq!(a[0].points, Some(10.5f64.to_bits()));
    assert!(a[0].submitted && a[0].state == "graded");
    assert!(a[1].submitted && a[1].state == "unsubmitted" && a[1].points.is_none());
    assert!(!a[2].submitted && a[2].id == 0 && a[2].due_at.is_none() && a[2].user_status.is_empty());
    assert!(fetch_assignments(&Err("x".to_string()), &course()).is_empty());
}

#[test]
fn announcements_of_records() {
    let raw = Ok(parse_array("[{\"id\":5,\"title\":\"Aviso\",\"message\":\"<p>Control el <b>20</b></p>\",\"posted_at\":\"p\"},{\"title\":\"sin id\"}]").unwrap());
    let a = fetch_announcements(&raw, &course());
    assert_eq!(a.len(), 1);
    assert_eq!((a[0].id, a[0].title.as_str(), a[0].message.as_str(), a[0].posted_at.as_str()), (5, "Aviso", "Control el 20", "p"));
    assert!(!a[0].dates_done);
}

#[test]
fn files_of_records() {
    let folders = folder_map(&Ok(parse_array("[{\"id\":1,\"full_name\":\"course files/Clases\"},{\"full_name\":\"x\"}]").unwrap()));
    let f = file_from_json(
        &json("{\"id\":4,\"display_name\":\"\",\"filename\":\"a.pdf\",\"folder_id\":1,\"url\":\"u\",\"size\":9,\"content-type\":\"application/pdf\"}"),
        &course(),
        &folders,
    )
    .unwrap();
    assert_eq!((f.id, f.filename.as_str(), f.folder.as_str(), f.url.as_str(), f.size), (4, "a.pdf", "course files/Clases", "u", 9));
    assert_eq!(f.content_type, "application/pdf");
    assert!(f.local_path.is_empty() && f.category.is_empty() && !f.content_done && f.embedding.is_empty());
    assert!(file_from_json(&json("{\"id\":4}"), &course(), &folders).is_none());
    assert!(file_from_json(&json("{\"filename\":\"a\"}"), &course(), &folders).is_none());
    let list = fetch_files(&Ok(parse_array("[{\"id\":1,\"filename\":\"a\",\"content_type\":\"t\",\"folder_id\":77},{\"id\":2}]").unwrap()), &course(), &folders).unwrap();
    assert_eq!(list.len(), 1);
    assert_eq!((list[0].content_type.as_str(), list[0].folder.as_str()), ("t", ""));
    assert!(fetch_files(&Ok(Vec::new()), &course(), &folders).is_none());
    assert!(fetch_files(&Err("x".to_string()), &course(), &folders).is_none());
}

#[test]
fn files_in_modules() {
    let raw = Ok(parse_array(
        "[{\"items\":[{\"type\":\"File\",\"url\":\"u1\"},{\"type\":\"Page\",\"url\":\"u2\"},{\"type\":\"File\",\"url\":\"\"}]},{},{\"items\":[{\"type\":\"File\",\"url\":\"u3\"}]}]",
    )
    .unwrap());
    assert_eq!(module_file_urls(&raw), vec!["u1", "u3"]);
    let replies = vec![Some(json("{\"id\":1,\"filename\":\"a\"}")), None, Some(json("{}"))];
    let files = fetch_files_via_modules(&replies, &course(), &folder_map(&Err("x".to_string())));
    assert_eq!(files.len(), 1);
    assert_eq!(files[0].id, 1);
}

#[test]
fn whom_to_ask() {
    let t = cloud_target("gemini", String::new(), "k".to_string()).unwrap();
    assert_eq!(t.endpoint, "https://generativelanguage.googleapis.com/v1beta/openai/chat/completions");
    assert!(t.key == "k" && !t.extra_headers);
    let t = cloud_target("openrouter", "k".to_string(), String::new()).unwrap();
    assert_eq!(t.endpoint, "https://openrouter.ai/api/v1/chat/completions");
    assert!(t.extra_headers);
    let e = |p: &str| match cloud_target(p, String::new(), String::new()) {
        Err(e) => e,
        Ok(_) => panic!("target"),
    };
    assert_eq!(e("gemini"), "Falta la API key de Gemini en Nexo (~/.config/cortado/config.json).");
    assert_eq!(e("openrouter"), "Falta la API key de OpenRouter en Nexo.");
    assert_eq!(e("otra"), "Proveedor de resúmenes desconocido: otra");
}

#[test]
fn temperatures_as_bits() {
    assert_eq!(SUMMARY_TEMPERATURE, 0.4f64.to_bits());
    assert_eq!(CLASSIFY_TEMPERATURE, 0.0f64.to_bits());
    assert_eq!(LOCAL_TEMPERATURE, 0.2f64.to_bits());
}

#[test]
fn the_body_of_a_request() {
    let images = vec!["data:1".to_string(), "data:2".to_string()];
    let r = cloud_request(&cfg(), prompt_content("hola", &images), SUMMARY_TEMPERATURE, false);
    assert_eq!(r.get_str("model"), Some("gemini-3-flash-preview"));
    assert_eq!(r.get("temperature").unwrap().as_bits(), Some(0.4f64.to_bits()));
    assert!(matches!(r.get("stream"), Some(Json::Bool(false))));
    assert!(r.get("response_format").is_none());
    let m = r.get("messages").unwrap().first().unwrap();
    assert_eq!(m.get_str("role"), Some("user"));
    let parts = m.get("content").unwrap().as_array().unwrap();
    assert_eq!(parts.len(), 3);
    assert_eq!(parts[0].get_str("text"), Some("hola"));
    assert_eq!(parts[2].get_str("type"), Some("image_url"));
    assert_eq!(parts[2].get("image_url").unwrap().get_str("url"), Some("data:2"));
    let r = cloud_request(&cfg(), prompt_content("hola", &Vec::new()), 0, true);
    assert_eq!(r.get("messages").unwrap().first().unwrap().get_str("content"), Some("hola"));
    assert_eq!(r.get("response_format").unwrap().get_str("type"), Some("json_object"));
}

fn retry(attempt: u32, r: Reply) -> u64 {
    match cloud_step(attempt, r) {
        CloudStep::Retry { wait } => wait,
        _ => panic!("no retry"),
    }
}

fn fail(attempt: u32, r: Reply) -> String {
    match cloud_step(attempt, r) {
        CloudStep::Fail { error } => error,
        _ => panic!("no failure"),
    }
}

#[test]
fn errors_that_pass_are_tried_again() {
    assert_eq!(retry(0, down("x")), 2);
    assert_eq!(retry(1, refused(429, "429 Too Many Requests", "")), 5);
    assert_eq!(retry(2, refused(503, "503 Service Unavailable", "")), 12);
    for code in [429u16, 500, 502, 503, 504] {
        assert_eq!(retry(0, refused(code, "s", "b")), 2);
    }
    assert_eq!(retry(0, Reply::Garbled { error: "mal".to_string() }), 2);
    assert_eq!(retry(0, answer("{}")), 2);
    assert_eq!(retry(0, answer("{\"choices\":[{\"message\":{\"content\":\"  \"}}]}")), 2);
}

#[test]
fn the_last_attempt_fails_for_good() {
    let last = MAX_ATTEMPTS - 1;
    assert_eq!(last, 3);
    assert_eq!(fail(last, down("x")), "Agotados los reintentos cloud. Último error: Conexión cloud: x");
    assert_eq!(fail(last, answer("{}")), "Agotados los reintentos cloud. Último error: Respuesta cloud vacía");
    assert_eq!(fail(last, Reply::Garbled { error: "mal".to_string() }), "Agotados los reintentos cloud. Último error: mal");
    assert_eq!(
        fail(last, refused(503, "503 Service Unavailable", "b")),
        "Agotados los reintentos cloud. Último error: HTTP 503 Service Unavailable: b"
    );
}

#[test]
fn errors_that_last_fail_at_once() {
    assert_eq!(fail(0, refused(400, "400 Bad Request", &"x".repeat(400))), format!("HTTP 400 Bad Request: {}", "x".repeat(300)));
    assert_eq!(fail(1, refused(401, "401 Unauthorized", "")), "HTTP 401 Unauthorized: ");
}

#[test]
fn an_answer_of_the_cloud() {
    let r = "{\"choices\":[{\"message\":{\"content\":\" hola \"}},{\"message\":{\"content\":\"otra\"}}]}";
    assert!(matches!(cloud_step(3, answer(r)), CloudStep::Answer { text } if text == " hola "));
    assert_eq!(chat_text(&json(r)), Some(" hola ".to_string()));
    assert_eq!(chat_text(&json("{\"choices\":[]}")), None);
}

#[test]
fn the_local_model() {
    let c = AppConfig { ollama_url: "http://o/".to_string(), ..cfg() };
    assert_eq!(ollama_chat_url(&c), "http://o/v1/chat/completions");
    assert_eq!(embed_url(&c), "http://o/api/embeddings");
    assert_eq!(ollama_request("m", "p").get_str("model"), Some("m"));
    assert_eq!(ollama_chat(answer("{\"choices\":[{\"message\":{\"content\":\" Clase \"}}]}")), Ok("Clase".to_string()));
    assert_eq!(ollama_chat(answer("{}")), Err("Respuesta vacía de Ollama".to_string()));
    assert_eq!(ollama_chat(down("x")), Err("Ollama: x (¿está corriendo `ollama serve`?)".to_string()));
    assert_eq!(ollama_chat(refused(404, "404 Not Found", "b")), Err("Ollama HTTP 404 Not Found".to_string()));
    assert_eq!(ollama_chat(Reply::Garbled { error: "mal".to_string() }), Err("mal".to_string()));
}

#[test]
fn embeddings() {
    let r = embed_request(&cfg(), &"ñ".repeat(7000));
    assert_eq!(r.get_str("model"), Some("nomic-embed-text:latest"));
    assert_eq!(r.get_str("prompt"), Some("ñ".repeat(6000).as_str()));
    assert_eq!(embed(answer("{\"embedding\":[1,0.5,\"x\"]}")), Ok(vec![1.0f64.to_bits(), 0.5f64.to_bits()]));
    assert_eq!(embed(answer("{}")), Err("Respuesta de embedding vacía".to_string()));
    assert_eq!(embed(answer("{\"embedding\":3}")), Err("Respuesta de embedding vacía".to_string()));
    assert_eq!(embed(down("x")), Err("Ollama embeddings: x".to_string()));
    assert_eq!(embed(refused(500, "500 Internal Server Error", "")), Err("Ollama HTTP 500 Internal Server Error".to_string()));
}

#[test]
fn a_download_is_glued_together() {
    let body = FileReply::Body { chunks: vec![vec![1, 2], vec![], vec![3]] };
    assert_eq!(download_file("a.pdf", body), Ok(vec![1, 2, 3]));
    assert_eq!(download_file("a.pdf", FileReply::Body { chunks: vec![] }), Ok(vec![]));
}

#[test]
fn a_failed_download_says_why() {
    let away = FileReply::Unreachable { error: "sin red".to_string() };
    assert_eq!(download_file("a.pdf", away), Err("Descarga: sin red".to_string()));
    let refused = FileReply::Refused { status: "404 Not Found".to_string() };
    assert_eq!(download_file("a.pdf", refused), Err("HTTP 404 Not Found al descargar a.pdf".to_string()));
    let broken = FileReply::Broken { error: "corte".to_string() };
    assert_eq!(download_file("a.pdf", broken), Err("corte".to_string()));
}
