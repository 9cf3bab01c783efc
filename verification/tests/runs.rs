use aula::classify::{needs_text, pending_classes, window};
use aula::classify_run::{ClassifyRun, ClassifyStage};
use aula::config::AppConfig;
use aula::download::{
    destinations, download_done, found_on_disk, nothing_to_download, pending_downloads, DownloadRun,
};
use aula::events::{
    add_event, delete_event, mark_notified, set_assignment_status, set_file_category, show_user_events,
    upsert_announcement_event, upsert_detected_event, upsert_event,
};
use aula::labels::concluded_ids;
use aula::places::{build_dest, course_dir, general_dest, general_file_text, summary_dest, summary_file_text};
use aula::progress::Progress;
use aula::search::{best_hits, indexed_files};
use aula::store::{Announcement, AppState, Assignment, CalEvent, CanvasFile, Course, CourseSummary};
use aula::summaries::{
    courses_with_summaries, everything_done, general_jobs, pending_summaries, summaries_done, summarize_course_refused,
    summarize_file, GeneralRun, SummaryRun,
};
use aula::sync::{courses_found, merge, sync_done, sync_refused, Gathered, SyncRun};

fn cfg() -> AppConfig {
    AppConfig { download_dir: "/u".to_string(), canvas_token: "t".to_string(), ..Default::default() }
}

fn course(id: u64, name: &str, concluded: bool) -> Course {
    Course { id, name: name.to_string(), concluded, ..Default::default() }
}

fn file(id: u64, course_id: u64, name: &str) -> CanvasFile {
    CanvasFile {
        id,
        course_id,
        course_name: format!("C{}", course_id),
        folder: "course files/Semana 1".to_string(),
        filename: name.to_string(),
        ..Default::default()
    }
}

fn event(id: &str, title: &str) -> CalEvent {
    CalEvent { id: id.to_string(), title: title.to_string(), source: "detected".to_string(), ..Default::default() }
}

fn message(p: &Progress) -> String {
    match p {
        Progress::Step { phase, current, total, message } => format!("{} {}/{} {}", phase, current, total, message),
        Progress::Log { message } => format!("log {}", message),
        Progress::Done { message } => format!("done {}", message),
        Progress::Error { message } => format!("error {}", message),
    }
}

#[test]
fn where_files_lie() {
    let mut f = file(1, 1, "Clase 1/2.pdf");
    assert_eq!(course_dir(&cfg(), "Física: I", false), "/u/Física_ I");
    assert_eq!(course_dir(&cfg(), "Física", true), "/u/Cursos pasados/Física");
    assert_eq!(build_dest(&cfg(), &f, "Física", false), "/u/Física/Semana 1/Clase 1_2.pdf");
    f.folder = "course files//a//..b/ ".to_string();
    assert_eq!(build_dest(&cfg(), &f, "Física", true), "/u/Cursos pasados/Física/a/..b/Clase 1_2.pdf");
    f.folder = String::new();
    f.category = "Clase".to_string();
    assert_eq!(build_dest(&cfg(), &f, "Física", false), "/u/Física/Clase 1_2.pdf");
    f.filename = "Clase 1.v2.pdf".to_string();
    assert_eq!(summary_dest(&cfg(), &f, "Física", false), "/u/Física/_Resúmenes/Clases/Clase 1.v2 — resumen.md");
    assert_eq!(
        general_dest(&cfg(), "Física", true, "Guía/Ejercicios"),
        "/u/Cursos pasados/Física/_Resúmenes/Guías resueltas/「Resumen general」 Guías resueltas.md"
    );
    assert_eq!(summary_file_text(&f, "hola"), "# Clase 1.v2.pdf\n\n> Ramo: C1 · Tipo: Clase\n\nhola");
    assert_eq!(general_file_text("Clase", "Física", "hola"), "# Resumen general · Clases\n\n> Ramo: Física · Sección: Clase\n\nhola");
}

#[test]
fn hostile_names_stay_below_the_course() {
    for name in ["/etc/passwd", "../../x", "..", "a/b", "C:\\x", ""] {
        let mut f = file(1, 1, name);
        f.folder = format!("/{}", name);
        let dest = build_dest(&cfg(), &f, name, false);
        let dir = course_dir(&cfg(), name, false);
        assert!(dir.starts_with("/u"), "{}", dir);
        assert!(dest.starts_with(&dir), "{} {}", dir, dest);
    }
}

#[test]
fn events_are_put_in_and_taken_out() {
    let mut evs = vec![event("a", "uno"), event("b", "dos")];
    let mut new = event("b", "DOS");
    new.source = "otra".to_string();
    upsert_event(&mut evs, new);
    assert_eq!((evs.len(), evs[1].title.as_str(), evs[1].source.as_str()), (2, "DOS", "detected"));
    upsert_event(&mut evs, event("c", "tres"));
    assert_eq!(evs[2].id, "c");
    assert!(delete_event(&mut evs, "b"));
    assert!(!delete_event(&mut evs, "b"));
    assert_eq!(evs.iter().map(|e| e.id.as_str()).collect::<Vec<_>>(), vec!["a", "c"]);
}

#[test]
fn events_that_are_detected() {
    let mut f = file(5, 1, "t.pdf");
    f.category = "Tarea".to_string();
    let mut state = AppState { files: vec![f], ..Default::default() };
    upsert_detected_event(&mut state, 0, "2026-05-20", "");
    upsert_detected_event(&mut state, 0, "2026-05-21", "Entrega");
    assert_eq!(state.events.len(), 1);
    let e = &state.events[0];
    assert_eq!((e.id.as_str(), e.title.as_str(), e.date.as_str(), e.course_name.as_str(), e.source.as_str()), ("det-5", "Entrega", "2026-05-21", "C1", "detected"));
    upsert_announcement_event(&mut state, 9, 1, "2026-06-01", "", "C2", "Aviso");
    let e = &state.events[1];
    assert_eq!((e.id.as_str(), e.title.as_str(), e.source.as_str()), ("ann-9-1", "Aviso", "announcement"));
    let mut other = AppState { files: vec![file(6, 1, "u.pdf")], ..Default::default() };
    upsert_detected_event(&mut other, 0, "2026-05-20", "");
    assert_eq!(other.events[0].title, " · u.pdf");
}

#[test]
fn events_that_are_entered() {
    let mut evs: Vec<CalEvent> = Vec::new();
    add_event(&mut evs, "A".into(), "2026-05-20".into(), "".into(), " ".into());
    add_event(&mut evs, "B".into(), "2026-05-21".into(), "C".into(), "".into());
    add_event(&mut evs, "A2".into(), "2026-05-22".into(), "".into(), "man-1".into());
    assert_eq!(evs.len(), 2);
    assert_eq!((evs[0].id.as_str(), evs[0].title.as_str(), evs[0].source.as_str()), ("man-1", "A2", "manual"));
    assert_eq!(evs[1].id, "man-2");
    let mut gap = vec![CalEvent { date: "2026-05-20".to_string(), source: "manual".to_string(), ..event("man-2", "A") }];
    add_event(&mut gap, "B".into(), "2026-05-21".into(), "".into(), "".into());
    add_event(&mut gap, "C".into(), "2026-05-22".into(), "".into(), "".into());
    let got: Vec<(&str, &str)> = gap.iter().map(|e| (e.id.as_str(), e.title.as_str())).collect();
    assert_eq!(got, vec![("man-2", "A"), ("man-1", "B"), ("man-3", "C")]);
    let mut state = AppState { events: vec![event("d", "x")], ..Default::default() };
    state.events.push(CalEvent { source: "manual".to_string(), ..event("viejo", "y") });
    show_user_events(&mut state, &evs);
    assert_eq!(state.events.iter().map(|e| e.id.as_str()).collect::<Vec<_>>(), vec!["d", "man-1", "man-2"]);
}

#[test]
fn notices_are_remembered() {
    let mut state = AppState::default();
    assert!(mark_notified(&mut state, "1@3".into()));
    assert!(!mark_notified(&mut state, "1@3".into()));
    assert_eq!(state.notified, vec!["1@3"]);
    for i in 0..2000 {
        assert!(mark_notified(&mut state, format!("k{}", i)));
    }
    assert_eq!(state.notified.len(), 2000);
    assert_eq!(state.notified[0], "k0");
    assert_eq!(state.notified[1999], "k1999");
}

#[test]
fn categories_and_statuses_by_hand() {
    let mut state = AppState {
        files: vec![file(1, 1, "a.pdf")],
        assignments: vec![Assignment { id: 4, ..Default::default() }],
        ..Default::default()
    };
    assert_eq!(pending_classes(&state, false), vec![0]);
    set_file_category(&mut state, 1, "Clase".into()).unwrap();
    assert!(state.files[0].category == "Clase" && state.files[0].category_manual && state.files[0].content_done);
    assert!(pending_classes(&state, true).is_empty());
    set_file_category(&mut state, 1, " ".into()).unwrap();
    assert!(state.files[0].category == "Clase" && !state.files[0].category_manual);
    assert_eq!(pending_classes(&state, true), vec![0]);
    assert_eq!(set_file_category(&mut state, 9, "x".into()), Err("Archivo no encontrado".to_string()));
    set_assignment_status(&mut state, 4, "dismissed".into()).unwrap();
    assert_eq!(state.assignments[0].user_status, "dismissed");
    set_assignment_status(&mut state, 4, "algo".into()).unwrap();
    assert_eq!(state.assignments[0].user_status, "");
    assert_eq!(set_assignment_status(&mut state, 9, "done".into()), Err("Tarea no encontrada".to_string()));
}

fn known() -> AppState {
    let mut a = file(1, 1, "viejo.pdf");
    a.local_path = "/u/viejo.pdf".to_string();
    a.category = "Clase".to_string();
    a.content_done = true;
    a.summary = "resumen".to_string();
    a.embedding = vec![1, 2];
    a.category_manual = true;
    AppState {
        assignments: vec![Assignment { id: 3, user_status: "done".to_string(), ..Default::default() }],
        files: vec![a],
        events: vec![event("det-1", "x")],
        course_summaries: vec![CourseSummary { course_id: 1, ..Default::default() }],
        announcements: vec![Announcement { id: 8, dates_done: true, ..Default::default() }],
        notified: vec!["k".to_string()],
        last_sync: "antes".to_string(),
        ..Default::default()
    }
}

fn fetched() -> Gathered {
    Gathered {
        assignments: vec![Assignment { id: 3, name: "T".to_string(), ..Default::default() }, Assignment { id: 4, ..Default::default() }],
        files: vec![file(1, 1, "nuevo.pdf"), file(2, 1, "otro.pdf"), file(1, 1, "doble.pdf")],
        announcements: vec![Announcement { id: 8, title: "A".to_string(), ..Default::default() }, Announcement { id: 9, ..Default::default() }],
    }
}

#[test]
fn a_synchronisation_keeps_what_was_done() {
    let state = merge(known(), vec![course(1, "F", false)], fetched(), "ahora".to_string());
    assert_eq!(state.assignments[0].user_status, "done");
    assert_eq!(state.assignments[0].name, "T");
    assert_eq!(state.assignments[1].user_status, "");
    let f = &state.files[0];
    assert_eq!((f.filename.as_str(), f.local_path.as_str(), f.category.as_str(), f.summary.as_str()), ("nuevo.pdf", "/u/viejo.pdf", "Clase", "resumen"));
    assert!(f.content_done && f.category_manual && f.embedding == vec![1, 2]);
    assert!(state.files[1].local_path.is_empty());
    assert!(state.files[2].local_path.is_empty() && state.files[2].filename == "doble.pdf");
    assert!(state.announcements[0].dates_done && state.announcements[0].title == "A");
    assert!(!state.announcements[1].dates_done);
    assert_eq!((state.events.len(), state.course_summaries.len(), state.notified.len()), (1, 1, 1));
    assert_eq!((state.last_sync.as_str(), state.courses.len()), ("ahora", 1));
}

#[test]
fn synchronising_twice() {
    let plain = || Gathered { files: vec![file(1, 1, "nuevo.pdf"), file(2, 1, "otro.pdf")], ..fetched() };
    let once = merge(known(), Vec::new(), plain(), "x".to_string());
    let paths: Vec<String> = once.files.iter().map(|f| f.local_path.clone()).collect();
    let twice = merge(once, Vec::new(), plain(), "x".to_string());
    assert_eq!(twice.files.iter().map(|f| f.local_path.clone()).collect::<Vec<_>>(), paths);
    assert_eq!(twice.assignments[0].user_status, "done");
    assert!(twice.announcements[0].dates_done);
}

#[test]
fn the_run_of_a_synchronisation() {
    assert!(sync_refused(&cfg()).is_none());
    let no_token = AppConfig { canvas_token: "\t".to_string(), ..cfg() };
    assert_eq!(message(&sync_refused(&no_token).unwrap()), "error Falta el token de Canvas (Ajustes).");
    let courses = vec![course(1, "F", false), course(2, "G", true)];
    assert_eq!(message(&courses_found(&courses)), "log 2 ramos encontrados.");
    let mut run = SyncRun::begin(courses);
    assert_eq!(message(&run.notice()), "sync 1/2 F");
    run.take(Ok(vec![Assignment::default()]), Err("x".to_string()), vec![Announcement::default()]);
    assert_eq!(message(&run.notice()), "sync 2/2 G");
    run.take(Err("x".to_string()), Ok(vec![file(1, 2, "a")]), Vec::new());
    assert!(run.is_over());
    let state = run.finish(AppState::default(), "s".to_string());
    assert_eq!(message(&sync_done(&state)), "done Sincronizado: 2 ramos, 1 tareas, 1 archivos.");
    assert_eq!(state.announcements.len(), 1);
}

#[test]
fn files_of_past_courses_come_last() {
    let state = AppState {
        courses: vec![course(1, "A", true), course(2, "B", false)],
        files: vec![file(1, 1, "a"), file(2, 2, "b"), file(3, 1, "c"), file(4, 2, "d"), file(5, 9, "e")],
        ..Default::default()
    };
    assert_eq!(pending_downloads(&state), vec![1, 3, 4, 0, 2]);
    assert_eq!(concluded_ids(&state).into_iter().collect::<Vec<u64>>(), vec![1]);
}

#[test]
fn the_run_of_downloads() {
    let mut gone = file(2, 1, "b.pdf");
    gone.local_path = "/viejo/b.pdf".to_string();
    let mut moved = file(3, 1, "c.pdf");
    moved.local_path = "/otro/c.pdf".to_string();
    let state = AppState {
        courses: vec![course(1, "A", false)],
        files: vec![file(1, 1, "a.pdf"), gone, moved, file(4, 1, "d.pdf")],
        ..Default::default()
    };
    let dests = destinations(&cfg(), &state);
    assert_eq!(dests[0], "/u/A/Semana 1/a.pdf");
    let (mut run, found) = DownloadRun::begin(state, dests, &vec![false, false, true, true], &vec![false, false, false, false]);
    assert_eq!(found, 2);
    assert_eq!(message(&found_on_disk(found)), "log 2 archivos ya estaban en disco (no se re-descargan).");
    assert_eq!(run.state.files[2].local_path, "/u/A/Semana 1/c.pdf");
    assert_eq!(run.queue, vec![0, 1]);
    assert_eq!(message(&run.notice()), "download 1/2 C1 · a.pdf");
    assert_eq!((run.next(), run.dest()), (0, "/u/A/Semana 1/a.pdf".to_string()));
    let (warning, save) = run.take(Ok(()));
    assert!(warning.is_none() && save);
    assert_eq!(run.state.files[0].local_path, "/u/A/Semana 1/a.pdf");
    let (warning, save) = run.take(Err("HTTP 404".to_string()));
    assert!(!save);
    assert_eq!(message(&warning.unwrap()), "log ⚠ b.pdf: HTTP 404");
    assert!(run.is_over());
    assert_eq!(pending_downloads(&run.state), vec![1]);
    assert_eq!(message(&download_done(2)), "done 2 archivos descargados.");
    assert_eq!(message(&nothing_to_download()), "done Todo descargado (nada nuevo).");
}

fn classifiable() -> AppState {
    let mut by_folder = file(1, 1, "a.pdf");
    by_folder.folder = "course files/Ayudantías".to_string();
    let by_name = file(2, 1, "Tarea 1.pdf");
    let mut by_content = file(3, 1, "b.pdf");
    by_content.local_path = "/u/b.pdf".to_string();
    let mut no_text = file(4, 1, "c.png");
    no_text.local_path = "/u/c.png".to_string();
    let mut locked = file(5, 1, "d.pdf");
    locked.category_manual = true;
    AppState {
        courses: vec![course(1, "A", false)],
        files: vec![by_folder, by_name, by_content, no_text, locked],
        announcements: vec![
            Announcement { id: 8, title: "Aviso".into(), course_name: "A".into(), message: "Control el 20".into(), ..Default::default() },
            Announcement { id: 9, message: "  ".into(), ..Default::default() },
        ],
        ..Default::default()
    }
}

#[test]
fn the_run_of_a_classification() {
    let mut run = ClassifyRun::begin(classifiable(), false);
    assert_eq!(run.stage, ClassifyStage::Texts);
    assert_eq!(run.texts_wanted(), vec![None, None, Some("/u/b.pdf".to_string()), Some("/u/c.png".to_string())]);
    assert!(!needs_text(&run.state.files[0]) && needs_text(&run.state.files[2]));
    run.take_texts(&vec!["".into(), "".into(), "texto".into(), " \n".into()]);
    assert_eq!(run.stage, ClassifyStage::Content);
    assert!(run.question().contains("### 0 | archivo=\"b.pdf\" | carpeta=\"course files/Semana 1\" | ramo=\"C1\"\nExtracto del contenido:\ntexto\n\n"));
    run.take_answer(&Ok("[{\"i\":0,\"cat\":\"Prueba/Control\",\"fecha\":\"2026-05-20\",\"evento\":\"\"}]".to_string()));
    assert_eq!(run.stage, ClassifyStage::Embedding);
    assert_eq!(run.embedding_wanted(), "b.pdf\ntexto");
    run.take_embedding(Some(vec![7]));
    assert_eq!(run.stage, ClassifyStage::Names);
    assert!(run.question().contains("0. archivo=\"Tarea 1.pdf\" | carpeta=\"course files/Semana 1\" | ramo=\"C1\"\n1. archivo=\"c.png\""));
    run.take_answer(&Err("sin clave".to_string()));
    assert_eq!(run.stage, ClassifyStage::WindowDone);
    assert_eq!(message(&run.notice()), "classify 4/4 Clasificando… (4/4)");
    run.saved();
    assert_eq!(run.stage, ClassifyStage::News);
    assert!(run.question().contains("### 0 | titulo=\"Aviso\" | ramo=\"A\"\nControl el 20\n\n"));
    run.take_answer(&Ok("[{\"i\":0,\"fechas\":[{\"fecha\":\"2026-05-20\",\"evento\":\"Control\"}]}]".to_string()));
    assert_eq!(message(&run.notice()), "classify 1/1 Anuncios… (1/1)");
    run.saved();
    assert_eq!(run.stage, ClassifyStage::Over);
    let cats: Vec<&str> = run.state.files.iter().map(|f| f.category.as_str()).collect();
    assert_eq!(cats, vec!["Ayudantía", "Tarea", "Prueba/Control", "Otro", ""]);
    assert_eq!(run.state.files[2].embedding, vec![7]);
    assert!(run.state.files[3].content_done && !run.state.files[1].content_done);
    let evs: Vec<(&str, &str)> = run.state.events.iter().map(|e| (e.id.as_str(), e.title.as_str())).collect();
    assert_eq!(evs, vec![("det-3", "Prueba/Control · b.pdf"), ("ann-8-0", "Control")]);
    assert!(run.state.announcements[0].dates_done && !run.state.announcements[1].dates_done);
    assert!(pending_classes(&run.state, false).is_empty());
    let again = ClassifyRun::begin(run.state, false);
    assert_eq!(again.stage, ClassifyStage::Over);
}

#[test]
fn a_forced_classification_reads_everything_again() {
    let mut state = classifiable();
    for f in state.files.iter_mut() {
        f.category = "Otro".to_string();
        f.content_done = true;
    }
    for a in state.announcements.iter_mut() {
        a.dates_done = true;
    }
    let run = ClassifyRun::begin(state, false);
    assert_eq!(run.stage, ClassifyStage::Nothing);
    let run = ClassifyRun::begin(run.state, true);
    assert_eq!(run.stage, ClassifyStage::Texts);
    assert_eq!(run.pending, vec![0, 1, 2, 3]);
    assert!(!run.state.announcements[0].dates_done);
}

#[test]
fn a_classification_goes_window_by_window() {
    let files: Vec<CanvasFile> = (0..15).map(|i| file(i + 1, 1, "Tarea.pdf")).collect();
    let mut run = ClassifyRun::begin(AppState { files, ..Default::default() }, false);
    assert_eq!(run.texts_wanted().len(), 12);
    run.take_texts(&vec![String::new(); 12]);
    run.take_answer(&Err("x".to_string()));
    assert_eq!(message(&run.notice()), "classify 12/15 Clasificando… (12/15)");
    run.saved();
    assert_eq!(run.texts_wanted().len(), 3);
    run.take_texts(&vec![String::new(); 3]);
    run.take_answer(&Err("x".to_string()));
    run.saved();
    assert_eq!(run.stage, ClassifyStage::Over);
    assert_eq!(window(&vec![4, 5, 6], 1, 8), vec![5, 6]);
}

fn summed_up() -> AppState {
    let mut a = file(1, 1, "a.pdf");
    a.category = "Clase".to_string();
    a.local_path = "/u/a.pdf".to_string();
    let mut b = file(2, 1, "b.pdf");
    b.category = "Clase".to_string();
    b.summary = "SB".to_string();
    let mut c = file(3, 1, "c.pdf");
    c.category = "Tarea".to_string();
    c.summary = "SC".to_string();
    let mut d = file(4, 1, "d.pdf");
    d.category = "Otro".to_string();
    d.summary = "SD".to_string();
    d.local_path = "/u/d.pdf".to_string();
    AppState { courses: vec![course(1, "Física", false), course(2, "Química", true)], files: vec![a, b, c, d], ..Default::default() }
}

#[test]
fn the_run_of_single_summaries() {
    let mut run = SummaryRun::begin(summed_up());
    assert_eq!(run.queue, vec![0]);
    assert_eq!(message(&run.notice()), "summarize 1/1 a.pdf");
    let f = run.take(&cfg(), Ok("SA".to_string())).ok().unwrap();
    assert_eq!(f.path, "/u/Física/_Resúmenes/Clases/a — resumen.md");
    assert_eq!(f.text, "# a.pdf\n\n> Ramo: C1 · Tipo: Clase\n\nSA");
    assert!(run.is_over());
    assert!(pending_summaries(&run.state).is_empty());
    let mut run = SummaryRun::begin(summed_up());
    let w = run.take(&cfg(), Err("sin texto".to_string())).err().unwrap();
    assert_eq!(message(&w), "log ⚠ a.pdf: sin texto");
    assert_eq!(pending_summaries(&run.state), vec![0]);
    assert_eq!(message(&summaries_done(0)), "done Nada que resumir (clasifica primero).");
    assert_eq!(message(&summaries_done(3)), "done 3 resúmenes individuales generados.");
}

#[test]
fn a_single_file_to_sum_up() {
    assert_eq!(summarize_file(&summed_up(), 1), Ok(0));
    assert_eq!(summarize_file(&summed_up(), 2), Err("El archivo no está descargado.".to_string()));
    assert_eq!(summarize_file(&summed_up(), 99), Err("Archivo no encontrado".to_string()));
}

#[test]
fn the_run_of_general_summaries() {
    let state = summed_up();
    assert_eq!(courses_with_summaries(&state), vec![1]);
    let jobs = general_jobs(&state, &vec![1, 2, 77]);
    assert_eq!(jobs.len(), 2);
    assert_eq!((jobs[0].category.as_str(), jobs[0].body.as_str()), ("Clase", "## b.pdf\nSB\n\n"));
    assert_eq!((jobs[1].category.as_str(), jobs[1].body.as_str()), ("Tarea", "## c.pdf\nSC\n\n"));
    let mut run = GeneralRun::begin(state, &vec![1], true);
    assert_eq!(message(&run.notice()), "general 1/2 Física · Clase");
    let (notice, query) = run.web_search().unwrap();
    assert_eq!(message(&notice), "log 🌐 Buscando en la web: Física…");
    assert_eq!(query, "Física Clase conceptos clave universidad");
    assert!(!run.question("").unwrap().contains("RESUMEN GENERAL ANTERIOR"));
    let f = run.take(&cfg(), Ok("G1".to_string())).ok().unwrap();
    assert_eq!(f.path, "/u/Física/_Resúmenes/Clases/「Resumen general」 Clases.md");
    let w = run.take(&cfg(), Err("cuota".to_string())).err().unwrap();
    assert_eq!(message(&w), "log ⚠ Física (Tarea): cuota");
    assert!(run.is_over());
    assert_eq!(run.state.course_summaries.len(), 1);
    let mut run = GeneralRun::begin(run.state, &vec![1], false);
    assert!(run.web_search().is_none());
    assert!(run.question("web").unwrap().contains("con el material nuevo:\nG1\n"));
    assert!(run.take(&cfg(), Ok("G2".to_string())).is_ok());
    assert_eq!(run.state.course_summaries.len(), 1);
    assert_eq!(run.state.course_summaries[0].summary, "G2");
    assert_eq!(message(&everything_done(1, 2)), "done Listo: 1 resúmenes individuales + resumen general de 2 ramos.");
}

#[test]
fn the_general_summary_of_one_course() {
    assert!(summarize_course_refused(&summed_up(), 1).is_none());
    assert_eq!(message(&summarize_course_refused(&summed_up(), 2).unwrap()), "done Primero resume las clases del ramo (Resumir → individual).");
    assert_eq!(message(&summarize_course_refused(&summed_up(), 3).unwrap()), "error Ramo no encontrado");
}

#[test]
fn the_best_hits_of_a_search() {
    let mut files: Vec<CanvasFile> = (0..20).map(|i| file(i, 1, &format!("f{}", i))).collect();
    for f in files.iter_mut() {
        if f.id != 3 {
            f.embedding = vec![1];
        }
    }
    let state = AppState { files, ..Default::default() };
    let idxs = indexed_files(&state);
    assert_eq!(idxs.len(), 19);
    assert!(!idxs.contains(&3));
    let keys: Vec<u32> = idxs.iter().map(|i| (*i as u32) % 3).collect();
    let scores: Vec<u32> = idxs.iter().map(|i| *i as u32 + 100).collect();
    let hits = best_hits(&state, &idxs, &scores, &keys);
    let ids: Vec<u64> = hits.iter().map(|h| h.file_id).collect();
    assert_eq!(ids, vec![2, 5, 8, 11, 14, 17, 1, 4, 7, 10, 13, 16, 19, 0, 6]);
    assert_eq!((hits[0].filename.as_str(), hits[0].score), ("f2", 102));
    assert!(best_hits(&state, &Vec::new(), &Vec::new(), &Vec::new()).is_empty());
}
