use aula::calendar::{
    event_dates_cut, export_ics, export_quickshell_events, ics_dt, ics_esc, ics_path, local_deadlines, read_user_events,
    user_events_of, user_events_path, widget_calendar, widget_path, widget_text, write_user_events,
};
use aula::days::local_date;
use aula::json::parse_array;
use aula::store::{AppState, Assignment, CalEvent, Course};
use aula::todo::{sync_quickshell_todo, todo_path, todo_text};

fn course(id: u64, concluded: bool) -> Course {
    Course { id, name: format!("Curso {}", id), code: String::new(), term: String::new(), concluded }
}

fn assignment(id: u64, course_id: u64, name: &str, due: Option<&str>) -> Assignment {
    Assignment {
        id,
        course_id,
        course_name: format!("Curso {}", course_id),
        name: name.to_string(),
        due_at: due.map(|d| d.to_string()),
        ..Default::default()
    }
}

fn event(id: &str, title: &str, date: &str, course_name: &str, source: &str) -> CalEvent {
    CalEvent {
        id: id.to_string(),
        title: title.to_string(),
        date: date.to_string(),
        course_name: course_name.to_string(),
        source: source.to_string(),
    }
}

#[test]
fn times_in_basic_format() {
    assert_eq!(ics_dt("2026-06-10T23:59:59Z"), "20260610T235959Z");
    assert_eq!(ics_dt(" 2026-06-10T23:59:59.123Z "), "20260610T235959Z");
    assert_eq!(ics_dt("2026-06-10"), "20260610Z");
    assert_eq!(ics_dt(""), "Z");
    assert_eq!(ics_dt("Z"), "Z");
}

#[test]
fn texts_are_escaped() {
    assert_eq!(ics_esc("a;b,c\\d\ne"), "a\\;b\\,c\\\\d\\ne");
    assert_eq!(ics_esc("\\n"), "\\\\n");
    assert_ne!(ics_esc("\\n"), ics_esc("\n"));
    assert!(!ics_esc("una\ndos\n").contains('\n'));
}

#[test]
fn the_document_of_a_calendar() {
    let mut done = assignment(2, 1, "Hecha", Some("2026-06-11T10:00:00Z"));
    done.user_status = "done".to_string();
    let mut dismissed = assignment(3, 1, "Descartada", Some("2026-06-11T10:00:00Z"));
    dismissed.user_status = "dismissed".to_string();
    let state = AppState {
        courses: vec![course(1, false), course(9, true)],
        assignments: vec![
            assignment(1, 1, "Tarea 1; parte a", Some("2026-06-10T23:59:59Z")),
            done,
            dismissed,
            assignment(4, 9, "Vieja", Some("2026-06-10T23:59:59Z")),
            assignment(5, 1, "Sin plazo", None),
            assignment(6, 1, "Plazo vacío", Some("")),
        ],
        events: vec![
            event("det-1", "Control, 2", "2026-05-20", "Física", "detected"),
            event("x", "Nada", "  ", "", "detected"),
        ],
        ..Default::default()
    };
    let manual = vec![event("man-1", "Dentista", "2026-05-21T09:30:00", "", "manual")];
    let want = "BEGIN:VCALENDAR\r\nVERSION:2.0\r\nPRODID:-//Aula//Gestor UC//ES\r\nCALSCALE:GREGORIAN\r\nX-WR-CALNAME:Aula UC\r\n\
BEGIN:VEVENT\r\nUID:aula-1@aula\r\nDTSTAMP:20260610T235959Z\r\nDTSTART:20260610T235959Z\r\nDTEND:20260610T235959Z\r\nSUMMARY:Tarea 1\\; parte a · Curso 1\r\nDESCRIPTION:Curso 1\r\nEND:VEVENT\r\n\
BEGIN:VTODO\r\nUID:aula-todo-1@aula\r\nDTSTAMP:20260610T235959Z\r\nDUE:20260610T235959Z\r\nSUMMARY:Tarea 1\\; parte a · Curso 1\r\nSTATUS:NEEDS-ACTION\r\nEND:VTODO\r\n\
BEGIN:VEVENT\r\nUID:aula-2@aula\r\nDTSTAMP:20260611T100000Z\r\nDTSTART:20260611T100000Z\r\nDTEND:20260611T100000Z\r\nSUMMARY:Hecha · Curso 1\r\nDESCRIPTION:Curso 1\r\nEND:VEVENT\r\n\
BEGIN:VEVENT\r\nUID:aula-ev-det-1@aula\r\nDTSTAMP:20260520T000000Z\r\nDTSTART;VALUE=DATE:20260520\r\nSUMMARY:Control\\, 2 · Física\r\nEND:VEVENT\r\n\
BEGIN:VEVENT\r\nUID:aula-ev-man-1@aula\r\nDTSTAMP:20260521T093000Z\r\nDTSTART:20260521T093000Z\r\nSUMMARY:Dentista\r\nEND:VEVENT\r\n\
END:VCALENDAR\r\n";
    assert_eq!(export_ics(&state, &manual), want);
}

#[test]
fn an_empty_calendar() {
    let state = AppState::default();
    assert_eq!(
        export_ics(&state, &Vec::new()),
        "BEGIN:VCALENDAR\r\nVERSION:2.0\r\nPRODID:-//Aula//Gestor UC//ES\r\nCALSCALE:GREGORIAN\r\nX-WR-CALNAME:Aula UC\r\nEND:VCALENDAR\r\n"
    );
}

#[test]
fn left_out_assignments_leave_no_trace() {
    let mut state = AppState {
        courses: vec![course(1, false), course(9, true)],
        assignments: vec![assignment(1, 1, "A", Some("2026-06-10T23:59:59Z"))],
        ..Default::default()
    };
    let alone = export_ics(&state, &Vec::new());
    state.assignments.push(assignment(4, 9, "Vieja", Some("2026-06-10T23:59:59Z")));
    assert_eq!(export_ics(&state, &Vec::new()), alone);
}

#[test]
fn events_that_the_user_entered() {
    let file = r#"[
        {"id":"man-1","title":"Dentista","date":"2026-05-21","course":""},
        {"title":"Sin fecha"},
        {"id":7,"title":"Sin id","date":"2026-05-22","course":"Física"},
        "otra cosa"
    ]"#;
    let evs = read_user_events(file);
    assert_eq!(evs.len(), 2);
    assert_eq!((evs[0].id.as_str(), evs[0].title.as_str(), evs[0].source.as_str()), ("man-1", "Dentista", "manual"));
    assert_eq!((evs[1].id.as_str(), evs[1].course_name.as_str()), ("", "Física"));
    assert!(read_user_events("{}").is_empty());
    assert!(read_user_events("no es json").is_empty());
}

#[test]
fn what_is_written_is_read_back() {
    let evs = vec![event("man-1", "Dentista", "2026-05-21", "", "manual"), event("", "\"Ñ\"", "x", "Física", "manual")];
    let file = write_user_events(&evs);
    assert_eq!(
        file,
        r#"[{"course":"","date":"2026-05-21","id":"man-1","title":"Dentista"},{"course":"Física","date":"x","id":"","title":"\"Ñ\""}]"#
    );
    let read = read_user_events(&file);
    assert_eq!(read.len(), 2);
    assert_eq!(user_events_of(&parse_array(&file).unwrap()).len(), 2);
    assert_eq!(write_user_events(&Vec::new()), "[]");
    for (a, b) in read.iter().zip(evs.iter()) {
        assert_eq!((&a.id, &a.title, &a.date, &a.course_name, &a.source), (&b.id, &b.title, &b.date, &b.course_name, &b.source));
    }
}

#[test]
fn entries_of_the_widget() {
    let state = AppState {
        courses: vec![course(1, false), course(9, true)],
        assignments: vec![
            assignment(1, 1, "A", Some("2026-06-10T12:00:00Z")),
            assignment(2, 9, "B", Some("2026-06-10T12:00:00Z")),
            assignment(3, 1, "C", Some("pronto")),
            assignment(4, 1, "D", Some("la próxima semana")),
        ],
        events: vec![
            event("det-1", "Control", "2026-05-20T10:00", "Física", "detected"),
            event("man-1", "Dentista", "2026-05-21", "", "manual"),
            event("x", "Corto", "2026", "", "detected"),
        ],
        ..Default::default()
    };
    assert!(event_dates_cut(&state));
    let days: Vec<String> = vec!["d0".into(), "d1".into(), "d2".into(), "d3".into()];
    let got = widget_calendar(&state, &days);
    let flat: Vec<(&str, &str, &str, &str)> =
        got.iter().map(|e| (e.title.as_str(), e.date.as_str(), e.course.as_str(), e.kind.as_str())).collect();
    assert_eq!(
        flat,
        vec![
            ("A", "d0", "Curso 1", "tarea"),
            ("D", "d3", "Curso 1", "tarea"),
            ("Control", "2026-05-20", "Física", "detected"),
            ("Dentista", "2026-05-21", "", "manual"),
        ]
    );
    assert_eq!(local_deadlines(&state)[3], "la próxima");
    assert_eq!(
        widget_text(&got),
        r#"[{"course":"Curso 1","date":"d0","kind":"tarea","title":"A"},{"course":"Curso 1","date":"d3","kind":"tarea","title":"D"},{"course":"Física","date":"2026-05-20","kind":"detected","title":"Control"},{"course":"","date":"2026-05-21","kind":"manual","title":"Dentista"}]"#
    );
    let real = parse_array(&export_quickshell_events(&state)).unwrap();
    assert_eq!(real[0].get_str("date"), Some(local_date("2026-06-10T12:00:00Z").as_str()));
    assert_eq!(real[1].get_str("date"), Some("la próxima"));
}

#[test]
fn the_widget_shows_entered_events() {
    let state = AppState { events: vec![event("m", "T", "2026-05-20", "R", "manual")], ..Default::default() };
    assert_eq!(
        export_quickshell_events(&state),
        r#"[{"course":"R","date":"2026-05-20","kind":"manual","title":"T"}]"#
    );
}

#[test]
fn a_date_that_cannot_be_cut() {
    let state = AppState { events: vec![event("x", "t", "2026-05-2ñ1", "", "detected")], ..Default::default() };
    assert!(!event_dates_cut(&state));
    let fine = AppState { events: vec![event("x", "t", "2026-05-21ñ", "", "manual")], ..Default::default() };
    assert!(event_dates_cut(&fine));
}

#[test]
fn the_to_do_list_keeps_the_users_items() {
    let file =
        r#"[{"content":"comprar pan","done":false,"n":-5,"x":1.5},{"content":"🎓 vieja","done":true},{"done":true},{"content":"🎓"}, 7]"#;
    let mut submitted = assignment(3, 1, "Entregada", Some("2026-06-20T00:00:00Z"));
    submitted.submitted = true;
    let state = AppState {
        courses: vec![course(1, false), course(9, true)],
        assignments: vec![
            assignment(1, 1, "Tarea", Some("2026-06-10T00:00:00Z")),
            assignment(2, 1, "Vencida", Some("2026-06-01T00:00:00Z")),
            submitted,
            assignment(4, 9, "Pasada", Some("2026-06-20T00:00:00Z")),
            assignment(5, 1, "Hoy", Some("x")),
        ],
        ..Default::default()
    };
    let days: Vec<String> =
        ["2026-06-10", "2026-06-01", "2026-06-20", "2026-06-20", "2026-06-05"].iter().map(|s| s.to_string()).collect();
    let tasks = the_two_tasks();
    assert_eq!(
        todo_text(&state, file, &days, "2026-06-05"),
        format!(r#"[{{"content":"comprar pan","done":false,"n":-5,"x":1.5}},{{"done":true}},{{"content":"🎓"}},7,{}]"#, tasks)
    );
    assert_eq!(todo_text(&state, "no es json", &days, "2026-06-05"), format!("[{}]", tasks));
    assert_eq!(todo_text(&state, "{}", &days, "2026-06-05"), format!("[{}]", tasks));
}

fn the_two_tasks() -> String {
    let first = r#"{"content":"🎓 Tarea · Curso 1 (vence 2026-06-10)","done":false,"due":"2026-06-10"}"#;
    let second = r#"{"content":"🎓 Hoy · Curso 1 (vence 2026-06-05)","done":false,"due":"2026-06-05"}"#;
    format!("{},{}", first, second)
}

#[test]
fn overdue_tasks_leave_the_to_do_list() {
    let state = AppState {
        courses: vec![course(1, false)],
        assignments: vec![
            assignment(1, 1, "Antigua", Some("2001-01-01T00:00:00Z")),
            assignment(2, 1, "Lejana", Some("2999-01-02T12:00:00Z")),
        ],
        ..Default::default()
    };
    let items = parse_array(&sync_quickshell_todo(&state, "[]")).unwrap();
    assert_eq!(items.len(), 1);
    assert_eq!(items[0].get_str("due"), Some(local_date("2999-01-02T12:00:00Z").as_str()));
    assert!(items[0].get_str("content").unwrap().starts_with("🎓 Lejana · Curso 1 (vence 2999-"));
}

#[test]
fn updating_the_to_do_list_twice() {
    let state = AppState {
        courses: vec![course(1, false)],
        assignments: vec![assignment(1, 1, "Tarea", Some("2026-06-10T00:00:00Z"))],
        ..Default::default()
    };
    let days = vec!["2026-06-10".to_string()];
    let once = todo_text(&state, r#"[{"content":"🎓 vieja"},{"content":"mía"}]"#, &days, "2026-06-01");
    assert_eq!(
        once,
        r#"[{"content":"mía"},{"content":"🎓 Tarea · Curso 1 (vence 2026-06-10)","done":false,"due":"2026-06-10"}]"#
    );
    assert_eq!(todo_text(&state, &once, &days, "2026-06-01"), once);
    let nested = todo_text(&state, r#"[{"content":"mía","n":[-5,18446744073709551615,{"z":null,"a":"\n"}]}]"#, &days, "2026-06-01");
    assert_eq!(todo_text(&state, &nested, &days, "2026-06-01"), nested);
}

#[test]
fn where_the_desktop_reads() {
    assert_eq!(user_events_path("/home/a"), "/home/a/.local/state/quickshell/user/aula_user_events.json");
    assert_eq!(ics_path("/home/a"), "/home/a/.local/share/aula/aula.ics");
    assert_eq!(widget_path("/home/a"), "/home/a/.local/state/quickshell/user/aula_events.json");
    assert_eq!(todo_path("/home/a"), "/home/a/.local/state/quickshell/user/todo.json");
}
