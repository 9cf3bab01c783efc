use aula::answers::{
    classify, classify_batch, classify_batch_content, classify_by_entries, classify_lowered, dates_by_entries,
    detect_dates, is_dated, results_by_entries,
};
use aula::categories::{
    cat_folder, categories, category_named_in, category_of_lowered, classify_by_name, folder_category,
    folder_says_lowered, is_summarizable, keyword_category, match_category,
};
use aula::json::{bracketed_part, extract_json_array, parse, parse_array};
use aula::labels::{course_labels, label_or, term_label, term_label_lowered, year_in};
use aula::store::{AppState, Course};

fn err() -> Result<String, String> {
    Err("sin clave".to_string())
}

fn ok(s: &str) -> Result<String, String> {
    Ok(s.to_string())
}

#[test]
fn categories_in_order() {
    let all = categories();
    assert_eq!(all.len(), 11);
    assert_eq!(all[0], "Clase");
    assert_eq!(all[10], "Otro");
    assert!(is_summarizable("Clase") && is_summarizable("Lectura/Paper"));
    assert!(!is_summarizable("Administrativo") && !is_summarizable("clase") && !is_summarizable(""));
}

#[test]
fn names_speak_for_categories() {
    assert_eq!(classify_by_name("Ayudantía 3.pdf"), "Ayudantía");
    assert_eq!(classify_by_name("LAB_2 informe.docx"), "Laboratorio");
    assert_eq!(classify_by_name("labor.pdf"), "Laboratorio");
    assert_eq!(classify_by_name("Cápsula 1.mp4"), "Cápsula");
    assert_eq!(classify_by_name("Pauta I1.pdf"), "Prueba/Control");
    assert_eq!(classify_by_name("Enunciado I2.pdf"), "Prueba/Control");
    assert_eq!(classify_by_name("Tarea 2.pdf"), "Tarea");
    assert_eq!(classify_by_name("GUÍA de ejercicios.pdf"), "Guía/Ejercicios");
    assert_eq!(classify_by_name("paper_1.pdf"), "Lectura/Paper");
    assert_eq!(classify_by_name("foto.png"), "Otro");
    assert_eq!(keyword_category("ayudantía de laboratorio"), "Ayudantía");
    assert_eq!(category_of_lowered("clase 1"), "Clase");
}

#[test]
fn folders_speak_for_categories() {
    assert_eq!(folder_category("course files/Ayudantías"), Some("Ayudantía"));
    assert_eq!(folder_category("course files/Ayudantías/Clases"), Some("Clase"));
    assert_eq!(folder_category("course files"), None);
    assert_eq!(folder_category(""), None);
    assert_eq!(folder_category("course files/Varios"), None);
    assert_eq!(folder_category("course files/LAB"), Some("Laboratorio"));
    assert_eq!(folder_category("course files/lab"), Some("Laboratorio"));
    assert_eq!(folder_category(" LAB "), Some("Laboratorio"));
    assert_eq!(classify_by_name("Prueba AYUDANTIA lab.pdf"), "Ayudantía");
    assert_eq!(classify_by_name("prueba ayudantia lab.pdf"), "Ayudantía");
    assert_eq!(classify_by_name("CÁPSULA 1"), classify_by_name("cápsula 1"));
    assert_eq!(folder_category("x/CÁTEDRAS "), folder_category("cátedras"));
    assert_eq!(folder_says_lowered("controles"), Some("Prueba/Control"));
}

#[test]
fn categories_named_in_answers() {
    assert_eq!(match_category("La categoría es CÁPSULA."), Some("Cápsula".to_string()));
    assert_eq!(match_category("guía/ejercicios"), Some("Guía/Ejercicios".to_string()));
    assert_eq!(match_category("ni idea"), None);
    assert_eq!(category_named_in("tarea y clase"), Some("Clase"));
}

#[test]
fn folders_of_summaries_are_apart() {
    let names: Vec<&str> = ["Ayudantía", "Laboratorio", "Guía/Ejercicios", "Prueba/Control", "Clase", "Cápsula", "Lectura/Paper", "Tarea", "?"]
        .iter()
        .map(|c| cat_folder(c))
        .collect();
    assert_eq!(names[0], "Ayudantías resueltas");
    assert_eq!(names[8], "Otros");
    for i in 0..names.len() {
        for j in 0..i {
            assert_ne!(names[i], names[j]);
        }
    }
}

#[test]
fn json_in_answers() {
    assert_eq!(bracketed_part("Claro: [1, [2]] listo"), Some("[1, [2]]".to_string()));
    assert_eq!(bracketed_part("] ["), None);
    assert_eq!(bracketed_part("nada"), None);
    let arr = extract_json_array("```json\n{\"items\":[{\"i\":0,\"cat\":\"Clase\"}]}\n```").unwrap();
    assert_eq!(arr.len(), 1);
    assert_eq!(arr[0].get_u64("i"), Some(0));
    assert_eq!(arr[0].get_str("cat"), Some("Clase"));
    assert!(extract_json_array("[1,").is_none());
    assert!(parse_array("{}").is_none());
    let v = parse("{\"a\":{\"b\":[null,true,-2,1.5,7,\"ñ\"]}}").unwrap();
    let b = v.get("a").unwrap().get("b").unwrap().as_array().unwrap();
    assert!(b[0].is_null());
    assert_eq!(b[2].as_u64(), None);
    assert_eq!(b[2].as_bits(), Some((-2.0f64).to_bits()));
    assert_eq!(b[3].as_bits(), Some(1.5f64.to_bits()));
    assert_eq!(b[4].as_u64(), Some(7));
    assert_eq!(b[4].as_bits(), Some(7.0f64.to_bits()));
    assert_eq!(b[5].as_str(), Some("ñ"));
}

#[test]
fn one_document_by_an_answer() {
    assert_eq!(classify("x.pdf", "texto", &ok("Prueba/Control")), "Prueba/Control");
    assert_eq!(classify("x.pdf", "texto", &ok("es un certamen")), "Prueba/Control");
    assert_eq!(classify("Tarea 1.pdf", "texto", &err()), "Tarea");
    assert_eq!(classify("x.pdf", "", &ok("")), "Otro");
    assert_eq!(classify_lowered("x.pdf", "guía", None), "Guía/Ejercicios");
    assert_eq!(classify_lowered("x.pdf", "guía", Some("clase")), "Clase");
}

fn files() -> Vec<(String, String, String)> {
    vec![
        ("a.pdf".into(), "Ayudantías".into(), "Física".into()),
        ("Tarea 1.pdf".into(), "".into(), "Física".into()),
        ("b.pdf".into(), "".into(), "Física".into()),
    ]
}

#[test]
fn files_by_name_without_an_answer() {
    assert_eq!(classify_batch(&files(), &err()), vec!["Ayudantía", "Tarea", "Otro"]);
    assert_eq!(classify_batch(&files(), &ok("no sé")), vec!["Ayudantía", "Tarea", "Otro"]);
    assert!(classify_batch(&Vec::new(), &ok("[{\"i\":0,\"cat\":\"Clase\"}]")).is_empty());
}

#[test]
fn files_by_name_with_an_answer() {
    let answer = "{\"items\":[{\"i\":2,\"cat\":\"clase\"},{\"i\":0,\"cat\":\"qué sé yo\"},{\"i\":9,\"cat\":\"Clase\"},{\"cat\":\"Clase\"},{\"i\":1}]}";
    assert_eq!(classify_batch(&files(), &ok(answer)), vec!["Ayudantía", "Tarea", "Clase"]);
    let es = parse_array("[{\"i\":1,\"cat\":\"Otro\"},{\"i\":1,\"cat\":\"Clase\"}]").unwrap();
    assert_eq!(classify_by_entries(&files(), &es)[1], "Clase");
}

fn documents() -> Vec<(String, String, String, String)> {
    files().into_iter().map(|(a, b, c)| (a, b, c, "extracto".to_string())).collect()
}

#[test]
fn documents_by_content() {
    let answer = "{\"items\":[{\"i\":0,\"cat\":\"Tarea\",\"fecha\":\" 2026-05-20 \",\"evento\":\" Entrega \"},\
        {\"i\":1,\"cat\":\"x\",\"fecha\":\"pronto\",\"evento\":\"e\"},{\"i\":2,\"fecha\":\"2026/05/20\"}]}";
    let rs = classify_batch_content(&documents(), &ok(answer));
    let flat: Vec<(&str, &str, &str)> = rs.iter().map(|r| (r.category.as_str(), r.date.as_str(), r.event.as_str())).collect();
    assert_eq!(flat, vec![("Tarea", "2026-05-20", "Entrega"), ("Tarea", "", ""), ("Otro", "", "")]);
    let plain = classify_batch_content(&documents(), &err());
    assert_eq!(plain.len(), 3);
    assert_eq!(plain[0].category, "Ayudantía");
    let month = "{\"items\":[{\"i\":0,\"cat\":\"Tarea\",\"fecha\":\"2026-mayo\",\"evento\":\"E\"}]}";
    let one = vec![("a.pdf".to_string(), "".to_string(), "R".to_string(), "txt".to_string())];
    let undated = classify_batch_content(&one, &ok(month));
    assert_eq!(undated.len(), 1);
    assert_eq!((undated[0].category.as_str(), undated[0].date.as_str(), undated[0].event.as_str()), ("Tarea", "", ""));
    let es = parse_array("[{\"i\":1,\"fecha\":\"2026-01-01\"}]").unwrap();
    assert_eq!(results_by_entries(&documents(), &es)[1].date, "2026-01-01");
}

#[test]
fn what_looks_like_a_date() {
    assert!(is_dated("2026-05-20"));
    assert!(!is_dated("2026-5-1"));
    assert!(!is_dated("2026-mayo"));
    assert!(!is_dated("2026 mayo-"));
    assert!(!is_dated("2026-05-20T10:00"));
    assert!(!is_dated("2026-05-2x"));
    assert!(!is_dated("2026-5"));
    assert!(!is_dated("20-05-2026"));
    assert!(!is_dated("20260520"));
    assert!(!is_dated(""));
}

#[test]
fn dates_in_announcements() {
    let answer = "{\"items\":[{\"i\":1,\"fechas\":[{\"fecha\":\"2026-05-20\",\"evento\":\"Control 2\"},{\"fecha\":\"nunca\"},{\"fecha\":\"2026-06-01\"}]},\
        {\"i\":1,\"fechas\":[{\"fecha\":\"2026-07-01\",\"evento\":\"\"}]},{\"i\":5,\"fechas\":[{\"fecha\":\"2026-05-20\"}]},{\"i\":0,\"fechas\":3}]}";
    let lists = detect_dates(2, &ok(answer));
    assert_eq!(lists.len(), 2);
    assert!(lists[0].is_empty());
    let flat: Vec<(&str, &str)> = lists[1].iter().map(|d| (d.date.as_str(), d.event.as_str())).collect();
    assert_eq!(flat, vec![("2026-05-20", "Control 2"), ("2026-06-01", ""), ("2026-07-01", "")]);
    assert_eq!(detect_dates(3, &err()).len(), 3);
    assert!(detect_dates(0, &ok(answer)).is_empty());
    let es = parse_array("[{\"i\":0,\"fechas\":[{\"fecha\":\"2026-05-20\",\"evento\":\"e\"}]}]").unwrap();
    assert_eq!(dates_by_entries(1, &es)[0][0].event, "e");
}

#[test]
fn labels_of_terms() {
    assert_eq!(term_label("Primer Semestre 2026"), "Primer semestre 2026");
    assert_eq!(term_label("2025-2"), "Segundo semestre 2025");
    assert_eq!(term_label("Segundo Semestre 1999"), "Segundo semestre 1999");
    assert_eq!(term_label("Semestre 1 2026"), "Primer semestre 2026");
    assert_eq!(term_label("2026/1"), "Primer semestre 2026");
    assert_eq!(term_label("TAV 2026"), "TAV 2026");
    assert_eq!(term_label(" TAV 2024 "), "TAV 2024");
    assert_eq!(term_label("TAV 2024-1"), "TAV 2024");
    assert_eq!(term_label("Verano 2025"), "TAV 2025");
    assert_eq!(term_label("2025-1 Segundo"), "Primer semestre 2025");
    assert_eq!(term_label("2025-2 Primer"), "Primer semestre 2025");
    assert_eq!(term_label("Primer TAV 2025"), "Primer semestre 2025");
    assert_eq!(term_label("Segundo TAV 2025"), "Segundo semestre 2025");
    assert_eq!(term_label("Verano"), "TAV");
    assert_eq!(term_label("año 2023"), "2023");
    assert_eq!(term_label("(2023)"), "2023");
    assert_eq!(term_label("Anual"), "Anual");
    assert_eq!(term_label("  "), "");
    assert_eq!(year_in("a123b45678"), "4567");
    assert_eq!(term_label_lowered("X", "primer"), "Primer semestre");
}

fn course(id: u64, name: &str, term: &str) -> Course {
    Course { id, name: name.to_string(), term: term.to_string(), ..Default::default() }
}

#[test]
fn courses_of_one_name_are_told_apart() {
    let state = AppState {
        courses: vec![course(1, "Física", "2025-1"), course(2, "Física", ""), course(3, "Química", "2025-1")],
        ..Default::default()
    };
    let labels = course_labels(&state);
    assert_eq!(labels[&1], "Física (Primer semestre 2025)");
    assert_eq!(labels[&2], "Física (#2)");
    assert_eq!(labels[&3], "Química");
    assert_eq!(label_or(&labels, 3, "x"), "Química");
    assert_eq!(label_or(&labels, 4, "x"), "x");
}
