use aula::desktop::{matugen_palette, notify, palette_path};
use aula::documents::{
    data_uri, extract_text, is_pdf, page_files, pdftoppm_args, pdftotext_args, pdftotext_served, render_pdf_images,
    source_of_lowered, text_source, TextSource, MAX_PDF_IMAGES,
};
use aula::prompts::{batch_prompt, classify_prompt, content_prompt, dates_prompt, summarize_course, summarize};
use aula::web::{search_url, url_encode, web_search};

#[test]
fn which_documents_can_be_read() {
    assert_eq!(text_source("/u/a.PDF"), TextSource::Pdf);
    assert_eq!(text_source("/u/a.Md"), TextSource::Plain);
    assert_eq!(text_source("a.py"), TextSource::Plain);
    assert_eq!(text_source("a.docx"), TextSource::Unreadable);
    assert_eq!(text_source("pdf"), TextSource::Unreadable);
    assert_eq!(source_of_lowered("markdown"), TextSource::Plain);
    assert_eq!(source_of_lowered("PDF"), TextSource::Unreadable);
    assert!(is_pdf("x.Pdf") && !is_pdf("x.pdf.txt") && !is_pdf(".pdf"));
}

#[test]
fn texts_are_clipped() {
    assert_eq!(extract_text("  hola mundo", 7), "hola");
    assert_eq!(extract_text("ñandú\n", 100), "ñandú");
    assert_eq!(extract_text("abc", 0), "");
    assert!(pdftotext_served(true, 1) && !pdftotext_served(true, 0) && !pdftotext_served(false, 9));
}

#[test]
fn arguments_of_the_tools() {
    assert_eq!(pdftotext_args("/a b.pdf"), vec!["-q", "-l", "40", "/a b.pdf", "-"]);
    assert_eq!(
        pdftoppm_args("/a.pdf", "/tmp/p", MAX_PDF_IMAGES),
        vec!["-png", "-r", "120", "-scale-to-x", "1240", "-scale-to-y", "-1", "-f", "1", "-l", "24", "/a.pdf", "/tmp/p"]
    );
    assert_eq!(notify("t", "b"), vec!["-a", "Aula", "-i", "x-office-calendar", "t", "b"]);
    assert_eq!(palette_path("/h"), "/h/.local/state/quickshell/user/generated/colors.json");
    assert_eq!(matugen_palette(r##"{"primary":"#aabbcc"}"##).unwrap().get_str("primary"), Some("#aabbcc"));
    assert!(matugen_palette("no es json").is_none());
}

#[test]
fn pages_in_their_order() {
    let files: Vec<String> = ["/t/p-10.png", "/t/p-02.png", "/t/x.txt", "/t/p-01.png", "/t/p-03.PNG", "/t/p-01.png"].iter().map(|s| s.to_string()).collect();
    assert_eq!(page_files(&files, 24), vec!["/t/p-01.png", "/t/p-01.png", "/t/p-02.png", "/t/p-10.png"]);
    assert_eq!(page_files(&files, 1), vec!["/t/p-01.png"]);
    assert!(page_files(&files, 0).is_empty());
}

#[test]
fn pictures_as_addresses() {
    assert_eq!(data_uri(b""), "data:image/png;base64,");
    assert_eq!(data_uri(b"f"), "data:image/png;base64,Zg==");
    assert_eq!(data_uri(b"fo"), "data:image/png;base64,Zm8=");
    assert_eq!(data_uri(b"foobar"), "data:image/png;base64,Zm9vYmFy");
    assert_eq!(
        render_pdf_images(&vec![b"f".to_vec(), b"fo".to_vec()]),
        vec!["data:image/png;base64,Zg==", "data:image/png;base64,Zm8="]
    );
    assert_eq!(data_uri(&[0xff, 0xef, 0xbe, 0x00]), "data:image/png;base64,/+++AA==");
}

#[test]
fn queries_in_addresses() {
    assert_eq!(url_encode("a-Z_0.9~ +ñ/"), "a-Z_0.9~+%2B%C3%B1%2F");
    assert_ne!(url_encode("a b"), url_encode("a+b"));
    assert_eq!(search_url("Física I"), "https://html.duckduckgo.com/html/?q=F%C3%ADsica+I");
}

#[test]
fn a_page_of_results() {
    let page = "<a class=\"result__a\" href=\"x\">Uno &amp; <b>más</b></a><a class=\"result__snippet\" href=\"x\">Un extracto bastante largo</a>\
        <a class=\"result__a\">Dos</a><a class=\"result__snippet\">corto</a>\
        <a class=\"result__a\"></a><a class=\"result__snippet\">Otro extracto bastante largo</a>\
        <a class=\"result__snippet\">Sin título pero bastante largo</a>";
    assert_eq!(
        web_search(page, 6),
        "- Uno & más: Un extracto bastante largo\n- Otro extracto bastante largo\n- Sin título pero bastante largo\n"
    );
    assert_eq!(web_search(page, 1), "- Uno & más: Un extracto bastante largo\n");
    assert_eq!(web_search("", 6), "");
    assert_eq!(web_search("result__snippet sin enlace", 6), "");
}

#[test]
fn questions_on_categories() {
    let q = classify_prompt("a.pdf", &"x".repeat(4000));
    assert!(q.starts_with("Clasifica este material universitario (Pontificia U. Católica de Chile) en UNA categoría.\nDefiniciones:\n- Clase: "));
    assert!(q.contains("- Administrativo / Otro.\n\nCategorías válidas: Clase | Ayudantía | Cápsula | Laboratorio | Guía/Ejercicios | Tarea | Prueba/Control | Lectura/Paper | Programa/Syllabus | Administrativo | Otro\n\nNombre del archivo: a.pdf\nContenido (extracto):\nxxx"));
    assert!(q.ends_with("x\n\nResponde SOLO con el nombre exacto de la categoría."));
    assert_eq!(q.matches('x').count(), 3000 + classify_prompt("a.pdf", "").matches('x').count());
    let q = batch_prompt(&vec![("f".into(), "c".into(), "r".into())]);
    assert!(q.contains("Capsula → Cápsula.\nCategorías válidas (usa el nombre EXACTO): Clase | "));
    assert!(q.contains("| Otro\n\nArchivos:\n0. archivo=\"f\" | carpeta=\"c\" | ramo=\"r\"\n\nResponde SOLO un objeto JSON con la clave \"items\": un array con una entrada por archivo, así: {\"items\":[{\"i\":0,\"cat\":\"Clase\"}, {\"i\":1,\"cat\":\"Ayudantía\"}]}"));
    let q = content_prompt(&vec![("f".into(), "c".into(), "r".into(), "y".repeat(2000))]);
    assert!(q.contains("Documentos:\n### 0 | archivo=\"f\" | carpeta=\"c\" | ramo=\"r\"\nExtracto del contenido:\nyyy"));
    assert!(q.contains(&format!("\n{}\n\n\nResponde SOLO", "y".repeat(1400))));
    assert!(q.ends_with("deja \"fecha\":\"\" y \"evento\":\"\"."));
    let q = dates_prompt(&vec![("t".into(), "r".into(), "z".into())]);
    assert!(q.contains("Anuncios:\n### 0 | titulo=\"t\" | ramo=\"r\"\nz\n\n\nResponde SOLO"));
    assert!(q.ends_with("{\"i\":1,\"fechas\":[]}]}"));
}

#[test]
fn questions_for_summaries() {
    assert_eq!(
        summarize("a.pdf", "Clase", " ", false),
        Err("Sin texto ni páginas renderizables para resumir (¿formato no soportado?).".to_string())
    );
    let q = summarize("a.pdf", "Clase", "texto", false).unwrap();
    assert!(q.starts_with("Resume este material de clase para estudiar:\n## Resumen\n"));
    assert!(q.ends_with("autoevaluación)\n\nEscribe en español, en markdown, claro y bien estructurado.\nDocumento (Clase): a.pdf\n\nTexto extraído (puede estar incompleto):\ntexto"));
    let q = summarize("a.pdf", "Laboratorio", "", true).unwrap();
    assert!(q.starts_with("Eres un ayudante experto. Estructura la respuesta en DOS PARTES BIEN SEPARADAS, en este orden:\n\n# Parte 1 — Enunciados\n"));
    assert!(q.contains("luego TODAS las soluciones.\n\nADJUNTO las páginas del documento como IMÁGENES. Léelas con atención: contienen ejercicios"));
    assert!(q.ends_with("(sin texto extraíble; usa las imágenes adjuntas)"));
    assert!(summarize("a", "Tarea", "t", false).unwrap().starts_with("Extrae lo accionable"));
    assert!(summarize("a", "Prueba/Control", "t", false).unwrap().starts_with("Resume esta evaluación"));
    assert!(summarize("a", "Lectura/Paper", "t", false).unwrap().starts_with("Resume esta lectura"));
}

#[test]
fn questions_for_general_summaries() {
    assert_eq!(
        summarize_course("Física", "Clase", "\n", "p", "w"),
        Err("No hay resúmenes individuales en los que basarse.".to_string())
    );
    let q = summarize_course("Física", "Cápsula", "cuerpo", "", " ").unwrap();
    assert!(q.starts_with("Eres profesor del ramo."));
    assert!(q.ends_with("(qué dominar y en qué orden)\n\nEscribe en español, en markdown claro. Ramo: Física · Sección: Cápsula\n\nResúmenes individuales en los que basarte:\ncuerpo"));
    let q = summarize_course("Física", "Tarea", "cuerpo", "antes", "red").unwrap();
    assert!(q.contains("Sección: Tarea\n\nRESUMEN GENERAL ANTERIOR (este ramo aún está EN CURSO): consérvalo íntegro e INTÉGRALO con la información nueva de abajo; NO pierdas nada del anterior, solo amplíalo y reorganízalo con el material nuevo:\nantes\n\n\nCONTEXTO WEB COMPLEMENTARIO"));
    assert!(q.contains("del temario del ramo):\nred\n\n\nResúmenes individuales"));
    let long = "p".repeat(20000);
    assert!(summarize_course("F", "Clase", "c", &long, "").unwrap().contains(&long));
}
