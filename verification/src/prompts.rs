//! What the language models are asked.

use vstd::prelude::*;
use vstd::string::*;
use crate::categories::{categories, CATEGORIES};
use crate::text;

verus! {

/// How the classification of one document is asked for.
pub const CLASSIFY_HEAD: &'static str = "Clasifica este material universitario (Pontificia U. Católica de Chile) en UNA \
    categoría.\n\
    Definiciones:\n\
    - Clase: apuntes/slides de cátedra, materia teórica.\n\
    - Ayudantía: sesión de ayudante, normalmente con ejercicios y su resolución.\n\
    - Cápsula: material breve/complementario (mini-vídeo o resumen corto).\n\
    - Laboratorio: guía, protocolo o informe de laboratorio/práctico.\n\
    - Guía/Ejercicios: listado de problemas o taller para practicar.\n\
    - Tarea: trabajo evaluado a entregar.\n\
    - Prueba/Control: control, interrogación (I1/I2), certamen, examen o su pauta.\n\
    - Lectura/Paper: artículo o lectura obligatoria.\n\
    - Programa/Syllabus: programa del curso, reglamento, calendario.\n\
    - Administrativo / Otro.\n\
    \n\
    Categorías válidas: ";

/// How the classification of files by their names is asked for.
pub const BATCH_HEAD: &'static str = "Clasifica CADA material universitario (Pontificia U. Católica de Chile) en UNA \
    categoría.\n\
    Pistas: la carpeta de Canvas suele indicar el tipo (Ayudantías, Clases, Controles…). \
    I1/I2/I3, certamen, control, solemne, pauta → Prueba/Control. Capsula → Cápsula.\n\
    Categorías válidas (usa el nombre EXACTO): ";

/// What form the answer to it shall have.
pub const BATCH_TAIL: &'static str = "\n\
    Responde SOLO un objeto JSON con la clave \"items\": un array con una entrada por \
    archivo, así: {\"items\":[{\"i\":0,\"cat\":\"Clase\"}, {\"i\":1,\"cat\":\"Ayudantía\"}]}";

/// How the classification of documents by their contents is asked for.
pub const CONTENT_HEAD: &'static str = "Para CADA documento universitario (PUC Chile): (a) clasifícalo en UNA categoría por su \
    CONTENIDO (el nombre puede no decir el tipo), y (b) si el texto menciona una FECHA \
    IMPORTANTE (fecha de una prueba/control/certamen, o de entrega de una tarea), extráela.\n\
    Categorías (nombre EXACTO): ";

/// What tells the categories apart.
pub const CONTENT_CLUES: &'static str = "\n\
    Pistas: Clase=materia/slides; Ayudantía=ejercicios resueltos; Laboratorio=guía/informe \
    de práctico; Guía/Ejercicios=problemas; Tarea=trabajo a entregar; \
    Prueba/Control=I1/I2/certamen/control/examen/pauta.\n\
    \n\
    Documentos:\n";

/// What form the answer to it shall have.
pub const CONTENT_TAIL: &'static str = "\n\
    Responde SOLO un objeto JSON con la clave \"items\": un array con una entrada por \
    documento, con este formato exacto:\n\
    {\"items\":[{\"i\":0,\"cat\":\"Clase\",\"fecha\":\"\",\"evento\":\"\"}, \
    {\"i\":1,\"cat\":\"Tarea\",\"fecha\":\"2026-05-20\",\"evento\":\"Entrega Tarea 2\"}]}\n\
    Usa \"fecha\" en formato YYYY-MM-DD solo si estás seguro; si no hay fecha clara, deja \
    \"fecha\":\"\" y \"evento\":\"\".";

/// How the dates in announcements are asked for.
pub const DATES_HEAD: &'static str = "Eres un asistente académico (Pontificia U. Católica de Chile). Para CADA anuncio, EXTRAE \
    todas las FECHAS IMPORTANTES que mencione: fecha de \
    prueba/control/certamen/interrogación/examen, entrega de tarea/proyecto, ayudantía o \
    clase especial, plazo o cambio de horario. Si un anuncio no tiene una fecha clara, \
    devuelve lista vacía para él. Da la fecha en formato YYYY-MM-DD (deduce el año del \
    contexto; si no se sabe, usa el año en curso). El 'evento' debe ser una etiqueta breve \
    (ej. 'Control 2', 'Entrega Proyecto').\n\
    \n\
    Anuncios:\n";

/// What form the answer to it shall have.
pub const DATES_TAIL: &'static str = "\n\
    Responde SOLO un objeto JSON con la clave \"items\": un array con una entrada por \
    anuncio EN ORDEN, así:\n\
    {\"items\":[{\"i\":0,\"fechas\":[{\"fecha\":\"2026-05-20\",\"evento\":\"Control 2\"}]}, \
    {\"i\":1,\"fechas\":[]}]}";

/// How a session of exercises is summed up.
pub const SUMMARY_EXERCISES: &'static str = "Eres un ayudante experto. Estructura la respuesta en DOS PARTES BIEN SEPARADAS, en este \
    orden:\n\
    \n\
    # Parte 1 — Enunciados\n\
    Reproduce TAL CUAL (verbatim, copiado del documento, SIN resumir ni reformular) el \
    enunciado de CADA ejercicio/problema, numerados en orden:\n\
    ### Ejercicio N\n\
    (enunciado literal completo: todos los datos, incisos a/b/c, tablas y fórmulas que se \
    den)\n\
    \n\
    # Parte 2 — Resolución paso a paso\n\
    SOLO después de haber listado TODOS los enunciados, resuelve cada uno en orden:\n\
    ### Solución Ejercicio N\n\
    **Desarrollo:** (cada paso justificado, con las fórmulas)\n\
    **Resultado:** (respuesta final)\n\
    Si el documento ya trae solución, explícala y completa los pasos que falten. No mezcles \
    enunciados con soluciones: primero TODOS los enunciados, luego TODAS las soluciones.";

/// How an exam is summed up.
pub const SUMMARY_EXAM: &'static str = "Resume esta evaluación para preparar el estudio:\n\
    ## Qué evalúa\n\
    (temas y habilidades cubiertas)\n\
    ## Tipos de pregunta\n\
    (viñetas)\n\
    ## Resolución\n\
    (si incluye pauta/soluciones, resuelve los ítems PASO A PASO)\n\
    ## Para repasar\n\
    (conceptos clave a dominar)";

/// How an assignment is summed up.
pub const SUMMARY_TASK: &'static str = "Extrae lo accionable de esta tarea:\n\
    ## Objetivo\n\
    ## Qué entregar\n\
    (formato, archivos, requisitos)\n\
    ## Criterios de evaluación\n\
    (si aparecen)\n\
    ## Plan sugerido\n\
    (pasos para resolverla)";

/// How a reading is summed up.
pub const SUMMARY_READING: &'static str = "Resume esta lectura académica:\n\
    ## Idea central\n\
    ## Argumentos / desarrollo\n\
    (viñetas)\n\
    ## Conceptos clave\n\
    ## Conclusión\n\
    ## Para repasar\n\
    (2-3 preguntas)";

/// How a class, and anything else, is summed up.
pub const SUMMARY_CLASS: &'static str = "Resume este material de clase para estudiar:\n\
    ## Resumen\n\
    (2-4 frases con la idea central)\n\
    ## Puntos clave\n\
    (conceptos importantes)\n\
    ## Definiciones / Fórmulas\n\
    (si aplica)\n\
    ## Para repasar\n\
    (2-3 preguntas de autoevaluación)";

/// What is said where the pages go along as pictures.
pub const VISION_NOTE: &'static str = "\n\
    ADJUNTO las páginas del documento como IMÁGENES. Léelas con atención: contienen \
    ejercicios, enunciados, figuras, diagramas, tablas y fórmulas que el texto extraído NO \
    incluye o transcribe mal. Cuando un ejercicio o una figura aparezca solo en la imagen, \
    TRANSCRÍBELO con fidelidad (incluidos los datos y valores numéricos) y, si procede, \
    RESUÉLVELO paso a paso. Prioriza lo que ves en las imágenes frente al texto cuando haya \
    discrepancia. Describe las figuras relevantes en palabras.\n";

/// How the exercises of a course are summed up.
pub const GENERAL_EXERCISES: &'static str = "Eres ayudante del ramo. A partir de los resúmenes de cada sesión, arma un COMPILADO \
    GENERAL de ejercicios resueltos del curso, organizado POR TEMA (no por sesión):\n\
    ## Índice de temas\n\
    ## Por tema\n\
    (para cada tema: tipos de ejercicio y el método de resolución paso a paso consolidado, \
    con las fórmulas clave)\n\
    ## Errores comunes y trucos";

/// How the classes of a course are summed up.
pub const GENERAL_CLASS: &'static str = "Eres profesor del ramo. A partir de los resúmenes de cada clase, redacta un RESUMEN \
    GENERAL del curso para estudiar de principio a fin:\n\
    ## Hilo conductor\n\
    (cómo se conectan las unidades)\n\
    ## Temario resumido\n\
    (en orden, con los conceptos clave de cada unidad)\n\
    ## Definiciones y fórmulas esenciales\n\
    ## Mapa de estudio\n\
    (qué dominar y en qué orden)";

/// How the exams of a course are summed up.
pub const GENERAL_EXAM: &'static str = "Consolida todas las evaluaciones del ramo:\n\
    ## Qué entra\n\
    (temas recurrentes)\n\
    ## Patrones de pregunta\n\
    ## Recomendaciones de estudio";

/// How the readings of a course are summed up.
pub const GENERAL_READING: &'static str = "Síntesis general de todas las lecturas del ramo:\n\
    ## Ideas transversales\n\
    ## Resumen por lectura\n\
    ## Conceptos clave";

/// How anything else of a course is summed up.
pub const GENERAL_OTHER: &'static str = "Crea una síntesis general del ramo a partir de los resúmenes dados, bien organizada en \
    markdown.";

/// What leads in the general summary of before.
pub const PREVIOUS_HEAD: &'static str = "\n\
    \n\
    RESUMEN GENERAL ANTERIOR (este ramo aún está EN CURSO): consérvalo íntegro e INTÉGRALO \
    con la información nueva de abajo; NO pierdas nada del anterior, solo amplíalo y \
    reorganízalo con el material nuevo:\n";

/// What leads in what the web says.
pub const WEB_HEAD: &'static str = "\n\
    \n\
    CONTEXTO WEB COMPLEMENTARIO (para enriquecer, contrastar y precisar definiciones; úsalo \
    con criterio, NO inventes ni te desvíes del temario del ramo):\n";

// ---------------------------------------------------------------------------
// Classification
// ---------------------------------------------------------------------------

/// The categories as they are offered to a model.
pub open spec fn options() -> Seq<char> {
    text::joined(CATEGORIES@.map_values(|c: &'static str| c@), " | "@)
}

/// The categories as they are offered to a model.
fn options_text() -> (r: String)
    ensures
        r@ == options(),
{
    text::join(&categories(), " | ")
}

/// The question for the category of one document.
pub open spec fn classify_question(filename: Seq<char>, content: Seq<char>) -> Seq<char> {
    CLASSIFY_HEAD@ + options() + "\n\nNombre del archivo: "@ + filename
        + "\nContenido (extracto):\n"@ + text::first_chars(content, 3000)
        + "\n\nResponde SOLO con el nombre exacto de la categoría."@
}

/// The question for the category of one document.
pub fn classify_prompt(filename: &str, content: &str) -> (r: String)
    ensures
        r@ == classify_question(filename@, content@),
{
    let mut s = CLASSIFY_HEAD.to_owned();
    s.append(options_text().as_str());
    s.append("\n\nNombre del archivo: ");
    s.append(filename);
    s.append("\nContenido (extracto):\n");
    s.append(text::take_chars(content, 3000).as_str());
    s.append("\n\nResponde SOLO con el nombre exacto de la categoría.");
    s
}

/// The line of the `i`-th file in the question for categories by name.
pub open spec fn name_line(i: int, item: (Seq<char>, Seq<char>, Seq<char>)) -> Seq<char> {
    text::decimal(i as nat) + ". archivo=\""@ + item.0 + "\" | carpeta=\""@ + item.1
        + "\" | ramo=\""@ + item.2 + "\"\n"@
}

/// The lines of the files.
pub open spec fn name_lines(items: Seq<(Seq<char>, Seq<char>, Seq<char>)>) -> Seq<char>
    decreases items.len(),
{
    if items.len() == 0 {
        seq![]
    } else {
        name_lines(items.drop_last()) + name_line(items.len() - 1, items.last())
    }
}

/// The question for the categories of files by name, folder and course.
pub open spec fn batch_question(items: Seq<(Seq<char>, Seq<char>, Seq<char>)>) -> Seq<char> {
    BATCH_HEAD@ + options() + "\n\nArchivos:\n"@ + name_lines(items) + BATCH_TAIL@
}

/// The question for the categories of files by name, folder and course.
pub fn batch_prompt(items: &Vec<(String, String, String)>) -> (r: String)
    ensures
        r@ == batch_question(text::views(items@)),
{
    let ghost all = text::views(items@);
    let mut list = String::new();
    let mut i: usize = 0;
    while i < items.len()
        invariant
            i <= items@.len(),
            all == text::views(items@),
            list@ == name_lines(all.take(i as int)),
        decreases items.len() - i,
    {
        let mut line = text::number(i as u64);
        line.append(". archivo=\"");
        line.append(items[i].0.as_str());
        line.append("\" | carpeta=\"");
        line.append(items[i].1.as_str());
        line.append("\" | ramo=\"");
        line.append(items[i].2.as_str());
        line.append("\"\n");
        proof {
            assert(all.take(i + 1).drop_last() =~= all.take(i as int));
            assert(all.take(i + 1).last() == items@[i as int]@);
            assert(line@ == name_line(i as int, all[i as int]));
        }
        list.append(line.as_str());
        i += 1;
    }
    assert(all.take(all.len() as int) =~= all);
    let mut s = BATCH_HEAD.to_owned();
    s.append(options_text().as_str());
    s.append("\n\nArchivos:\n");
    s.append(list.as_str());
    s.append(BATCH_TAIL);
    s
}

/// The paragraph of the `i`-th document in the question for categories by
/// content.
pub open spec fn content_paragraph(
    i: int,
    item: (Seq<char>, Seq<char>, Seq<char>, Seq<char>),
) -> Seq<char> {
    "### "@ + text::decimal(i as nat) + " | archivo=\""@ + item.0 + "\" | carpeta=\""@ + item.1
        + "\" | ramo=\""@ + item.2 + "\"\nExtracto del contenido:\n"@ + text::first_chars(
        item.3,
        1400,
    ) + "\n\n"@
}

/// The paragraphs of the documents.
pub open spec fn content_paragraphs(
    items: Seq<(Seq<char>, Seq<char>, Seq<char>, Seq<char>)>,
) -> Seq<char>
    decreases items.len(),
{
    if items.len() == 0 {
        seq![]
    } else {
        content_paragraphs(items.drop_last()) + content_paragraph(items.len() - 1, items.last())
    }
}

/// The question for the categories of documents by content, and for the dates
/// in them.
pub open spec fn content_question(
    items: Seq<(Seq<char>, Seq<char>, Seq<char>, Seq<char>)>,
) -> Seq<char> {
    CONTENT_HEAD@ + options() + CONTENT_CLUES@ + content_paragraphs(items) + CONTENT_TAIL@
}

/// The question for the categories of documents by content, and for the dates
/// in them.
pub fn content_prompt(items: &Vec<(String, String, String, String)>) -> (r: String)
    ensures
        r@ == content_question(text::views(items@)),
{
    let ghost all = text::views(items@);
    let mut list = String::new();
    let mut i: usize = 0;
    while i < items.len()
        invariant
            i <= items@.len(),
            all == text::views(items@),
            list@ == content_paragraphs(all.take(i as int)),
        decreases items.len() - i,
    {
        let mut p = "### ".to_owned();
        p.append(text::number(i as u64).as_str());
        p.append(" | archivo=\"");
        p.append(items[i].0.as_str());
        p.append("\" | carpeta=\"");
        p.append(items[i].1.as_str());
        p.append("\" | ramo=\"");
        p.append(items[i].2.as_str());
        p.append("\"\nExtracto del contenido:\n");
        p.append(text::take_chars(items[i].3.as_str(), 1400).as_str());
        p.append("\n\n");
        proof {
            assert(all.take(i + 1).drop_last() =~= all.take(i as int));
            assert(all.take(i + 1).last() == items@[i as int]@);
            assert(p@ == content_paragraph(i as int, all[i as int]));
        }
        list.append(p.as_str());
        i += 1;
    }
    assert(all.take(all.len() as int) =~= all);
    let mut s = CONTENT_HEAD.to_owned();
    s.append(options_text().as_str());
    s.append(CONTENT_CLUES);
    s.append(list.as_str());
    s.append(CONTENT_TAIL);
    s
}

/// The paragraph of the `i`-th announcement in the question for dates.
pub open spec fn dates_paragraph(i: int, item: (Seq<char>, Seq<char>, Seq<char>)) -> Seq<char> {
    "### "@ + text::decimal(i as nat) + " | titulo=\""@ + item.0 + "\" | ramo=\""@ + item.1
        + "\"\n"@ + text::first_chars(item.2, 2000) + "\n\n"@
}

/// The paragraphs of the announcements.
pub open spec fn dates_paragraphs(items: Seq<(Seq<char>, Seq<char>, Seq<char>)>) -> Seq<char>
    decreases items.len(),
{
    if items.len() == 0 {
        seq![]
    } else {
        dates_paragraphs(items.drop_last()) + dates_paragraph(items.len() - 1, items.last())
    }
}

/// The question for the dates in announcements.
pub open spec fn dates_question(items: Seq<(Seq<char>, Seq<char>, Seq<char>)>) -> Seq<char> {
    DATES_HEAD@ + dates_paragraphs(items) + DATES_TAIL@
}

/// The question for the dates in announcements.
pub fn dates_prompt(items: &Vec<(String, String, String)>) -> (r: String)
    ensures
        r@ == dates_question(text::views(items@)),
{
    let ghost all = text::views(items@);
    let mut list = String::new();
    let mut i: usize = 0;
    while i < items.len()
        invariant
            i <= items@.len(),
            all == text::views(items@),
            list@ == dates_paragraphs(all.take(i as int)),
        decreases items.len() - i,
    {
        let mut p = "### ".to_owned();
        p.append(text::number(i as u64).as_str());
        p.append(" | titulo=\"");
        p.append(items[i].0.as_str());
        p.append("\" | ramo=\"");
        p.append(items[i].1.as_str());
        p.append("\"\n");
        p.append(text::take_chars(items[i].2.as_str(), 2000).as_str());
        p.append("\n\n");
        proof {
            assert(all.take(i + 1).drop_last() =~= all.take(i as int));
            assert(all.take(i + 1).last() == items@[i as int]@);
            assert(p@ == dates_paragraph(i as int, all[i as int]));
        }
        list.append(p.as_str());
        i += 1;
    }
    assert(all.take(all.len() as int) =~= all);
    let mut s = DATES_HEAD.to_owned();
    s.append(list.as_str());
    s.append(DATES_TAIL);
    s
}

// ---------------------------------------------------------------------------
// Summaries
// ---------------------------------------------------------------------------

/// Whether material of this category holds exercises.
pub open spec fn holds_exercises(category: Seq<char>) -> bool {
    category == "Ayudantía"@ || category == "Guía/Ejercicios"@ || category == "Laboratorio"@
}

/// Whether material of this category holds exercises.
fn has_exercises(category: &str) -> (r: bool)
    ensures
        r == holds_exercises(category@),
{
    text::same(category, "Ayudantía") || text::same(category, "Guía/Ejercicios") || text::same(
        category,
        "Laboratorio",
    )
}

/// How material of a category is summed up.
pub open spec fn instruction_for(category: Seq<char>) -> Seq<char> {
    if holds_exercises(category) {
        SUMMARY_EXERCISES@
    } else if category == "Prueba/Control"@ {
        SUMMARY_EXAM@
    } else if category == "Tarea"@ {
        SUMMARY_TASK@
    } else if category == "Lectura/Paper"@ {
        SUMMARY_READING@
    } else {
        SUMMARY_CLASS@
    }
}

/// How material of a category is summed up.
pub fn summary_instruction(category: &str) -> (r: &'static str)
    ensures
        r@ == instruction_for(category@),
{
    if has_exercises(category) {
        SUMMARY_EXERCISES
    } else if text::same(category, "Prueba/Control") {
        SUMMARY_EXAM
    } else if text::same(category, "Tarea") {
        SUMMARY_TASK
    } else if text::same(category, "Lectura/Paper") {
        SUMMARY_READING
    } else {
        SUMMARY_CLASS
    }
}

/// The text of a document as it stands in the question for its summary.
pub open spec fn summary_sample(content: Seq<char>) -> Seq<char> {
    let sample = text::first_chars(content, 28000);
    if text::blank(sample) {
        "(sin texto extraíble; usa las imágenes adjuntas)"@
    } else {
        sample
    }
}

/// The question for the summary of a document, `pictures` saying whether its
/// pages go along; or why there is nothing to ask.
pub open spec fn summary_question(
    filename: Seq<char>,
    category: Seq<char>,
    content: Seq<char>,
    pictures: bool,
) -> Result<Seq<char>, Seq<char>> {
    if text::blank(content) && !pictures {
        Err("Sin texto ni páginas renderizables para resumir (¿formato no soportado?)."@)
    } else {
        Ok(
            instruction_for(category) + "\n"@ + (if pictures {
                VISION_NOTE@
            } else {
                ""@
            }) + "\nEscribe en español, en markdown, claro y bien estructurado.\nDocumento ("@
                + category + "): "@ + filename
                + "\n\nTexto extraído (puede estar incompleto):\n"@ + summary_sample(content),
        )
    }
}

/// The question for the summary of a document: what is asked depends on its
/// category, and it speaks of this document alone.
pub fn summarize(filename: &str, category: &str, content: &str, pictures: bool) -> (r: Result<
    String,
    String,
>)
    ensures
        match r {
            Ok(s) => summary_question(filename@, category@, content@, pictures) == Ok::<
                Seq<char>,
                Seq<char>,
            >(s@),
            Err(e) => summary_question(filename@, category@, content@, pictures) == Err::<
                Seq<char>,
                Seq<char>,
            >(e@),
        },
{
    if text::is_blank(content) && !pictures {
        return Err(
            "Sin texto ni páginas renderizables para resumir (¿formato no soportado?).".to_owned(),
        );
    }
    let sample = text::take_chars(content, 28000);
    let mut s = summary_instruction(category).to_owned();
    s.append("\n");
    s.append(if pictures { VISION_NOTE } else { "" });
    s.append("\nEscribe en español, en markdown, claro y bien estructurado.\nDocumento (");
    s.append(category);
    s.append("): ");
    s.append(filename);
    s.append("\n\nTexto extraído (puede estar incompleto):\n");
    if text::is_blank(sample.as_str()) {
        s.append("(sin texto extraíble; usa las imágenes adjuntas)");
    } else {
        s.append(sample.as_str());
    }
    Ok(s)
}

/// How the summaries of one category of a course are put together.
pub open spec fn general_instruction_for(category: Seq<char>) -> Seq<char> {
    if holds_exercises(category) {
        GENERAL_EXERCISES@
    } else if category == "Clase"@ || category == "Cápsula"@ {
        GENERAL_CLASS@
    } else if category == "Prueba/Control"@ {
        GENERAL_EXAM@
    } else if category == "Lectura/Paper"@ {
        GENERAL_READING@
    } else {
        GENERAL_OTHER@
    }
}

/// How the summaries of one category of a course are put together.
pub fn general_instruction(category: &str) -> (r: &'static str)
    ensures
        r@ == general_instruction_for(category@),
{
    if has_exercises(category) {
        GENERAL_EXERCISES
    } else if text::same(category, "Clase") || text::same(category, "Cápsula") {
        GENERAL_CLASS
    } else if text::same(category, "Prueba/Control") {
        GENERAL_EXAM
    } else if text::same(category, "Lectura/Paper") {
        GENERAL_READING
    } else {
        GENERAL_OTHER
    }
}

/// A text led in by a heading; nothing where there is no text.
pub open spec fn led_in(head: Seq<char>, s: Seq<char>, max_chars: int) -> Seq<char> {
    if text::blank(s) {
        seq![]
    } else {
        head + text::first_chars(s, max_chars) + "\n"@
    }
}

/// A text led in by a heading; nothing where there is no text.
fn lead_in(head: &str, s: &str, max_chars: usize) -> (r: String)
    ensures
        r@ == led_in(head@, s@, max_chars as int),
{
    if text::is_blank(s) {
        let none = String::new();
        assert(none@ =~= seq![]);
        return none;
    }
    let mut out = head.to_owned();
    out.append(text::take_chars(s, max_chars).as_str());
    out.append("\n");
    out
}

/// The question for the general summary of one category of a course, from the
/// single summaries, the general summary of before and what the web says; or
/// why there is nothing to ask.
pub open spec fn general_question(
    course_name: Seq<char>,
    category: Seq<char>,
    body: Seq<char>,
    previous: Seq<char>,
    web: Seq<char>,
) -> Result<Seq<char>, Seq<char>> {
    if text::blank(body) {
        Err("No hay resúmenes individuales en los que basarse."@)
    } else {
        Ok(
            general_instruction_for(category)
                + "\n\nEscribe en español, en markdown claro. Ramo: "@ + course_name
                + " · Sección: "@ + category + led_in(PREVIOUS_HEAD@, previous, 20000) + led_in(
                WEB_HEAD@,
                web,
                8000,
            ) + "\n\nResúmenes individuales en los que basarte:\n"@ + text::first_chars(
                body,
                40000,
            ),
        )
    }
}

/// The question for the general summary of one category of a course.
pub fn summarize_course(
    course_name: &str,
    category: &str,
    body: &str,
    previous: &str,
    web: &str,
) -> (r: Result<String, String>)
    ensures
        match r {
            Ok(s) => general_question(course_name@, category@, body@, previous@, web@) == Ok::<
                Seq<char>,
                Seq<char>,
            >(s@),
            Err(e) => general_question(course_name@, category@, body@, previous@, web@) == Err::<
                Seq<char>,
                Seq<char>,
            >(e@),
        },
{
    if text::is_blank(body) {
        return Err("No hay resúmenes individuales en los que basarse.".to_owned());
    }
    let mut s = general_instruction(category).to_owned();
    s.append("\n\nEscribe en español, en markdown claro. Ramo: ");
    s.append(course_name);
    s.append(" · Sección: ");
    s.append(category);
    s.append(lead_in(PREVIOUS_HEAD, previous, 20000).as_str());
    s.append(lead_in(WEB_HEAD, web, 8000).as_str());
    s.append("\n\nResúmenes individuales en los que basarte:\n");
    s.append(text::take_chars(body, 40000).as_str());
    Ok(s)
}

/// The general summary of before goes whole into the question for the next one,
/// as far as it is no longer than the question has room for: nothing of it is
/// lost before the model sees it.
pub proof fn lemma_previous_goes_in(
    course_name: Seq<char>,
    category: Seq<char>,
    body: Seq<char>,
    previous: Seq<char>,
    web: Seq<char>,
)
    requires
        !text::blank(body),
        !text::blank(previous),
        previous.len() <= 20000,
    ensures
        general_question(course_name, category, body, previous, web) is Ok,
        text::contains(
            general_question(course_name, category, body, previous, web)->Ok_0,
            previous,
        ),
{
    let head = general_instruction_for(category)
        + "\n\nEscribe en español, en markdown claro. Ramo: "@ + course_name + " · Sección: "@
        + category;
    let web_part = led_in(WEB_HEAD@, web, 8000);
    let tail_head = "\n\nResúmenes individuales en los que basarte:\n"@;
    let tail = text::first_chars(body, 40000);
    let q = general_question(course_name, category, body, previous, web)->Ok_0;
    let at = (head.len() + PREVIOUS_HEAD@.len()) as int;
    assert(text::first_chars(previous, 20000) == previous);
    assert(q == head + (PREVIOUS_HEAD@ + previous + "\n"@) + web_part + tail_head + tail);
    assert(q.subrange(at, at + previous.len()) =~= previous);
    assert(text::occurs_at(q, previous, at));
}

// ---------------------------------------------------------------------------
// What the questions hold
// ---------------------------------------------------------------------------

/// What is joined holds each of its parts.
proof fn lemma_joined_holds(parts: Seq<Seq<char>>, sep: Seq<char>, i: int)
    requires
        0 <= i < parts.len(),
    ensures
        text::contains(text::joined(parts, sep), parts[i]),
    decreases parts.len(),
{
    let all = text::joined(parts, sep);
    if parts.len() == 1 {
        text::lemma_contains_part(Seq::empty(), parts[0], Seq::empty());
        assert(Seq::<char>::empty() + parts[0] + Seq::<char>::empty() =~= all);
    } else {
        let before = text::joined(parts.drop_last(), sep);
        if i == parts.len() - 1 {
            text::lemma_contains_part(before + sep, parts[i], Seq::empty());
            assert(before + sep + parts[i] + Seq::<char>::empty() =~= all);
        } else {
            lemma_joined_holds(parts.drop_last(), sep, i);
            assert(parts.drop_last()[i] == parts[i]);
            text::lemma_contains_in(Seq::empty(), before, sep + parts.last(), parts[i]);
            assert(Seq::<char>::empty() + before + (sep + parts.last()) =~= all);
        }
    }
}

/// Every category is offered.
proof fn lemma_options_hold(i: int)
    requires
        0 <= i < CATEGORIES@.len(),
    ensures
        text::contains(options(), CATEGORIES@[i]@),
{
    let parts = CATEGORIES@.map_values(|c: &'static str| c@);
    assert(parts[i] == CATEGORIES@[i]@);
    lemma_joined_holds(parts, " | "@, i);
}

/// Each item's part stands among the parts.
proof fn lemma_name_lines_hold(items: Seq<(Seq<char>, Seq<char>, Seq<char>)>, i: int)
    requires
        0 <= i < items.len(),
    ensures
        text::contains(name_lines(items), name_line(i, items[i])),
    decreases items.len(),
{
    let before = name_lines(items.drop_last());
    let last = name_line(items.len() - 1, items.last());
    if i == items.len() - 1 {
        text::lemma_contains_part(before, last, Seq::empty());
        assert(before + last + Seq::<char>::empty() =~= name_lines(items));
    } else {
        lemma_name_lines_hold(items.drop_last(), i);
        assert(items.drop_last()[i] == items[i]);
        text::lemma_contains_in(Seq::empty(), before, last, name_line(i, items[i]));
        assert(Seq::<char>::empty() + before + last =~= name_lines(items));
    }
}

/// Each item's part stands among the parts.
proof fn lemma_content_paragraphs_hold(items: Seq<(Seq<char>, Seq<char>, Seq<char>, Seq<char>)>, i: int)
    requires
        0 <= i < items.len(),
    ensures
        text::contains(content_paragraphs(items), content_paragraph(i, items[i])),
    decreases items.len(),
{
    let before = content_paragraphs(items.drop_last());
    let last = content_paragraph(items.len() - 1, items.last());
    if i == items.len() - 1 {
        text::lemma_contains_part(before, last, Seq::empty());
        assert(before + last + Seq::<char>::empty() =~= content_paragraphs(items));
    } else {
        lemma_content_paragraphs_hold(items.drop_last(), i);
        assert(items.drop_last()[i] == items[i]);
        text::lemma_contains_in(Seq::empty(), before, last, content_paragraph(i, items[i]));
        assert(Seq::<char>::empty() + before + last =~= content_paragraphs(items));
    }
}

/// Each item's part stands among the parts.
proof fn lemma_dates_paragraphs_hold(items: Seq<(Seq<char>, Seq<char>, Seq<char>)>, i: int)
    requires
        0 <= i < items.len(),
    ensures
        text::contains(dates_paragraphs(items), dates_paragraph(i, items[i])),
    decreases items.len(),
{
    let before = dates_paragraphs(items.drop_last());
    let last = dates_paragraph(items.len() - 1, items.last());
    if i == items.len() - 1 {
        text::lemma_contains_part(before, last, Seq::empty());
        assert(before + last + Seq::<char>::empty() =~= dates_paragraphs(items));
    } else {
        lemma_dates_paragraphs_hold(items.drop_last(), i);
        assert(items.drop_last()[i] == items[i]);
        text::lemma_contains_in(Seq::empty(), before, last, dates_paragraph(i, items[i]));
        assert(Seq::<char>::empty() + before + last =~= dates_paragraphs(items));
    }
}

/// The question about one file holds its name, the first 3000 characters of its content
/// and every category.
pub proof fn lemma_classify_question_holds(filename: Seq<char>, content: Seq<char>, i: int)
    requires
        0 <= i < CATEGORIES@.len(),
    ensures
        text::contains(
            classify_question(filename, content),
            "\n\nNombre del archivo: "@ + filename,
        ),
        text::contains(
            classify_question(filename, content),
            "\nContenido (extracto):\n"@ + text::first_chars(content, 3000),
        ),
        text::contains(classify_question(filename, content), CATEGORIES@[i]@),
{
    let q = classify_question(filename, content);
    let name = "\n\nNombre del archivo: "@ + filename;
    let text_part = "\nContenido (extracto):\n"@ + text::first_chars(content, 3000);
    let tail = "\n\nResponde SOLO con el nombre exacto de la categoría."@;
    lemma_options_hold(i);
    let c = CATEGORIES@[i]@;
    let opts = options();
    let head = CLASSIFY_HEAD@;
    assert(q =~= head + opts + (name + text_part + tail));
    assert(q =~= (head + opts) + name + (text_part + tail));
    assert(q =~= (head + opts + name) + text_part + tail);
    text::lemma_contains_in(head, opts, name + text_part + tail, c);
    text::lemma_contains_part(head + opts, name, text_part + tail);
    text::lemma_contains_part(head + opts + name, text_part, tail);
}

/// The question about files by their names holds each of them under its number, with
/// its folder and its course, and every category.
pub proof fn lemma_batch_question_holds(
    items: Seq<(Seq<char>, Seq<char>, Seq<char>)>,
    k: int,
    i: int,
)
    requires
        0 <= k < items.len(),
        0 <= i < CATEGORIES@.len(),
    ensures
        text::contains(
            batch_question(items),
            text::decimal(k as nat) + ". archivo=\""@ + items[k].0 + "\" | carpeta=\""@ + items[k].1
                + "\" | ramo=\""@ + items[k].2 + "\"\n"@,
        ),
        text::contains(batch_question(items), CATEGORIES@[i]@),
{
    let q = batch_question(items);
    lemma_options_hold(i);
    lemma_name_lines_hold(items, k);
    let opts = options();
    let lines = name_lines(items);
    let mid = "\n\nArchivos:\n"@;
    assert(q =~= BATCH_HEAD@ + opts + (mid + lines + BATCH_TAIL@));
    text::lemma_contains_in(BATCH_HEAD@, opts, mid + lines + BATCH_TAIL@, CATEGORIES@[i]@);
    text::lemma_contains_in(BATCH_HEAD@ + opts + mid, lines, BATCH_TAIL@, name_line(k, items[k]));
}

/// The question about documents holds each of them under its number, with its name, its
/// folder, its course and the first 1400 characters of its content, and every category.
pub proof fn lemma_content_question_holds(
    items: Seq<(Seq<char>, Seq<char>, Seq<char>, Seq<char>)>,
    k: int,
    i: int,
)
    requires
        0 <= k < items.len(),
        0 <= i < CATEGORIES@.len(),
    ensures
        text::contains(
            content_question(items),
            "### "@ + text::decimal(k as nat) + " | archivo=\""@ + items[k].0 + "\" | carpeta=\""@
                + items[k].1 + "\" | ramo=\""@ + items[k].2
                + "\"\nExtracto del contenido:\n"@ + text::first_chars(items[k].3, 1400)
                + "\n\n"@,
        ),
        text::contains(content_question(items), CATEGORIES@[i]@),
{
    let q = content_question(items);
    lemma_options_hold(i);
    lemma_content_paragraphs_hold(items, k);
    let opts = options();
    let ps = content_paragraphs(items);
    assert(q =~= CONTENT_HEAD@ + opts + (CONTENT_CLUES@ + ps + CONTENT_TAIL@));
    text::lemma_contains_in(
        CONTENT_HEAD@,
        opts,
        CONTENT_CLUES@ + ps + CONTENT_TAIL@,
        CATEGORIES@[i]@,
    );
    text::lemma_contains_in(
        CONTENT_HEAD@ + opts + CONTENT_CLUES@,
        ps,
        CONTENT_TAIL@,
        content_paragraph(k, items[k]),
    );
}

/// The question about announcements holds each of them under its number, with its
/// title, its course and the first 2000 characters of its message.
pub proof fn lemma_dates_question_holds(items: Seq<(Seq<char>, Seq<char>, Seq<char>)>, k: int)
    requires
        0 <= k < items.len(),
    ensures
        text::contains(
            dates_question(items),
            "### "@ + text::decimal(k as nat) + " | titulo=\""@ + items[k].0 + "\" | ramo=\""@
                + items[k].1 + "\"\n"@ + text::first_chars(items[k].2, 2000) + "\n\n"@,
        ),
{
    lemma_dates_paragraphs_hold(items, k);
    text::lemma_contains_in(
        DATES_HEAD@,
        dates_paragraphs(items),
        DATES_TAIL@,
        dates_paragraph(k, items[k]),
    );
}

/// Which instruction a category gets: that for exercises, for an exam, for a task, for
/// a reading, and for a class in every other case.
pub proof fn lemma_instructions(category: Seq<char>)
    ensures
        instruction_for("Ayudantía"@) == SUMMARY_EXERCISES@,
        instruction_for("Guía/Ejercicios"@) == SUMMARY_EXERCISES@,
        instruction_for("Laboratorio"@) == SUMMARY_EXERCISES@,
        instruction_for("Prueba/Control"@) == SUMMARY_EXAM@,
        instruction_for("Tarea"@) == SUMMARY_TASK@,
        instruction_for("Lectura/Paper"@) == SUMMARY_READING@,
        category != "Ayudantía"@ && category != "Guía/Ejercicios"@ && category != "Laboratorio"@
            && category != "Prueba/Control"@ && category != "Tarea"@ && category
            != "Lectura/Paper"@ ==> instruction_for(category) == SUMMARY_CLASS@,
        general_instruction_for("Ayudantía"@) == GENERAL_EXERCISES@,
        general_instruction_for("Guía/Ejercicios"@) == GENERAL_EXERCISES@,
        general_instruction_for("Laboratorio"@) == GENERAL_EXERCISES@,
        general_instruction_for("Clase"@) == GENERAL_CLASS@,
        general_instruction_for("Cápsula"@) == GENERAL_CLASS@,
        general_instruction_for("Prueba/Control"@) == GENERAL_EXAM@,
        general_instruction_for("Lectura/Paper"@) == GENERAL_READING@,
        category != "Ayudantía"@ && category != "Guía/Ejercicios"@ && category != "Laboratorio"@
            && category != "Clase"@ && category != "Cápsula"@ && category != "Prueba/Control"@
            && category != "Lectura/Paper"@ ==> general_instruction_for(category) == GENERAL_OTHER@,
{
    reveal_strlit("Ayudantía");
    reveal_strlit("Guía/Ejercicios");
    reveal_strlit("Laboratorio");
    reveal_strlit("Prueba/Control");
    reveal_strlit("Tarea");
    reveal_strlit("Lectura/Paper");
    reveal_strlit("Clase");
    reveal_strlit("Cápsula");
    assert("Ayudantía"@.len() == 9 && "Guía/Ejercicios"@.len() == 15 && "Laboratorio"@.len() == 11
        && "Prueba/Control"@.len() == 14 && "Tarea"@.len() == 5 && "Lectura/Paper"@.len() == 13
        && "Clase"@.len() == 5 && "Cápsula"@.len() == 7);
    assert("Tarea"@[0] == 'T' && "Clase"@[0] == 'C');
}

/// The words around a document's name, taken apart.
proof fn lemma_summary_words()
    ensures
        "\nEscribe en español, en markdown, claro y bien estructurado.\nDocumento ("@
            == "\nEscribe en español, en markdown, claro y bien estructurado.\n"@ + "Documento ("@,
        "\n\nTexto extraído (puede estar incompleto):\n"@ == "\n\n"@
            + "Texto extraído (puede estar incompleto):\n"@,
{
    reveal_strlit("\nEscribe en español, en markdown, claro y bien estructurado.\nDocumento (");
    reveal_strlit("\nEscribe en español, en markdown, claro y bien estructurado.\n");
    reveal_strlit("Documento (");
    reveal_strlit("\n\nTexto extraído (puede estar incompleto):\n");
    reveal_strlit("Texto extraído (puede estar incompleto):\n");
    reveal_strlit("\n\n");
}

/// A summary is asked for wherever there is text or a picture, and only there; the
/// question holds the category's instruction, the file's name and category, the first
/// 28000 characters of the text where there is some, and the note on pictures where
/// there are some.
#[verifier::rlimit(40)]
pub proof fn lemma_summary_question_holds(
    filename: Seq<char>,
    category: Seq<char>,
    content: Seq<char>,
    pictures: bool,
)
    ensures
        summary_question(filename, category, content, pictures) is Ok <==> !text::blank(content)
            || pictures,
        summary_question(filename, category, content, pictures) matches Ok(q) ==> {
            &&& instruction_for(category).is_prefix_of(q)
            &&& text::contains(q, "Documento ("@ + category + "): "@ + filename + "\n\n"@)
            &&& !text::blank(text::first_chars(content, 28000)) ==> text::contains(
                q,
                text::first_chars(content, 28000),
            )
            &&& pictures ==> text::contains(q, VISION_NOTE@)
        },
{
    if !text::blank(content) || pictures {
        let q = summary_question(filename, category, content, pictures)->Ok_0;
        let ins = instruction_for(category);
        let note = if pictures {
            VISION_NOTE@
        } else {
            ""@
        };
        let lead = "\nEscribe en español, en markdown, claro y bien estructurado.\n"@;
        let two = "Texto extraído (puede estar incompleto):\n"@;
        let doc = "Documento ("@ + category + "): "@ + filename + "\n\n"@;
        let sample = summary_sample(content);
        lemma_summary_words();
        lemma_summary_shape(
            ins + "\n"@,
            note,
            lead,
            "Documento ("@,
            category,
            "): "@,
            filename,
            "\n\n"@,
            two,
            sample,
        );
        let a = ins + "\n"@;
        assert(q == a + note + lead + doc + (two + sample));
        assert(text::contains(q, doc)) by {
            text::lemma_contains_part(a + note + lead, doc, two + sample);
        }
        assert(text::contains(q, sample)) by {
            text::lemma_contains_part(a + note + lead + doc + two, sample, Seq::empty());
        }
        assert(text::contains(q, note)) by {
            text::lemma_contains_part(a, note, lead + doc + two + sample);
        }
        assert(ins.is_prefix_of(q));
    }
}

/// The note on pictures is all that pictures add to the question.
pub proof fn lemma_pictures_add_note(
    filename: Seq<char>,
    category: Seq<char>,
    content: Seq<char>,
)
    requires
        !text::blank(content),
    ensures
        summary_question(filename, category, content, true)->Ok_0.len() == summary_question(
            filename,
            category,
            content,
            false,
        )->Ok_0.len() + VISION_NOTE@.len(),
{
    reveal_strlit("");
}

/// The same text, grouped otherwise.
proof fn lemma_summary_shape(
    a: Seq<char>,
    note: Seq<char>,
    lead: Seq<char>,
    open: Seq<char>,
    category: Seq<char>,
    close: Seq<char>,
    filename: Seq<char>,
    gap: Seq<char>,
    two: Seq<char>,
    sample: Seq<char>,
)
    ensures
        a + note + (lead + open) + category + close + filename + (gap + two) + sample == (a + note
            + lead) + (open + category + close + filename + gap) + (two + sample),
        a + note + (lead + open) + category + close + filename + (gap + two) + sample == (a + note
            + lead + (open + category + close + filename + gap) + two) + sample
            + Seq::<char>::empty(),
        a + note + (lead + open) + category + close + filename + (gap + two) + sample == a + note
            + (lead + (open + category + close + filename + gap) + two + sample),
{
}

/// A general summary is asked for wherever there is material, and only there; the
/// question holds the category's instruction, the course and the category, the first
/// 40000 characters of the material and, where there are some, the first 20000 of the
/// summary so far and the first 8000 of what was found on the web.
#[verifier::rlimit(40)]
pub proof fn lemma_general_question_holds(
    course_name: Seq<char>,
    category: Seq<char>,
    body: Seq<char>,
    previous: Seq<char>,
    web: Seq<char>,
)
    ensures
        general_question(course_name, category, body, previous, web) is Ok <==> !text::blank(body),
        general_question(course_name, category, body, previous, web) matches Ok(q) ==> {
            &&& general_instruction_for(category).is_prefix_of(q)
            &&& text::contains(q, "Ramo: "@ + course_name + " · Sección: "@ + category)
            &&& text::contains(q, text::first_chars(body, 40000))
            &&& !text::blank(previous) ==> text::contains(q, text::first_chars(previous, 20000))
            &&& !text::blank(web) ==> text::contains(q, text::first_chars(web, 8000))
        },
{
    if !text::blank(body) {
        let q = general_question(course_name, category, body, previous, web)->Ok_0;
        let ins = general_instruction_for(category);
        let lead = "\n\nEscribe en español, en markdown claro. "@;
        let who = "Ramo: "@ + course_name + " · Sección: "@ + category;
        let prev = led_in(PREVIOUS_HEAD@, previous, 20000);
        let net = led_in(WEB_HEAD@, web, 8000);
        let two = "\n\nResúmenes individuales en los que basarte:\n"@;
        let b = text::first_chars(body, 40000);
        lemma_general_words();
        lemma_general_shape(
            ins,
            lead,
            "Ramo: "@,
            course_name,
            " · Sección: "@,
            category,
            prev,
            net,
            two,
            b,
        );
        assert(ins.is_prefix_of(q));
        assert(q == ins + lead + who + (prev + net + two + b));
        assert(text::contains(q, who)) by {
            text::lemma_contains_part(ins + lead, who, prev + net + two + b);
        }
        assert(text::contains(q, b)) by {
            text::lemma_contains_part(ins + lead + who + prev + net + two, b, Seq::empty());
        }
        let p = text::first_chars(previous, 20000);
        let w = text::first_chars(web, 8000);
        if !text::blank(previous) {
            assert(text::contains(q, p)) by {
                text::lemma_contains_part(PREVIOUS_HEAD@, p, "\n"@);
                text::lemma_contains_in(ins + lead + who, prev, net + two + b, p);
            }
        }
        if !text::blank(web) {
            assert(text::contains(q, w)) by {
                text::lemma_contains_part(WEB_HEAD@, w, "\n"@);
                text::lemma_contains_in(ins + lead + who + prev, net, two + b, w);
            }
        }
    }
}

/// The words before a course's name, taken apart.
proof fn lemma_general_words()
    ensures
        "\n\nEscribe en español, en markdown claro. Ramo: "@
            == "\n\nEscribe en español, en markdown claro. "@ + "Ramo: "@,
{
    reveal_strlit("\n\nEscribe en español, en markdown claro. Ramo: ");
    reveal_strlit("\n\nEscribe en español, en markdown claro. ");
    reveal_strlit("Ramo: ");
}

/// The same text, grouped otherwise.
proof fn lemma_general_shape(
    ins: Seq<char>,
    lead: Seq<char>,
    open: Seq<char>,
    course: Seq<char>,
    mid: Seq<char>,
    category: Seq<char>,
    prev: Seq<char>,
    net: Seq<char>,
    two: Seq<char>,
    b: Seq<char>,
)
    ensures
        ins + (lead + open) + course + mid + category + prev + net + two + b == (ins + lead) + (open
            + course + mid + category) + (prev + net + two + b),
        ins + (lead + open) + course + mid + category + prev + net + two + b == (ins + lead + (open
            + course + mid + category) + prev + net + two) + b + Seq::<char>::empty(),
        ins + (lead + open) + course + mid + category + prev + net + two + b == (ins + lead + (open
            + course + mid + category)) + prev + (net + two + b),
        ins + (lead + open) + course + mid + category + prev + net + two + b == (ins + lead + (open
            + course + mid + category) + prev) + net + (two + b),
{
}

} // verus!
