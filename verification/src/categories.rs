//! The categories of course material, and how they are told from names and
//! folders.

use vstd::prelude::*;
use vstd::slice::slice_subrange;
use vstd::utf8::*;
use crate::text;

verus! {

/// The categories into which documents are sorted.
pub const CATEGORIES: [&'static str; 11] = [
    "Clase",
    "Ayudantía",
    "Cápsula",
    "Laboratorio",
    "Guía/Ejercicios",
    "Tarea",
    "Prueba/Control",
    "Lectura/Paper",
    "Programa/Syllabus",
    "Administrativo",
    "Otro",
];

/// The categories whose material is worth a summary.
pub const SUMMARIZABLE: [&'static str; 8] = [
    "Clase",
    "Ayudantía",
    "Cápsula",
    "Laboratorio",
    "Guía/Ejercicios",
    "Tarea",
    "Prueba/Control",
    "Lectura/Paper",
];

/// Words in a name that speak for `Ayudantía`.
pub const NAME_AYUDANTIA: [&'static str; 1] = [
    "ayudant",
];

/// Words in a name that speak for `Laboratorio`.
pub const NAME_LABORATORIO: [&'static str; 4] = [
    "laborator",
    "lab_",
    "lab-",
    "lab ",
];

/// Words in a name that speak for `Cápsula`.
pub const NAME_CAPSULA: [&'static str; 2] = [
    "capsula",
    "cápsula",
];

/// Words in a name that speak for `Prueba/Control`.
pub const NAME_PRUEBA: [&'static str; 11] = [
    "pauta",
    "control",
    "certamen",
    "certámen",
    "interrogaci",
    "examen",
    "prueba",
    "solemne",
    " i1",
    " i2",
    " i3",
];

/// Words in a name that speak for `Tarea`.
pub const NAME_TAREA: [&'static str; 4] = [
    "tarea",
    "entrega",
    "homework",
    "assignment",
];

/// Words in a name that speak for `Guía/Ejercicios`.
pub const NAME_GUIA: [&'static str; 5] = [
    "guia",
    "guía",
    "ejercicio",
    "problema",
    "taller",
];

/// Words in a name that speak for `Lectura/Paper`.
pub const NAME_LECTURA: [&'static str; 5] = [
    "paper",
    "lectura",
    "reading",
    "articulo",
    "artículo",
];

/// Words in a name that speak for `Programa/Syllabus`.
pub const NAME_PROGRAMA: [&'static str; 5] = [
    "programa",
    "syllabus",
    "temario",
    "calendario",
    "reglamento",
];

/// Words in a name that speak for `Clase`.
pub const NAME_CLASE: [&'static str; 7] = [
    "clase",
    "apunte",
    "lecture",
    "catedra",
    "cátedra",
    "slide",
    "presentaci",
];

/// Words in a folder that speak for `Ayudantía`.
pub const FOLDER_AYUDANTIA: [&'static str; 1] = [
    "ayudant",
];

/// Words in a folder that speak for `Laboratorio`.
pub const FOLDER_LABORATORIO: [&'static str; 1] = [
    "laborator",
];

/// Words in a folder that speak for `Cápsula`.
pub const FOLDER_CAPSULA: [&'static str; 2] = [
    "capsula",
    "cápsula",
];

/// Words in a folder that speak for `Prueba/Control`.
pub const FOLDER_PRUEBA: [&'static str; 9] = [
    "control",
    "prueba",
    "certamen",
    "certámen",
    "interrogac",
    "examen",
    "solemne",
    "evaluac",
    "pauta",
];

/// Words in a folder that speak for `Tarea`.
pub const FOLDER_TAREA: [&'static str; 2] = [
    "tarea",
    "entrega",
];

/// Words in a folder that speak for `Guía/Ejercicios`.
pub const FOLDER_GUIA: [&'static str; 5] = [
    "guia",
    "guía",
    "ejercicio",
    "taller",
    "problema",
];

/// Words in a folder that speak for `Clase`.
pub const FOLDER_CLASE: [&'static str; 9] = [
    "clase",
    "catedra",
    "cátedra",
    "apunte",
    "teoria",
    "teoría",
    "slide",
    "presentaci",
    "compilad",
];

/// Words in a folder that speak for `Lectura/Paper`.
pub const FOLDER_LECTURA: [&'static str; 6] = [
    "lectura",
    "paper",
    "bibliograf",
    "reading",
    "articulo",
    "artículo",
];

/// Words in a folder that speak for `Programa/Syllabus`.
pub const FOLDER_PROGRAMA: [&'static str; 5] = [
    "programa",
    "syllabus",
    "temario",
    "reglamento",
    "calendario",
];

/// Folders that are for laboratories by their whole name.
pub const FOLDER_LAB_EXACT: [&'static str; 2] = [
    "lab",
    "labs",
];

/// Folders whose name says nothing of what they hold.
pub const FOLDER_GENERIC: [&'static str; 11] = [
    "",
    "course files",
    "unfiled",
    "files",
    "material",
    "materiales",
    "documentos",
    "documents",
    "general",
    "varios",
    "otros",
];

/// `c` is one of the categories.
pub open spec fn is_category(c: Seq<char>) -> bool {
    text::is_one_of(c, CATEGORIES@)
}

/// The categories, in their order.
pub fn categories() -> (r: Vec<String>)
    ensures
        text::views(r@) == CATEGORIES@.map_values(|c: &'static str| c@),
{
    let mut out: Vec<String> = Vec::new();
    let mut i: usize = 0;
    let ghost all = CATEGORIES@.map_values(|c: &'static str| c@);
    while i < CATEGORIES.len()
        invariant
            i <= CATEGORIES@.len(),
            all == CATEGORIES@.map_values(|c: &'static str| c@),
            text::views(out@) == all.take(i as int),
        decreases CATEGORIES.len() - i,
    {
        let c = CATEGORIES[i].to_owned();
        proof {
            text::lemma_views_push(out@, c);
            assert(all.take(i + 1) =~= all.take(i as int).push(c@));
        }
        out.push(c);
        i += 1;
    }
    assert(all.take(all.len() as int) =~= all);
    out
}

/// Whether material of this category is worth a summary.
pub fn is_summarizable(cat: &str) -> (r: bool)
    ensures
        r == text::is_one_of(cat@, SUMMARIZABLE@),
{
    text::one_of(cat, SUMMARIZABLE.as_slice())
}

// ---------------------------------------------------------------------------
// By name
// ---------------------------------------------------------------------------

/// The category that the words of a name speak for, the name being in lower
/// case: the first whose words stand in it.
pub open spec fn category_by_words(n: Seq<char>) -> Seq<char> {
    if text::contains_any(n, NAME_AYUDANTIA@) {
        "Ayudantía"@
    } else if text::contains_any(n, NAME_LABORATORIO@) || "lab"@.is_prefix_of(n) {
        "Laboratorio"@
    } else if text::contains_any(n, NAME_CAPSULA@) {
        "Cápsula"@
    } else if text::contains_any(n, NAME_PRUEBA@) {
        "Prueba/Control"@
    } else if text::contains_any(n, NAME_TAREA@) {
        "Tarea"@
    } else if text::contains_any(n, NAME_GUIA@) {
        "Guía/Ejercicios"@
    } else if text::contains_any(n, NAME_LECTURA@) {
        "Lectura/Paper"@
    } else if text::contains_any(n, NAME_PROGRAMA@) {
        "Programa/Syllabus"@
    } else if text::contains_any(n, NAME_CLASE@) {
        "Clase"@
    } else {
        "Otro"@
    }
}

/// The category that the words of a name in lower case speak for.
pub fn category_of_lowered(n: &str) -> (r: &'static str)
    ensures
        r@ == category_by_words(n@),
{
    if text::has_any(n, NAME_AYUDANTIA.as_slice()) {
        "Ayudantía"
    } else if text::has_any(n, NAME_LABORATORIO.as_slice()) || text::starts_with(n, "lab") {
        "Laboratorio"
    } else if text::has_any(n, NAME_CAPSULA.as_slice()) {
        "Cápsula"
    } else if text::has_any(n, NAME_PRUEBA.as_slice()) {
        "Prueba/Control"
    } else if text::has_any(n, NAME_TAREA.as_slice()) {
        "Tarea"
    } else if text::has_any(n, NAME_GUIA.as_slice()) {
        "Guía/Ejercicios"
    } else if text::has_any(n, NAME_LECTURA.as_slice()) {
        "Lectura/Paper"
    } else if text::has_any(n, NAME_PROGRAMA.as_slice()) {
        "Programa/Syllabus"
    } else if text::has_any(n, NAME_CLASE.as_slice()) {
        "Clase"
    } else {
        "Otro"
    }
}

/// The category that the words of a text speak for, in whatever case.
pub fn keyword_category(hay: &str) -> (r: &'static str)
    ensures
        r@ == category_by_words(text::lowercase(hay@)),
        is_ascii_chars(hay@) ==> r@ == category_by_words(text::ascii_lowered(hay@)),
{
    category_of_lowered(hay.to_lowercase().as_str())
}

/// The category that the name of a file speaks for.
pub fn classify_by_name(filename: &str) -> (r: String)
    ensures
        r@ == category_by_words(text::lowercase(filename@)),
        is_ascii_chars(filename@) ==> r@ == category_by_words(text::ascii_lowered(filename@)),
{
    keyword_category(filename).to_owned()
}

/// The letter case of a name does not matter: two names that are the same in lower
/// case speak for the same category.
pub proof fn lemma_same_lowered_name(a: Seq<char>, b: Seq<char>)
    requires
        text::lowercase(a) == text::lowercase(b),
    ensures
        category_by_words(text::lowercase(a)) == category_by_words(text::lowercase(b)),
{
}

/// The letter case of an ASCII name does not matter: lowered, it speaks for the
/// same category.
pub proof fn lemma_name_case(name: Seq<char>)
    ensures
        category_by_words(text::ascii_lowered(text::ascii_lowered(name))) == category_by_words(
            text::ascii_lowered(name),
        ),
{
    text::lemma_lowered_twice(name);
}

/// A name in lower case with `ayudant` in it speaks for `Ayudantía`, whatever else
/// is in it.
pub proof fn lemma_ayudant_first(n: Seq<char>)
    requires
        text::contains(n, "ayudant"@),
    ensures
        category_by_words(n) == "Ayudantía"@,
{
    assert(NAME_AYUDANTIA@[0]@ == "ayudant"@);
}

/// What the words of a name speak for is one of the categories, but never
/// `Administrativo`.
pub proof fn lemma_words_give_category(n: Seq<char>)
    ensures
        is_category(category_by_words(n)),
        category_by_words(n) != "Administrativo"@,
{
    lemma_other_names();
    assert(CATEGORIES@[0]@ == "Clase"@);
    assert(CATEGORIES@[1]@ == "Ayudantía"@);
    assert(CATEGORIES@[2]@ == "Cápsula"@);
    assert(CATEGORIES@[3]@ == "Laboratorio"@);
    assert(CATEGORIES@[4]@ == "Guía/Ejercicios"@);
    assert(CATEGORIES@[5]@ == "Tarea"@);
    assert(CATEGORIES@[6]@ == "Prueba/Control"@);
    assert(CATEGORIES@[7]@ == "Lectura/Paper"@);
    assert(CATEGORIES@[8]@ == "Programa/Syllabus"@);
    assert(CATEGORIES@[9]@ == "Administrativo"@);
    assert(CATEGORIES@[10]@ == "Otro"@);
}

/// No category is an empty text.
pub proof fn lemma_category_not_empty(c: Seq<char>)
    requires
        is_category(c),
    ensures
        c.len() > 0,
{
    reveal_strlit("Clase");
    reveal_strlit("Ayudantía");
    reveal_strlit("Cápsula");
    reveal_strlit("Laboratorio");
    reveal_strlit("Guía/Ejercicios");
    reveal_strlit("Tarea");
    reveal_strlit("Prueba/Control");
    reveal_strlit("Lectura/Paper");
    reveal_strlit("Programa/Syllabus");
    reveal_strlit("Administrativo");
    reveal_strlit("Otro");
    let i = choose|i: int| 0 <= i < CATEGORIES@.len() && #[trigger] CATEGORIES@[i]@ == c;
    assert(0 <= i < 11);
}

// ---------------------------------------------------------------------------
// By folder
// ---------------------------------------------------------------------------

/// What stands behind the last `/`.
pub open spec fn last_segment(folder: Seq<char>) -> Seq<char> {
    match text::last_index(folder, '/') {
        Some(i) => folder.skip(i + 1),
        None => folder,
    }
}

/// What stands behind the last `/`.
fn segment_of(folder: &str) -> (r: String)
    ensures
        r@ == last_segment(folder@),
{
    let v = text::chars_of(folder);
    match text::last_index_of(v.as_slice(), '/') {
        Some(i) => {
            let n: usize = v.len();
            let r = text::string_of(slice_subrange(v.as_slice(), i + 1, n));
            assert(r@ =~= folder@.skip(i + 1));
            r
        },
        None => folder.to_owned(),
    }
}

/// The category that the name of a folder in lower case speaks for; none where
/// the name is generic or says nothing.
pub open spec fn folder_says(last: Seq<char>) -> Option<Seq<char>> {
    if text::is_one_of(last, FOLDER_GENERIC@) {
        None
    } else if text::contains_any(last, FOLDER_AYUDANTIA@) {
        Some("Ayudantía"@)
    } else if text::contains_any(last, FOLDER_LABORATORIO@) || text::is_one_of(last, FOLDER_LAB_EXACT@) {
        Some("Laboratorio"@)
    } else if text::contains_any(last, FOLDER_CAPSULA@) {
        Some("Cápsula"@)
    } else if text::contains_any(last, FOLDER_PRUEBA@) {
        Some("Prueba/Control"@)
    } else if text::contains_any(last, FOLDER_TAREA@) {
        Some("Tarea"@)
    } else if text::contains_any(last, FOLDER_GUIA@) {
        Some("Guía/Ejercicios"@)
    } else if text::contains_any(last, FOLDER_CLASE@) {
        Some("Clase"@)
    } else if text::contains_any(last, FOLDER_LECTURA@) {
        Some("Lectura/Paper"@)
    } else if text::contains_any(last, FOLDER_PROGRAMA@) {
        Some("Programa/Syllabus"@)
    } else {
        None
    }
}

/// The category that the name of a folder in lower case speaks for.
pub fn folder_says_lowered(last: &str) -> (r: Option<&'static str>)
    ensures
        text::opt_view(r) == folder_says(last@),
{
    if text::one_of(last, FOLDER_GENERIC.as_slice()) {
        None
    } else if text::has_any(last, FOLDER_AYUDANTIA.as_slice()) {
        Some("Ayudantía")
    } else if text::has_any(last, FOLDER_LABORATORIO.as_slice()) || text::one_of(last, FOLDER_LAB_EXACT.as_slice()) {
        Some("Laboratorio")
    } else if text::has_any(last, FOLDER_CAPSULA.as_slice()) {
        Some("Cápsula")
    } else if text::has_any(last, FOLDER_PRUEBA.as_slice()) {
        Some("Prueba/Control")
    } else if text::has_any(last, FOLDER_TAREA.as_slice()) {
        Some("Tarea")
    } else if text::has_any(last, FOLDER_GUIA.as_slice()) {
        Some("Guía/Ejercicios")
    } else if text::has_any(last, FOLDER_CLASE.as_slice()) {
        Some("Clase")
    } else if text::has_any(last, FOLDER_LECTURA.as_slice()) {
        Some("Lectura/Paper")
    } else if text::has_any(last, FOLDER_PROGRAMA.as_slice()) {
        Some("Programa/Syllabus")
    } else {
        None
    }
}

/// The category that a folder of Canvas speaks for, by the last part of its
/// path; none where that is generic or ambiguous.
pub open spec fn category_of_folder(folder: Seq<char>) -> Option<Seq<char>> {
    folder_says(text::lowercase(text::trimmed(last_segment(folder))))
}

/// The category that a folder of Canvas with an ASCII path speaks for.
pub open spec fn category_of_ascii_folder(folder: Seq<char>) -> Option<Seq<char>> {
    folder_says(text::ascii_lowered(text::trimmed(last_segment(folder))))
}

/// The category that a folder of Canvas speaks for.
pub fn folder_category(folder: &str) -> (r: Option<&'static str>)
    ensures
        text::opt_view(r) == category_of_folder(folder@),
        is_ascii_chars(folder@) ==> text::opt_view(r) == category_of_ascii_folder(folder@),
{
    let segment = text::trim(segment_of(folder).as_str());
    proof {
        let tail = last_segment(folder@);
        text::lemma_last_index(folder@, '/');
        text::lemma_trimmed(tail);
        if is_ascii_chars(folder@) {
            let k = folder@.len() - tail.len();
            assert forall|i: int| 0 <= i < tail.len() implies #[trigger] tail[i] <= '\u{7f}' by {
                assert(tail[i] == folder@[k + i]);
            }
            let (a, b) = choose|a: int, b: int|
                0 <= a <= b <= tail.len() && segment@ == #[trigger] tail.subrange(a, b);
            assert forall|i: int| 0 <= i < segment@.len() implies #[trigger] segment@[i]
                <= '\u{7f}' by {
                assert(segment@[i] == tail[a + i]);
            }
        }
    }
    let last = segment.as_str().to_lowercase();
    folder_says_lowered(last.as_str())
}

/// Only the last part of a folder's path counts.
pub proof fn lemma_last_part_counts(path: Seq<char>, last: Seq<char>)
    requires
        !last.contains('/'),
    ensures
        category_of_folder(path + seq!['/'] + last) == category_of_folder(last),
        category_of_ascii_folder(path + seq!['/'] + last) == category_of_ascii_folder(last),
{
    let all = path + seq!['/'] + last;
    text::lemma_last_index(all, '/');
    text::lemma_last_index(last, '/');
    assert(all[path.len() as int] == '/');
    match text::last_index(all, '/') {
        Some(i) => {
            if i > path.len() {
                assert(all[i] == last[i - path.len() - 1]);
                assert(last.contains(all[i]));
            }
            assert(i == path.len());
            assert(all.skip(i + 1) =~= last);
        },
        None => {},
    }
    match text::last_index(last, '/') {
        Some(i) => {
            assert(last.contains(last[i]));
        },
        None => {},
    }
}

/// The letter case of a folder does not matter: two folders the last parts of which
/// are the same in lower case speak for the same category.
pub proof fn lemma_same_lowered_folder(a: Seq<char>, b: Seq<char>)
    requires
        text::lowercase(text::trimmed(last_segment(a))) == text::lowercase(
            text::trimmed(last_segment(b)),
        ),
    ensures
        category_of_folder(a) == category_of_folder(b),
{
}

/// The letter case of an ASCII path does not matter: lowered, it speaks for the
/// same category.
pub proof fn lemma_folder_case(folder: Seq<char>)
    ensures
        category_of_ascii_folder(text::ascii_lowered(folder)) == category_of_ascii_folder(folder),
{
    text::lemma_lowered_last_slash(folder);
    text::lemma_last_index(folder, '/');
    let tail = last_segment(folder);
    assert(last_segment(text::ascii_lowered(folder)) =~= text::ascii_lowered(tail));
    text::lemma_lowered_trimmed(tail);
    text::lemma_lowered_twice(text::trimmed(tail));
}

/// `Administrativo` and `Otro` are no other category.
proof fn lemma_other_names()
    ensures
        forall|i: int|
            0 <= i < 9 ==> (#[trigger] CATEGORIES@[i])@ != "Administrativo"@ && CATEGORIES@[i]@
                != "Otro"@,
        "Otro"@ != "Administrativo"@,
{
    reveal_strlit("Clase");
    reveal_strlit("Ayudantía");
    reveal_strlit("Cápsula");
    reveal_strlit("Laboratorio");
    reveal_strlit("Guía/Ejercicios");
    reveal_strlit("Tarea");
    reveal_strlit("Prueba/Control");
    reveal_strlit("Lectura/Paper");
    reveal_strlit("Programa/Syllabus");
    reveal_strlit("Administrativo");
    reveal_strlit("Otro");
    assert("Administrativo"@.len() == 14 && "Otro"@.len() == 4);
    assert forall|i: int| 0 <= i < 9 implies (#[trigger] CATEGORIES@[i])@ != "Administrativo"@
        && CATEGORIES@[i]@ != "Otro"@ by {
        assert(i == 0 || i == 1 || i == 2 || i == 3 || i == 4 || i == 5 || i == 6 || i == 7 || i
            == 8);
        if i == 6 {
            assert(CATEGORIES@[i]@[0] == 'P');
        }
    }
}

/// What a folder speaks for is one of the categories, but never `Administrativo`
/// or `Otro`.
pub proof fn lemma_folder_gives_category(folder: Seq<char>)
    ensures
        category_of_folder(folder) matches Some(c) ==> is_category(c) && c != "Administrativo"@ && c
            != "Otro"@,
{
    lemma_other_names();
    assert(CATEGORIES@[0]@ == "Clase"@);
    assert(CATEGORIES@[1]@ == "Ayudantía"@);
    assert(CATEGORIES@[2]@ == "Cápsula"@);
    assert(CATEGORIES@[3]@ == "Laboratorio"@);
    assert(CATEGORIES@[4]@ == "Guía/Ejercicios"@);
    assert(CATEGORIES@[5]@ == "Tarea"@);
    assert(CATEGORIES@[6]@ == "Prueba/Control"@);
    assert(CATEGORIES@[7]@ == "Lectura/Paper"@);
    assert(CATEGORIES@[8]@ == "Programa/Syllabus"@);
    assert(CATEGORIES@[9]@ == "Administrativo"@);
    assert(CATEGORIES@[10]@ == "Otro"@);
}

// ---------------------------------------------------------------------------
// By what a model answered
// ---------------------------------------------------------------------------

/// The first category from the `i`-th on whose name, in lower case, stands in
/// the lower-case text `l`.
pub open spec fn named_category(l: Seq<char>, i: int) -> Option<Seq<char>>
    decreases CATEGORIES@.len() - i,
{
    if i < 0 || i >= CATEGORIES@.len() {
        None
    } else if text::contains(l, text::lowercase(CATEGORIES@[i]@)) {
        Some(CATEGORIES@[i]@)
    } else {
        named_category(l, i + 1)
    }
}

/// The first category that the lower-case text `l` names.
pub fn category_named_in(l: &str) -> (r: Option<&'static str>)
    ensures
        text::opt_view(r) == named_category(l@, 0),
{
    let mut i: usize = 0;
    while i < CATEGORIES.len()
        invariant
            i <= CATEGORIES@.len(),
            named_category(l@, 0) == named_category(l@, i as int),
        decreases CATEGORIES.len() - i,
    {
        let c: &'static str = CATEGORIES[i];
        if text::has(l, c.to_lowercase().as_str()) {
            return Some(c);
        }
        i += 1;
    }
    None
}

/// The first category that a text names, in whatever case.
pub fn match_category(s: &str) -> (r: Option<String>)
    ensures
        text::opt_view(r) == named_category(text::lowercase(s@), 0),
{
    match category_named_in(s.to_lowercase().as_str()) {
        Some(c) => Some(c.to_owned()),
        None => None,
    }
}

/// What a text names is one of the categories.
pub proof fn lemma_named_is_category(l: Seq<char>, i: int)
    ensures
        named_category(l, i) matches Some(c) ==> is_category(c),
    decreases CATEGORIES@.len() - i,
{
    if 0 <= i < CATEGORIES@.len() && !text::contains(l, text::lowercase(CATEGORIES@[i]@)) {
        lemma_named_is_category(l, i + 1);
    }
}

// ---------------------------------------------------------------------------
// Folders of the summaries
// ---------------------------------------------------------------------------

/// The folder in which the summaries of a category are kept.
pub open spec fn folder_of_category(cat: Seq<char>) -> Seq<char> {
    if cat == "Ayudantía"@ {
        "Ayudantías resueltas"@
    } else if cat == "Laboratorio"@ {
        "Laboratorios"@
    } else if cat == "Guía/Ejercicios"@ {
        "Guías resueltas"@
    } else if cat == "Prueba/Control"@ {
        "Pruebas y controles"@
    } else if cat == "Clase"@ {
        "Clases"@
    } else if cat == "Cápsula"@ {
        "Cápsulas"@
    } else if cat == "Lectura/Paper"@ {
        "Lecturas"@
    } else if cat == "Tarea"@ {
        "Tareas"@
    } else {
        "Otros"@
    }
}

/// The folder in which the summaries of a category are kept.
pub fn cat_folder(cat: &str) -> (r: &'static str)
    ensures
        r@ == folder_of_category(cat@),
{
    if text::same(cat, "Ayudantía") {
        "Ayudantías resueltas"
    } else if text::same(cat, "Laboratorio") {
        "Laboratorios"
    } else if text::same(cat, "Guía/Ejercicios") {
        "Guías resueltas"
    } else if text::same(cat, "Prueba/Control") {
        "Pruebas y controles"
    } else if text::same(cat, "Clase") {
        "Clases"
    } else if text::same(cat, "Cápsula") {
        "Cápsulas"
    } else if text::same(cat, "Lectura/Paper") {
        "Lecturas"
    } else if text::same(cat, "Tarea") {
        "Tareas"
    } else {
        "Otros"
    }
}

/// Summaries are kept apart by their category: two categories that are
/// summarised never share a folder.
pub proof fn lemma_folders_apart(a: Seq<char>, b: Seq<char>)
    requires
        text::is_one_of(a, SUMMARIZABLE@),
        text::is_one_of(b, SUMMARIZABLE@),
        folder_of_category(a) == folder_of_category(b),
    ensures
        a == b,
{
    reveal_strlit("Ayudantías resueltas");
    reveal_strlit("Laboratorios");
    reveal_strlit("Guías resueltas");
    reveal_strlit("Pruebas y controles");
    reveal_strlit("Clases");
    reveal_strlit("Cápsulas");
    reveal_strlit("Lecturas");
    reveal_strlit("Tareas");
    reveal_strlit("Otros");
    assert(SUMMARIZABLE@[0]@ == "Clase"@);
    assert(SUMMARIZABLE@[1]@ == "Ayudantía"@);
    assert(SUMMARIZABLE@[2]@ == "Cápsula"@);
    assert(SUMMARIZABLE@[3]@ == "Laboratorio"@);
    assert(SUMMARIZABLE@[4]@ == "Guía/Ejercicios"@);
    assert(SUMMARIZABLE@[5]@ == "Tarea"@);
    assert(SUMMARIZABLE@[6]@ == "Prueba/Control"@);
    assert(SUMMARIZABLE@[7]@ == "Lectura/Paper"@);
    assert("Ayudantías resueltas"@.len() == 20 && "Ayudantías resueltas"@[0] == 'A');
    assert("Laboratorios"@.len() == 12 && "Laboratorios"@[0] == 'L');
    assert("Guías resueltas"@.len() == 15 && "Guías resueltas"@[0] == 'G');
    assert("Pruebas y controles"@.len() == 19 && "Pruebas y controles"@[0] == 'P');
    assert("Clases"@.len() == 6 && "Clases"@[0] == 'C');
    assert("Cápsulas"@.len() == 8 && "Cápsulas"@[0] == 'C');
    assert("Lecturas"@.len() == 8 && "Lecturas"@[0] == 'L');
    assert("Tareas"@.len() == 6 && "Tareas"@[0] == 'T');
    assert("Otros"@.len() == 5 && "Otros"@[0] == 'O');
}

// ---------------------------------------------------------------------------
// What the words mean
// ---------------------------------------------------------------------------

/// One of the words stands in the text.
pub open spec fn holds_one(s: Seq<char>, words: Seq<Seq<char>>) -> bool {
    exists|i: int| 0 <= i < words.len() && text::contains(s, #[trigger] words[i])
}

/// A word list as texts.
proof fn lemma_holds_one(s: Seq<char>, list: Seq<&str>, words: Seq<Seq<char>>)
    requires
        list.len() == words.len(),
        forall|i: int| 0 <= i < list.len() ==> #[trigger] list[i]@ == words[i],
    ensures
        text::contains_any(s, list) == holds_one(s, words),
{
    if text::contains_any(s, list) {
        let i = choose|i: int| 0 <= i < list.len() && text::contains(s, #[trigger] list[i]@);
        assert(text::contains(s, words[i]));
    }
    if holds_one(s, words) {
        let i = choose|i: int| 0 <= i < words.len() && text::contains(s, #[trigger] words[i]);
        assert(list[i]@ == words[i]);
    }
}

/// A list of whole names as texts.
proof fn lemma_is_one(s: Seq<char>, list: Seq<&str>, words: Seq<Seq<char>>)
    requires
        list.len() == words.len(),
        forall|i: int| 0 <= i < list.len() ==> #[trigger] list[i]@ == words[i],
    ensures
        text::is_one_of(s, list) == words.contains(s),
{
    if text::is_one_of(s, list) {
        let i = choose|i: int| 0 <= i < list.len() && s == #[trigger] list[i]@;
        assert(words[i] == s);
    }
    if words.contains(s) {
        let i = choose|i: int| 0 <= i < words.len() && words[i] == s;
        assert(list[i]@ == words[i]);
    }
}

/// The last part of a folder's path, in lower case, decides by its words: a generic
/// one says nothing, and of the others the first kind of which a word stands in it
/// is the category.
pub proof fn lemma_folder_words_decide(last: Seq<char>)
    ensures
        ({
            let w0 = holds_one(last, seq!["ayudant"@]);
            let w1 = holds_one(last, seq!["laborator"@]) || last == "lab"@ || last == "labs"@;
            let w2 = holds_one(last, seq!["capsula"@, "cápsula"@]);
            let w3 = holds_one(last, seq!["control"@, "prueba"@, "certamen"@, "certámen"@, "interrogac"@, "examen"@, "solemne"@, "evaluac"@, "pauta"@]);
            let w4 = holds_one(last, seq!["tarea"@, "entrega"@]);
            let w5 = holds_one(last, seq!["guia"@, "guía"@, "ejercicio"@, "taller"@, "problema"@]);
            let w6 = holds_one(last, seq!["clase"@, "catedra"@, "cátedra"@, "apunte"@, "teoria"@, "teoría"@, "slide"@, "presentaci"@, "compilad"@]);
            let w7 = holds_one(last, seq!["lectura"@, "paper"@, "bibliograf"@, "reading"@, "articulo"@, "artículo"@]);
            let w8 = holds_one(last, seq!["programa"@, "syllabus"@, "temario"@, "reglamento"@, "calendario"@]);
            let generic = seq![""@, "course files"@, "unfiled"@, "files"@, "material"@, "materiales"@, "documentos"@, "documents"@, "general"@, "varios"@, "otros"@].contains(last);
            &&& generic ==> folder_says(last) is None
            &&& !generic && w0 ==> folder_says(last) == Some("Ayudantía"@)
            &&& !generic && !w0 && w1 ==> folder_says(last) == Some("Laboratorio"@)
            &&& !generic && !w0 && !w1 && w2 ==> folder_says(last) == Some("Cápsula"@)
            &&& !generic && !w0 && !w1 && !w2 && w3 ==> folder_says(last) == Some("Prueba/Control"@)
            &&& !generic && !w0 && !w1 && !w2 && !w3 && w4 ==> folder_says(last) == Some("Tarea"@)
            &&& !generic && !w0 && !w1 && !w2 && !w3 && !w4 && w5 ==> folder_says(last) == Some("Guía/Ejercicios"@)
            &&& !generic && !w0 && !w1 && !w2 && !w3 && !w4 && !w5 && w6 ==> folder_says(last) == Some("Clase"@)
            &&& !generic && !w0 && !w1 && !w2 && !w3 && !w4 && !w5 && !w6 && w7 ==> folder_says(last) == Some("Lectura/Paper"@)
            &&& !generic && !w0 && !w1 && !w2 && !w3 && !w4 && !w5 && !w6 && !w7 && w8 ==> folder_says(last) == Some("Programa/Syllabus"@)
            &&& !generic && !w0 && !w1 && !w2 && !w3 && !w4 && !w5 && !w6 && !w7 && !w8 ==> folder_says(last) is None
        }),
{
    lemma_holds_one(last, FOLDER_AYUDANTIA@, seq!["ayudant"@]);
    lemma_holds_one(last, FOLDER_LABORATORIO@, seq!["laborator"@]);
    lemma_holds_one(last, FOLDER_CAPSULA@, seq!["capsula"@, "cápsula"@]);
    lemma_holds_one(last, FOLDER_PRUEBA@, seq!["control"@, "prueba"@, "certamen"@, "certámen"@, "interrogac"@, "examen"@, "solemne"@, "evaluac"@, "pauta"@]);
    lemma_holds_one(last, FOLDER_TAREA@, seq!["tarea"@, "entrega"@]);
    lemma_holds_one(last, FOLDER_GUIA@, seq!["guia"@, "guía"@, "ejercicio"@, "taller"@, "problema"@]);
    lemma_holds_one(last, FOLDER_CLASE@, seq!["clase"@, "catedra"@, "cátedra"@, "apunte"@, "teoria"@, "teoría"@, "slide"@, "presentaci"@, "compilad"@]);
    lemma_holds_one(last, FOLDER_LECTURA@, seq!["lectura"@, "paper"@, "bibliograf"@, "reading"@, "articulo"@, "artículo"@]);
    lemma_holds_one(last, FOLDER_PROGRAMA@, seq!["programa"@, "syllabus"@, "temario"@, "reglamento"@, "calendario"@]);
    lemma_is_one(last, FOLDER_GENERIC@, seq![""@, "course files"@, "unfiled"@, "files"@, "material"@, "materiales"@, "documentos"@, "documents"@, "general"@, "varios"@, "otros"@]);
    lemma_is_one(last, FOLDER_LAB_EXACT@, seq!["lab"@, "labs"@]);
    assert(seq!["lab"@, "labs"@].contains(last) == (last == "lab"@ || last == "labs"@)) by {
        let ws = seq!["lab"@, "labs"@];
        assert(ws[0] == "lab"@ && ws[1] == "labs"@);
    }
}

/// A name in lower case decides by its words: the first kind of which a word stands
/// in it is the category, and without any it is `Otro`.
pub proof fn lemma_name_words_decide(n: Seq<char>)
    ensures
        ({
            let w0 = holds_one(n, seq!["ayudant"@]);
            let w1 = holds_one(n, seq!["laborator"@, "lab_"@, "lab-"@, "lab "@]) || "lab"@.is_prefix_of(n);
            let w2 = holds_one(n, seq!["capsula"@, "cápsula"@]);
            let w3 = holds_one(n, seq!["pauta"@, "control"@, "certamen"@, "certámen"@, "interrogaci"@, "examen"@, "prueba"@, "solemne"@, " i1"@, " i2"@, " i3"@]);
            let w4 = holds_one(n, seq!["tarea"@, "entrega"@, "homework"@, "assignment"@]);
            let w5 = holds_one(n, seq!["guia"@, "guía"@, "ejercicio"@, "problema"@, "taller"@]);
            let w6 = holds_one(n, seq!["paper"@, "lectura"@, "reading"@, "articulo"@, "artículo"@]);
            let w7 = holds_one(n, seq!["programa"@, "syllabus"@, "temario"@, "calendario"@, "reglamento"@]);
            let w8 = holds_one(n, seq!["clase"@, "apunte"@, "lecture"@, "catedra"@, "cátedra"@, "slide"@, "presentaci"@]);
            &&& w0 ==> category_by_words(n) == "Ayudantía"@
            &&& !w0 && w1 ==> category_by_words(n) == "Laboratorio"@
            &&& !w0 && !w1 && w2 ==> category_by_words(n) == "Cápsula"@
            &&& !w0 && !w1 && !w2 && w3 ==> category_by_words(n) == "Prueba/Control"@
            &&& !w0 && !w1 && !w2 && !w3 && w4 ==> category_by_words(n) == "Tarea"@
            &&& !w0 && !w1 && !w2 && !w3 && !w4 && w5 ==> category_by_words(n) == "Guía/Ejercicios"@
            &&& !w0 && !w1 && !w2 && !w3 && !w4 && !w5 && w6 ==> category_by_words(n) == "Lectura/Paper"@
            &&& !w0 && !w1 && !w2 && !w3 && !w4 && !w5 && !w6 && w7 ==> category_by_words(n) == "Programa/Syllabus"@
            &&& !w0 && !w1 && !w2 && !w3 && !w4 && !w5 && !w6 && !w7 && w8 ==> category_by_words(n) == "Clase"@
            &&& !w0 && !w1 && !w2 && !w3 && !w4 && !w5 && !w6 && !w7 && !w8 ==> category_by_words(n) == "Otro"@
        }),
{
    lemma_holds_one(n, NAME_AYUDANTIA@, seq!["ayudant"@]);
    lemma_holds_one(n, NAME_LABORATORIO@, seq!["laborator"@, "lab_"@, "lab-"@, "lab "@]);
    lemma_holds_one(n, NAME_CAPSULA@, seq!["capsula"@, "cápsula"@]);
    lemma_holds_one(n, NAME_PRUEBA@, seq!["pauta"@, "control"@, "certamen"@, "certámen"@, "interrogaci"@, "examen"@, "prueba"@, "solemne"@, " i1"@, " i2"@, " i3"@]);
    lemma_holds_one(n, NAME_TAREA@, seq!["tarea"@, "entrega"@, "homework"@, "assignment"@]);
    lemma_holds_one(n, NAME_GUIA@, seq!["guia"@, "guía"@, "ejercicio"@, "problema"@, "taller"@]);
    lemma_holds_one(n, NAME_LECTURA@, seq!["paper"@, "lectura"@, "reading"@, "articulo"@, "artículo"@]);
    lemma_holds_one(n, NAME_PROGRAMA@, seq!["programa"@, "syllabus"@, "temario"@, "calendario"@, "reglamento"@]);
    lemma_holds_one(n, NAME_CLASE@, seq!["clase"@, "apunte"@, "lecture"@, "catedra"@, "cátedra"@, "slide"@, "presentaci"@]);
}

/// The categories, in their order.
pub proof fn lemma_the_categories(c: Seq<char>)
    ensures
        CATEGORIES@.map_values(|w: &str| w@) == seq!["Clase"@, "Ayudantía"@, "Cápsula"@, "Laboratorio"@, "Guía/Ejercicios"@, "Tarea"@, "Prueba/Control"@, "Lectura/Paper"@, "Programa/Syllabus"@, "Administrativo"@, "Otro"@],
        is_category(c) == seq!["Clase"@, "Ayudantía"@, "Cápsula"@, "Laboratorio"@, "Guía/Ejercicios"@, "Tarea"@, "Prueba/Control"@, "Lectura/Paper"@, "Programa/Syllabus"@, "Administrativo"@, "Otro"@].contains(c),
{
    lemma_is_one(c, CATEGORIES@, seq!["Clase"@, "Ayudantía"@, "Cápsula"@, "Laboratorio"@, "Guía/Ejercicios"@, "Tarea"@, "Prueba/Control"@, "Lectura/Paper"@, "Programa/Syllabus"@, "Administrativo"@, "Otro"@]);
    assert(CATEGORIES@.map_values(|w: &str| w@) =~= seq!["Clase"@, "Ayudantía"@, "Cápsula"@, "Laboratorio"@, "Guía/Ejercicios"@, "Tarea"@, "Prueba/Control"@, "Lectura/Paper"@, "Programa/Syllabus"@, "Administrativo"@, "Otro"@]);
}

/// Material of eight kinds is worth a summary, and no other.
pub proof fn lemma_worth_a_summary(c: Seq<char>)
    ensures
        text::is_one_of(c, SUMMARIZABLE@) == (c == "Clase"@ || c == "Ayudantía"@ || c == "Cápsula"@ || c == "Laboratorio"@ || c == "Guía/Ejercicios"@ || c == "Tarea"@ || c == "Prueba/Control"@ || c == "Lectura/Paper"@),
{
    let words = seq!["Clase"@, "Ayudantía"@, "Cápsula"@, "Laboratorio"@, "Guía/Ejercicios"@, "Tarea"@, "Prueba/Control"@, "Lectura/Paper"@];
    lemma_is_one(c, SUMMARIZABLE@, words);
    assert(words[0] == "Clase"@);
    assert(words[1] == "Ayudantía"@);
    assert(words[2] == "Cápsula"@);
    assert(words[3] == "Laboratorio"@);
    assert(words[4] == "Guía/Ejercicios"@);
    assert(words[5] == "Tarea"@);
    assert(words[6] == "Prueba/Control"@);
    assert(words[7] == "Lectura/Paper"@);
    if words.contains(c) {
        let i = choose|i: int| 0 <= i < words.len() && words[i] == c;
        assert(0 <= i < 8);
    }
}

/// Summaries of each kind have a folder of their own name.
pub proof fn lemma_folder_names(c: Seq<char>)
    ensures
        folder_of_category("Ayudantía"@) == "Ayudantías resueltas"@,
        folder_of_category("Laboratorio"@) == "Laboratorios"@,
        folder_of_category("Guía/Ejercicios"@) == "Guías resueltas"@,
        folder_of_category("Prueba/Control"@) == "Pruebas y controles"@,
        folder_of_category("Clase"@) == "Clases"@,
        folder_of_category("Cápsula"@) == "Cápsulas"@,
        folder_of_category("Lectura/Paper"@) == "Lecturas"@,
        folder_of_category("Tarea"@) == "Tareas"@,
        !text::is_one_of(c, SUMMARIZABLE@) ==> folder_of_category(c) == "Otros"@,
{
    reveal_strlit("Ayudantía");
    reveal_strlit("Laboratorio");
    reveal_strlit("Guía/Ejercicios");
    reveal_strlit("Prueba/Control");
    reveal_strlit("Clase");
    reveal_strlit("Cápsula");
    reveal_strlit("Lectura/Paper");
    reveal_strlit("Tarea");
    assert("Ayudantía"@.len() == 9 && "Laboratorio"@.len() == 11 && "Guía/Ejercicios"@.len() == 15
        && "Prueba/Control"@.len() == 14 && "Cápsula"@.len() == 7 && "Lectura/Paper"@.len() == 13);
    assert("Clase"@.len() == 5 && "Clase"@[0] == 'C');
    assert("Tarea"@.len() == 5 && "Tarea"@[0] == 'T');
    lemma_worth_a_summary(c);
}

/// A text names the first category the name of which, in lower case, stands in it;
/// it names none where none does.
pub proof fn lemma_names_the_first(l: Seq<char>, i: int)
    requires
        0 <= i <= CATEGORIES@.len(),
    ensures
        match named_category(l, i) {
            Some(c) => exists|k: int|
                i <= k < CATEGORIES@.len() && c == (#[trigger] CATEGORIES@[k])@ && text::contains(
                    l,
                    text::lowercase(c),
                ) && forall|j: int|
                    i <= j < k ==> !text::contains(l, text::lowercase((#[trigger] CATEGORIES@[j])@)),
            None => forall|j: int|
                i <= j < CATEGORIES@.len() ==> !text::contains(
                    l,
                    text::lowercase((#[trigger] CATEGORIES@[j])@),
                ),
        },
    decreases CATEGORIES@.len() - i,
{
    if i < CATEGORIES@.len() {
        if text::contains(l, text::lowercase(CATEGORIES@[i]@)) {
            assert(named_category(l, i) == Some(CATEGORIES@[i]@));
        } else {
            lemma_names_the_first(l, i + 1);
        }
    }
}

} // verus!
