//! Where files and summaries of a course lie on disk.

use vstd::prelude::*;
use vstd::string::*;
use crate::categories::cat_folder;
use crate::categories;
use crate::config::AppConfig;
use crate::paths::{file_stem, join_path, sane};
use crate::paths;
use crate::store::{CanvasFile, CanvasFileView};
use crate::text;

verus! {

/// The folder of courses that are over, below the download folder.
pub const PAST_FOLDER: &'static str = "Cursos pasados";

/// The folder of summaries, below the folder of a course.
pub const SUMMARY_FOLDER: &'static str = "_Resúmenes";

/// The folder of a course: below the download folder, that of a past course
/// one folder deeper.
pub open spec fn course_place(download_dir: Seq<char>, label: Seq<char>, past: bool) -> Seq<char> {
    let base = if past {
        paths::path_push(download_dir, PAST_FOLDER@)
    } else {
        download_dir
    };
    paths::path_push(base, paths::sane_name(label))
}

/// The folder of a course.
pub fn course_dir(cfg: &AppConfig, folder_name: &str, concluded: bool) -> (r: String)
    ensures
        r@ == course_place(cfg@.download_dir, folder_name@, concluded),
{
    let name = sane(folder_name);
    if concluded {
        let past = join_path(cfg.download_dir.as_str(), PAST_FOLDER);
        join_path(past.as_str(), name.as_str())
    } else {
        join_path(cfg.download_dir.as_str(), name.as_str())
    }
}

/// The folder that the named segments lead to from `base`; empty segments lead
/// nowhere.
pub open spec fn walk(base: Seq<char>, segs: Seq<Seq<char>>) -> Seq<char>
    decreases segs.len(),
{
    if segs.len() == 0 {
        base
    } else {
        let before = walk(base, segs.drop_last());
        if segs.last().len() == 0 {
            before
        } else {
            paths::path_push(before, paths::sane_name(segs.last()))
        }
    }
}

/// A folder of Canvas without the root that every course has.
pub open spec fn inner_folder(folder: Seq<char>) -> Seq<char> {
    text::without_prefixes(text::without_prefixes(folder, "course files"@), "/"@)
}

/// Where a file of Canvas lies on disk.
pub open spec fn file_place(
    download_dir: Seq<char>,
    file: CanvasFileView,
    label: Seq<char>,
    past: bool,
) -> Seq<char> {
    paths::path_push(
        walk(
            course_place(download_dir, label, past),
            text::split(inner_folder(file.folder), "/"@),
        ),
        paths::sane_name(file.filename),
    )
}

/// Where a file of Canvas lies on disk: in its course's folder, below the
/// folders that it has on Canvas.
pub fn build_dest(cfg: &AppConfig, file: &CanvasFile, folder_name: &str, concluded: bool) -> (r:
    String)
    ensures
        r@ == file_place(cfg@.download_dir, file@, folder_name@, concluded),
{
    proof {
        reveal_strlit("/");
        reveal_strlit("course files");
    }
    let top = text::strip_prefixes(file.folder.as_str(), "course files");
    let folder = text::strip_prefixes(top.as_str(), "/");
    let segs = text::split_text(folder.as_str(), "/");
    let mut path = course_dir(cfg, folder_name, concluded);
    let ghost base = path@;
    let ghost all = text::views(segs@);
    let mut i: usize = 0;
    while i < segs.len()
        invariant
            i <= segs@.len(),
            all == text::views(segs@),
            path@ == walk(base, all.take(i as int)),
        decreases segs.len() - i,
    {
        assert(all.take(i + 1).drop_last() =~= all.take(i as int));
        assert(all.take(i + 1).last() == segs@[i as int]@);
        if !segs[i].as_str().is_empty() {
            let name = sane(segs[i].as_str());
            path = join_path(path.as_str(), name.as_str());
        }
        i += 1;
    }
    assert(all.take(all.len() as int) =~= all);
    let name = sane(file.filename.as_str());
    join_path(path.as_str(), name.as_str())
}

/// The folder of the summaries of one category.
pub open spec fn summaries_place(
    download_dir: Seq<char>,
    label: Seq<char>,
    past: bool,
    category: Seq<char>,
) -> Seq<char> {
    paths::path_push(
        paths::path_push(course_place(download_dir, label, past), SUMMARY_FOLDER@),
        paths::sane_name(categories::folder_of_category(category)),
    )
}

/// The folder of the summaries of one category.
pub fn summaries_dir(cfg: &AppConfig, folder_name: &str, concluded: bool, category: &str) -> (r:
    String)
    ensures
        r@ == summaries_place(cfg@.download_dir, folder_name@, concluded, category@),
{
    let course = course_dir(cfg, folder_name, concluded);
    let all = join_path(course.as_str(), SUMMARY_FOLDER);
    let kind = sane(cat_folder(category));
    join_path(all.as_str(), kind.as_str())
}

/// A file's name without its extension, or the whole of it where it has none to
/// cut.
pub open spec fn bare_name(filename: Seq<char>) -> Seq<char> {
    match paths::stem_in_path(filename) {
        Some(s) => s,
        None => filename,
    }
}

/// Where the summary of a file lies on disk.
pub open spec fn summary_place(
    download_dir: Seq<char>,
    file: CanvasFileView,
    label: Seq<char>,
    past: bool,
) -> Seq<char> {
    paths::path_push(
        summaries_place(download_dir, label, past, file.category),
        paths::sane_name(bare_name(file.filename)) + " — resumen.md"@,
    )
}

/// Where the summary of a file lies on disk:
/// `<course>/_Resúmenes/<kind>/<file> — resumen.md`.
pub fn summary_dest(cfg: &AppConfig, file: &CanvasFile, folder_name: &str, concluded: bool) -> (r:
    String)
    ensures
        r@ == summary_place(cfg@.download_dir, file@, folder_name@, concluded),
{
    let dir = summaries_dir(cfg, folder_name, concluded, file.category.as_str());
    let stem = match file_stem(file.filename.as_str()) {
        Some(s) => s,
        None => file.filename.clone(),
    };
    let mut name = sane(stem.as_str());
    name.append(" — resumen.md");
    join_path(dir.as_str(), name.as_str())
}

/// What the file of a summary holds.
pub open spec fn summary_document(file: CanvasFileView, summary: Seq<char>) -> Seq<char> {
    "# "@ + file.filename + "\n\n> Ramo: "@ + file.course_name + " · Tipo: "@ + file.category
        + "\n\n"@ + summary
}

/// What the file of a summary holds: a heading, then the summary.
pub fn summary_file_text(file: &CanvasFile, summary: &str) -> (r: String)
    ensures
        r@ == summary_document(file@, summary@),
{
    let mut s = "# ".to_owned();
    s.append(file.filename.as_str());
    s.append("\n\n> Ramo: ");
    s.append(file.course_name.as_str());
    s.append(" · Tipo: ");
    s.append(file.category.as_str());
    s.append("\n\n");
    s.append(summary);
    s
}

/// Where the general summary of one category of a course lies on disk.
pub open spec fn general_place(
    download_dir: Seq<char>,
    label: Seq<char>,
    past: bool,
    category: Seq<char>,
) -> Seq<char> {
    paths::path_push(
        summaries_place(download_dir, label, past, category),
        "「Resumen general」 "@ + paths::sane_name(categories::folder_of_category(category)) + ".md"@,
    )
}

/// Where the general summary of one category of a course lies on disk.
pub fn general_dest(cfg: &AppConfig, folder_name: &str, concluded: bool, category: &str) -> (r:
    String)
    ensures
        r@ == general_place(cfg@.download_dir, folder_name@, concluded, category@),
{
    let dir = summaries_dir(cfg, folder_name, concluded, category);
    let mut name = "「Resumen general」 ".to_owned();
    let kind = sane(cat_folder(category));
    name.append(kind.as_str());
    name.append(".md");
    join_path(dir.as_str(), name.as_str())
}

/// What the file of a general summary holds.
pub open spec fn general_document(
    category: Seq<char>,
    course_name: Seq<char>,
    summary: Seq<char>,
) -> Seq<char> {
    "# Resumen general · "@ + categories::folder_of_category(category) + "\n\n> Ramo: "@
        + course_name + " · Sección: "@ + category + "\n\n"@ + summary
}

/// What the file of a general summary holds: a heading, then the summary.
pub fn general_file_text(category: &str, course_name: &str, summary: &str) -> (r: String)
    ensures
        r@ == general_document(category@, course_name@, summary@),
{
    let mut s = "# Resumen general · ".to_owned();
    s.append(cat_folder(category));
    s.append("\n\n> Ramo: ");
    s.append(course_name);
    s.append(" · Sección: ");
    s.append(category);
    s.append("\n\n");
    s.append(summary);
    s
}

/// A file to be written.
pub struct FileToWrite {
    pub path: String,
    pub text: String,
}

/// What a file to be written is.
#[verifier::ext_equal]
pub struct FileToWriteView {
    pub path: Seq<char>,
    pub text: Seq<char>,
}

impl View for FileToWrite {
    type V = FileToWriteView;

    open spec fn view(&self) -> FileToWriteView {
        FileToWriteView { path: self.path@, text: self.text@ }
    }
}

// ---------------------------------------------------------------------------
// Everything stays below the course's folder
// ---------------------------------------------------------------------------

/// None of the names leads up once it is made sane.
pub open spec fn none_leads_up(names: Seq<Seq<char>>) -> bool {
    forall|i: int| 0 <= i < names.len() ==> paths::sane_name(#[trigger] names[i]) != ".."@
}

/// Walking along segments none of which leads up stays below the folder that the
/// walk starts from.
pub proof fn lemma_walk_stays_below(base: Seq<char>, segs: Seq<Seq<char>>)
    requires
        none_leads_up(segs),
    ensures
        paths::lies_below(base, walk(base, segs)),
    decreases segs.len(),
{
    if segs.len() > 0 {
        let rest = segs.drop_last();
        assert(forall|i: int| 0 <= i < rest.len() ==> #[trigger] rest[i] == segs[i]);
        lemma_walk_stays_below(base, rest);
        if segs.last().len() > 0 {
            assert(segs.last() == segs[segs.len() - 1]);
            paths::lemma_sane_leads_down(segs.last());
            paths::lemma_below_further(base, walk(base, rest), paths::sane_name(segs.last()));
        }
    } else {
        paths::lemma_below_itself(base);
    }
}

/// Whatever Canvas calls a course, its folders or its files, as long as no name is
/// `..`: the file lies below the course's folder, and that below the download
/// folder.
pub proof fn lemma_file_stays_below(
    download_dir: Seq<char>,
    file: CanvasFileView,
    label: Seq<char>,
    past: bool,
)
    requires
        paths::sane_name(label) != ".."@,
        none_leads_up(text::split(inner_folder(file.folder), "/"@)),
        paths::sane_name(file.filename) != ".."@,
    ensures
        paths::lies_below(download_dir, course_place(download_dir, label, past)),
        paths::lies_below(
            course_place(download_dir, label, past),
            file_place(download_dir, file, label, past),
        ),
{
    reveal_strlit("Cursos pasados");
    reveal_strlit("..");
    let base = if past {
        paths::path_push(download_dir, PAST_FOLDER@)
    } else {
        download_dir
    };
    paths::lemma_below_itself(download_dir);
    if past {
        paths::lemma_below_further(download_dir, download_dir, PAST_FOLDER@);
    }
    paths::lemma_sane_leads_down(label);
    paths::lemma_below_further(download_dir, base, paths::sane_name(label));
    let course = course_place(download_dir, label, past);
    let segs = text::split(inner_folder(file.folder), "/"@);
    lemma_walk_stays_below(course, segs);
    paths::lemma_sane_leads_down(file.filename);
    paths::lemma_below_further(course, walk(course, segs), paths::sane_name(file.filename));
}

/// No folder of a category has a dot in its name.
proof fn lemma_folder_without_dot(category: Seq<char>)
    ensures
        !categories::folder_of_category(category).contains('.'),
{
    reveal_strlit("Ayudantías resueltas");
    reveal_strlit("Laboratorios");
    reveal_strlit("Guías resueltas");
    reveal_strlit("Pruebas y controles");
    reveal_strlit("Clases");
    reveal_strlit("Cápsulas");
    reveal_strlit("Lecturas");
    reveal_strlit("Tareas");
    reveal_strlit("Otros");
}

/// Summaries, those of files and the general ones, lie below the course's folder,
/// whatever the file is called.
pub proof fn lemma_summary_stays_below(
    download_dir: Seq<char>,
    file: CanvasFileView,
    label: Seq<char>,
    past: bool,
)
    ensures
        paths::lies_below(
            course_place(download_dir, label, past),
            summary_place(download_dir, file, label, past),
        ),
        paths::lies_below(
            course_place(download_dir, label, past),
            general_place(download_dir, label, past, file.category),
        ),
{
    reveal_strlit("_Resúmenes");
    reveal_strlit(" — resumen.md");
    reveal_strlit("「Resumen general」 ");
    reveal_strlit(".md");
    reveal_strlit("..");
    let course = course_place(download_dir, label, past);
    let all = paths::path_push(course, SUMMARY_FOLDER@);
    let folder = categories::folder_of_category(file.category);
    paths::lemma_below_itself(course);
    paths::lemma_below_further(course, course, SUMMARY_FOLDER@);
    lemma_folder_without_dot(file.category);
    paths::lemma_no_dot_leads_down(folder);
    paths::lemma_below_further(course, all, paths::sane_name(folder));
    let dir = summaries_place(download_dir, label, past, file.category);
    let stem = paths::sane_name(bare_name(file.filename));
    paths::lemma_sane(bare_name(file.filename));
    let name = stem + " — resumen.md"@;
    assert(paths::leads_down(name)) by {
        assert(name.len() > 2);
        assert forall|i: int| 0 <= i < name.len() implies name[i] != '/' by {
            if i < stem.len() {
                assert(!paths::forbidden(stem[i]));
            }
        }
    }
    paths::lemma_below_further(course, dir, name);
    let general = "「Resumen general」 "@ + paths::sane_name(folder) + ".md"@;
    assert(paths::leads_down(general)) by {
        assert(general.len() > 2);
        assert forall|i: int| 0 <= i < general.len() implies general[i] != '/' by {
            let k = "「Resumen general」 "@.len();
            if k <= i < k + paths::sane_name(folder).len() {
                assert(general[i] == paths::sane_name(folder)[i - k]);
            }
        }
    }
    paths::lemma_below_further(course, dir, general);
}

// ---------------------------------------------------------------------------
// What a place says
// ---------------------------------------------------------------------------

/// The folder of a course is named after it and lies in the download folder; that of
/// a past course lies in `Cursos pasados` there.
pub proof fn lemma_course_folder(download_dir: Seq<char>, label: Seq<char>)
    ensures
        course_place(download_dir, label, false) == paths::path_push(
            download_dir,
            paths::sane_name(label),
        ),
        course_place(download_dir, label, true) == course_place(
            paths::path_push(download_dir, "Cursos pasados"@),
            label,
            false,
        ),
{
}

/// A file lies in its course's folder, one folder deeper for each part of its folder
/// on Canvas that has a name, and under its own name.
pub proof fn lemma_file_folder(
    download_dir: Seq<char>,
    file: CanvasFileView,
    label: Seq<char>,
    past: bool,
    base: Seq<char>,
    segs: Seq<Seq<char>>,
    seg: Seq<char>,
)
    ensures
        walk(base, seq![]) == base,
        seg.len() > 0 ==> walk(base, segs.push(seg)) == paths::path_push(
            walk(base, segs),
            paths::sane_name(seg),
        ),
        seg.len() == 0 ==> walk(base, segs.push(seg)) == walk(base, segs),
        file_place(download_dir, file, label, past) == paths::path_push(
            walk(
                course_place(download_dir, label, past),
                text::split(inner_folder(file.folder), "/"@),
            ),
            paths::sane_name(file.filename),
        ),
        inner_folder(file.folder).len() == 0 ==> file_place(download_dir, file, label, past)
            == paths::path_push(
            course_place(download_dir, label, past),
            paths::sane_name(file.filename),
        ),
{
    assert(segs.push(seg).drop_last() =~= segs);
    let inner = inner_folder(file.folder);
    let course = course_place(download_dir, label, past);
    if inner.len() == 0 {
        reveal_strlit("/");
        let parts = text::split(inner, "/"@);
        assert(text::find(inner, "/"@) is None);
        assert(parts =~= seq![inner]);
        assert(parts.last() == inner);
        assert(parts.drop_last().len() == 0);
        reveal_with_fuel(walk, 2);
        assert(walk(course, parts) == course);
    }
}

/// Canvas's own name for the top of a course is no folder.
pub proof fn lemma_top_is_no_folder(rest: Seq<char>)
    requires
        !"course files"@.is_prefix_of(rest),
        !"/"@.is_prefix_of(rest),
    ensures
        inner_folder("course files/"@ + rest) == rest,
        inner_folder("course files"@) == Seq::<char>::empty(),
        inner_folder(rest) == rest,
{
    reveal_strlit("course files");
    reveal_strlit("course files/");
    reveal_strlit("/");
    reveal_with_fuel(text::without_prefixes, 3);
    let top = "course files"@;
    let all = "course files/"@ + rest;
    assert(all.take(12) =~= top);
    assert(top.is_prefix_of(all));
    let one = all.skip(12);
    assert(one =~= seq!['/'] + rest);
    assert(one[0] == '/');
    assert(!top.is_prefix_of(one)) by {
        assert(top[0] == 'c');
    }
    assert(one.take(1) =~= "/"@);
    assert("/"@.is_prefix_of(one));
    assert(one.skip(1) =~= rest);
    assert(top.take(12) =~= top);
    assert(top.skip(12) =~= Seq::<char>::empty());
    assert(!top.is_prefix_of(Seq::<char>::empty()));
    assert(!"/"@.is_prefix_of(Seq::<char>::empty()));
}

/// A summary lies in its course's folder `_Resúmenes`, in the folder of its kind,
/// under the name of the file without its extension; the general one of a kind lies
/// beside them.
pub proof fn lemma_summary_folder(
    download_dir: Seq<char>,
    file: CanvasFileView,
    label: Seq<char>,
    past: bool,
    category: Seq<char>,
)
    ensures
        ({
            let course = course_place(download_dir, label, past);
            let top = paths::path_push(course, "_Resúmenes"@);
            let kind = paths::sane_name(categories::folder_of_category(file.category));
            let general = paths::sane_name(categories::folder_of_category(category));
            &&& paths::stem_in_path(file.filename) matches Some(stem) ==> summary_place(
                download_dir,
                file,
                label,
                past,
            ) == paths::path_push(
                paths::path_push(top, kind),
                paths::sane_name(stem) + " — resumen.md"@,
            )
            &&& paths::stem_in_path(file.filename) is None ==> summary_place(
                download_dir,
                file,
                label,
                past,
            ) == paths::path_push(
                paths::path_push(top, kind),
                paths::sane_name(file.filename) + " — resumen.md"@,
            )
            &&& general_place(download_dir, label, past, category) == paths::path_push(
                paths::path_push(top, general),
                "「Resumen general」 "@ + general + ".md"@,
            )
        }),
{
}

/// A file with a summary names the document, its course and its kind, and ends with
/// the summary itself, whole.
#[verifier::rlimit(40)]
pub proof fn lemma_document_holds_summary(
    file: CanvasFileView,
    category: Seq<char>,
    course_name: Seq<char>,
    summary: Seq<char>,
)
    ensures
        ({
            let single = summary_document(file, summary);
            let general = general_document(category, course_name, summary);
            &&& single.skip(single.len() - summary.len()) == summary
            &&& ("# "@ + file.filename + "\n"@).is_prefix_of(single)
            &&& text::contains(single, "Ramo: "@ + file.course_name + " · Tipo: "@ + file.category)
            &&& general.skip(general.len() - summary.len()) == summary
            &&& text::contains(general, "Ramo: "@ + course_name + " · Sección: "@ + category)
            &&& text::contains(general, categories::folder_of_category(category))
        }),
{
    reveal_strlit("# ");
    reveal_strlit("\n");
    reveal_strlit("\n\n");
    reveal_strlit("\n\n> Ramo: ");
    reveal_strlit("Ramo: ");
    let single = summary_document(file, summary);
    let general = general_document(category, course_name, summary);
    assert(single.skip(single.len() - summary.len()) =~= summary);
    assert(general.skip(general.len() - summary.len()) =~= summary);
    let head = "# "@ + file.filename + "\n"@;
    assert(single.take(head.len() as int) =~= head);
    let a = "# "@ + file.filename + "\n\n> "@;
    let mid = "Ramo: "@ + file.course_name + " · Tipo: "@ + file.category;
    reveal_strlit("\n\n> ");
    assert(single =~= a + mid + ("\n\n"@ + summary));
    text::lemma_contains_part(a, mid, "\n\n"@ + summary);
    let b = "# Resumen general · "@ + categories::folder_of_category(category) + "\n\n> "@;
    let part = "Ramo: "@ + course_name + " · Sección: "@ + category;
    assert(general =~= b + part + ("\n\n"@ + summary));
    text::lemma_contains_part(b, part, "\n\n"@ + summary);
    let kind = categories::folder_of_category(category);
    let rest = "\n\n> Ramo: "@ + course_name + " · Sección: "@ + category + "\n\n"@ + summary;
    assert(general =~= "# Resumen general · "@ + kind + rest);
    text::lemma_contains_part("# Resumen general · "@, kind, rest);
}

/// What is seen of a file to write is what it holds, each thing as itself.
pub proof fn lemma_file_to_write_seen(x: FileToWrite)
    ensures
        x@.path == x.path@,
        x@.text == x.text@,
{
}

} // verus!
