//! The records of a course on Canvas: assignments, announcements and files.

use vstd::prelude::*;
use vstd::string::*;
use std::collections::HashMap;
use crate::canvas::{api_base, id_of};
use crate::canvas;
use crate::config::AppConfig;
use crate::html::strip_html;
use crate::html;
use crate::json::{Json, JsonView};
use crate::labels;
use crate::store::{
    Announcement, AnnouncementView, Assignment, AssignmentView, CanvasFile, CanvasFileView, Course,
    CourseView,
};
use crate::text;

verus! {

/// The records that a fetch brought; none where it failed.
pub open spec fn records_of(r: Result<Vec<Json>, String>) -> Seq<JsonView> {
    match r {
        Ok(v) => text::views(v@),
        Err(_) => seq![],
    }
}

/// The address of a list below a course.
pub open spec fn course_url(canvas_url: Seq<char>, course_id: u64, tail: Seq<char>) -> Seq<char> {
    canvas::api_root(canvas_url) + "/courses/"@ + text::decimal(course_id as nat) + tail
}

/// The address of a list below a course.
fn url_below_course(cfg: &AppConfig, course_id: u64, tail: &str) -> (r: String)
    ensures
        r@ == course_url(cfg@.canvas_url, course_id, tail@),
{
    let mut s = api_base(cfg);
    s.append("/courses/");
    s.append(text::number(course_id).as_str());
    s.append(tail);
    s
}

// ---------------------------------------------------------------------------
// Assignments
// ---------------------------------------------------------------------------

/// The address of the assignments of a course.
pub fn assignments_url(cfg: &AppConfig, course: &Course) -> (r: String)
    ensures
        r@ == course_url(
            cfg@.canvas_url,
            course@.id,
            "/assignments?per_page=100&include[]=submission"@,
        ),
{
    url_below_course(cfg, course.id, "/assignments?per_page=100&include[]=submission")
}

/// The state of the submission of an assignment.
pub open spec fn submission_state(a: JsonView) -> Seq<char> {
    match a.get("submission"@) {
        Some(sub) => match sub.get_str("workflow_state"@) {
            Some(s) => s,
            None => "unsubmitted"@,
        },
        None => "unsubmitted"@,
    }
}

/// Whether an assignment was handed in: it has a time of submission, or its
/// state says so.
pub open spec fn handed_in(a: JsonView) -> bool {
    let timed = match a.get("submission"@) {
        Some(sub) => match sub.get("submitted_at"@) {
            Some(t) => t !is Null,
            None => false,
        },
        None => false,
    };
    timed || submission_state(a) == "submitted"@ || submission_state(a) == "graded"@
}

/// The assignment that a record of Canvas is.
pub open spec fn assignment_of(a: JsonView, course: CourseView) -> AssignmentView {
    AssignmentView {
        id: canvas::number_of(a),
        course_id: course.id,
        course_name: course.name,
        name: a.text_of("name"@),
        due_at: a.get_str("due_at"@),
        points: match a.get("points_possible"@) {
            Some(p) => p.as_bits(),
            None => None,
        },
        html_url: a.text_of("html_url"@),
        submitted: handed_in(a),
        state: submission_state(a),
        user_status: seq![],
    }
}

/// The assignment that a record of Canvas is.
pub fn assignment_from_json(a: &Json, course: &Course) -> (r: Assignment)
    ensures
        r@ == assignment_of(a@, course@),
{
    let submission = a.get("submission");
    let mut state = "unsubmitted".to_owned();
    let mut timed = false;
    match submission {
        Some(sub) => {
            match sub.get_str("workflow_state") {
                Some(s) => {
                    state = s.to_owned();
                },
                None => {},
            }
            match sub.get("submitted_at") {
                Some(t) => {
                    timed = !t.is_null();
                },
                None => {},
            }
        },
        None => {},
    }
    let submitted = timed || text::same(state.as_str(), "submitted") || text::same(
        state.as_str(),
        "graded",
    );
    let due_at = match a.get_str("due_at") {
        Some(s) => Some(s.to_owned()),
        None => None,
    };
    let points = match a.get("points_possible") {
        Some(p) => p.as_bits(),
        None => None,
    };
    let user_status = String::new();
    assert(user_status@ =~= seq![]);
    Assignment {
        id: id_of(a),
        course_id: course.id,
        course_name: course.name.clone(),
        name: a.text_of("name"),
        due_at,
        points,
        html_url: a.text_of("html_url"),
        submitted,
        state,
        user_status,
    }
}

/// The assignments of a course, from the reply to a request for them.
pub fn fetch_assignments(raw: &Result<Vec<Json>, String>, course: &Course) -> (r: Vec<Assignment>)
    ensures
        text::views(r@) == records_of(*raw).map_values(|a: JsonView| assignment_of(a, course@)),
{
    let mut out: Vec<Assignment> = Vec::new();
    match raw {
        Ok(list) => {
            let ghost all = text::views(list@).map_values(
                |a: JsonView| assignment_of(a, course@),
            );
            let mut i: usize = 0;
            assert(text::views(out@) =~= all.take(0));
            while i < list.len()
                invariant
                    i <= list@.len(),
                    all == text::views(list@).map_values(|a: JsonView| assignment_of(a, course@)),
                    text::views(out@) == all.take(i as int),
                decreases list.len() - i,
            {
                let a = assignment_from_json(&list[i], course);
                proof {
                    assert(a@ == all[i as int]);
                    text::lemma_views_push(out@, a);
                    assert(all.take(i + 1) =~= all.take(i as int).push(a@));
                }
                out.push(a);
                i += 1;
            }
            assert(all.take(all.len() as int) =~= all);
        },
        Err(_) => {
            assert(text::views(out@) =~= records_of(*raw).map_values(
                |a: JsonView| assignment_of(a, course@),
            ));
        },
    }
    out
}

// ---------------------------------------------------------------------------
// Announcements
// ---------------------------------------------------------------------------

/// The address of the announcements of a course.
pub fn announcements_url(cfg: &AppConfig, course: &Course) -> (r: String)
    ensures
        r@ == course_url(
            cfg@.canvas_url,
            course@.id,
            "/discussion_topics?only_announcements=true&per_page=50"@,
        ),
{
    url_below_course(cfg, course.id, "/discussion_topics?only_announcements=true&per_page=50")
}

/// The announcement that a record of Canvas is; none where it has no number.
pub open spec fn announcement_of(a: JsonView, course: CourseView) -> Option<AnnouncementView> {
    if canvas::number_of(a) == 0 {
        None
    } else {
        Some(
            AnnouncementView {
                id: canvas::number_of(a),
                course_id: course.id,
                course_name: course.name,
                title: a.text_of("title"@),
                message: html::announcement_text(a.text_of("message"@)),
                posted_at: a.text_of("posted_at"@),
                dates_done: false,
            },
        )
    }
}

/// The announcements of the first `n` records.
pub open spec fn announcements_upto(
    raw: Seq<JsonView>,
    course: CourseView,
    n: int,
) -> Seq<AnnouncementView>
    decreases n,
{
    if n <= 0 {
        seq![]
    } else {
        match announcement_of(raw[n - 1], course) {
            Some(a) => announcements_upto(raw, course, n - 1).push(a),
            None => announcements_upto(raw, course, n - 1),
        }
    }
}

/// The announcements of a course, from the reply to a request for them.
pub fn fetch_announcements(raw: &Result<Vec<Json>, String>, course: &Course) -> (r: Vec<
    Announcement,
>)
    ensures
        text::views(r@) == announcements_upto(
            records_of(*raw),
            course@,
            records_of(*raw).len() as int,
        ),
{
    let mut out: Vec<Announcement> = Vec::new();
    assert(text::views(out@) =~= seq![]);
    match raw {
        Ok(list) => {
            let ghost all = text::views(list@);
            let mut i: usize = 0;
            while i < list.len()
                invariant
                    i <= list@.len(),
                    all == text::views(list@),
                    text::views(out@) == announcements_upto(all, course@, i as int),
                decreases list.len() - i,
            {
                let a = &list[i];
                assert(all[i as int] == a@);
                let id = id_of(a);
                if id != 0 {
                    let message = a.text_of("message");
                    let an = Announcement {
                        id,
                        course_id: course.id,
                        course_name: course.name.clone(),
                        title: a.text_of("title"),
                        message: strip_html(message.as_str()),
                        posted_at: a.text_of("posted_at"),
                        dates_done: false,
                    };
                    proof {
                        assert(Some(an@) == announcement_of(a@, course@));
                        text::lemma_views_push(out@, an);
                    }
                    out.push(an);
                }
                i += 1;
            }
        },
        Err(_) => {},
    }
    out
}

// ---------------------------------------------------------------------------
// Files
// ---------------------------------------------------------------------------

/// The address of the folders of a course.
pub fn folders_url(cfg: &AppConfig, course: &Course) -> (r: String)
    ensures
        r@ == course_url(cfg@.canvas_url, course@.id, "/folders?per_page=100"@),
{
    url_below_course(cfg, course.id, "/folders?per_page=100")
}

/// The address of the files of a course.
pub fn files_url(cfg: &AppConfig, course: &Course) -> (r: String)
    ensures
        r@ == course_url(cfg@.canvas_url, course@.id, "/files?per_page=100"@),
{
    url_below_course(cfg, course.id, "/files?per_page=100")
}

/// The address of the modules of a course.
pub fn modules_url(cfg: &AppConfig, course: &Course) -> (r: String)
    ensures
        r@ == course_url(cfg@.canvas_url, course@.id, "/modules?include[]=items&per_page=100"@),
{
    url_below_course(cfg, course.id, "/modules?include[]=items&per_page=100")
}

/// The paths of the folders among the first `n` records, by their numbers.
pub open spec fn folders_upto(raw: Seq<JsonView>, n: int) -> Map<u64, Seq<char>>
    decreases n,
{
    if n <= 0 {
        Map::empty()
    } else {
        match raw[n - 1].get_u64("id"@) {
            Some(id) => folders_upto(raw, n - 1).insert(id, raw[n - 1].text_of("full_name"@)),
            None => folders_upto(raw, n - 1),
        }
    }
}

/// The paths of the folders of a course by their numbers, from the reply to a
/// request for them.
pub fn folder_map(raw: &Result<Vec<Json>, String>) -> (r: HashMap<u64, String>)
    ensures
        labels::text_map(r@) == folders_upto(records_of(*raw), records_of(*raw).len() as int),
{
    broadcast use vstd::std_specs::hash::group_hash_axioms;

    let mut out: HashMap<u64, String> = HashMap::new();
    assert(labels::text_map(out@) =~= Map::empty());
    match raw {
        Ok(list) => {
            let ghost all = text::views(list@);
            let mut i: usize = 0;
            while i < list.len()
                invariant
                    i <= list@.len(),
                    all == text::views(list@),
                    labels::text_map(out@) == folders_upto(all, i as int),
                decreases list.len() - i,
            {
                broadcast use vstd::std_specs::hash::group_hash_axioms;

                assert(all[i as int] == list@[i as int]@);
                match list[i].get_u64("id") {
                    Some(id) => {
                        let name = list[i].text_of("full_name");
                        let ghost prev = out@;
                        out.insert(id, name);
                        assert(labels::text_map(out@) =~= labels::text_map(prev).insert(id, name@));
                    },
                    None => {},
                }
                i += 1;
            }
        },
        Err(_) => {},
    }
    out
}

/// The first of two texts under these names that is not empty.
pub open spec fn either_text(v: JsonView, first: Seq<char>, second: Seq<char>) -> Seq<char> {
    if v.text_of(first).len() == 0 {
        v.text_of(second)
    } else {
        v.text_of(first)
    }
}

/// The first of two texts under these names that is not empty.
fn either(v: &Json, first: &str, second: &str) -> (r: String)
    ensures
        r@ == either_text(v@, first@, second@),
{
    let s = v.text_of(first);
    if s.as_str().is_empty() {
        v.text_of(second)
    } else {
        s
    }
}

/// The path of the folder that a record of a file names.
pub open spec fn folder_of(f: JsonView, folders: Map<u64, Seq<char>>) -> Seq<char> {
    match f.get_u64("folder_id"@) {
        Some(id) => if folders.contains_key(id) {
            folders[id]
        } else {
            seq![]
        },
        None => seq![],
    }
}

/// The file that a record of Canvas is, with no work done on it; none where it
/// has no number or no name.
pub open spec fn file_of(
    f: JsonView,
    course: CourseView,
    folders: Map<u64, Seq<char>>,
) -> Option<CanvasFileView> {
    let filename = either_text(f, "display_name"@, "filename"@);
    match f.get_u64("id"@) {
        Some(id) => if filename.len() == 0 {
            None
        } else {
            Some(
                CanvasFileView {
                    id,
                    course_id: course.id,
                    course_name: course.name,
                    folder: folder_of(f, folders),
                    filename,
                    url: f.text_of("url"@),
                    size: match f.get_u64("size"@) {
                        Some(n) => n,
                        None => 0,
                    },
                    content_type: either_text(f, "content-type"@, "content_type"@),
                    local_path: seq![],
                    category: seq![],
                    content_done: false,
                    category_manual: false,
                    summary: seq![],
                    embedding: seq![],
                    summary_pdf: seq![],
                },
            )
        },
        None => None,
    }
}

/// The file that a record of Canvas is.
pub fn file_from_json(f: &Json, course: &Course, folders: &HashMap<u64, String>) -> (r: Option<
    CanvasFile,
>)
    ensures
        text::opt_view(r) == file_of(f@, course@, labels::text_map(folders@)),
{
    broadcast use vstd::std_specs::hash::group_hash_axioms;

    let id = match f.get_u64("id") {
        Some(id) => id,
        None => {
            return None;
        },
    };
    let filename = either(f, "display_name", "filename");
    if filename.as_str().is_empty() {
        return None;
    }
    let empty = String::new();
    assert(empty@ =~= seq![]);
    let folder = match f.get_u64("folder_id") {
        Some(fid) => match folders.get(&fid) {
            Some(s) => {
                assert(labels::text_map(folders@)[fid] == s@);
                s.clone()
            },
            None => empty.clone(),
        },
        None => empty.clone(),
    };
    let size = match f.get_u64("size") {
        Some(n) => n,
        None => 0,
    };
    let embedding: Vec<u32> = Vec::new();
    assert(embedding@ =~= seq![]);
    Some(
        CanvasFile {
            id,
            course_id: course.id,
            course_name: course.name.clone(),
            folder,
            filename,
            url: f.text_of("url"),
            size,
            content_type: either(f, "content-type", "content_type"),
            local_path: empty.clone(),
            category: empty.clone(),
            content_done: false,
            category_manual: false,
            summary: empty.clone(),
            embedding,
            summary_pdf: empty,
        },
    )
}

/// The files among the first `n` records.
pub open spec fn files_upto(
    raw: Seq<JsonView>,
    course: CourseView,
    folders: Map<u64, Seq<char>>,
    n: int,
) -> Seq<CanvasFileView>
    decreases n,
{
    if n <= 0 {
        seq![]
    } else {
        match file_of(raw[n - 1], course, folders) {
            Some(f) => files_upto(raw, course, folders, n - 1).push(f),
            None => files_upto(raw, course, folders, n - 1),
        }
    }
}

/// The files of a course, from the reply to a request for them. None where the
/// request failed or brought nothing: the modules of the course are then to be
/// searched for files.
pub fn fetch_files(
    raw: &Result<Vec<Json>, String>,
    course: &Course,
    folders: &HashMap<u64, String>,
) -> (r: Option<Vec<CanvasFile>>)
    ensures
        r is Some == (records_of(*raw).len() > 0),
        r is Some ==> text::views(r->0@) == files_upto(
            records_of(*raw),
            course@,
            labels::text_map(folders@),
            records_of(*raw).len() as int,
        ),
{
    match raw {
        Ok(list) => {
            if list.len() == 0 {
                return None;
            }
            let mut out: Vec<CanvasFile> = Vec::new();
            let ghost all = text::views(list@);
            let ghost fs = labels::text_map(folders@);
            let mut i: usize = 0;
            assert(text::views(out@) =~= seq![]);
            while i < list.len()
                invariant
                    i <= list@.len(),
                    all == text::views(list@),
                    fs == labels::text_map(folders@),
                    text::views(out@) == files_upto(all, course@, fs, i as int),
                decreases list.len() - i,
            {
                assert(all[i as int] == list@[i as int]@);
                match file_from_json(&list[i], course, folders) {
                    Some(f) => {
                        proof {
                            text::lemma_views_push(out@, f);
                        }
                        out.push(f);
                    },
                    None => {},
                }
                i += 1;
            }
            Some(out)
        },
        Err(_) => None,
    }
}

/// Whether an item of a module is a file with an address.
pub open spec fn leads_to_file(item: JsonView) -> bool {
    item.text_of("type"@) == "File"@ && item.text_of("url"@).len() > 0
}

/// The addresses of the files among the first `n` items of a module.
pub open spec fn item_urls(items: Seq<JsonView>, n: int) -> Seq<Seq<char>>
    decreases n,
{
    if n <= 0 {
        seq![]
    } else if leads_to_file(items[n - 1]) {
        item_urls(items, n - 1).push(items[n - 1].text_of("url"@))
    } else {
        item_urls(items, n - 1)
    }
}

/// The addresses of the files in a module.
pub open spec fn one_module_urls(m: JsonView) -> Seq<Seq<char>> {
    match m.get("items"@) {
        Some(v) => match v.as_array() {
            Some(items) => item_urls(items, items.len() as int),
            None => seq![],
        },
        None => seq![],
    }
}

/// The addresses of the files in the first `n` modules.
pub open spec fn module_urls(modules: Seq<JsonView>, n: int) -> Seq<Seq<char>>
    decreases n,
{
    if n <= 0 {
        seq![]
    } else {
        module_urls(modules, n - 1) + one_module_urls(modules[n - 1])
    }
}

/// Puts the addresses of the files of a module behind the others.
fn push_module_urls(out: &mut Vec<String>, m: &Json)
    ensures
        text::views(final(out)@) == text::views(old(out)@) + one_module_urls(m@),
{
    let ghost before = text::views(out@);
    match m.get("items") {
        Some(v) => match v.as_array() {
            Some(items) => {
                let ghost all = text::views(items@);
                let mut i: usize = 0;
                assert(text::views(out@) =~= before + item_urls(all, 0));
                while i < items.len()
                    invariant
                        i <= items@.len(),
                        all == text::views(items@),
                        text::views(out@) == before + item_urls(all, i as int),
                    decreases items.len() - i,
                {
                    let it = &items[i];
                    assert(all[i as int] == it@);
                    let kind = it.text_of("type");
                    let url = it.text_of("url");
                    if text::same(kind.as_str(), "File") && !url.as_str().is_empty() {
                        proof {
                            text::lemma_views_push(out@, url);
                            assert(before + item_urls(all, i + 1) =~= (before + item_urls(
                                all,
                                i as int,
                            )).push(url@));
                        }
                        out.push(url);
                    }
                    i += 1;
                }
            },
            None => {
                assert(text::views(out@) =~= before + seq![]);
            },
        },
        None => {
            assert(text::views(out@) =~= before + seq![]);
        },
    }
}

/// The addresses of the files in the modules of a course, from the reply to a
/// request for them.
pub fn module_file_urls(raw: &Result<Vec<Json>, String>) -> (r: Vec<String>)
    ensures
        text::views(r@) == module_urls(records_of(*raw), records_of(*raw).len() as int),
{
    let mut out: Vec<String> = Vec::new();
    assert(text::views(out@) =~= seq![]);
    match raw {
        Ok(list) => {
            let ghost all = text::views(list@);
            let mut i: usize = 0;
            while i < list.len()
                invariant
                    i <= list@.len(),
                    all == text::views(list@),
                    text::views(out@) == module_urls(all, i as int),
                decreases list.len() - i,
            {
                assert(all[i as int] == list@[i as int]@);
                push_module_urls(&mut out, &list[i]);
                i += 1;
            }
        },
        Err(_) => {},
    }
    out
}

/// The files found through the modules of a course, from the replies to the
/// requests for them; a request that brought nothing is passed over.
pub fn fetch_files_via_modules(
    replies: &Vec<Option<Json>>,
    course: &Course,
    folders: &HashMap<u64, String>,
) -> (r: Vec<CanvasFile>)
    ensures
        text::views(r@) == replied_files(
            replies@,
            course@,
            labels::text_map(folders@),
            replies@.len() as int,
        ),
{
    let mut out: Vec<CanvasFile> = Vec::new();
    let ghost fs = labels::text_map(folders@);
    let mut i: usize = 0;
    assert(text::views(out@) =~= seq![]);
    while i < replies.len()
        invariant
            i <= replies@.len(),
            fs == labels::text_map(folders@),
            text::views(out@) == replied_files(replies@, course@, fs, i as int),
        decreases replies.len() - i,
    {
        match &replies[i] {
            Some(j) => match file_from_json(j, course, folders) {
                Some(f) => {
                    proof {
                        text::lemma_views_push(out@, f);
                    }
                    out.push(f);
                },
                None => {},
            },
            None => {},
        }
        i += 1;
    }
    out
}

/// The files among the first `n` replies.
pub open spec fn replied_files(
    replies: Seq<Option<Json>>,
    course: CourseView,
    folders: Map<u64, Seq<char>>,
    n: int,
) -> Seq<CanvasFileView>
    decreases n,
{
    if n <= 0 {
        seq![]
    } else {
        let before = replied_files(replies, course, folders, n - 1);
        match replies[n - 1] {
            Some(j) => match file_of(j@, course, folders) {
                Some(f) => before.push(f),
                None => before,
            },
            None => before,
        }
    }
}

// ---------------------------------------------------------------------------
// What the records say
// ---------------------------------------------------------------------------

/// An assignment says what Canvas says of it, in the course that was asked for: its
/// number, name, deadline, points and page, and the state of its submission. It is
/// handed in where Canvas knows a time of submission or calls it submitted or graded,
/// and not otherwise; the user has said nothing of it yet.
pub proof fn lemma_assignment_says(a: JsonView, course: CourseView)
    ensures
        ({
            let r = assignment_of(a, course);
            &&& a.get_u64("id"@) matches Some(n) ==> r.id == n
            &&& r.course_id == course.id
            &&& r.course_name == course.name
            &&& a.get_str("name"@) matches Some(s) ==> r.name == s
            &&& a.get_str("due_at"@) == r.due_at
            &&& a.get("points_possible"@) matches Some(p) ==> r.points == p.as_bits()
            &&& a.get("points_possible"@) is None ==> r.points is None
            &&& a.get_str("html_url"@) matches Some(s) ==> r.html_url == s
            &&& r.user_status.len() == 0
            &&& a.get("submission"@) is None ==> r.state == "unsubmitted"@ && !r.submitted
        }),
        ({
            let r = assignment_of(a, course);
            a.get("submission"@) matches Some(sub) ==> {
                &&& sub.get_str("workflow_state"@) matches Some(s) ==> r.state == s
                &&& sub.get_str("workflow_state"@) is None ==> r.state == "unsubmitted"@
                &&& sub.get("submitted_at"@) matches Some(t) ==> (!(t is Null) ==> r.submitted)
                &&& sub.get_str("workflow_state"@) == Some("submitted"@) ==> r.submitted
                &&& sub.get_str("workflow_state"@) == Some("graded"@) ==> r.submitted
                &&& (sub.get("submitted_at"@) is None || sub.get("submitted_at"@) == Some(
                    JsonView::Null,
                )) && sub.get_str("workflow_state"@) != Some("submitted"@) && sub.get_str(
                    "workflow_state"@,
                ) != Some("graded"@) ==> !r.submitted
            }
        }),
{
    reveal_strlit("unsubmitted");
    reveal_strlit("submitted");
    reveal_strlit("graded");
    assert("unsubmitted"@.len() == 11 && "submitted"@.len() == 9 && "graded"@.len() == 6);
}

/// An announcement with a number says what Canvas says of it, in the course that was
/// asked for, and its dates are still to be looked for; one without is left out.
pub proof fn lemma_announcement_says(a: JsonView, course: CourseView)
    ensures
        announcement_of(a, course) is Some <==> (a.get_u64("id"@) matches Some(n) && n != 0),
        announcement_of(a, course) matches Some(r) ==> {
            &&& a.get_u64("id"@) == Some(r.id)
            &&& r.course_id == course.id
            &&& r.course_name == course.name
            &&& a.get_str("title"@) matches Some(s) ==> r.title == s
            &&& a.get_str("posted_at"@) matches Some(s) ==> r.posted_at == s
            &&& a.get_str("message"@) matches Some(s) ==> r.message == html::announcement_text(s)
            &&& !r.dates_done
        },
{
}

/// A file with a number and a name says what Canvas says of it, in the course that was
/// asked for: under its display name where it has one, in the folder that Canvas puts
/// it in; nothing has been done with it yet. One without number or name is left out.
pub proof fn lemma_file_says(f: JsonView, course: CourseView, folders: Map<u64, Seq<char>>)
    ensures
        file_of(f, course, folders) is Some <==> f.get_u64("id"@) is Some && (f.text_of(
            "display_name"@,
        ).len() > 0 || f.text_of("filename"@).len() > 0),
        file_of(f, course, folders) matches Some(r) ==> {
            &&& f.get_u64("id"@) == Some(r.id)
            &&& r.course_id == course.id
            &&& r.course_name == course.name
            &&& f.get_str("display_name"@) matches Some(s) ==> (s.len() > 0 ==> r.filename == s)
            &&& f.get_str("display_name"@) is None ==> r.filename == f.text_of("filename"@)
            &&& f.get_str("url"@) matches Some(s) ==> r.url == s
            &&& f.get_u64("size"@) matches Some(n) ==> r.size == n
            &&& f.get_u64("size"@) is None ==> r.size == 0
            &&& f.get_str("content-type"@) matches Some(s) ==> (s.len() > 0 ==> r.content_type == s)
            &&& f.get_str("content-type"@) is None ==> r.content_type == f.text_of("content_type"@)
            &&& f.get_u64("folder_id"@) matches Some(id) ==> (folders.contains_key(id) ==> r.folder
                == folders[id])
            &&& !(f.get_u64("folder_id"@) matches Some(id) && folders.contains_key(id))
                ==> r.folder.len() == 0
        },
        file_of(f, course, folders) matches Some(r) ==> {
            &&& r.local_path.len() == 0
            &&& r.category.len() == 0
            &&& !r.content_done
            &&& !r.category_manual
            &&& r.summary.len() == 0
            &&& r.embedding.len() == 0
            &&& r.summary_pdf.len() == 0
        },
{
}

/// Every folder with a number is known by its full name, the later of two under one
/// number; and no other number is known.
pub proof fn lemma_folders_known(raw: Seq<JsonView>, n: int, id: u64)
    requires
        0 <= n <= raw.len(),
    ensures
        forall|i: int|
            0 <= i < n && (#[trigger] raw[i]).get_u64("id"@) == Some(id) && (forall|j: int|
                i < j < n ==> (#[trigger] raw[j]).get_u64("id"@) != Some(id)) ==> folders_upto(
                raw,
                n,
            ).contains_key(id) && folders_upto(raw, n)[id] == raw[i].text_of("full_name"@),
        (forall|i: int| 0 <= i < n ==> (#[trigger] raw[i]).get_u64("id"@) != Some(id))
            ==> !folders_upto(raw, n).contains_key(id),
    decreases n,
{
    if n > 0 {
        lemma_folders_known(raw, n - 1, id);
        assert forall|i: int|
            0 <= i < n && (#[trigger] raw[i]).get_u64("id"@) == Some(id) && (forall|j: int|
                i < j < n ==> (#[trigger] raw[j]).get_u64("id"@) != Some(id)) implies folders_upto(
            raw,
            n,
        ).contains_key(id) && folders_upto(raw, n)[id] == raw[i].text_of("full_name"@) by {
            if i < n - 1 {
                assert(raw[n - 1].get_u64("id"@) != Some(id));
            }
        }
    }
}

/// The first entries alone decide what they give.
proof fn lemma_announcements_upto_prefix(
    a: Seq<JsonView>,
    b: Seq<JsonView>,
    course: CourseView,
    n: int,
)
    requires
        0 <= n <= a.len(),
    ensures
        announcements_upto(a + b, course, n) == announcements_upto(a, course, n),
    decreases n,
{
    if n > 0 {
        lemma_announcements_upto_prefix(a, b, course, n - 1);
        assert((a + b)[n - 1] == a[n - 1]);
    }
}

/// What two lists give, one behind the other.
proof fn lemma_announcements_upto_add(
    a: Seq<JsonView>,
    b: Seq<JsonView>,
    course: CourseView,
    n: int,
)
    requires
        0 <= n <= b.len(),
    ensures
        announcements_upto(a + b, course, a.len() + n) == announcements_upto(a, course, a.len() as int) + announcements_upto(b, course, n),
    decreases n,
{
    let first = announcements_upto(a, course, a.len() as int);
    if n == 0 {
        lemma_announcements_upto_prefix(a, b, course, a.len() as int);
        assert(first + announcements_upto(b, course, 0) =~= first);
    } else {
        lemma_announcements_upto_add(a, b, course, n - 1);
        assert((a + b)[a.len() + n - 1] == b[n - 1]);
        assert(announcements_upto(a + b, course, a.len() + n) =~= first + announcements_upto(b, course, n));
    }
}

/// The announcements of two lists are those of the first and then those of the second,
/// and one record gives its announcement or none.
pub proof fn lemma_announcements_in_order(
    a: Seq<JsonView>,
    b: Seq<JsonView>,
    x: JsonView,
    course: CourseView,
)
    ensures
        announcements_upto(a + b, course, (a + b).len() as int) == announcements_upto(
            a,
            course,
            a.len() as int,
        ) + announcements_upto(b, course, b.len() as int),
        announcements_upto(seq![x], course, 1).len() == (if x.get_u64("id"@) matches Some(n) && n
            != 0 {
            1nat
        } else {
            0
        }),
        announcement_of(x, course) matches Some(r) ==> announcements_upto(seq![x], course, 1)
            == seq![r],
{
    lemma_announcements_upto_add(a, b, course, b.len() as int);
    reveal_with_fuel(announcements_upto, 2);
}

/// The first entries alone decide what they give.
proof fn lemma_files_upto_prefix(
    a: Seq<JsonView>,
    b: Seq<JsonView>,
    course: CourseView,
    folders: Map<u64, Seq<char>>,
    n: int,
)
    requires
        0 <= n <= a.len(),
    ensures
        files_upto(a + b, course, folders, n) == files_upto(a, course, folders, n),
    decreases n,
{
    if n > 0 {
        lemma_files_upto_prefix(a, b, course, folders, n - 1);
        assert((a + b)[n - 1] == a[n - 1]);
    }
}

/// What two lists give, one behind the other.
proof fn lemma_files_upto_add(
    a: Seq<JsonView>,
    b: Seq<JsonView>,
    course: CourseView,
    folders: Map<u64, Seq<char>>,
    n: int,
)
    requires
        0 <= n <= b.len(),
    ensures
        files_upto(a + b, course, folders, a.len() + n) == files_upto(a, course, folders, a.len() as int) + files_upto(b, course, folders, n),
    decreases n,
{
    let first = files_upto(a, course, folders, a.len() as int);
    if n == 0 {
        lemma_files_upto_prefix(a, b, course, folders, a.len() as int);
        assert(first + files_upto(b, course, folders, 0) =~= first);
    } else {
        lemma_files_upto_add(a, b, course, folders, n - 1);
        assert((a + b)[a.len() + n - 1] == b[n - 1]);
        assert(files_upto(a + b, course, folders, a.len() + n) =~= first + files_upto(b, course, folders, n));
    }
}

/// The files of two lists are those of the first and then those of the second, and one
/// record gives its file or none.
pub proof fn lemma_files_in_order(
    a: Seq<JsonView>,
    b: Seq<JsonView>,
    x: JsonView,
    course: CourseView,
    folders: Map<u64, Seq<char>>,
)
    ensures
        files_upto(a + b, course, folders, (a + b).len() as int) == files_upto(
            a,
            course,
            folders,
            a.len() as int,
        ) + files_upto(b, course, folders, b.len() as int),
        files_upto(seq![x], course, folders, 1).len() == (if file_of(x, course, folders) is Some {
            1nat
        } else {
            0
        }),
        file_of(x, course, folders) matches Some(r) ==> files_upto(seq![x], course, folders, 1)
            == seq![r],
{
    lemma_files_upto_add(a, b, course, folders, b.len() as int);
    reveal_with_fuel(files_upto, 2);
}

/// The first entries alone decide what they give.
proof fn lemma_replied_files_prefix(
    a: Seq<Option<Json>>,
    b: Seq<Option<Json>>,
    course: CourseView,
    folders: Map<u64, Seq<char>>,
    n: int,
)
    requires
        0 <= n <= a.len(),
    ensures
        replied_files(a + b, course, folders, n) == replied_files(a, course, folders, n),
    decreases n,
{
    if n > 0 {
        lemma_replied_files_prefix(a, b, course, folders, n - 1);
        assert((a + b)[n - 1] == a[n - 1]);
    }
}

/// What two lists give, one behind the other.
proof fn lemma_replied_files_add(
    a: Seq<Option<Json>>,
    b: Seq<Option<Json>>,
    course: CourseView,
    folders: Map<u64, Seq<char>>,
    n: int,
)
    requires
        0 <= n <= b.len(),
    ensures
        replied_files(a + b, course, folders, a.len() + n) == replied_files(a, course, folders, a.len() as int) + replied_files(b, course, folders, n),
    decreases n,
{
    let first = replied_files(a, course, folders, a.len() as int);
    if n == 0 {
        lemma_replied_files_prefix(a, b, course, folders, a.len() as int);
        assert(first + replied_files(b, course, folders, 0) =~= first);
    } else {
        lemma_replied_files_add(a, b, course, folders, n - 1);
        assert((a + b)[a.len() + n - 1] == b[n - 1]);
        assert(replied_files(a + b, course, folders, a.len() + n) =~= first + replied_files(b, course, folders, n));
    }
}

/// The files that came one by one stand in the order of the replies: each reply gives
/// its file, and one that failed gives none.
pub proof fn lemma_replied_files_in_order(
    a: Seq<Option<Json>>,
    b: Seq<Option<Json>>,
    x: Json,
    course: CourseView,
    folders: Map<u64, Seq<char>>,
)
    ensures
        replied_files(a + b, course, folders, (a + b).len() as int) == replied_files(
            a,
            course,
            folders,
            a.len() as int,
        ) + replied_files(b, course, folders, b.len() as int),
        replied_files(seq![None::<Json>], course, folders, 1).len() == 0,
        replied_files(seq![Some(x)], course, folders, 1) == files_upto(
            seq![x@],
            course,
            folders,
            1,
        ),
{
    lemma_replied_files_add(a, b, course, folders, b.len() as int);
    reveal_with_fuel(replied_files, 2);
    reveal_with_fuel(files_upto, 2);
}

/// The first entries alone decide what they give.
proof fn lemma_item_urls_prefix(
    a: Seq<JsonView>,
    b: Seq<JsonView>,
    n: int,
)
    requires
        0 <= n <= a.len(),
    ensures
        item_urls(a + b, n) == item_urls(a, n),
    decreases n,
{
    if n > 0 {
        lemma_item_urls_prefix(a, b, n - 1);
        assert((a + b)[n - 1] == a[n - 1]);
    }
}

/// What two lists give, one behind the other.
proof fn lemma_item_urls_add(
    a: Seq<JsonView>,
    b: Seq<JsonView>,
    n: int,
)
    requires
        0 <= n <= b.len(),
    ensures
        item_urls(a + b, a.len() + n) == item_urls(a, a.len() as int) + item_urls(b, n),
    decreases n,
{
    let first = item_urls(a, a.len() as int);
    if n == 0 {
        lemma_item_urls_prefix(a, b, a.len() as int);
        assert(first + item_urls(b, 0) =~= first);
    } else {
        lemma_item_urls_add(a, b, n - 1);
        assert((a + b)[a.len() + n - 1] == b[n - 1]);
        assert(item_urls(a + b, a.len() + n) =~= first + item_urls(b, n));
    }
}

/// The first entries alone decide what they give.
proof fn lemma_module_urls_prefix(
    a: Seq<JsonView>,
    b: Seq<JsonView>,
    n: int,
)
    requires
        0 <= n <= a.len(),
    ensures
        module_urls(a + b, n) == module_urls(a, n),
    decreases n,
{
    if n > 0 {
        lemma_module_urls_prefix(a, b, n - 1);
        assert((a + b)[n - 1] == a[n - 1]);
    }
}

/// What two lists give, one behind the other.
proof fn lemma_module_urls_add(
    a: Seq<JsonView>,
    b: Seq<JsonView>,
    n: int,
)
    requires
        0 <= n <= b.len(),
    ensures
        module_urls(a + b, a.len() + n) == module_urls(a, a.len() as int) + module_urls(b, n),
    decreases n,
{
    let first = module_urls(a, a.len() as int);
    if n == 0 {
        lemma_module_urls_prefix(a, b, a.len() as int);
        assert(first + module_urls(b, 0) =~= first);
    } else {
        lemma_module_urls_add(a, b, n - 1);
        assert((a + b)[a.len() + n - 1] == b[n - 1]);
        assert(module_urls(a + b, a.len() + n) =~= first + module_urls(b, n));
    }
}

/// The addresses of the modules' files, in the modules' order and in that of their
/// items: an item of the type "File" with an address gives it, and no other item does.
pub proof fn lemma_module_urls_in_order(
    a: Seq<JsonView>,
    b: Seq<JsonView>,
    x: JsonView,
    m: JsonView,
    items: Seq<JsonView>,
)
    ensures
        module_urls(a + b, (a + b).len() as int) == module_urls(a, a.len() as int) + module_urls(
            b,
            b.len() as int,
        ),
        item_urls(a + b, (a + b).len() as int) == item_urls(a, a.len() as int) + item_urls(
            b,
            b.len() as int,
        ),
        m.get("items"@) == Some(JsonView::Array(items)) ==> module_urls(seq![m], 1) == item_urls(
            items,
            items.len() as int,
        ),
        m.get("items"@) is None ==> module_urls(seq![m], 1).len() == 0,
        x.get_str("type"@) == Some("File"@) ==> (x.get_str("url"@) matches Some(u) ==> (u.len() > 0
            ==> item_urls(seq![x], 1) == seq![u])),
        x.get_str("type"@) != Some("File"@) ==> item_urls(seq![x], 1).len() == 0,
        x.text_of("url"@).len() == 0 ==> item_urls(seq![x], 1).len() == 0,
{
    lemma_module_urls_add(a, b, b.len() as int);
    lemma_item_urls_add(a, b, b.len() as int);
    reveal_with_fuel(module_urls, 2);
    reveal_with_fuel(item_urls, 2);
    reveal_strlit("File");
    assert("File"@.len() == 4);
    assert(Seq::<Seq<char>>::empty() + one_module_urls(m) =~= one_module_urls(m));
}

/// Where Canvas is asked for the parts of a course: each below the course's own number.
pub proof fn lemma_course_address(url: Seq<char>, id: u64, tail: Seq<char>)
    ensures
        course_url(url, id, tail) == text::without_last(url, '/') + "/api/v1/courses/"@
            + text::decimal(id as nat) + tail,
{
    reveal_strlit("/api/v1/courses/");
    reveal_strlit("/api/v1");
    reveal_strlit("/courses/");
    assert("/api/v1/courses/"@ =~= "/api/v1"@ + "/courses/"@);
}

/// What was fetched are the records of a reply, and none where it failed.
pub proof fn lemma_records_seen(r: Result<Vec<Json>, String>)
    ensures
        r matches Ok(v) ==> records_of(r) == text::views(v@),
        r is Err ==> records_of(r).len() == 0,
{
}

} // verus!
