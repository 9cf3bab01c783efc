//! The REST interface of Canvas: addresses, pages, and what the records of its
//! replies become.

use vstd::prelude::*;
use vstd::string::*;
use vstd::slice::slice_subrange;
use std::collections::HashSet;
use crate::cloud::{Reply, ReplyView};
use crate::cloud;
use crate::config::AppConfig;
use crate::json::{Json, JsonView};
use crate::store::{Course, CourseView};
use crate::text;

verus! {

// ---------------------------------------------------------------------------
// Addresses and pages
// ---------------------------------------------------------------------------

/// The root of the interface, by the address of Canvas.
pub open spec fn api_root(canvas_url: Seq<char>) -> Seq<char> {
    text::without_last(canvas_url, '/') + "/api/v1"@
}

/// The root of the interface.
pub fn api_base(cfg: &AppConfig) -> (r: String)
    ensures
        r@ == api_root(cfg@.canvas_url),
{
    let mut s = text::strip_last(cfg.canvas_url.as_str(), '/');
    s.append("/api/v1");
    s
}

/// The first part, from `i` on, that leads to the next page.
pub open spec fn next_part(parts: Seq<Seq<char>>, i: int) -> Option<Seq<char>>
    decreases parts.len() - i,
{
    if i < 0 || i >= parts.len() {
        None
    } else if text::contains(parts[i], "rel=\"next\""@) {
        Some(parts[i])
    } else {
        next_part(parts, i + 1)
    }
}

/// The address between the first `<` and the first `>` of a part.
pub open spec fn address_in(part: Seq<char>) -> Option<Seq<char>> {
    match text::first_index(part, '<') {
        Some(a) => match text::first_index(part, '>') {
            Some(b) => Some(part.subrange(a + 1, b)),
            None => None,
        },
        None => None,
    }
}

/// The address of the next page in a `Link` header.
pub open spec fn next_address(link: Seq<char>) -> Option<Seq<char>> {
    match next_part(text::split(link, ","@), 0) {
        Some(part) => address_in(part),
        None => None,
    }
}

/// The brackets of a part stand in their order.
pub open spec fn brackets_in_order(part: Seq<char>) -> bool {
    text::first_index(part, '<') is Some && text::first_index(part, '>') is Some
        ==> text::first_index(part, '<')->0 < text::first_index(part, '>')->0
}

/// The brackets around the address of the next page stand in their order.
pub open spec fn well_bracketed(link: Seq<char>) -> bool {
    match next_part(text::split(link, ","@), 0) {
        Some(part) => brackets_in_order(part),
        None => true,
    }
}

/// The first part that leads to the next page.
fn find_next_part(link: &str) -> (r: Option<String>)
    ensures
        text::opt_view(r) == next_part(text::split(link@, ","@), 0),
{
    proof {
        reveal_strlit(",");
    }
    let parts = text::split_text(link, ",");
    let ghost ps = text::views(parts@);
    let mut i: usize = 0;
    while i < parts.len()
        invariant
            i <= parts@.len(),
            ps == text::views(parts@),
            ps == text::split(link@, ","@),
            next_part(ps, 0) == next_part(ps, i as int),
        decreases parts.len() - i,
    {
        assert(ps[i as int] == parts@[i as int]@);
        if text::has(parts[i].as_str(), "rel=\"next\"") {
            return Some(parts[i].clone());
        }
        i += 1;
    }
    None
}

/// Whether the brackets around the address of the next page stand in their
/// order.
pub fn link_is_well_bracketed(link: &str) -> (r: bool)
    ensures
        r == well_bracketed(link@),
{
    match find_next_part(link) {
        Some(part) => {
            let v = text::chars_of(part.as_str());
            match text::index_of(v.as_slice(), '<') {
                Some(a) => match text::index_of(v.as_slice(), '>') {
                    Some(b) => a < b,
                    None => true,
                },
                None => true,
            }
        },
        None => true,
    }
}

/// The address of the next page in a `Link` header of Canvas.
pub fn next_link(link: &str) -> (r: Option<String>)
    requires
        well_bracketed(link@),
    ensures
        text::opt_view(r) == next_address(link@),
{
    match find_next_part(link) {
        Some(part) => {
            let v = text::chars_of(part.as_str());
            match text::index_of(v.as_slice(), '<') {
                Some(a) => match text::index_of(v.as_slice(), '>') {
                    Some(b) => {
                        let url = text::string_of(slice_subrange(v.as_slice(), a + 1, b));
                        assert(url@ =~= part@.subrange(a + 1, b as int));
                        Some(url)
                    },
                    None => None,
                },
                None => None,
            }
        },
        None => None,
    }
}

/// The records of a page: the elements of an array, or the value itself.
pub open spec fn page_items(v: JsonView) -> Seq<JsonView> {
    match v {
        JsonView::Array(vs) => vs,
        _ => seq![v],
    }
}

/// What to do after a page.
pub enum PageStep {
    /// Ask for the page at this address.
    Fetch { url: String },
    /// That was the last page.
    Done,
    /// Give up.
    Fail { error: String },
}

/// What a step is.
pub enum PageStepView {
    Fetch { url: Seq<char> },
    Done,
    Fail { error: Seq<char> },
}

impl View for PageStep {
    type V = PageStepView;

    open spec fn view(&self) -> PageStepView {
        match *self {
            PageStep::Fetch { url } => PageStepView::Fetch { url: url@ },
            PageStep::Done => PageStepView::Done,
            PageStep::Fail { error } => PageStepView::Fail { error: error@ },
        }
    }
}

/// The notice that Canvas takes the token no more.
pub const TOKEN_EXPIRED: &'static str = "Token rechazado o caducado (401). Genera uno nuevo en Canvas → Cuenta → Configuración.";

/// What to do after the reply to a request for a page, `link` being its `Link`
/// header.
pub open spec fn page_step_after(reply: ReplyView, link: Option<Seq<char>>) -> PageStepView {
    match reply {
        ReplyView::Unreachable { error } => PageStepView::Fail {
            error: "Conexión Canvas: "@ + error,
        },
        ReplyView::Refused { code, status, body } => if code == 401 {
            PageStepView::Fail { error: TOKEN_EXPIRED@ }
        } else {
            PageStepView::Fail {
                error: "HTTP "@ + status + ": "@ + text::first_chars(body, 200),
            }
        },
        ReplyView::Garbled { error } => PageStepView::Fail { error },
        ReplyView::Answer { json } => match link {
            Some(l) => match next_address(l) {
                Some(url) => PageStepView::Fetch { url },
                None => PageStepView::Done,
            },
            None => PageStepView::Done,
        },
    }
}

/// The records that a reply brings.
pub open spec fn reply_items(reply: ReplyView) -> Seq<JsonView> {
    match reply {
        ReplyView::Answer { json } => page_items(json),
        _ => seq![],
    }
}

/// Takes in the reply to a request for a page, `link` being its `Link` header:
/// the records of the page come behind those of the pages before, and the
/// header says where to go on.
pub fn take_page(items: &mut Vec<Json>, reply: Reply, link: Option<String>) -> (r: PageStep)
    requires
        reply is Answer && link is Some ==> well_bracketed(link->0@),
    ensures
        r@ == page_step_after(reply@, text::opt_view(link)),
        text::views(final(items)@) == text::views(old(items)@) + reply_items(reply@),
{
    let ghost before = items@;
    match reply {
        Reply::Unreachable { error } => {
            assert(text::views(items@) =~= text::views(before) + seq![]);
            PageStep::Fail { error: text::concat("Conexión Canvas: ", error.as_str()) }
        },
        Reply::Refused { code, status, body } => {
            assert(text::views(items@) =~= text::views(before) + seq![]);
            if code == 401 {
                PageStep::Fail { error: TOKEN_EXPIRED.to_owned() }
            } else {
                let mut error = "HTTP ".to_owned();
                error.append(status.as_str());
                error.append(": ");
                error.append(text::take_chars(body.as_str(), 200).as_str());
                PageStep::Fail { error }
            }
        },
        Reply::Garbled { error } => {
            assert(text::views(items@) =~= text::views(before) + seq![]);
            PageStep::Fail { error }
        },
        Reply::Answer { json } => {
            let ghost jv = json@;
            match json {
                Json::Array(v) => {
                    proof {
                        crate::json::lemma_array_view(v@);
                    }
                    let ghost vs = v@;
                    let mut v = v;
                    items.append(&mut v);
                    assert(text::views(items@) =~= text::views(before) + text::views(vs));
                },
                other => {
                    items.push(other);
                    assert(text::views(items@) =~= text::views(before) + seq![jv]);
                },
            }
            match link {
                Some(l) => match next_link(l.as_str()) {
                    Some(url) => PageStep::Fetch { url },
                    None => PageStep::Done,
                },
                None => PageStep::Done,
            }
        },
    }
}

// ---------------------------------------------------------------------------
// The token
// ---------------------------------------------------------------------------

/// The address of the user's profile.
pub fn profile_url(cfg: &AppConfig) -> (r: String)
    ensures
        r@ == api_root(cfg@.canvas_url) + "/users/self/profile"@,
{
    let mut s = api_base(cfg);
    s.append("/users/self/profile");
    s
}

/// Why a token cannot be verified at all.
pub fn verify_refused(cfg: &AppConfig) -> (r: Option<String>)
    ensures
        text::opt_view(r) == if text::blank(cfg@.canvas_token) {
            Some("Falta el token de Canvas (Ajustes)."@)
        } else {
            None
        },
{
    if text::is_blank(cfg.canvas_token.as_str()) {
        Some("Falta el token de Canvas (Ajustes).".to_owned())
    } else {
        None
    }
}

/// What the reply to a request for the profile comes to: the user's name.
pub open spec fn verify_result(reply: ReplyView) -> Result<Seq<char>, Seq<char>> {
    match reply {
        ReplyView::Unreachable { error } => Err("Conexión: "@ + error),
        ReplyView::Refused { code, status, body } => Err(
            "Token rechazado (HTTP "@ + status + "). Revisa la URL y el token."@,
        ),
        ReplyView::Garbled { error } => Err(error),
        ReplyView::Answer { json } => Ok(json.text_of("name"@)),
    }
}

/// What the reply to a request for the profile comes to.
pub fn verify(reply: Reply) -> (r: Result<String, String>)
    ensures
        cloud::result_view(r) == verify_result(reply@),
{
    match reply {
        Reply::Unreachable { error } => Err(text::concat("Conexión: ", error.as_str())),
        Reply::Refused { code: _, status, body: _ } => {
            let mut s = "Token rechazado (HTTP ".to_owned();
            s.append(status.as_str());
            s.append("). Revisa la URL y el token.");
            Err(s)
        },
        Reply::Garbled { error } => Err(error),
        Reply::Answer { json } => Ok(json.text_of("name")),
    }
}

// ---------------------------------------------------------------------------
// Downloads
// ---------------------------------------------------------------------------

/// What became of a request for a file.
pub enum FileReply {
    /// The server could not be reached.
    Unreachable { error: String },
    /// The server answered with a status that is no success.
    Refused { status: String },
    /// The body broke off.
    Broken { error: String },
    /// The body, in the pieces in which it came.
    Body { chunks: Vec<Vec<u8>> },
}

/// The bytes of some pieces, one after the other.
pub open spec fn glued(chunks: Seq<Seq<u8>>) -> Seq<u8>
    decreases chunks.len(),
{
    if chunks.len() == 0 {
        seq![]
    } else {
        glued(chunks.drop_last()) + chunks.last()
    }
}

/// The bytes of some pieces, each taken by its view.
pub open spec fn body_of(chunks: Seq<Vec<u8>>) -> Seq<u8> {
    glued(chunks.map_values(|c: Vec<u8>| c@))
}

/// What the reply to a request for a file comes to: what is to be written, or why
/// nothing is.
pub fn download_file(filename: &str, reply: FileReply) -> (r: Result<Vec<u8>, String>)
    ensures
        match reply {
            FileReply::Unreachable { error } => r is Err && r->Err_0@ == "Descarga: "@ + error@,
            FileReply::Refused { status } => r is Err && r->Err_0@ == "HTTP "@ + status@
                + " al descargar "@ + filename@,
            FileReply::Broken { error } => r is Err && r->Err_0@ == error@,
            FileReply::Body { chunks } => r is Ok && r->Ok_0@ == body_of(chunks@),
        },
{
    match reply {
        FileReply::Unreachable { error } => Err(text::concat("Descarga: ", error.as_str())),
        FileReply::Refused { status } => {
            let mut s = text::concat("HTTP ", status.as_str());
            s.append(" al descargar ");
            s.append(filename);
            Err(s)
        },
        FileReply::Broken { error } => Err(error),
        FileReply::Body { chunks } => {
            let mut bytes: Vec<u8> = Vec::new();
            let ghost pieces = chunks@.map_values(|c: Vec<u8>| c@);
            for i in 0..chunks.len()
                invariant
                    pieces == chunks@.map_values(|c: Vec<u8>| c@),
                    bytes@ == glued(pieces.take(i as int)),
            {
                bytes.extend_from_slice(chunks[i].as_slice());
                assert(pieces.take(i + 1).drop_last() == pieces.take(i as int));
            }
            assert(pieces.take(chunks@.len() as int) == pieces);
            Ok(bytes)
        },
    }
}

// ---------------------------------------------------------------------------
// Courses
// ---------------------------------------------------------------------------

/// The number of a record; 0 where it has none.
pub open spec fn number_of(v: JsonView) -> u64 {
    match v.get_u64("id"@) {
        Some(id) => id,
        None => 0,
    }
}

/// The number of a record; 0 where it has none.
pub fn id_of(v: &Json) -> (r: u64)
    ensures
        r == number_of(v@),
{
    match v.get_u64("id") {
        Some(id) => id,
        None => 0,
    }
}

/// The name of the term of a course.
pub open spec fn term_of(c: JsonView) -> Seq<char> {
    match c.get("term"@) {
        Some(t) => t.text_of("name"@),
        None => seq![],
    }
}

/// The course that a record of Canvas is; none where it has no number or no
/// name.
pub open spec fn course_of(c: JsonView, concluded: bool) -> Option<CourseView> {
    if number_of(c) == 0 || c.text_of("name"@).len() == 0 {
        None
    } else {
        Some(
            CourseView {
                id: number_of(c),
                name: c.text_of("name"@),
                code: c.text_of("course_code"@),
                term: term_of(c),
                concluded,
            },
        )
    }
}

/// The course that a record of Canvas is.
pub fn course_from_json(c: &Json, concluded: bool) -> (r: Option<Course>)
    ensures
        text::opt_view(r) == course_of(c@, concluded),
{
    let id = id_of(c);
    if id == 0 {
        return None;
    }
    let name = c.text_of("name");
    if name.as_str().is_empty() {
        return None;
    }
    let term = match c.get("term") {
        Some(t) => t.text_of("name"),
        None => {
            let none = String::new();
            assert(none@ =~= seq![]);
            none
        },
    };
    Some(Course { id, name, code: c.text_of("course_code"), term, concluded })
}

/// `id` is the number of one of the courses.
pub open spec fn knows(courses: Seq<CourseView>, id: u64) -> bool {
    exists|i: int| 0 <= i < courses.len() && #[trigger] courses[i].id == id
}

/// The courses with those of the first `n` records behind them, as they come.
pub open spec fn with_active(courses: Seq<CourseView>, raw: Seq<JsonView>, n: int) -> Seq<CourseView>
    decreases n,
{
    if n <= 0 {
        courses
    } else {
        match course_of(raw[n - 1], false) {
            Some(c) => with_active(courses, raw, n - 1).push(c),
            None => with_active(courses, raw, n - 1),
        }
    }
}

/// The courses with a past one behind them, unless its number is known.
pub open spec fn with_past(courses: Seq<CourseView>, c: JsonView) -> Seq<CourseView> {
    match course_of(c, true) {
        Some(course) => if knows(courses, course.id) {
            courses
        } else {
            courses.push(course)
        },
        None => courses,
    }
}

/// The courses with the past ones of the first `n` records behind them.
pub open spec fn with_all_past(
    courses: Seq<CourseView>,
    raw: Seq<JsonView>,
    n: int,
) -> Seq<CourseView>
    decreases n,
{
    if n <= 0 {
        courses
    } else {
        with_past(with_all_past(courses, raw, n - 1), raw[n - 1])
    }
}

/// The numbers in the first `n` enrolments that no course has, each once.
pub open spec fn unknown_ids(courses: Seq<CourseView>, raw: Seq<JsonView>, n: int) -> Seq<u64>
    decreases n,
{
    if n <= 0 {
        seq![]
    } else {
        let before = unknown_ids(courses, raw, n - 1);
        match raw[n - 1].get_u64("course_id"@) {
            Some(id) => if knows(courses, id) || before.contains(id) {
                before
            } else {
                before.push(id)
            },
            None => before,
        }
    }
}

/// Where a run through the lists of courses stands.
pub enum CoursesStage {
    /// Waiting for the active courses.
    Active,
    /// Waiting for the completed ones.
    Past,
    /// Waiting for the enrolments.
    Enrolled,
    /// Waiting for single courses that no list named: those of `ids` from
    /// `next` on.
    Single { ids: Vec<u64>, next: usize },
    /// Nothing is left to ask for.
    Over,
}

/// Where a run stands.
pub enum CoursesStageView {
    Active,
    Past,
    Enrolled,
    Single { ids: Seq<u64> },
    Over,
}

impl View for CoursesStage {
    type V = CoursesStageView;

    open spec fn view(&self) -> CoursesStageView {
        match *self {
            CoursesStage::Active => CoursesStageView::Active,
            CoursesStage::Past => CoursesStageView::Past,
            CoursesStage::Enrolled => CoursesStageView::Enrolled,
            CoursesStage::Single { ids, next } => CoursesStageView::Single {
                ids: ids@.skip(next as int),
            },
            CoursesStage::Over => CoursesStageView::Over,
        }
    }
}

/// A run through the lists of courses: the active ones, the completed ones, and
/// those that only the enrolments name.
pub struct CoursesRun {
    pub stage: CoursesStage,
    pub courses: Vec<Course>,
    pub seen: HashSet<u64>,
}

/// What a run has come to.
#[verifier::ext_equal]
pub struct CoursesRunView {
    pub stage: CoursesStageView,
    pub courses: Seq<CourseView>,
}

impl View for CoursesRun {
    type V = CoursesRunView;

    open spec fn view(&self) -> CoursesRunView {
        CoursesRunView { stage: self.stage@, courses: text::views(self.courses@) }
    }
}

/// The set holds the numbers of the courses.
pub open spec fn holds_ids(seen: Set<u64>, courses: Seq<CourseView>) -> bool {
    forall|id: u64| #[trigger] seen.contains(id) == knows(courses, id)
}

impl CoursesRun {
    /// The numbers seen are those of the courses, and where single courses are
    /// asked for, one is left.
    pub open spec fn wf(&self) -> bool {
        &&& holds_ids(self.seen@, self@.courses)
        &&& match self.stage {
            CoursesStage::Single { ids, next } => next < ids@.len(),
            _ => true,
        }
    }
}

/// The run before its first request.
pub open spec fn run_start() -> CoursesRunView {
    CoursesRunView { stage: CoursesStageView::Active, courses: seq![] }
}

/// The stage in which the single courses `ids` are asked for.
pub open spec fn single_stage(ids: Seq<u64>) -> CoursesStageView {
    if ids.len() == 0 {
        CoursesStageView::Over
    } else {
        CoursesStageView::Single { ids }
    }
}

/// The run after the reply to its request. Only without the active courses does
/// it fail; the other lists are taken as far as they come.
pub open spec fn run_next(
    run: CoursesRunView,
    reply: Result<Seq<JsonView>, Seq<char>>,
) -> Result<CoursesRunView, Seq<char>> {
    match run.stage {
        CoursesStageView::Active => match reply {
            Ok(raw) => Ok(
                CoursesRunView {
                    stage: CoursesStageView::Past,
                    courses: with_active(run.courses, raw, raw.len() as int),
                },
            ),
            Err(e) => Err(e),
        },
        CoursesStageView::Past => Ok(
            CoursesRunView {
                stage: CoursesStageView::Enrolled,
                courses: match reply {
                    Ok(raw) => with_all_past(run.courses, raw, raw.len() as int),
                    Err(_) => run.courses,
                },
            },
        ),
        CoursesStageView::Enrolled => Ok(
            CoursesRunView {
                stage: match reply {
                    Ok(raw) => single_stage(unknown_ids(run.courses, raw, raw.len() as int)),
                    Err(_) => CoursesStageView::Over,
                },
                courses: run.courses,
            },
        ),
        CoursesStageView::Single { ids } => Ok(
            CoursesRunView {
                stage: single_stage(ids.skip(1)),
                courses: match reply {
                    Ok(raw) => if raw.len() > 0 {
                        with_past(run.courses, raw.last())
                    } else {
                        run.courses
                    },
                    Err(_) => run.courses,
                },
            },
        ),
        CoursesStageView::Over => Ok(run),
    }
}

/// What the result of a request for records says.
pub open spec fn items_view(r: Result<Vec<Json>, String>) -> Result<Seq<JsonView>, Seq<char>> {
    match r {
        Ok(v) => Ok(text::views(v@)),
        Err(e) => Err(e@),
    }
}

/// The address that a run asks for next.
pub open spec fn run_url(base: Seq<char>, stage: CoursesStageView) -> Option<Seq<char>> {
    match stage {
        CoursesStageView::Active => Some(
            base + "/courses?enrollment_state=active&per_page=100&include[]=term"@,
        ),
        CoursesStageView::Past => Some(
            base + "/courses?enrollment_state=completed&per_page=100&include[]=term"@,
        ),
        CoursesStageView::Enrolled => Some(
            base
                + "/users/self/enrollments?per_page=100&state[]=active&state[]=completed&state[]=inactive"@,
        ),
        CoursesStageView::Single { ids } => Some(
            base + "/courses/"@ + text::decimal(ids[0] as nat) + "?include[]=term"@,
        ),
        CoursesStageView::Over => None,
    }
}

/// A course behind the others changes what is known by its number alone.
proof fn lemma_knows_push(courses: Seq<CourseView>, c: CourseView, id: u64)
    ensures
        knows(courses.push(c), id) == (knows(courses, id) || c.id == id),
{
    if knows(courses, id) {
        let i = choose|i: int| 0 <= i < courses.len() && #[trigger] courses[i].id == id;
        assert(courses.push(c)[i].id == id);
    }
    if c.id == id {
        assert(courses.push(c)[courses.len() as int].id == id);
    }
    if knows(courses.push(c), id) {
        let i = choose|i: int|
            0 <= i < courses.push(c).len() && #[trigger] courses.push(c)[i].id == id;
        if i < courses.len() {
            assert(courses[i].id == id);
        }
    }
}

/// Puts a course behind the others and its number among those seen.
fn push_course(courses: &mut Vec<Course>, seen: &mut HashSet<u64>, c: Course)
    requires
        holds_ids(old(seen)@, text::views(old(courses)@)),
    ensures
        text::views(final(courses)@) == text::views(old(courses)@).push(c@),
        holds_ids(final(seen)@, text::views(final(courses)@)),
{
    broadcast use vstd::std_specs::hash::group_hash_axioms;

    let ghost before = text::views(courses@);
    let ghost seen0 = seen@;
    seen.insert(c.id);
    proof {
        text::lemma_views_push(courses@, c);
        assert forall|id: u64| #[trigger] seen@.contains(id) == knows(before.push(c@), id) by {
            lemma_knows_push(before, c@, id);
            assert(seen0.contains(id) == knows(before, id));
        }
    }
    courses.push(c);
}

/// Puts a past course behind the others, unless its number was seen.
fn push_past(courses: &mut Vec<Course>, seen: &mut HashSet<u64>, c: &Json)
    requires
        holds_ids(old(seen)@, text::views(old(courses)@)),
    ensures
        text::views(final(courses)@) == with_past(text::views(old(courses)@), c@),
        holds_ids(final(seen)@, text::views(final(courses)@)),
{
    broadcast use vstd::std_specs::hash::group_hash_axioms;

    match course_from_json(c, true) {
        Some(course) => {
            assert(seen@.contains(course.id) == knows(text::views(courses@), course.id));
            if !seen.contains(&course.id) {
                push_course(courses, seen, course);
            }
        },
        None => {},
    }
}

/// The numbers in the enrolments that were not seen, each once.
fn missing_ids(raw: &Vec<Json>, seen: &HashSet<u64>, courses: &Vec<Course>) -> (r: Vec<u64>)
    requires
        holds_ids(seen@, text::views(courses@)),
    ensures
        r@ == unknown_ids(text::views(courses@), text::views(raw@), raw@.len() as int),
{
    broadcast use vstd::std_specs::hash::group_hash_axioms;

    let mut missing: Vec<u64> = Vec::new();
    let ghost cs = text::views(courses@);
    let ghost all = text::views(raw@);
    let mut i: usize = 0;
    while i < raw.len()
        invariant
            i <= raw@.len(),
            cs == text::views(courses@),
            all == text::views(raw@),
            holds_ids(seen@, cs),
            missing@ == unknown_ids(cs, all, i as int),
        decreases raw.len() - i,
    {
        broadcast use vstd::std_specs::hash::group_hash_axioms;

        assert(all[i as int] == raw@[i as int]@);
        match raw[i].get_u64("course_id") {
            Some(id) => {
                assert(seen@.contains(id) == knows(cs, id));
                let mut listed = false;
                let mut j: usize = 0;
                while j < missing.len()
                    invariant
                        j <= missing@.len(),
                        listed == exists|k: int| 0 <= k < j && #[trigger] missing@[k] == id,
                    decreases missing.len() - j,
                {
                    if missing[j] == id {
                        listed = true;
                    }
                    j += 1;
                }
                assert(listed == missing@.contains(id));
                if !seen.contains(&id) && !listed {
                    missing.push(id);
                }
            },
            None => {},
        }
        i += 1;
    }
    missing
}

/// A run through the lists of courses, before its first request.
pub fn fetch_courses() -> (r: CoursesRun)
    ensures
        r@ == run_start(),
        r.wf(),
{
    broadcast use vstd::std_specs::hash::group_hash_axioms;

    let r = CoursesRun { stage: CoursesStage::Active, courses: Vec::new(), seen: HashSet::new() };
    assert(r@.courses =~= seq![]);
    r
}

impl CoursesRun {
    /// The address to ask for next; none where the run is over.
    pub fn next_url(&self, cfg: &AppConfig) -> (r: Option<String>)
        requires
            self.wf(),
        ensures
            text::opt_view(r) == run_url(api_root(cfg@.canvas_url), self@.stage),
    {
        let mut s = api_base(cfg);
        match &self.stage {
            CoursesStage::Active => {
                s.append("/courses?enrollment_state=active&per_page=100&include[]=term");
                Some(s)
            },
            CoursesStage::Past => {
                s.append("/courses?enrollment_state=completed&per_page=100&include[]=term");
                Some(s)
            },
            CoursesStage::Enrolled => {
                s.append(
                    "/users/self/enrollments?per_page=100&state[]=active&state[]=completed&state[]=inactive",
                );
                Some(s)
            },
            CoursesStage::Single { ids, next } => {
                s.append("/courses/");
                s.append(text::number(ids[*next]).as_str());
                s.append("?include[]=term");
                assert(ids@.skip(*next as int)[0] == ids@[*next as int]);
                Some(s)
            },
            CoursesStage::Over => None,
        }
    }

    /// Takes in the reply to the request for that address.
    pub fn take(&mut self, reply: Result<Vec<Json>, String>) -> (r: Result<(), String>)
        requires
            old(self).wf(),
        ensures
            match run_next(old(self)@, items_view(reply)) {
                Ok(next) => r is Ok && final(self)@ == next && final(self).wf(),
                Err(e) => r is Err && r->Err_0@ == e && *final(self) == *old(self),
            },
    {
        broadcast use vstd::std_specs::hash::group_hash_axioms;

        let ghost cs0 = self@.courses;
        match &self.stage {
            CoursesStage::Active => {
                let raw = match reply {
                    Ok(raw) => raw,
                    Err(e) => {
                        return Err(e);
                    },
                };
                let ghost all = text::views(raw@);
                let mut i: usize = 0;
                while i < raw.len()
                    invariant
                        i <= raw@.len(),
                        all == text::views(raw@),
                        holds_ids(self.seen@, self@.courses),
                        self@.courses == with_active(cs0, all, i as int),
                    decreases raw.len() - i,
                {
                    assert(all[i as int] == raw@[i as int]@);
                    match course_from_json(&raw[i], false) {
                        Some(c) => {
                            push_course(&mut self.courses, &mut self.seen, c);
                        },
                        None => {},
                    }
                    i += 1;
                }
                self.stage = CoursesStage::Past;
                Ok(())
            },
            CoursesStage::Past => {
                match reply {
                    Ok(raw) => {
                        let ghost all = text::views(raw@);
                        let mut i: usize = 0;
                        while i < raw.len()
                            invariant
                                i <= raw@.len(),
                                all == text::views(raw@),
                                holds_ids(self.seen@, self@.courses),
                                self@.courses == with_all_past(cs0, all, i as int),
                            decreases raw.len() - i,
                        {
                            assert(all[i as int] == raw@[i as int]@);
                            push_past(&mut self.courses, &mut self.seen, &raw[i]);
                            i += 1;
                        }
                    },
                    Err(_) => {},
                }
                self.stage = CoursesStage::Enrolled;
                Ok(())
            },
            CoursesStage::Enrolled => {
                match reply {
                    Ok(raw) => {
                        let ids = missing_ids(&raw, &self.seen, &self.courses);
                        if ids.len() == 0 {
                            self.stage = CoursesStage::Over;
                        } else {
                            assert(ids@.skip(0) =~= ids@);
                            self.stage = CoursesStage::Single { ids, next: 0 };
                        }
                    },
                    Err(_) => {
                        self.stage = CoursesStage::Over;
                    },
                }
                Ok(())
            },
            CoursesStage::Single { ids, next } => {
                match reply {
                    Ok(raw) => {
                        let n: usize = raw.len();
                        if n > 0 {
                            assert(text::views(raw@).last() == raw@[n - 1]@);
                            push_past(&mut self.courses, &mut self.seen, &raw[n - 1]);
                        }
                    },
                    Err(_) => {},
                }
                let n: usize = ids.len();
                let k: usize = *next + 1;
                assert(ids@.skip(*next as int).skip(1) =~= ids@.skip(k as int));
                if k < n {
                    let rest = copy_ids(ids);
                    self.stage = CoursesStage::Single { ids: rest, next: k };
                } else {
                    self.stage = CoursesStage::Over;
                }
                Ok(())
            },
            CoursesStage::Over => Ok(()),
        }
    }
}

/// The same numbers again.
fn copy_ids(ids: &Vec<u64>) -> (r: Vec<u64>)
    ensures
        r@ == ids@,
{
    let r = ids.clone();
    assert(r@ =~= ids@);
    r
}

/// Current courses come before past ones, and no past course has the number of a
/// course before it.
pub open spec fn in_order(courses: Seq<CourseView>) -> bool {
    &&& forall|i: int, j: int|
        0 <= i < j < courses.len() && (#[trigger] courses[j]).concluded ==> (
        #[trigger] courses[i]).id != courses[j].id
    &&& forall|i: int, j: int|
        0 <= i < j < courses.len() && (#[trigger] courses[i]).concluded ==> (
        #[trigger] courses[j]).concluded
}

/// What every run keeps: its courses are in order, and there are none before the
/// first reply.
pub open spec fn run_keeps(run: CoursesRunView) -> bool {
    &&& run.stage is Active ==> run.courses.len() == 0
    &&& in_order(run.courses)
}

/// The courses of a list of active ones are current.
proof fn lemma_active_current(raw: Seq<JsonView>, n: int)
    ensures
        forall|i: int|
            0 <= i < with_active(seq![], raw, n).len() ==> !(#[trigger] with_active(
                seq![],
                raw,
                n,
            )[i]).concluded,
    decreases n,
{
    if n > 0 {
        lemma_active_current(raw, n - 1);
        let before = with_active(seq![], raw, n - 1);
        let after = with_active(seq![], raw, n);
        assert forall|i: int| 0 <= i < after.len() implies !(#[trigger] after[i]).concluded by {
            if i < before.len() {
                assert(after[i] == before[i]);
            }
        }
    }
}

/// A past course behind the others leaves them in order.
proof fn lemma_past_kept(courses: Seq<CourseView>, c: JsonView)
    requires
        in_order(courses),
    ensures
        in_order(with_past(courses, c)),
{
    match course_of(c, true) {
        Some(course) => {
            if !knows(courses, course.id) {
                let out = courses.push(course);
                assert forall|i: int, j: int|
                    0 <= i < j < out.len() && (#[trigger] out[j]).concluded implies (
                #[trigger] out[i]).id != out[j].id by {
                    assert(out[i] == courses[i]);
                    if j < courses.len() {
                        assert(out[j] == courses[j]);
                    } else {
                        assert(courses[i].id != course.id);
                    }
                }
            }
        },
        None => {},
    }
}

/// The past courses of a list leave the others in order.
proof fn lemma_all_past_kept(courses: Seq<CourseView>, raw: Seq<JsonView>, n: int)
    requires
        in_order(courses),
    ensures
        in_order(with_all_past(courses, raw, n)),
    decreases n,
{
    if n > 0 {
        lemma_all_past_kept(courses, raw, n - 1);
        lemma_past_kept(with_all_past(courses, raw, n - 1), raw[n - 1]);
    }
}

/// Every run starts with, and every reply keeps, current courses before past
/// ones and no past course with the number of a course before it.
pub proof fn lemma_run_keeps(run: CoursesRunView, reply: Result<Seq<JsonView>, Seq<char>>)
    requires
        run_keeps(run),
    ensures
        run_keeps(run_start()),
        run_next(run, reply) is Ok ==> run_keeps(run_next(run, reply)->Ok_0),
{
    match run.stage {
        CoursesStageView::Active => {
            match reply {
                Ok(raw) => {
                    assert(run.courses =~= seq![]);
                    lemma_active_current(raw, raw.len() as int);
                },
                Err(_) => {},
            }
        },
        CoursesStageView::Past => {
            match reply {
                Ok(raw) => {
                    lemma_all_past_kept(run.courses, raw, raw.len() as int);
                },
                Err(_) => {},
            }
        },
        CoursesStageView::Single { ids } => {
            match reply {
                Ok(raw) => {
                    if raw.len() > 0 {
                        lemma_past_kept(run.courses, raw.last());
                    }
                },
                Err(_) => {},
            }
        },
        _ => {},
    }
}

// ---------------------------------------------------------------------------
// What Canvas is asked, and what its replies give
// ---------------------------------------------------------------------------

/// The root of the interface is below the address of Canvas, with or without slashes
/// at its end.
pub proof fn lemma_api_root(url: Seq<char>)
    ensures
        url.len() > 0 && url.last() != '/' ==> api_root(url) == url + "/api/v1"@,
        api_root(url.push('/')) == api_root(url),
{
    assert(url.push('/').drop_last() =~= url);
}

/// The part that names the next page, with one more part in front.
proof fn lemma_next_part_front(a: Seq<char>, parts: Seq<Seq<char>>, i: int)
    requires
        0 <= i <= parts.len(),
    ensures
        next_part(seq![a] + parts, i + 1) == next_part(parts, i),
    decreases parts.len() - i,
{
    let all = seq![a] + parts;
    if i < parts.len() {
        assert(all[i + 1] == parts[i]);
        lemma_next_part_front(a, parts, i + 1);
    }
}

/// The next page is the one whose part of the header says `rel="next"`: its address
/// stands between the angle brackets of that part, whatever parts follow it.
pub proof fn lemma_next_page(url: Seq<char>, rest: Seq<char>, others: Seq<char>)
    requires
        !url.contains('<'),
        !url.contains('>'),
        !url.contains(','),
        !rest.contains(','),
        text::contains(rest, "rel=\"next\""@),
    ensures
        next_address(seq!['<'] + url + seq!['>'] + rest) == Some(url),
        next_address(seq!['<'] + url + seq!['>'] + rest + seq![','] + others) == Some(url),
{
    let part = seq!['<'] + url + seq!['>'] + rest;
    let mark = "rel=\"next\""@;
    reveal_strlit(",");
    assert(","@ =~= seq![',']);
    assert(!part.contains(',')) by {
        if part.contains(',') {
            let i = choose|i: int| 0 <= i < part.len() && part[i] == ',';
            if i <= url.len() {
                assert(i > 0);
                assert(url[i - 1] == ',');
            } else {
                assert(i >= url.len() + 2);
                assert(rest[i - url.len() - 2] == ',');
            }
        }
    }
    text::lemma_split_off(part, ',', others);
    let front = seq!['<'] + url + seq!['>'];
    text::lemma_contains_part(front, rest, Seq::empty());
    assert(front + rest + Seq::<char>::empty() =~= part);
    text::lemma_contains_in(front, rest, Seq::empty(), mark);
    assert(text::contains(part, mark));
    text::lemma_first_index(part, '<');
    text::lemma_first_index(part, '>');
    assert(part[0] == '<');
    assert(text::first_index(part, '<') == Some(0int));
    let n = (url.len() + 1) as int;
    assert(part[n] == '>');
    assert(text::first_index(part, '>') == Some(n)) by {
        let p = text::first_index(part, '>')->0;
        if p < n {
            assert(p > 0);
            assert(url[p - 1] == '>');
        }
    }
    assert(part.subrange(1, n) =~= url);
    let parts = seq![part] + text::split(others, ","@);
    assert(parts[0] == part);
    assert(seq![part][0] == part);
}

/// A part of the header that does not say `rel="next"` does not count.
pub proof fn lemma_other_parts(part: Seq<char>, others: Seq<char>)
    requires
        !part.contains(','),
        !text::contains(part, "rel=\"next\""@),
    ensures
        next_address(part + seq![','] + others) == next_address(others),
        next_address(part) is None,
{
    reveal_strlit(",");
    assert(","@ =~= seq![',']);
    text::lemma_split_off(part, ',', others);
    let parts = text::split(others, ","@);
    lemma_next_part_front(part, parts, 0);
    assert((seq![part] + parts)[0] == part);
    assert(seq![part][0] == part);
    reveal_with_fuel(next_part, 2);
}

/// What follows a page: the next one while the header names one, and the end after the
/// last; a rejected token, another refusal and a lost connection end it, each with its
/// own words. Only a page that came gives records: the elements of a list, or the one
/// value that it is.
pub proof fn lemma_page_says(
    json: JsonView,
    vs: Seq<JsonView>,
    link: Option<Seq<char>>,
    code: u16,
    status: Seq<char>,
    body: Seq<char>,
    error: Seq<char>,
)
    ensures
        reply_items(ReplyView::Answer { json: JsonView::Array(vs) }) == vs,
        !(json is Array) ==> reply_items(ReplyView::Answer { json }) == seq![json],
        reply_items(ReplyView::Refused { code, status, body }).len() == 0,
        reply_items(ReplyView::Unreachable { error }).len() == 0,
        reply_items(ReplyView::Garbled { error }).len() == 0,
        page_step_after(ReplyView::Answer { json }, None) is Done,
        link matches Some(l) ==> (next_address(l) is None ==> page_step_after(
            ReplyView::Answer { json },
            link,
        ) is Done),
        link matches Some(l) ==> (next_address(l) matches Some(u) ==> page_step_after(
            ReplyView::Answer { json },
            link,
        ) == (PageStepView::Fetch { url: u })),
        page_step_after(ReplyView::Refused { code: 401, status, body }, link) == (
        PageStepView::Fail {
            error:
                "Token rechazado o caducado (401). Genera uno nuevo en Canvas → Cuenta → Configuración."@,
        }),
        code != 401 && body.len() <= 200 ==> page_step_after(
            ReplyView::Refused { code, status, body },
            link,
        ) == (PageStepView::Fail { error: "HTTP "@ + status + ": "@ + body }),
        code != 401 && body.len() > 200 ==> page_step_after(
            ReplyView::Refused { code, status, body },
            link,
        ) == (PageStepView::Fail { error: "HTTP "@ + status + ": "@ + body.take(200) }),
        page_step_after(ReplyView::Unreachable { error }, link) == (PageStepView::Fail {
            error: "Conexión Canvas: "@ + error,
        }),
        page_step_after(ReplyView::Garbled { error }, link) == (PageStepView::Fail { error }),
{
}

/// Only an answer verifies the token, and it gives the name of its owner.
pub proof fn lemma_verified(reply: ReplyView)
    ensures
        verify_result(reply) is Ok <==> reply is Answer,
        reply matches ReplyView::Answer { json } ==> (json.get_str("name"@) matches Some(s)
            ==> verify_result(reply) == Ok::<Seq<char>, Seq<char>>(s)),
        reply matches ReplyView::Unreachable { error } ==> verify_result(reply) == Err::<
            Seq<char>,
            Seq<char>,
        >("Conexión: "@ + error),
        reply matches ReplyView::Garbled { error } ==> verify_result(reply) == Err::<
            Seq<char>,
            Seq<char>,
        >(error),
        reply matches ReplyView::Refused { code, status, body } ==> verify_result(reply) == Err::<
            Seq<char>,
            Seq<char>,
        >("Token rechazado (HTTP "@ + status + "). Revisa la URL y el token."@),
{
}

/// The pieces of a body, put together: those of two parts one behind the other, and a
/// single piece as it is.
pub proof fn lemma_glued(a: Seq<Seq<u8>>, b: Seq<Seq<u8>>, c: Seq<u8>)
    ensures
        glued(a + b) == glued(a) + glued(b),
        glued(seq![c]) == c,
        glued(Seq::<Seq<u8>>::empty()).len() == 0,
    decreases b.len(),
{
    reveal_with_fuel(glued, 2);
    assert(seq![c].drop_last().len() == 0);
    assert(glued(seq![c]) =~= c);
    if b.len() == 0 {
        assert(a + b =~= a);
        assert(glued(a) + glued(b) =~= glued(a));
    } else {
        lemma_glued(a, b.drop_last(), c);
        assert((a + b).drop_last() =~= a + b.drop_last());
        assert(glued(a + b) =~= glued(a) + glued(b));
    }
}

/// A course with a number and a name says what Canvas says of it; one without either is
/// left out.
pub proof fn lemma_course_says(c: JsonView, concluded: bool)
    ensures
        course_of(c, concluded) is Some <==> (c.get_u64("id"@) matches Some(n) && n != 0)
            && c.text_of("name"@).len() > 0,
        course_of(c, concluded) matches Some(r) ==> {
            &&& c.get_u64("id"@) == Some(r.id)
            &&& c.get_str("name"@) == Some(r.name)
            &&& c.get_str("course_code"@) matches Some(s) ==> r.code == s
            &&& c.get("term"@) matches Some(t) ==> r.term == t.text_of("name"@)
            &&& c.get("term"@) is None ==> r.term.len() == 0
            &&& r.concluded == concluded
        },
{
}

/// The first records alone decide what they add.
proof fn lemma_with_active_prefix(courses: Seq<CourseView>, a: Seq<JsonView>, b: Seq<JsonView>, n: int)
    requires
        0 <= n <= a.len(),
    ensures
        with_active(courses, a + b, n) == with_active(courses, a, n),
    decreases n,
{
    if n > 0 {
        lemma_with_active_prefix(courses, a, b, n - 1);
        assert((a + b)[n - 1] == a[n - 1]);
    }
}

/// What two lists add, one behind the other.
proof fn lemma_with_active_add(courses: Seq<CourseView>, a: Seq<JsonView>, b: Seq<JsonView>, n: int)
    requires
        0 <= n <= b.len(),
    ensures
        with_active(courses, a + b, a.len() + n) == with_active(
            with_active(courses, a, a.len() as int),
            b,
            n,
        ),
    decreases n,
{
    if n == 0 {
        lemma_with_active_prefix(courses, a, b, a.len() as int);
    } else {
        lemma_with_active_add(courses, a, b, n - 1);
        assert((a + b)[a.len() + n - 1] == b[n - 1]);
    }
}

/// The first records alone decide what they add.
proof fn lemma_with_all_past_prefix(courses: Seq<CourseView>, a: Seq<JsonView>, b: Seq<JsonView>, n: int)
    requires
        0 <= n <= a.len(),
    ensures
        with_all_past(courses, a + b, n) == with_all_past(courses, a, n),
    decreases n,
{
    if n > 0 {
        lemma_with_all_past_prefix(courses, a, b, n - 1);
        assert((a + b)[n - 1] == a[n - 1]);
    }
}

/// What two lists add, one behind the other.
proof fn lemma_with_all_past_add(courses: Seq<CourseView>, a: Seq<JsonView>, b: Seq<JsonView>, n: int)
    requires
        0 <= n <= b.len(),
    ensures
        with_all_past(courses, a + b, a.len() + n) == with_all_past(
            with_all_past(courses, a, a.len() as int),
            b,
            n,
        ),
    decreases n,
{
    if n == 0 {
        lemma_with_all_past_prefix(courses, a, b, a.len() as int);
    } else {
        lemma_with_all_past_add(courses, a, b, n - 1);
        assert((a + b)[a.len() + n - 1] == b[n - 1]);
    }
}

/// Active courses are added in the order of the list, each as one that is not over.
pub proof fn lemma_active_added(
    courses: Seq<CourseView>,
    a: Seq<JsonView>,
    b: Seq<JsonView>,
    x: JsonView,
)
    ensures
        with_active(courses, a + b, (a + b).len() as int) == with_active(
            with_active(courses, a, a.len() as int),
            b,
            b.len() as int,
        ),
        course_of(x, false) matches Some(c) ==> with_active(courses, seq![x], 1) == courses.push(c)
            && !c.concluded,
        course_of(x, false) is None ==> with_active(courses, seq![x], 1) == courses,
{
    lemma_with_active_add(courses, a, b, b.len() as int);
    reveal_with_fuel(with_active, 2);
}

/// Courses that are over are added in the order of the list, each as one that is over,
/// unless a course with its number is already there: that one stays as it is.
pub proof fn lemma_past_added(
    courses: Seq<CourseView>,
    a: Seq<JsonView>,
    b: Seq<JsonView>,
    x: JsonView,
)
    ensures
        with_all_past(courses, a + b, (a + b).len() as int) == with_all_past(
            with_all_past(courses, a, a.len() as int),
            b,
            b.len() as int,
        ),
        course_of(x, true) is None ==> with_all_past(courses, seq![x], 1) == courses,
        course_of(x, true) matches Some(c) ==> {
            &&& c.concluded
            &&& (exists|i: int| 0 <= i < courses.len() && (#[trigger] courses[i]).id == c.id)
                ==> with_all_past(courses, seq![x], 1) == courses
            &&& !(exists|i: int| 0 <= i < courses.len() && (#[trigger] courses[i]).id == c.id)
                ==> with_all_past(courses, seq![x], 1) == courses.push(c)
        },
{
    lemma_with_all_past_add(courses, a, b, b.len() as int);
    reveal_with_fuel(with_all_past, 2);
}

/// Some enrolment names the course.
pub open spec fn enrolled(raw: Seq<JsonView>, n: int, id: u64) -> bool {
    exists|i: int| 0 <= i < n && (#[trigger] raw[i]).get_u64("course_id"@) == Some(id)
}

/// The courses to be asked for one by one are those that some enrolment names and no
/// list did, each once.
pub proof fn lemma_missing_courses(courses: Seq<CourseView>, raw: Seq<JsonView>, n: int)
    requires
        0 <= n <= raw.len(),
    ensures
        forall|id: u64| #[trigger]
            unknown_ids(courses, raw, n).contains(id) <==> enrolled(raw, n, id) && !(exists|i: int|
                0 <= i < courses.len() && (#[trigger] courses[i]).id == id),
        unknown_ids(courses, raw, n).no_duplicates(),
    decreases n,
{
    if n > 0 {
        lemma_missing_courses(courses, raw, n - 1);
        let before = unknown_ids(courses, raw, n - 1);
        let after = unknown_ids(courses, raw, n);
        assert forall|id: u64| #[trigger]
            after.contains(id) <==> enrolled(raw, n, id) && !(exists|i: int|
                0 <= i < courses.len() && (#[trigger] courses[i]).id == id) by {
            let new = raw[n - 1].get_u64("course_id"@);
            assert(enrolled(raw, n, id) <==> enrolled(raw, n - 1, id) || new == Some(id)) by {
                if enrolled(raw, n, id) {
                    let i = choose|i: int|
                        0 <= i < n && (#[trigger] raw[i]).get_u64("course_id"@) == Some(id);
                    assert(i < n - 1 || i == n - 1);
                }
                if enrolled(raw, n - 1, id) {
                    let i = choose|i: int|
                        0 <= i < n - 1 && (#[trigger] raw[i]).get_u64("course_id"@) == Some(id);
                    assert(raw[i].get_u64("course_id"@) == Some(id));
                }
                if new == Some(id) {
                    assert(raw[n - 1].get_u64("course_id"@) == Some(id));
                }
            }
            if new is Some && !knows(courses, new->0) && !before.contains(new->0) {
                assert(after == before.push(new->0));
                assert(after[before.len() as int] == new->0);
                if before.contains(id) {
                    let k = choose|k: int| 0 <= k < before.len() && before[k] == id;
                    assert(after[k] == id);
                }
            }
        }
    }
}

/// The run asks for the active courses first, then for those that are over, then for
/// the enrolments, and last for each course that is still missing, one at a time; only
/// a failure to get the active ones stops it, and after that a reply that failed adds
/// nothing.
pub proof fn lemma_run_order(run: CoursesRunView, raw: Seq<JsonView>, e: Seq<char>)
    ensures
        run_start().stage is Active,
        run_start().courses.len() == 0,
        run.stage is Active ==> {
            &&& run_next(run, Err(e)) == Err::<CoursesRunView, Seq<char>>(e)
            &&& run_next(run, Ok(raw)) matches Ok(next) && next.stage is Past && next.courses
                == with_active(run.courses, raw, raw.len() as int)
        },
        run.stage is Past ==> {
            &&& run_next(run, Err(e)) matches Ok(next) && next.stage is Enrolled && next.courses
                == run.courses
            &&& run_next(run, Ok(raw)) matches Ok(next) && next.stage is Enrolled && next.courses
                == with_all_past(run.courses, raw, raw.len() as int)
        },
        run.stage is Enrolled ==> {
            &&& run_next(run, Err(e)) matches Ok(next) && next.stage is Over && next.courses
                == run.courses
            &&& run_next(run, Ok(raw)) matches Ok(next) && next.courses == run.courses && (
            if unknown_ids(run.courses, raw, raw.len() as int).len() == 0 {
                next.stage is Over
            } else {
                next.stage == (CoursesStageView::Single {
                    ids: unknown_ids(run.courses, raw, raw.len() as int),
                })
            })
        },
        run.stage is Over ==> run_next(run, Ok(raw)) == Ok::<CoursesRunView, Seq<char>>(run),
{
}

/// A single course is asked for by its number; its reply adds it as one that is over,
/// unless it is known, and the rest of the missing ones are asked for in their order.
pub proof fn lemma_single_course(
    courses: Seq<CourseView>,
    id: u64,
    ids: Seq<u64>,
    x: JsonView,
    base: Seq<char>,
    e: Seq<char>,
)
    ensures
        ({
            let run = CoursesRunView {
                stage: CoursesStageView::Single { ids: seq![id] + ids },
                courses,
            };
            &&& run_url(base, run.stage) == Some(
                base + "/courses/"@ + text::decimal(id as nat) + "?include[]=term"@,
            )
            &&& run_next(run, Ok(seq![x])) matches Ok(next) && next.courses == with_all_past(
                courses,
                seq![x],
                1,
            ) && (if ids.len() == 0 {
                next.stage is Over
            } else {
                next.stage == (CoursesStageView::Single { ids })
            })
            &&& run_next(run, Err(e)) matches Ok(next) && next.courses == courses
        }),
{
    reveal_with_fuel(with_all_past, 2);
    assert((seq![id] + ids).skip(1) =~= ids);
    assert((seq![id] + ids)[0] == id);
}

/// Each stage asks Canvas for its own list.
pub proof fn lemma_stage_addresses(base: Seq<char>)
    ensures
        run_url(base, CoursesStageView::Active) == Some(
            base + "/courses?enrollment_state=active&per_page=100&include[]=term"@,
        ),
        run_url(base, CoursesStageView::Past) == Some(
            base + "/courses?enrollment_state=completed&per_page=100&include[]=term"@,
        ),
        run_url(base, CoursesStageView::Enrolled) == Some(
            base
                + "/users/self/enrollments?per_page=100&state[]=active&state[]=completed&state[]=inactive"@,
        ),
        run_url(base, CoursesStageView::Over) is None,
{
}

/// What is seen of a run is what it holds, each thing as itself.
pub proof fn lemma_courses_run_seen(x: CoursesRun)
    ensures
        x@.stage == x.stage@,
        x@.courses == text::views(x.courses@),
{
}

/// What is seen of a step is what it is.
pub proof fn lemma_page_step_seen(x: PageStep)
    ensures
        x matches PageStep::Fetch { url } ==> x@ == (PageStepView::Fetch { url: url@ }),
        x is Done ==> x@ is Done,
        x matches PageStep::Fail { error } ==> x@ == (PageStepView::Fail { error: error@ }),
{
}

/// What is seen of a stage is what it is: of single courses, those still to be asked for.
pub proof fn lemma_courses_stage_seen(x: CoursesStage)
    ensures
        x is Active ==> x@ is Active,
        x is Past ==> x@ is Past,
        x is Enrolled ==> x@ is Enrolled,
        x is Over ==> x@ is Over,
        x matches CoursesStage::Single { ids, next } ==> x@ == (CoursesStageView::Single {
            ids: ids@.skip(next as int),
        }),
{
}

/// A header can be read where the part that names the next page has its brackets in
/// order; only one that closes before it opens cannot.
pub proof fn lemma_brackets(part: Seq<char>, a: Seq<char>, b: Seq<char>)
    requires
        !part.contains(','),
        text::contains(part, "rel=\"next\""@),
    ensures
        !part.contains('<') || !part.contains('>') ==> well_bracketed(part),
        part == a + seq!['<'] + b && !a.contains('>') && !a.contains('<') ==> well_bracketed(part),
        part == a + seq!['>'] + b && !a.contains('<') && !a.contains('>') && b.contains('<')
            ==> !well_bracketed(part),
{
    reveal_strlit(",");
    assert(","@ =~= seq![',']);
    text::lemma_split_off(part, ',', Seq::empty());
    assert(seq![part][0] == part);
    text::lemma_first_index(part, '<');
    text::lemma_first_index(part, '>');
    if text::first_index(part, '<') is Some && text::first_index(part, '>') is Some {
        let p = text::first_index(part, '<')->0;
        let q = text::first_index(part, '>')->0;
        assert(part.contains(part[p]) && part.contains(part[q]));
        let n = a.len() as int;
        if part == a + seq!['<'] + b && !a.contains('>') && !a.contains('<') {
            assert(part[n] == '<');
            if q < n {
                assert(a[q] == '>');
            }
        }
        if part == a + seq!['>'] + b && !a.contains('<') && !a.contains('>') {
            assert(part[n] == '>');
            if p < n {
                assert(a[p] == '<');
            }
        }
    }
    if part == a + seq!['>'] + b && b.contains('<') {
        let m = choose|m: int| 0 <= m < b.len() && b[m] == '<';
        assert(part[a.len() + 1 + m] == '<');
        assert(part[a.len() as int] == '>');
    }
}

/// A body grows piece by piece.
pub proof fn lemma_body_grows(chunks: Seq<Vec<u8>>, c: Vec<u8>)
    ensures
        body_of(chunks.push(c)) == body_of(chunks) + c@,
        body_of(Seq::<Vec<u8>>::empty()).len() == 0,
{
    let all = chunks.push(c).map_values(|c: Vec<u8>| c@);
    assert(all.drop_last() =~= chunks.map_values(|c: Vec<u8>| c@));
    assert(all.last() == c@);
}

} // verus!
