//! What the program remembers of the courses: the records and the whole state.

use vstd::prelude::*;
use crate::text;
use crate::paths;

verus! {

/// A course of Canvas.
pub struct Course {
    pub id: u64,
    pub name: String,
    pub code: String,
    pub term: String,
    /// Whether the course is over (enrolment completed): low priority.
    pub concluded: bool,
}

/// What a `Course` holds.
#[verifier::ext_equal]
pub struct CourseView {
    pub id: u64,
    pub name: Seq<char>,
    pub code: Seq<char>,
    pub term: Seq<char>,
    pub concluded: bool,
}

impl View for Course {
    type V = CourseView;

    open spec fn view(&self) -> CourseView {
        CourseView {
            id: self.id,
            name: self.name@,
            code: self.code@,
            term: self.term@,
            concluded: self.concluded,
        }
    }
}

impl Default for Course {
    fn default() -> (r: Course)
        ensures
            r@ == (CourseView {
                id: 0,
                name: seq![],
                code: seq![],
                term: seq![],
                concluded: false,
            }),
    {
        Course {
            id: 0,
            name: String::new(),
            code: String::new(),
            term: String::new(),
            concluded: false,
        }
    }
}

impl Clone for Course {
    fn clone(&self) -> (r: Course)
        ensures
            r@ == self@,
    {
        Course {
            id: self.id,
            name: self.name.clone(),
            code: self.code.clone(),
            term: self.term.clone(),
            concluded: self.concluded,
        }
    }
}

/// An assignment or assessment with a due date.
pub struct Assignment {
    pub id: u64,
    pub course_id: u64,
    pub course_name: String,
    pub name: String,
    /// When it is due, as an ISO 8601 text.
    pub due_at: Option<String>,
    /// The points it is worth: the bits of a double-precision number.
    pub points: Option<u64>,
    pub html_url: String,
    /// Whether a submission is on record.
    pub submitted: bool,
    /// Workflow state of the submission.
    pub state: String,
    /// What the user said of it: `done`, `dismissed` or nothing.
    pub user_status: String,
}

/// What a `Assignment` holds.
#[verifier::ext_equal]
pub struct AssignmentView {
    pub id: u64,
    pub course_id: u64,
    pub course_name: Seq<char>,
    pub name: Seq<char>,
    pub due_at: Option<Seq<char>>,
    pub points: Option<u64>,
    pub html_url: Seq<char>,
    pub submitted: bool,
    pub state: Seq<char>,
    pub user_status: Seq<char>,
}

impl View for Assignment {
    type V = AssignmentView;

    open spec fn view(&self) -> AssignmentView {
        AssignmentView {
            id: self.id,
            course_id: self.course_id,
            course_name: self.course_name@,
            name: self.name@,
            due_at: text::opt_view(self.due_at),
            points: self.points,
            html_url: self.html_url@,
            submitted: self.submitted,
            state: self.state@,
            user_status: self.user_status@,
        }
    }
}

impl Default for Assignment {
    fn default() -> (r: Assignment)
        ensures
            r@ == (AssignmentView {
                id: 0,
                course_id: 0,
                course_name: seq![],
                name: seq![],
                due_at: None,
                points: None,
                html_url: seq![],
                submitted: false,
                state: seq![],
                user_status: seq![],
            }),
    {
        Assignment {
            id: 0,
            course_id: 0,
            course_name: String::new(),
            name: String::new(),
            due_at: None,
            points: None,
            html_url: String::new(),
            submitted: false,
            state: String::new(),
            user_status: String::new(),
        }
    }
}

impl Clone for Assignment {
    fn clone(&self) -> (r: Assignment)
        ensures
            r@ == self@,
    {
        Assignment {
            id: self.id,
            course_id: self.course_id,
            course_name: self.course_name.clone(),
            name: self.name.clone(),
            due_at: self.due_at.clone(),
            points: self.points,
            html_url: self.html_url.clone(),
            submitted: self.submitted,
            state: self.state.clone(),
            user_status: self.user_status.clone(),
        }
    }
}

/// A file of a course.
pub struct CanvasFile {
    pub id: u64,
    pub course_id: u64,
    pub course_name: String,
    /// Folder within the course, as Canvas names it.
    pub folder: String,
    pub filename: String,
    pub url: String,
    pub size: u64,
    pub content_type: String,
    /// Where the file was downloaded to; empty while it was not.
    pub local_path: String,
    pub category: String,
    /// Whether it was classified by reading its content.
    pub content_done: bool,
    /// Whether the user fixed the category by hand.
    pub category_manual: bool,
    pub summary: String,
    /// The embedding: the bits of single-precision numbers.
    pub embedding: Vec<u32>,
    /// Where a PDF of the summary lies.
    pub summary_pdf: String,
}

/// What a `CanvasFile` holds.
#[verifier::ext_equal]
pub struct CanvasFileView {
    pub id: u64,
    pub course_id: u64,
    pub course_name: Seq<char>,
    pub folder: Seq<char>,
    pub filename: Seq<char>,
    pub url: Seq<char>,
    pub size: u64,
    pub content_type: Seq<char>,
    pub local_path: Seq<char>,
    pub category: Seq<char>,
    pub content_done: bool,
    pub category_manual: bool,
    pub summary: Seq<char>,
    pub embedding: Seq<u32>,
    pub summary_pdf: Seq<char>,
}

impl View for CanvasFile {
    type V = CanvasFileView;

    open spec fn view(&self) -> CanvasFileView {
        CanvasFileView {
            id: self.id,
            course_id: self.course_id,
            course_name: self.course_name@,
            folder: self.folder@,
            filename: self.filename@,
            url: self.url@,
            size: self.size,
            content_type: self.content_type@,
            local_path: self.local_path@,
            category: self.category@,
            content_done: self.content_done,
            category_manual: self.category_manual,
            summary: self.summary@,
            embedding: self.embedding@,
            summary_pdf: self.summary_pdf@,
        }
    }
}

impl Default for CanvasFile {
    fn default() -> (r: CanvasFile)
        ensures
            r@ == (CanvasFileView {
                id: 0,
                course_id: 0,
                course_name: seq![],
                folder: seq![],
                filename: seq![],
                url: seq![],
                size: 0,
                content_type: seq![],
                local_path: seq![],
                category: seq![],
                content_done: false,
                category_manual: false,
                summary: seq![],
                embedding: seq![],
                summary_pdf: seq![],
            }),
    {
        CanvasFile {
            id: 0,
            course_id: 0,
            course_name: String::new(),
            folder: String::new(),
            filename: String::new(),
            url: String::new(),
            size: 0,
            content_type: String::new(),
            local_path: String::new(),
            category: String::new(),
            content_done: false,
            category_manual: false,
            summary: String::new(),
            embedding: Vec::new(),
            summary_pdf: String::new(),
        }
    }
}

impl Clone for CanvasFile {
    fn clone(&self) -> (r: CanvasFile)
        ensures
            r@ == self@,
    {
        let embedding = self.embedding.clone();
        assert(embedding@ =~= self.embedding@);
        CanvasFile {
            id: self.id,
            course_id: self.course_id,
            course_name: self.course_name.clone(),
            folder: self.folder.clone(),
            filename: self.filename.clone(),
            url: self.url.clone(),
            size: self.size,
            content_type: self.content_type.clone(),
            local_path: self.local_path.clone(),
            category: self.category.clone(),
            content_done: self.content_done,
            category_manual: self.category_manual,
            summary: self.summary.clone(),
            embedding,
            summary_pdf: self.summary_pdf.clone(),
        }
    }
}

/// The general summary of a course for one category.
pub struct CourseSummary {
    pub course_id: u64,
    pub course_name: String,
    pub category: String,
    pub summary: String,
}

/// What a `CourseSummary` holds.
#[verifier::ext_equal]
pub struct CourseSummaryView {
    pub course_id: u64,
    pub course_name: Seq<char>,
    pub category: Seq<char>,
    pub summary: Seq<char>,
}

impl View for CourseSummary {
    type V = CourseSummaryView;

    open spec fn view(&self) -> CourseSummaryView {
        CourseSummaryView {
            course_id: self.course_id,
            course_name: self.course_name@,
            category: self.category@,
            summary: self.summary@,
        }
    }
}

impl Default for CourseSummary {
    fn default() -> (r: CourseSummary)
        ensures
            r@ == (CourseSummaryView {
                course_id: 0,
                course_name: seq![],
                category: seq![],
                summary: seq![],
            }),
    {
        CourseSummary {
            course_id: 0,
            course_name: String::new(),
            category: String::new(),
            summary: String::new(),
        }
    }
}

impl Clone for CourseSummary {
    fn clone(&self) -> (r: CourseSummary)
        ensures
            r@ == self@,
    {
        CourseSummary {
            course_id: self.course_id,
            course_name: self.course_name.clone(),
            category: self.category.clone(),
            summary: self.summary.clone(),
        }
    }
}

/// An event of the calendar.
pub struct CalEvent {
    pub id: String,
    pub title: String,
    /// ISO date or date and time.
    pub date: String,
    pub course_name: String,
    /// `detected`, `announcement` or `manual`.
    pub source: String,
}

/// What a `CalEvent` holds.
#[verifier::ext_equal]
pub struct CalEventView {
    pub id: Seq<char>,
    pub title: Seq<char>,
    pub date: Seq<char>,
    pub course_name: Seq<char>,
    pub source: Seq<char>,
}

impl View for CalEvent {
    type V = CalEventView;

    open spec fn view(&self) -> CalEventView {
        CalEventView {
            id: self.id@,
            title: self.title@,
            date: self.date@,
            course_name: self.course_name@,
            source: self.source@,
        }
    }
}

impl Default for CalEvent {
    fn default() -> (r: CalEvent)
        ensures
            r@ == (CalEventView {
                id: seq![],
                title: seq![],
                date: seq![],
                course_name: seq![],
                source: seq![],
            }),
    {
        CalEvent {
            id: String::new(),
            title: String::new(),
            date: String::new(),
            course_name: String::new(),
            source: String::new(),
        }
    }
}

impl Clone for CalEvent {
    fn clone(&self) -> (r: CalEvent)
        ensures
            r@ == self@,
    {
        CalEvent {
            id: self.id.clone(),
            title: self.title.clone(),
            date: self.date.clone(),
            course_name: self.course_name.clone(),
            source: self.source.clone(),
        }
    }
}

/// An announcement of a course.
pub struct Announcement {
    pub id: u64,
    pub course_id: u64,
    pub course_name: String,
    pub title: String,
    /// The body as plain text.
    pub message: String,
    pub posted_at: String,
    /// Whether its dates were already read.
    pub dates_done: bool,
}

/// What a `Announcement` holds.
#[verifier::ext_equal]
pub struct AnnouncementView {
    pub id: u64,
    pub course_id: u64,
    pub course_name: Seq<char>,
    pub title: Seq<char>,
    pub message: Seq<char>,
    pub posted_at: Seq<char>,
    pub dates_done: bool,
}

impl View for Announcement {
    type V = AnnouncementView;

    open spec fn view(&self) -> AnnouncementView {
        AnnouncementView {
            id: self.id,
            course_id: self.course_id,
            course_name: self.course_name@,
            title: self.title@,
            message: self.message@,
            posted_at: self.posted_at@,
            dates_done: self.dates_done,
        }
    }
}

impl Default for Announcement {
    fn default() -> (r: Announcement)
        ensures
            r@ == (AnnouncementView {
                id: 0,
                course_id: 0,
                course_name: seq![],
                title: seq![],
                message: seq![],
                posted_at: seq![],
                dates_done: false,
            }),
    {
        Announcement {
            id: 0,
            course_id: 0,
            course_name: String::new(),
            title: String::new(),
            message: String::new(),
            posted_at: String::new(),
            dates_done: false,
        }
    }
}

impl Clone for Announcement {
    fn clone(&self) -> (r: Announcement)
        ensures
            r@ == self@,
    {
        Announcement {
            id: self.id,
            course_id: self.course_id,
            course_name: self.course_name.clone(),
            title: self.title.clone(),
            message: self.message.clone(),
            posted_at: self.posted_at.clone(),
            dates_done: self.dates_done,
        }
    }
}

/// Everything that is kept between two runs.
pub struct AppState {
    pub courses: Vec<Course>,
    pub assignments: Vec<Assignment>,
    pub files: Vec<CanvasFile>,
    pub course_summaries: Vec<CourseSummary>,
    pub events: Vec<CalEvent>,
    pub announcements: Vec<Announcement>,
    /// When the last synchronisation was, as an ISO 8601 text.
    pub last_sync: String,
    /// Keys of the notices already sent.
    pub notified: Vec<String>,
}

/// What a `AppState` holds.
#[verifier::ext_equal]
pub struct AppStateView {
    pub courses: Seq<CourseView>,
    pub assignments: Seq<AssignmentView>,
    pub files: Seq<CanvasFileView>,
    pub course_summaries: Seq<CourseSummaryView>,
    pub events: Seq<CalEventView>,
    pub announcements: Seq<AnnouncementView>,
    pub last_sync: Seq<char>,
    pub notified: Seq<Seq<char>>,
}

impl View for AppState {
    type V = AppStateView;

    open spec fn view(&self) -> AppStateView {
        AppStateView {
            courses: text::views(self.courses@),
            assignments: text::views(self.assignments@),
            files: text::views(self.files@),
            course_summaries: text::views(self.course_summaries@),
            events: text::views(self.events@),
            announcements: text::views(self.announcements@),
            last_sync: self.last_sync@,
            notified: text::views(self.notified@),
        }
    }
}

impl Default for AppState {
    fn default() -> (r: AppState)
        ensures
            r@ == (AppStateView {
                courses: seq![],
                assignments: seq![],
                files: seq![],
                course_summaries: seq![],
                events: seq![],
                announcements: seq![],
                last_sync: seq![],
                notified: seq![],
            }),
    {
        let r = AppState {
            courses: Vec::new(),
            assignments: Vec::new(),
            files: Vec::new(),
            course_summaries: Vec::new(),
            events: Vec::new(),
            announcements: Vec::new(),
            last_sync: String::new(),
            notified: Vec::new(),
        };
        assert(text::views(r.courses@) =~= seq![]);
        assert(text::views(r.assignments@) =~= seq![]);
        assert(text::views(r.files@) =~= seq![]);
        assert(text::views(r.course_summaries@) =~= seq![]);
        assert(text::views(r.events@) =~= seq![]);
        assert(text::views(r.announcements@) =~= seq![]);
        assert(text::views(r.notified@) =~= seq![]);
        r
    }
}

/// Where the state is kept, under the download folder.
pub fn state_path(download_dir: &str) -> (r: String)
    ensures
        r@ == paths::path_push(paths::path_push(download_dir@, ".aula"@), "state.json"@),
{
    paths::join_path(paths::join_path(download_dir, ".aula").as_str(), "state.json")
}

/// What is seen of a course is what it holds, each thing as itself.
pub proof fn lemma_course_seen(x: Course)
    ensures
        x@.id == x.id,
        x@.name == x.name@,
        x@.code == x.code@,
        x@.term == x.term@,
        x@.concluded == x.concluded,
{
}

/// What is seen of an assignment is what it holds, each thing as itself.
pub proof fn lemma_assignment_seen(x: Assignment)
    ensures
        x@.id == x.id,
        x@.course_id == x.course_id,
        x@.course_name == x.course_name@,
        x@.name == x.name@,
        x@.due_at == text::opt_view(x.due_at),
        x@.points == x.points,
        x@.html_url == x.html_url@,
        x@.submitted == x.submitted,
        x@.state == x.state@,
        x@.user_status == x.user_status@,
{
}

/// What is seen of a file is what it holds, each thing as itself.
pub proof fn lemma_canvas_file_seen(x: CanvasFile)
    ensures
        x@.id == x.id,
        x@.course_id == x.course_id,
        x@.course_name == x.course_name@,
        x@.folder == x.folder@,
        x@.filename == x.filename@,
        x@.url == x.url@,
        x@.size == x.size,
        x@.content_type == x.content_type@,
        x@.local_path == x.local_path@,
        x@.category == x.category@,
        x@.content_done == x.content_done,
        x@.category_manual == x.category_manual,
        x@.summary == x.summary@,
        x@.embedding == x.embedding@,
        x@.summary_pdf == x.summary_pdf@,
{
}

/// What is seen of a general summary is what it holds, each thing as itself.
pub proof fn lemma_course_summary_seen(x: CourseSummary)
    ensures
        x@.course_id == x.course_id,
        x@.course_name == x.course_name@,
        x@.category == x.category@,
        x@.summary == x.summary@,
{
}

/// What is seen of an event is what it holds, each thing as itself.
pub proof fn lemma_cal_event_seen(x: CalEvent)
    ensures
        x@.id == x.id@,
        x@.title == x.title@,
        x@.date == x.date@,
        x@.course_name == x.course_name@,
        x@.source == x.source@,
{
}

/// What is seen of an announcement is what it holds, each thing as itself.
pub proof fn lemma_announcement_seen(x: Announcement)
    ensures
        x@.id == x.id,
        x@.course_id == x.course_id,
        x@.course_name == x.course_name@,
        x@.title == x.title@,
        x@.message == x.message@,
        x@.posted_at == x.posted_at@,
        x@.dates_done == x.dates_done,
{
}

/// What is seen of a state is what it holds, each thing as itself.
pub proof fn lemma_app_state_seen(x: AppState)
    ensures
        x@.courses == text::views(x.courses@),
        x@.assignments == text::views(x.assignments@),
        x@.files == text::views(x.files@),
        x@.course_summaries == text::views(x.course_summaries@),
        x@.events == text::views(x.events@),
        x@.announcements == text::views(x.announcements@),
        x@.last_sync == x.last_sync@,
        x@.notified == text::views(x.notified@),
{
}

} // verus!
