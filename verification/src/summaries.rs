//! Summaries: of single files, and general ones of each category of a course.

use vstd::prelude::*;
use vstd::string::*;
use crate::categories::{is_summarizable, SUMMARIZABLE};
use crate::categories;
use crate::cloud;
use crate::config::AppConfig;
use crate::download::warn_of_file;
use crate::download;
use crate::events::find_file;
use crate::events;
use crate::labels::{concluded_ids, course_labels, label_or};
use crate::labels;
use crate::places::{
    general_dest, general_file_text, summary_dest, summary_file_text, FileToWrite, FileToWriteView,
};
use crate::places;
use crate::progress::{Progress, ProgressView};
use crate::progress;
use crate::prompts::summarize_course;
use crate::prompts;
use crate::queue::queue;
use crate::queue;
use crate::store::{
    AppState, AppStateView, CanvasFile, CanvasFileView, Course, CourseSummary, CourseSummaryView,
    CourseView,
};
use crate::text;

verus! {

// ---------------------------------------------------------------------------
// Single files
// ---------------------------------------------------------------------------

/// Whether a file is to be summed up: it was downloaded, has no summary, and is
/// of a category worth one.
pub open spec fn wants_summary(f: CanvasFileView) -> bool {
    f.local_path.len() > 0 && f.summary.len() == 0 && text::is_one_of(f.category, SUMMARIZABLE@)
}

/// The files to sum up, those of past courses last.
pub open spec fn summary_queue(st: AppStateView) -> Seq<usize> {
    queue::queue_of(
        st.files,
        labels::past_ids(st.courses),
        |f: CanvasFileView| wants_summary(f),
    )
}

/// The positions of the files to sum up, those of past courses last.
pub fn pending_summaries(state: &AppState) -> (r: Vec<usize>)
    ensures
        r@ == summary_queue(state@),
{
    let past = concluded_ids(state);
    let ghost want = |f: CanvasFileView| wants_summary(f);
    let mut wanted: Vec<bool> = Vec::new();
    let mut i: usize = 0;
    while i < state.files.len()
        invariant
            i <= state.files@.len(),
            want == (|f: CanvasFileView| wants_summary(f)),
            wanted@.len() == i,
            forall|j: int| 0 <= j < i ==> #[trigger] wanted@[j] == want(state.files@[j]@),
        decreases state.files.len() - i,
    {
        let f = &state.files[i];
        wanted.push(
            !f.local_path.as_str().is_empty() && f.summary.as_str().is_empty() && is_summarizable(
                f.category.as_str(),
            ),
        );
        i += 1;
    }
    queue(&state.files, &wanted, &past, Ghost(want))
}

/// The notice that the `n`-th file of the queue is being summed up.
pub fn summary_step(file: &CanvasFile, n: usize, total: usize) -> (r: Progress)
    requires
        n < total,
    ensures
        r@ == (ProgressView::Step {
            phase: "summarize"@,
            current: (n + 1) as u64,
            total: total as u64,
            message: file@.filename,
        }),
{
    progress::step("summarize", (n + 1) as u64, total as u64, file.filename.clone())
}

/// Where the summary of a file of the state belongs.
pub open spec fn summary_path_of(download_dir: Seq<char>, st: AppStateView, i: int) -> Seq<char> {
    let f = st.files[i];
    places::summary_place(
        download_dir,
        f,
        labels::folder_label(labels::labels_of(st.courses), f.course_id, f.course_name),
        labels::past_ids(st.courses).contains(f.course_id),
    )
}

/// Where the summary of the file at position `idx` belongs.
pub fn summary_path(cfg: &AppConfig, state: &AppState, idx: usize) -> (r: String)
    requires
        idx < state@.files.len(),
    ensures
        r@ == summary_path_of(cfg@.download_dir, state@, idx as int),
{
    broadcast use vstd::std_specs::hash::group_hash_axioms;

    let names = course_labels(state);
    let past = concluded_ids(state);
    let f = &state.files[idx];
    assert(state@.files[idx as int] == f@);
    let folder = label_or(&names, f.course_id, f.course_name.as_str());
    summary_dest(cfg, f, folder.as_str(), past.contains(&f.course_id))
}

/// Takes in what became of summing up the file at position `idx`: its summary,
/// or a notice on why there is none.
pub fn take_summary(state: &mut AppState, idx: usize, outcome: Result<String, String>) -> (r: Option<
    Progress,
>)
    requires
        idx < old(state)@.files.len(),
    ensures
        match outcome {
            Ok(s) => r is None && final(state)@ == (AppStateView {
                files: old(state)@.files.update(
                    idx as int,
                    CanvasFileView { summary: s@, ..old(state)@.files[idx as int] },
                ),
                ..old(state)@
            }),
            Err(e) => r is Some && r->0@ == download::file_warning(
                old(state)@.files[idx as int].filename,
                e@,
            ) && *final(state) == *old(state),
        },
{
    let ghost before = state@;
    match outcome {
        Ok(s) => {
            state.files[idx].summary = s;
            assert(state@.files =~= before.files.update(
                idx as int,
                CanvasFileView { summary: s@, ..before.files[idx as int] },
            ));
            None
        },
        Err(e) => Some(warn_of_file(state.files[idx].filename.as_str(), e.as_str())),
    }
}

/// The notice that the summaries of single files are done.
pub fn summaries_done(total: usize) -> (r: Progress)
    ensures
        r@ == (ProgressView::Done {
            message: if total == 0 {
                "Nada que resumir (clasifica primero)."@
            } else {
                text::decimal(total as nat) + " resúmenes individuales generados."@
            },
        }),
{
    if total == 0 {
        progress::done("Nada que resumir (clasifica primero).".to_owned())
    } else {
        let mut s = text::number(total as u64);
        s.append(" resúmenes individuales generados.");
        progress::done(s)
    }
}

/// The file with this number that can be summed up; or why there is none.
pub open spec fn summarizable_file(st: AppStateView, file_id: u64) -> Result<int, Seq<char>> {
    match events::file_from(st.files, file_id, 0) {
        Some(i) => if st.files[i].local_path.len() == 0 {
            Err("El archivo no está descargado."@)
        } else {
            Ok(i)
        },
        None => Err("Archivo no encontrado"@),
    }
}

/// The position of the file with this number, where it can be summed up.
pub fn summarize_file(state: &AppState, file_id: u64) -> (r: Result<usize, String>)
    ensures
        match r {
            Ok(i) => i < state@.files.len() && summarizable_file(state@, file_id) == Ok::<
                int,
                Seq<char>,
            >(i as int),
            Err(e) => summarizable_file(state@, file_id) == Err::<int, Seq<char>>(e@),
        },
{
    match find_file(&state.files, file_id) {
        Some(i) => {
            assert(state@.files[i as int] == state.files@[i as int]@);
            if state.files[i].local_path.as_str().is_empty() {
                Err("El archivo no está descargado.".to_owned())
            } else {
                Ok(i)
            }
        },
        None => Err("Archivo no encontrado".to_owned()),
    }
}

/// A file that has a summary is not summed up again.
pub proof fn lemma_summed_up_once(f: CanvasFileView, s: Seq<char>)
    requires
        s.len() > 0,
    ensures
        !wants_summary(CanvasFileView { summary: s, ..f }),
{
}

/// A run of summaries of single files.
pub struct SummaryRun {
    pub state: AppState,
    /// The files to sum up.
    pub queue: Vec<usize>,
    /// The one of them that is next.
    pub at: usize,
}

/// What a run has come to.
#[verifier::ext_equal]
pub struct SummaryRunView {
    pub state: AppStateView,
    pub queue: Seq<usize>,
    pub at: int,
}

impl View for SummaryRun {
    type V = SummaryRunView;

    open spec fn view(&self) -> SummaryRunView {
        SummaryRunView { state: self.state@, queue: self.queue@, at: self.at as int }
    }
}

impl SummaryRunView {
    /// The queue holds positions of files.
    pub open spec fn wf(self) -> bool {
        &&& 0 <= self.at <= self.queue.len()
        &&& forall|k: int|
            0 <= k < self.queue.len() ==> (#[trigger] self.queue[k]) < self.state.files.len()
    }

    /// Nothing is left to sum up.
    pub open spec fn over(self) -> bool {
        self.at >= self.queue.len()
    }

    /// The position of the file that is next.
    pub open spec fn next(self) -> int {
        self.queue[self.at] as int
    }
}

/// The run after a file, `outcome` being its summary or why there is none.
pub open spec fn summary_run_after(
    run: SummaryRunView,
    outcome: Result<Seq<char>, Seq<char>>,
) -> SummaryRunView {
    let i = run.next();
    SummaryRunView {
        state: match outcome {
            Ok(s) => AppStateView {
                files: run.state.files.update(
                    i,
                    CanvasFileView { summary: s, ..run.state.files[i] },
                ),
                ..run.state
            },
            Err(_) => run.state,
        },
        at: run.at + 1,
        ..run
    }
}

impl SummaryRun {
    /// A run before its first file.
    pub fn begin(state: AppState) -> (r: SummaryRun)
        ensures
            r@ == (SummaryRunView { state: state@, queue: summary_queue(state@), at: 0 }),
            r@.wf(),
    {
        let queue = pending_summaries(&state);
        proof {
            assert(state.files.len() <= usize::MAX);
            queue::lemma_queue(
                state@.files,
                labels::past_ids(state@.courses),
                |f: CanvasFileView| wants_summary(f),
            );
        }
        SummaryRun { state, queue, at: 0 }
    }

    /// Whether nothing is left to sum up.
    pub fn is_over(&self) -> (r: bool)
        ensures
            r == self@.over(),
    {
        self.at >= self.queue.len()
    }

    /// The position of the file that is next.
    pub fn next(&self) -> (r: usize)
        requires
            self@.wf(),
            !self@.over(),
        ensures
            r == self@.next(),
            r < self@.state.files.len(),
    {
        assert(self@.queue[self.at as int] < self@.state.files.len());
        self.queue[self.at]
    }

    /// The notice that the next file is being summed up.
    pub fn notice(&self) -> (r: Progress)
        requires
            self@.wf(),
            !self@.over(),
        ensures
            r@ == (ProgressView::Step {
                phase: "summarize"@,
                current: (self@.at + 1) as u64,
                total: self@.queue.len() as u64,
                message: self@.state.files[self@.next()].filename,
            }),
    {
        let i: usize = self.next();
        assert(self@.state.files[i as int] == self.state.files@[i as int]@);
        summary_step(&self.state.files[i], self.at, self.queue.len())
    }

    /// Takes in what became of summing up the next file, and goes on to the one
    /// behind it. Returns the file to write, or the notice on why there is none.
    pub fn take(&mut self, cfg: &AppConfig, outcome: Result<String, String>) -> (r: Result<
        FileToWrite,
        Progress,
    >)
        requires
            old(self)@.wf(),
            !old(self)@.over(),
        ensures
            final(self)@ == summary_run_after(old(self)@, cloud::result_view(outcome)),
            final(self)@.wf(),
            match outcome {
                Ok(s) => r is Ok && r->Ok_0@ == (FileToWriteView {
                    path: summary_path_of(
                        cfg@.download_dir,
                        old(self)@.state,
                        old(self)@.next(),
                    ),
                    text: places::summary_document(
                        old(self)@.state.files[old(self)@.next()],
                        s@,
                    ),
                }),
                Err(e) => r is Err && r->Err_0@ == download::file_warning(
                    old(self)@.state.files[old(self)@.next()].filename,
                    e@,
                ),
            },
    {
        let ghost before = self@;
        let i: usize = self.next();
        assert(before.state.files[i as int] == self.state.files@[i as int]@);
        let r = match &outcome {
            Ok(s) => {
                let path = summary_path(cfg, &self.state, i);
                let text = summary_file_text(&self.state.files[i], s.as_str());
                Ok(FileToWrite { path, text })
            },
            Err(e) => Err(warn_of_file(self.state.files[i].filename.as_str(), e.as_str())),
        };
        let _ = take_summary(&mut self.state, i, outcome);
        assert(self.at < self.queue.len());
        self.at = self.at + 1;
        assert(self@ =~= summary_run_after(before, cloud::result_view(outcome)));
        r
    }
}

// ---------------------------------------------------------------------------
// General summaries
// ---------------------------------------------------------------------------

/// Whether a file is a summed-up one of this course.
pub open spec fn summed_up(f: CanvasFileView, course_id: u64) -> bool {
    f.course_id == course_id && f.summary.len() > 0
}

/// Whether a course has a summary of a file.
pub open spec fn has_summaries(files: Seq<CanvasFileView>, course_id: u64) -> bool {
    exists|i: int| 0 <= i < files.len() && summed_up(#[trigger] files[i], course_id)
}

/// Whether a course has a summary of a file.
pub fn course_has_summaries(state: &AppState, course_id: u64) -> (r: bool)
    ensures
        r == has_summaries(state@.files, course_id),
{
    let mut i: usize = 0;
    while i < state.files.len()
        invariant
            i <= state.files@.len(),
            forall|j: int| 0 <= j < i ==> !summed_up(#[trigger] state@.files[j], course_id),
        decreases state.files.len() - i,
    {
        let f = &state.files[i];
        assert(state@.files[i as int] == f@);
        if f.course_id == course_id && !f.summary.as_str().is_empty() {
            assert(summed_up(state@.files[i as int], course_id));
            return true;
        }
        i += 1;
    }
    false
}

/// The numbers of the first `n` courses that have summaries.
pub open spec fn with_summaries_upto(st: AppStateView, n: int) -> Seq<u64>
    decreases n,
{
    if n <= 0 {
        seq![]
    } else if has_summaries(st.files, st.courses[n - 1].id) {
        with_summaries_upto(st, n - 1).push(st.courses[n - 1].id)
    } else {
        with_summaries_upto(st, n - 1)
    }
}

/// The numbers of the courses that have summaries.
pub fn courses_with_summaries(state: &AppState) -> (r: Vec<u64>)
    ensures
        r@ == with_summaries_upto(state@, state@.courses.len() as int),
{
    let mut out: Vec<u64> = Vec::new();
    let mut i: usize = 0;
    while i < state.courses.len()
        invariant
            i <= state.courses@.len(),
            out@ == with_summaries_upto(state@, i as int),
        decreases state.courses.len() - i,
    {
        assert(state@.courses[i as int] == state.courses@[i as int]@);
        let id = state.courses[i].id;
        if course_has_summaries(state, id) {
            out.push(id);
        }
        i += 1;
    }
    out
}

/// The position of the first course with this number, from `i` on.
pub open spec fn course_from(courses: Seq<CourseView>, id: u64, i: int) -> Option<int>
    decreases courses.len() - i,
{
    if i < 0 || i >= courses.len() {
        None
    } else if courses[i].id == id {
        Some(i)
    } else {
        course_from(courses, id, i + 1)
    }
}

/// The position of the first course with this number.
pub fn find_course(courses: &Vec<Course>, id: u64) -> (r: Option<usize>)
    ensures
        match r {
            Some(i) => i < courses@.len() && course_from(text::views(courses@), id, 0) == Some(
                i as int,
            ),
            None => course_from(text::views(courses@), id, 0) is None,
        },
{
    let ghost cs = text::views(courses@);
    let mut i: usize = 0;
    while i < courses.len()
        invariant
            i <= courses@.len(),
            cs == text::views(courses@),
            course_from(cs, id, 0) == course_from(cs, id, i as int),
        decreases courses.len() - i,
    {
        assert(cs[i as int] == courses@[i as int]@);
        if courses[i].id == id {
            return Some(i);
        }
        i += 1;
    }
    None
}

/// One general summary to write.
pub struct GeneralJob {
    pub course_id: u64,
    pub name: String,
    /// The label of the course's folder.
    pub folder: String,
    pub concluded: bool,
    pub category: String,
    /// The single summaries.
    pub body: String,
}

/// What a general summary is to be written of.
#[verifier::ext_equal]
pub struct GeneralJobView {
    pub course_id: u64,
    pub name: Seq<char>,
    pub folder: Seq<char>,
    pub concluded: bool,
    pub category: Seq<char>,
    pub body: Seq<char>,
}

impl View for GeneralJob {
    type V = GeneralJobView;

    open spec fn view(&self) -> GeneralJobView {
        GeneralJobView {
            course_id: self.course_id,
            name: self.name@,
            folder: self.folder@,
            concluded: self.concluded,
            category: self.category@,
            body: self.body@,
        }
    }
}

/// The categories of the summed-up files of a course among the first `n` files,
/// each once, in the order in which they come up.
pub open spec fn categories_upto(
    files: Seq<CanvasFileView>,
    course_id: u64,
    n: int,
) -> Seq<Seq<char>>
    decreases n,
{
    if n <= 0 {
        seq![]
    } else {
        let before = categories_upto(files, course_id, n - 1);
        let f = files[n - 1];
        if summed_up(f, course_id) && text::is_one_of(f.category, SUMMARIZABLE@)
            && !before.contains(f.category) {
            before.push(f.category)
        } else {
            before
        }
    }
}

/// The summaries of one category of a course among the first `n` files, each
/// under the name of its file.
pub open spec fn body_upto(
    files: Seq<CanvasFileView>,
    course_id: u64,
    category: Seq<char>,
    n: int,
) -> Seq<char>
    decreases n,
{
    if n <= 0 {
        seq![]
    } else {
        let before = body_upto(files, course_id, category, n - 1);
        let f = files[n - 1];
        if summed_up(f, course_id) && f.category == category {
            before + ("## "@ + f.filename + "\n"@ + f.summary + "\n\n"@)
        } else {
            before
        }
    }
}

/// The general summaries to write of the first `n` categories of a course.
pub open spec fn jobs_of_categories(
    files: Seq<CanvasFileView>,
    course: CourseView,
    folder: Seq<char>,
    cats: Seq<Seq<char>>,
    n: int,
) -> Seq<GeneralJobView>
    decreases n,
{
    if n <= 0 {
        seq![]
    } else {
        let before = jobs_of_categories(files, course, folder, cats, n - 1);
        let body = body_upto(files, course.id, cats[n - 1], files.len() as int);
        if text::blank(body) {
            before
        } else {
            before.push(
                GeneralJobView {
                    course_id: course.id,
                    name: course.name,
                    folder,
                    concluded: course.concluded,
                    category: cats[n - 1],
                    body,
                },
            )
        }
    }
}

/// The general summaries to write of one course; none where the state does not
/// know it.
pub open spec fn jobs_of_course(st: AppStateView, course_id: u64) -> Seq<GeneralJobView> {
    match course_from(st.courses, course_id, 0) {
        Some(i) => {
            let cats = categories_upto(st.files, course_id, st.files.len() as int);
            jobs_of_categories(
                st.files,
                st.courses[i],
                labels::folder_label(
                    labels::labels_of(st.courses),
                    course_id,
                    st.courses[i].name,
                ),
                cats,
                cats.len() as int,
            )
        },
        None => seq![],
    }
}

/// The general summaries to write of the first `n` courses given.
pub open spec fn jobs_upto(st: AppStateView, ids: Seq<u64>, n: int) -> Seq<GeneralJobView>
    decreases n,
{
    if n <= 0 {
        seq![]
    } else {
        jobs_upto(st, ids, n - 1) + jobs_of_course(st, ids[n - 1])
    }
}

/// The categories of the summed-up files of a course, each once.
fn categories_of(files: &Vec<CanvasFile>, course_id: u64) -> (r: Vec<String>)
    ensures
        text::views(r@) == categories_upto(
            text::views(files@),
            course_id,
            files@.len() as int,
        ),
{
    let ghost fs = text::views(files@);
    let mut out: Vec<String> = Vec::new();
    let mut i: usize = 0;
    assert(text::views(out@) =~= seq![]);
    while i < files.len()
        invariant
            i <= files@.len(),
            fs == text::views(files@),
            text::views(out@) == categories_upto(fs, course_id, i as int),
        decreases files.len() - i,
    {
        let f = &files[i];
        assert(fs[i as int] == f@);
        if f.course_id == course_id && !f.summary.as_str().is_empty() && is_summarizable(
            f.category.as_str(),
        ) {
            let ghost seen = text::views(out@);
            let mut listed = false;
            let mut k: usize = 0;
            while k < out.len()
                invariant
                    k <= out@.len(),
                    seen == text::views(out@),
                    listed == exists|j: int| 0 <= j < k && #[trigger] seen[j] == f.category@,
                decreases out.len() - k,
            {
                assert(seen[k as int] == out@[k as int]@);
                if text::same(out[k].as_str(), f.category.as_str()) {
                    listed = true;
                }
                k += 1;
            }
            assert(listed == seen.contains(f.category@));
            if !listed {
                let c = f.category.clone();
                proof {
                    text::lemma_views_push(out@, c);
                }
                out.push(c);
            }
        }
        i += 1;
    }
    out
}

/// The summaries of one category of a course, each under the name of its file.
fn body_of(files: &Vec<CanvasFile>, course_id: u64, category: &str) -> (r: String)
    ensures
        r@ == body_upto(text::views(files@), course_id, category@, files@.len() as int),
{
    let ghost fs = text::views(files@);
    let mut out = String::new();
    let mut i: usize = 0;
    while i < files.len()
        invariant
            i <= files@.len(),
            fs == text::views(files@),
            out@ == body_upto(fs, course_id, category@, i as int),
        decreases files.len() - i,
    {
        let f = &files[i];
        assert(fs[i as int] == f@);
        if f.course_id == course_id && !f.summary.as_str().is_empty() && text::same(
            f.category.as_str(),
            category,
        ) {
            let mut part = "## ".to_owned();
            part.append(f.filename.as_str());
            part.append("\n");
            part.append(f.summary.as_str());
            part.append("\n\n");
            out.append(part.as_str());
        }
        i += 1;
    }
    out
}

/// Puts the general summaries to write of one course behind the others.
fn push_jobs(jobs: &mut Vec<GeneralJob>, state: &AppState, course: &Course, folder: &str)
    ensures
        text::views(final(jobs)@) == text::views(old(jobs)@) + jobs_of_categories(
            state@.files,
            course@,
            folder@,
            categories_upto(state@.files, course@.id, state@.files.len() as int),
            categories_upto(state@.files, course@.id, state@.files.len() as int).len() as int,
        ),
{
    let cats = categories_of(&state.files, course.id);
    let ghost cv = text::views(cats@);
    let ghost fs = state@.files;
    let ghost before = text::views(jobs@);
    let mut k: usize = 0;
    assert(text::views(jobs@) =~= before + jobs_of_categories(fs, course@, folder@, cv, 0));
    while k < cats.len()
        invariant
            k <= cats@.len(),
            cv == text::views(cats@),
            fs == state@.files,
            text::views(jobs@) == before + jobs_of_categories(fs, course@, folder@, cv, k as int),
        decreases cats.len() - k,
    {
        assert(cv[k as int] == cats@[k as int]@);
        let body = body_of(&state.files, course.id, cats[k].as_str());
        if !text::is_blank(body.as_str()) {
            let job = GeneralJob {
                course_id: course.id,
                name: course.name.clone(),
                folder: folder.to_owned(),
                concluded: course.concluded,
                category: cats[k].clone(),
                body,
            };
            proof {
                text::lemma_views_push(jobs@, job);
                let old_jobs = jobs_of_categories(fs, course@, folder@, cv, k as int);
                assert(before + old_jobs.push(job@) =~= (before + old_jobs).push(job@));
            }
            jobs.push(job);
        }
        k += 1;
    }
}

/// The general summaries to write of these courses: one for each category of
/// their summed-up files.
pub fn general_jobs(state: &AppState, course_ids: &Vec<u64>) -> (r: Vec<GeneralJob>)
    ensures
        text::views(r@) == jobs_upto(state@, course_ids@, course_ids@.len() as int),
{
    let names = course_labels(state);
    let mut jobs: Vec<GeneralJob> = Vec::new();
    let mut k: usize = 0;
    assert(text::views(jobs@) =~= seq![]);
    while k < course_ids.len()
        invariant
            k <= course_ids@.len(),
            labels::text_map(names@) == labels::labels_of(state@.courses),
            text::views(jobs@) == jobs_upto(state@, course_ids@, k as int),
        decreases course_ids.len() - k,
    {
        let id = course_ids[k];
        let ghost before = text::views(jobs@);
        match find_course(&state.courses, id) {
            Some(i) => {
                let course = &state.courses[i];
                assert(state@.courses[i as int] == course@);
                proof {
                    lemma_course_from(state@.courses, id, 0);
                }
                let folder = label_or(&names, id, course.name.as_str());
                push_jobs(&mut jobs, state, course, folder.as_str());
            },
            None => {
                assert(before + seq![] =~= before);
            },
        }
        k += 1;
    }
    jobs
}

/// What the search for a course finds.
proof fn lemma_course_from(courses: Seq<CourseView>, id: u64, i: int)
    requires
        0 <= i <= courses.len(),
    ensures
        match course_from(courses, id, i) {
            Some(k) => i <= k < courses.len() && courses[k].id == id,
            None => forall|j: int| i <= j < courses.len() ==> (#[trigger] courses[j]).id != id,
        },
    decreases courses.len() - i,
{
    if i < courses.len() && courses[i].id != id {
        lemma_course_from(courses, id, i + 1);
    }
}

/// The notice that the `i`-th general summary is being written.
pub fn general_step(job: &GeneralJob, i: usize, total: usize) -> (r: Progress)
    requires
        i < total,
    ensures
        r@ == (ProgressView::Step {
            phase: "general"@,
            current: (i + 1) as u64,
            total: total as u64,
            message: job@.name + " · "@ + job@.category,
        }),
{
    let mut s = job.name.clone();
    s.append(" · ");
    s.append(job.category.as_str());
    progress::step("general", (i + 1) as u64, total as u64, s)
}

/// The notice that the web is being searched for a course.
pub fn searching_web(job: &GeneralJob) -> (r: Progress)
    ensures
        r@ == (ProgressView::Log { message: "🌐 Buscando en la web: "@ + job@.name + "…"@ }),
{
    let mut s = "🌐 Buscando en la web: ".to_owned();
    s.append(job.name.as_str());
    s.append("…");
    progress::log(s)
}

/// What the web is searched for.
pub fn web_query(job: &GeneralJob) -> (r: String)
    ensures
        r@ == job@.name + " "@ + job@.category + " conceptos clave universidad"@,
{
    let mut s = job.name.clone();
    s.append(" ");
    s.append(job.category.as_str());
    s.append(" conceptos clave universidad");
    s
}

/// The position of the first general summary of this course and category, from
/// `i` on.
pub open spec fn general_from(
    all: Seq<CourseSummaryView>,
    course_id: u64,
    category: Seq<char>,
    i: int,
) -> Option<int>
    decreases all.len() - i,
{
    if i < 0 || i >= all.len() {
        None
    } else if all[i].course_id == course_id && all[i].category == category {
        Some(i)
    } else {
        general_from(all, course_id, category, i + 1)
    }
}

/// The position of the first general summary of this course and category.
fn find_general(all: &Vec<CourseSummary>, course_id: u64, category: &str) -> (r: Option<usize>)
    ensures
        match r {
            Some(i) => i < all@.len() && general_from(
                text::views(all@),
                course_id,
                category@,
                0,
            ) == Some(i as int),
            None => general_from(text::views(all@), course_id, category@, 0) is None,
        },
{
    let ghost av = text::views(all@);
    let mut i: usize = 0;
    while i < all.len()
        invariant
            i <= all@.len(),
            av == text::views(all@),
            general_from(av, course_id, category@, 0) == general_from(
                av,
                course_id,
                category@,
                i as int,
            ),
        decreases all.len() - i,
    {
        assert(av[i as int] == all@[i as int]@);
        if all[i].course_id == course_id && text::same(all[i].category.as_str(), category) {
            return Some(i);
        }
        i += 1;
    }
    None
}

/// The general summary of before, empty where there is none.
pub open spec fn previous_of(
    all: Seq<CourseSummaryView>,
    course_id: u64,
    category: Seq<char>,
) -> Seq<char> {
    match general_from(all, course_id, category, 0) {
        Some(i) => all[i].summary,
        None => seq![],
    }
}

/// The general summary of before.
pub fn previous_summary(state: &AppState, job: &GeneralJob) -> (r: String)
    ensures
        r@ == previous_of(state@.course_summaries, job@.course_id, job@.category),
{
    match find_general(&state.course_summaries, job.course_id, job.category.as_str()) {
        Some(i) => {
            assert(state@.course_summaries[i as int] == state.course_summaries@[i as int]@);
            state.course_summaries[i].summary.clone()
        },
        None => {
            let none = String::new();
            assert(none@ =~= seq![]);
            none
        },
    }
}

/// The general summaries with a new one: it takes the place of that of its
/// course and category, or comes last.
pub open spec fn with_general(
    all: Seq<CourseSummaryView>,
    new: CourseSummaryView,
) -> Seq<CourseSummaryView> {
    match general_from(all, new.course_id, new.category, 0) {
        Some(i) => all.update(
            i,
            CourseSummaryView {
                summary: new.summary,
                course_name: new.course_name,
                ..all[i]
            },
        ),
        None => all.push(new),
    }
}

/// The notice on a general summary that could not be written.
pub open spec fn general_warning(job: GeneralJobView, error: Seq<char>) -> ProgressView {
    ProgressView::Log { message: "⚠ "@ + job.name + " ("@ + job.category + "): "@ + error }
}

/// The notice on a general summary that could not be written.
fn warn_of_general(job: &GeneralJob, error: &str) -> (r: Progress)
    ensures
        r@ == general_warning(job@, error@),
{
    let mut s = "⚠ ".to_owned();
    s.append(job.name.as_str());
    s.append(" (");
    s.append(job.category.as_str());
    s.append("): ");
    s.append(error);
    progress::log(s)
}

/// Takes in what became of a general summary: the summary, or a notice on why
/// there is none.
pub fn take_general(state: &mut AppState, job: &GeneralJob, outcome: Result<String, String>) -> (r:
    Option<Progress>)
    ensures
        match outcome {
            Ok(s) => r is None && final(state)@ == (AppStateView {
                course_summaries: with_general(
                    old(state)@.course_summaries,
                    CourseSummaryView {
                        course_id: job@.course_id,
                        course_name: job@.name,
                        category: job@.category,
                        summary: s@,
                    },
                ),
                ..old(state)@
            }),
            Err(e) => r is Some && r->0@ == general_warning(job@, e@) && *final(state) == *old(
                state,
            ),
        },
{
    let ghost before = state@;
    match outcome {
        Ok(s) => {
            let ghost new = CourseSummaryView {
                course_id: job@.course_id,
                course_name: job@.name,
                category: job@.category,
                summary: s@,
            };
            match find_general(&state.course_summaries, job.course_id, job.category.as_str()) {
                Some(i) => {
                    state.course_summaries[i].summary = s;
                    state.course_summaries[i].course_name = job.name.clone();
                },
                None => {
                    state.course_summaries.push(
                        CourseSummary {
                            course_id: job.course_id,
                            course_name: job.name.clone(),
                            category: job.category.clone(),
                            summary: s,
                        },
                    );
                },
            }
            assert(state@.course_summaries =~= with_general(before.course_summaries, new));
            None
        },
        Err(e) => Some(warn_of_general(job, e.as_str())),
    }
}

/// A run of general summaries.
pub struct GeneralRun {
    pub state: AppState,
    /// The general summaries to write.
    pub jobs: Vec<GeneralJob>,
    /// The one of them that is next.
    pub at: usize,
    /// Whether the web is searched for each of them.
    pub use_web: bool,
}

/// What a run has come to.
#[verifier::ext_equal]
pub struct GeneralRunView {
    pub state: AppStateView,
    pub jobs: Seq<GeneralJobView>,
    pub at: int,
    pub use_web: bool,
}

impl View for GeneralRun {
    type V = GeneralRunView;

    open spec fn view(&self) -> GeneralRunView {
        GeneralRunView {
            state: self.state@,
            jobs: text::views(self.jobs@),
            at: self.at as int,
            use_web: self.use_web,
        }
    }
}

impl GeneralRunView {
    /// Nothing is left to write.
    pub open spec fn over(self) -> bool {
        self.at >= self.jobs.len()
    }
}

/// The run after a general summary, `outcome` being it or why there is none.
pub open spec fn general_run_after(
    run: GeneralRunView,
    outcome: Result<Seq<char>, Seq<char>>,
) -> GeneralRunView {
    let job = run.jobs[run.at];
    GeneralRunView {
        state: match outcome {
            Ok(s) => AppStateView {
                course_summaries: with_general(
                    run.state.course_summaries,
                    CourseSummaryView {
                        course_id: job.course_id,
                        course_name: job.name,
                        category: job.category,
                        summary: s,
                    },
                ),
                ..run.state
            },
            Err(_) => run.state,
        },
        at: run.at + 1,
        ..run
    }
}

impl GeneralRun {
    /// A run over these courses, before its first summary.
    pub fn begin(state: AppState, course_ids: &Vec<u64>, use_web: bool) -> (r: GeneralRun)
        ensures
            r@ == (GeneralRunView {
                state: state@,
                jobs: jobs_upto(state@, course_ids@, course_ids@.len() as int),
                at: 0,
                use_web,
            }),
    {
        let jobs = general_jobs(&state, course_ids);
        GeneralRun { state, jobs, at: 0, use_web }
    }

    /// Whether nothing is left to write.
    pub fn is_over(&self) -> (r: bool)
        ensures
            r == self@.over(),
    {
        self.at >= self.jobs.len()
    }

    /// The notice that the next general summary is being written.
    pub fn notice(&self) -> (r: Progress)
        requires
            !self@.over(),
        ensures
            r@ == (ProgressView::Step {
                phase: "general"@,
                current: (self@.at + 1) as u64,
                total: self@.jobs.len() as u64,
                message: self@.jobs[self@.at].name + " · "@ + self@.jobs[self@.at].category,
            }),
    {
        assert(self@.jobs[self@.at] == self.jobs@[self.at as int]@);
        general_step(&self.jobs[self.at], self.at, self.jobs.len())
    }

    /// The notice that the web is being searched, and what for; nothing where the
    /// run does without the web.
    pub fn web_search(&self) -> (r: Option<(Progress, String)>)
        requires
            !self@.over(),
        ensures
            r is Some == self@.use_web,
            r matches Some(search) ==> {
                &&& search.0@ == (ProgressView::Log {
                    message: "🌐 Buscando en la web: "@ + self@.jobs[self@.at].name + "…"@,
                })
                &&& search.1@ == self@.jobs[self@.at].name + " "@ + self@.jobs[self@.at].category
                    + " conceptos clave universidad"@
            },
    {
        if !self.use_web {
            return None;
        }
        assert(self@.jobs[self@.at] == self.jobs@[self.at as int]@);
        Some((searching_web(&self.jobs[self.at]), web_query(&self.jobs[self.at])))
    }

    /// The question for the next general summary, `web` being what the web says, or
    /// nothing: the summary of before goes into it.
    pub fn question(&self, web: &str) -> (r: Result<String, String>)
        requires
            !self@.over(),
        ensures
            cloud::result_view(r) == ({
                let job = self@.jobs[self@.at];
                prompts::general_question(
                    job.name,
                    job.category,
                    job.body,
                    previous_of(self@.state.course_summaries, job.course_id, job.category),
                    web@,
                )
            }),
    {
        assert(self@.jobs[self@.at] == self.jobs@[self.at as int]@);
        let job = &self.jobs[self.at];
        let previous = previous_summary(&self.state, job);
        summarize_course(
            job.name.as_str(),
            job.category.as_str(),
            job.body.as_str(),
            previous.as_str(),
            web,
        )
    }

    /// Takes in what became of the next general summary, and goes on to the one
    /// behind it. Returns the file to write, or the notice on why there is none.
    pub fn take(&mut self, cfg: &AppConfig, outcome: Result<String, String>) -> (r: Result<
        FileToWrite,
        Progress,
    >)
        requires
            !old(self)@.over(),
        ensures
            final(self)@ == general_run_after(old(self)@, cloud::result_view(outcome)),
            match outcome {
                Ok(s) => r is Ok && r->Ok_0@ == ({
                    let job = old(self)@.jobs[old(self)@.at];
                    FileToWriteView {
                        path: places::general_place(
                            cfg@.download_dir,
                            job.folder,
                            job.concluded,
                            job.category,
                        ),
                        text: places::general_document(job.category, job.name, s@),
                    }
                }),
                Err(e) => r is Err && r->Err_0@ == general_warning(
                    old(self)@.jobs[old(self)@.at],
                    e@,
                ),
            },
    {
        let ghost before = self@;
        assert(before.jobs[before.at] == self.jobs@[self.at as int]@);
        let job = &self.jobs[self.at];
        let r = match &outcome {
            Ok(s) => {
                let path = general_dest(
                    cfg,
                    job.folder.as_str(),
                    job.concluded,
                    job.category.as_str(),
                );
                let text = general_file_text(job.category.as_str(), job.name.as_str(), s.as_str());
                Ok(FileToWrite { path, text })
            },
            Err(e) => Err(warn_of_general(job, e.as_str())),
        };
        let _ = take_general(&mut self.state, job, outcome);
        assert(self.at < self.jobs.len());
        self.at = self.at + 1;
        assert(self@ =~= general_run_after(before, cloud::result_view(outcome)));
        r
    }
}

/// The notice where no course has summaries.
pub fn nothing_to_sum_up() -> (r: Progress)
    ensures
        r@ == (ProgressView::Done {
            message: "Nada que resumir (clasifica y descarga primero)."@,
        }),
{
    progress::done("Nada que resumir (clasifica y descarga primero).".to_owned())
}

/// The notice that everything is summed up.
pub fn everything_done(single: usize, courses: usize) -> (r: Progress)
    ensures
        r@ == (ProgressView::Done {
            message: "Listo: "@ + text::decimal(single as nat)
                + " resúmenes individuales + resumen general de "@ + text::decimal(
                courses as nat,
            ) + " ramos."@,
        }),
{
    let mut s = "Listo: ".to_owned();
    s.append(text::number(single as u64).as_str());
    s.append(" resúmenes individuales + resumen general de ");
    s.append(text::number(courses as u64).as_str());
    s.append(" ramos.");
    progress::done(s)
}

/// The notice that stops the general summary of one course: it is not known, or
/// none of its files is summed up.
pub open spec fn course_refused(st: AppStateView, course_id: u64) -> Option<ProgressView> {
    if course_from(st.courses, course_id, 0) is None {
        Some(ProgressView::Error { message: "Ramo no encontrado"@ })
    } else if !has_summaries(st.files, course_id) {
        Some(
            ProgressView::Done {
                message: "Primero resume las clases del ramo (Resumir → individual)."@,
            },
        )
    } else {
        None
    }
}

/// The notice that stops the general summary of one course, where it cannot be
/// written.
pub fn summarize_course_refused(state: &AppState, course_id: u64) -> (r: Option<Progress>)
    ensures
        text::opt_view(r) == course_refused(state@, course_id),
{
    match find_course(&state.courses, course_id) {
        None => Some(progress::error("Ramo no encontrado")),
        Some(_) => if course_has_summaries(state, course_id) {
            None
        } else {
            Some(
                progress::done(
                    "Primero resume las clases del ramo (Resumir → individual).".to_owned(),
                ),
            )
        },
    }
}

/// The notice that the general summary of one course is done.
pub fn course_done() -> (r: Progress)
    ensures
        r@ == (ProgressView::Done { message: "Resumen general listo."@ }),
{
    progress::done("Resumen general listo.".to_owned())
}

// ---------------------------------------------------------------------------
// Laws
// ---------------------------------------------------------------------------

/// What the search for a general summary finds.
proof fn lemma_general_from(
    all: Seq<CourseSummaryView>,
    course_id: u64,
    category: Seq<char>,
    i: int,
)
    requires
        0 <= i <= all.len(),
    ensures
        match general_from(all, course_id, category, i) {
            Some(k) => i <= k < all.len() && all[k].course_id == course_id && all[k].category
                == category && forall|j: int|
                i <= j < k ==> !((#[trigger] all[j]).course_id == course_id && all[j].category
                    == category),
            None => forall|j: int|
                i <= j < all.len() ==> !((#[trigger] all[j]).course_id == course_id
                    && all[j].category == category),
        },
    decreases all.len() - i,
{
    if i < all.len() && !(all[i].course_id == course_id && all[i].category == category) {
        lemma_general_from(all, course_id, category, i + 1);
    }
}

/// A general summary that was written is the one of before for the next, those
/// of other courses and categories stay as they were, and courses and categories
/// that had one at most still do.
pub proof fn lemma_general_kept(all: Seq<CourseSummaryView>, new: CourseSummaryView)
    ensures
        previous_of(with_general(all, new), new.course_id, new.category) == new.summary,
        forall|i: int|
            0 <= i < all.len() && !((#[trigger] all[i]).course_id == new.course_id
                && all[i].category == new.category) ==> with_general(all, new)[i] == all[i],
        (forall|i: int, j: int|
            0 <= i < j < all.len() ==> !((#[trigger] all[i]).course_id == (
            #[trigger] all[j]).course_id && all[i].category == all[j].category)) ==> forall|
            i: int,
            j: int,
        |
            0 <= i < j < with_general(all, new).len() ==> !((#[trigger] with_general(
                all,
                new,
            )[i]).course_id == (#[trigger] with_general(all, new)[j]).course_id && with_general(
                all,
                new,
            )[i].category == with_general(all, new)[j].category),
{
    let out = with_general(all, new);
    lemma_general_from(all, new.course_id, new.category, 0);
    lemma_general_from(out, new.course_id, new.category, 0);
    match general_from(all, new.course_id, new.category, 0) {
        Some(k) => {
            assert(out[k].course_id == new.course_id && out[k].category == new.category);
            let m = general_from(out, new.course_id, new.category, 0)->0;
            if m < k {
                assert(out[m] == all[m]);
            }
            assert(m == k);
        },
        None => {
            assert(out[all.len() as int] == new);
            let m = general_from(out, new.course_id, new.category, 0)->0;
            if m < all.len() {
                assert(out[m] == all[m]);
            }
        },
    }
    assert forall|i: int| 0 <= i < all.len() implies (#[trigger] out[i]).course_id
        == all[i].course_id && out[i].category == all[i].category by {}
}

/// The categories of a course's general summaries are worth a summary, and each
/// comes up once.
pub proof fn lemma_categories_once(files: Seq<CanvasFileView>, course_id: u64, n: int)
    requires
        0 <= n <= files.len(),
    ensures
        categories_upto(files, course_id, n).no_duplicates(),
        forall|k: int|
            0 <= k < categories_upto(files, course_id, n).len() ==> text::is_one_of(
                #[trigger] categories_upto(files, course_id, n)[k],
                SUMMARIZABLE@,
            ),
    decreases n,
{
    if n > 0 {
        lemma_categories_once(files, course_id, n - 1);
        let before = categories_upto(files, course_id, n - 1);
        let after = categories_upto(files, course_id, n);
        if after.len() > before.len() {
            assert forall|i: int, j: int|
                0 <= i < after.len() && 0 <= j < after.len() && i != j implies after[i]
                != after[j] by {
                if i == before.len() {
                    assert(before.contains(before[j]));
                }
                if j == before.len() {
                    assert(before.contains(before[i]));
                }
            }
            assert forall|k: int| 0 <= k < after.len() implies text::is_one_of(
                #[trigger] after[k],
                SUMMARIZABLE@,
            ) by {
                if k < before.len() {
                    assert(after[k] == before[k]);
                }
            }
        }
    }
}

// ---------------------------------------------------------------------------
// What the general summaries rest on
// ---------------------------------------------------------------------------

/// The part of a general summary's material that comes from one file.
pub open spec fn is_part_of(part: Seq<char>, f: CanvasFileView) -> bool {
    part == "## "@ + f.filename + "\n"@ + f.summary + "\n\n"@
}

/// Some file of the course and category is summed up.
pub open spec fn has_material(
    files: Seq<CanvasFileView>,
    course_id: u64,
    category: Seq<char>,
) -> bool {
    exists|i: int|
        0 <= i < files.len() && (#[trigger] files[i]).course_id == course_id && files[i].category
            == category && files[i].summary.len() > 0
}

/// What stands in the front of a text stands in the text.
proof fn lemma_contains_front(a: Seq<char>, b: Seq<char>, k: Seq<char>)
    requires
        text::contains(a, k),
    ensures
        text::contains(a + b, k),
{
    let i = choose|i: int| text::occurs_at(a, k, i);
    assert((a + b).subrange(i, i + k.len()) =~= a.subrange(i, i + k.len()));
    assert(text::occurs_at(a + b, k, i));
}

/// The end of a text stands in the text.
proof fn lemma_contains_back(a: Seq<char>, b: Seq<char>)
    ensures
        text::contains(a + b, b),
{
    assert((a + b).subrange(a.len() as int, (a.len() + b.len()) as int) =~= b);
    assert(text::occurs_at(a + b, b, a.len() as int));
}

/// The material of one category grows file by file: a file that belongs to it adds
/// its name and its summary at the end, any other file adds nothing. So every summary
/// is in it, in the order of the files.
pub proof fn lemma_material_grows(
    files: Seq<CanvasFileView>,
    course_id: u64,
    category: Seq<char>,
    n: int,
    i: int,
)
    requires
        0 <= i < n <= files.len(),
    ensures
        ({
            let f = files[i];
            let before = body_upto(files, course_id, category, i);
            let after = body_upto(files, course_id, category, i + 1);
            if f.course_id == course_id && f.category == category && f.summary.len() > 0 {
                exists|part: Seq<char>| #[trigger] is_part_of(part, f) && after == before + part
            } else {
                after == before
            }
        }),
        body_upto(files, course_id, category, 0).len() == 0,
        body_upto(files, course_id, category, i + 1).is_prefix_of(
            body_upto(files, course_id, category, n),
        ),
        files[i].course_id == course_id && files[i].category == category && files[i].summary.len()
            > 0 ==> text::contains(
            body_upto(files, course_id, category, n),
            "## "@ + files[i].filename + "\n"@ + files[i].summary + "\n\n"@,
        ),
    decreases n,
{
    let f = files[i];
    let part = "## "@ + f.filename + "\n"@ + f.summary + "\n\n"@;
    let before = body_upto(files, course_id, category, i);
    let after = body_upto(files, course_id, category, i + 1);
    let wanted = f.course_id == course_id && f.category == category && f.summary.len() > 0;
    if wanted {
        assert(is_part_of(part, f));
        assert(after == before + part);
    }
    if n == i + 1 {
        if wanted {
            lemma_contains_back(before, part);
        }
    } else {
        lemma_material_grows(files, course_id, category, n - 1, i);
        let shorter = body_upto(files, course_id, category, n - 1);
        let whole = body_upto(files, course_id, category, n);
        let g = files[n - 1];
        let more = if summed_up(g, course_id) && g.category == category {
            "## "@ + g.filename + "\n"@ + g.summary + "\n\n"@
        } else {
            seq![]
        };
        assert(whole =~= shorter + more);
        if wanted {
            lemma_contains_front(shorter, more, part);
        }
    }
}

/// The categories of a course are those of its files that are summed up and worth it.
proof fn lemma_categories_exact(files: Seq<CanvasFileView>, course_id: u64, n: int)
    requires
        0 <= n <= files.len(),
    ensures
        forall|i: int|
            0 <= i < n && (#[trigger] files[i]).course_id == course_id && files[i].summary.len()
                > 0 && text::is_one_of(files[i].category, SUMMARIZABLE@) ==> categories_upto(
                files,
                course_id,
                n,
            ).contains(files[i].category),
        forall|k: int|
            0 <= k < categories_upto(files, course_id, n).len() ==> has_material(
                files,
                course_id,
                #[trigger] categories_upto(files, course_id, n)[k],
            ),
    decreases n,
{
    if n > 0 {
        lemma_categories_exact(files, course_id, n - 1);
        let before = categories_upto(files, course_id, n - 1);
        let after = categories_upto(files, course_id, n);
        assert forall|i: int|
            0 <= i < n && (#[trigger] files[i]).course_id == course_id && files[i].summary.len()
                > 0 && text::is_one_of(files[i].category, SUMMARIZABLE@) implies after.contains(
            files[i].category,
        ) by {
            if before.contains(files[i].category) {
                let k = choose|k: int| 0 <= k < before.len() && before[k] == files[i].category;
                assert(after[k] == files[i].category);
            } else {
                assert(i == n - 1);
                assert(after[after.len() - 1] == files[i].category);
            }
        }
        assert forall|k: int| 0 <= k < after.len() implies has_material(
            files,
            course_id,
            #[trigger] after[k],
        ) by {
            if k < before.len() {
                assert(after[k] == before[k]);
            } else {
                assert(files[n - 1].category == after[k]);
            }
        }
    }
}

/// A job is right: it is for a course that there is, under that course's number and
/// name, and for a category of which a file of that course is summed up; and the
/// summary of every such file is in its material.
pub open spec fn job_is_right(st: AppStateView, job: GeneralJobView) -> bool {
    &&& exists|c: int|
        0 <= c < st.courses.len() && (#[trigger] st.courses[c]).id == job.course_id
            && st.courses[c].name == job.name && st.courses[c].concluded == job.concluded
    &&& has_material(st.files, job.course_id, job.category)
    &&& forall|i: int|
        0 <= i < st.files.len() && (#[trigger] st.files[i]).course_id == job.course_id
            && st.files[i].category == job.category && st.files[i].summary.len() > 0
            ==> text::contains(
            job.body,
            "## "@ + st.files[i].filename + "\n"@ + st.files[i].summary + "\n\n"@,
        )
    &&& job.body == body_upto(st.files, job.course_id, job.category, st.files.len() as int)
}

/// The material of a category with a summed-up file is not blank.
proof fn lemma_material_has_ink(
    files: Seq<CanvasFileView>,
    course_id: u64,
    category: Seq<char>,
    i: int,
)
    requires
        0 <= i < files.len(),
        files[i].course_id == course_id,
        files[i].category == category,
        files[i].summary.len() > 0,
    ensures
        !text::blank(body_upto(files, course_id, category, files.len() as int)),
{
    reveal_strlit("## ");
    let body = body_upto(files, course_id, category, files.len() as int);
    let f = files[i];
    let part = "## "@ + f.filename + "\n"@ + f.summary + "\n\n"@;
    lemma_material_grows(files, course_id, category, files.len() as int, i);
    let at = choose|at: int| text::occurs_at(body, part, at);
    assert(body.subrange(at, at + part.len())[0] == part[0]);
    assert(part[0] == '#');
    assert(body[at] == '#');
}

/// The jobs of one course's categories.
proof fn lemma_jobs_of_categories(
    st: AppStateView,
    course: CourseView,
    folder: Seq<char>,
    cats: Seq<Seq<char>>,
    n: int,
)
    requires
        0 <= n <= cats.len(),
        st.courses.contains(course),
        forall|k: int|
            0 <= k < cats.len() ==> has_material(st.files, course.id, #[trigger] cats[k]),
    ensures
        ({
            let jobs = jobs_of_categories(st.files, course, folder, cats, n);
            &&& jobs.len() == n
            &&& forall|k: int|
                0 <= k < n ==> (#[trigger] jobs[k]).course_id == course.id && jobs[k].category
                    == cats[k] && jobs[k].folder == folder && job_is_right(st, jobs[k])
        }),
    decreases n,
{
    if n > 0 {
        lemma_jobs_of_categories(st, course, folder, cats, n - 1);
        let before = jobs_of_categories(st.files, course, folder, cats, n - 1);
        let after = jobs_of_categories(st.files, course, folder, cats, n);
        assert(has_material(st.files, course.id, cats[n - 1]));
        let i = choose|i: int|
            0 <= i < st.files.len() && (#[trigger] st.files[i]).course_id == course.id
                && st.files[i].category == cats[n - 1] && st.files[i].summary.len() > 0;
        lemma_material_has_ink(st.files, course.id, cats[n - 1], i);
        let job = after[n - 1];
        assert(job_is_right(st, job)) by {
            let c = choose|c: int| 0 <= c < st.courses.len() && st.courses[c] == course;
            assert(st.courses[c].id == job.course_id);
            assert forall|j: int|
                0 <= j < st.files.len() && (#[trigger] st.files[j]).course_id == job.course_id
                    && st.files[j].category == job.category && st.files[j].summary.len()
                    > 0 implies text::contains(
                job.body,
                "## "@ + st.files[j].filename + "\n"@ + st.files[j].summary + "\n\n"@,
            ) by {
                lemma_material_grows(
                    st.files,
                    course.id,
                    cats[n - 1],
                    st.files.len() as int,
                    j,
                );
            }
        }
        assert forall|k: int| 0 <= k < n implies (#[trigger] after[k]).course_id == course.id
            && after[k].category == cats[k] && after[k].folder == folder && job_is_right(
            st,
            after[k],
        ) by {
            if k < n - 1 {
                assert(after[k] == before[k]);
            }
        }
    }
}

/// General summaries are written for the courses that were asked for and no other,
/// each with the material of all its summed-up files; and for every category of such
/// a course that is worth a summary and has one.
pub proof fn lemma_jobs_are_right(st: AppStateView, ids: Seq<u64>, n: int)
    requires
        0 <= n <= ids.len(),
    ensures
        forall|k: int|
            0 <= k < jobs_upto(st, ids, n).len() ==> job_is_right(
                st,
                #[trigger] jobs_upto(st, ids, n)[k],
            ) && ids.contains(jobs_upto(st, ids, n)[k].course_id),
        forall|m: int, c: int, i: int|
            0 <= m < n && 0 <= c < st.courses.len() && 0 <= i < st.files.len() && (
            #[trigger] st.courses[c]).id == #[trigger] ids[m] && (
            #[trigger] st.files[i]).course_id == ids[m] && st.files[i].summary.len() > 0
                && text::is_one_of(st.files[i].category, SUMMARIZABLE@) ==> exists|k: int|
                0 <= k < jobs_upto(st, ids, n).len() && (#[trigger] jobs_upto(
                    st,
                    ids,
                    n,
                )[k]).course_id == ids[m] && jobs_upto(st, ids, n)[k].category
                    == st.files[i].category,
    decreases n,
{
    if n > 0 {
        lemma_jobs_are_right(st, ids, n - 1);
        let before = jobs_upto(st, ids, n - 1);
        let after = jobs_upto(st, ids, n);
        let id = ids[n - 1];
        let new = jobs_of_course(st, id);
        let cats = categories_upto(st.files, id, st.files.len() as int);
        lemma_course_from(st.courses, id, 0);
        lemma_categories_exact(st.files, id, st.files.len() as int);
        match course_from(st.courses, id, 0) {
            Some(c) => {
                lemma_jobs_of_categories(
                    st,
                    st.courses[c],
                    labels::folder_label(labels::labels_of(st.courses), id, st.courses[c].name),
                    cats,
                    cats.len() as int,
                );
            },
            None => {},
        }
        assert forall|k: int| 0 <= k < after.len() implies job_is_right(st, #[trigger] after[k])
            && ids.contains(after[k].course_id) by {
            if k < before.len() {
                assert(after[k] == before[k]);
            } else {
                assert(after[k] == new[k - before.len()]);
                assert(ids[n - 1] == id);
            }
        }
        assert forall|m: int, c: int, i: int|
            0 <= m < n && 0 <= c < st.courses.len() && 0 <= i < st.files.len() && (
            #[trigger] st.courses[c]).id == #[trigger] ids[m] && (
            #[trigger] st.files[i]).course_id == ids[m] && st.files[i].summary.len() > 0
                && text::is_one_of(st.files[i].category, SUMMARIZABLE@) implies exists|k: int|
            0 <= k < after.len() && (#[trigger] after[k]).course_id == ids[m] && after[k].category
                == st.files[i].category by {
            if m < n - 1 {
                let k = choose|k: int|
                    0 <= k < before.len() && (#[trigger] before[k]).course_id == ids[m]
                        && before[k].category == st.files[i].category;
                assert(after[k] == before[k]);
            } else {
                assert(course_from(st.courses, id, 0) is Some);
                let k = choose|k: int| 0 <= k < cats.len() && cats[k] == st.files[i].category;
                assert(after[before.len() + k] == new[k]);
            }
        }
    }
}

// ---------------------------------------------------------------------------
// What is summed up
// ---------------------------------------------------------------------------

/// Summed up are exactly the files that lie on disk, have no summary yet and are of a
/// kind worth one, each once: those of current courses before those of courses that are
/// over.
pub proof fn lemma_summaries_wanted(st: AppStateView)
    requires
        st.files.len() <= usize::MAX,
    ensures
        forall|i: int|
            0 <= i < st.files.len() ==> (summary_queue(st).contains(i as usize) <==> (
            #[trigger] st.files[i]).local_path.len() > 0 && st.files[i].summary.len() == 0 && (
            st.files[i].category == "Clase"@ || st.files[i].category == "Ayudantía"@
                || st.files[i].category == "Cápsula"@ || st.files[i].category == "Laboratorio"@
                || st.files[i].category == "Guía/Ejercicios"@ || st.files[i].category == "Tarea"@
                || st.files[i].category == "Prueba/Control"@ || st.files[i].category
                == "Lectura/Paper"@)),
        summary_queue(st).no_duplicates(),
        forall|j: int, k: int|
            0 <= j < k < summary_queue(st).len() && labels::past_ids(st.courses).contains(
                st.files[(#[trigger] summary_queue(st)[j]) as int].course_id,
            ) ==> labels::past_ids(st.courses).contains(
                st.files[(#[trigger] summary_queue(st)[k]) as int].course_id,
            ),
{
    let past = labels::past_ids(st.courses);
    let want = |f: CanvasFileView| wants_summary(f);
    queue::lemma_queue(st.files, past, want);
    let q = summary_queue(st);
    assert forall|i: int| 0 <= i < st.files.len() implies (q.contains(i as usize) <==> (
    #[trigger] st.files[i]).local_path.len() > 0 && st.files[i].summary.len() == 0 && (
    st.files[i].category == "Clase"@ || st.files[i].category == "Ayudantía"@ || st.files[i].category
        == "Cápsula"@ || st.files[i].category == "Laboratorio"@ || st.files[i].category
        == "Guía/Ejercicios"@ || st.files[i].category == "Tarea"@ || st.files[i].category
        == "Prueba/Control"@ || st.files[i].category == "Lectura/Paper"@)) by {
        categories::lemma_worth_a_summary(st.files[i].category);
        if wants_summary(st.files[i]) {
            assert(want(st.files[i]));
        }
        if q.contains(i as usize) {
            let k = choose|k: int| 0 <= k < q.len() && q[k] == i as usize;
            assert(want(st.files[q[k] as int]));
        }
    }
}

/// A run takes the files of its queue one after the other: one that was summed up has
/// its summary, one that was not is left as it was, and so is everything else.
pub proof fn lemma_summary_run(run: SummaryRunView, s: Seq<char>, e: Seq<char>)
    requires
        run.wf(),
        !run.over(),
    ensures
        ({
            let after = summary_run_after(run, Ok(s));
            let i = run.queue[run.at] as int;
            &&& after.at == run.at + 1
            &&& after.queue == run.queue
            &&& after.state.files.len() == run.state.files.len()
            &&& after.state.files[i].summary == s
            &&& after.state.files[i].category == run.state.files[i].category
                && after.state.files[i].content_done == run.state.files[i].content_done
            &&& after.state.files[i].id == run.state.files[i].id
                && after.state.files[i].course_id == run.state.files[i].course_id
                && after.state.files[i].course_name == run.state.files[i].course_name
                && after.state.files[i].folder == run.state.files[i].folder
                && after.state.files[i].filename == run.state.files[i].filename
                && after.state.files[i].url == run.state.files[i].url
                && after.state.files[i].size == run.state.files[i].size
                && after.state.files[i].content_type == run.state.files[i].content_type
                && after.state.files[i].local_path == run.state.files[i].local_path
                && after.state.files[i].category_manual == run.state.files[i].category_manual
                && after.state.files[i].embedding == run.state.files[i].embedding
                && after.state.files[i].summary_pdf == run.state.files[i].summary_pdf
            &&& forall|j: int|
                0 <= j < run.state.files.len() && j != i ==> #[trigger] after.state.files[j]
                    == run.state.files[j]
            &&& after.state.courses == run.state.courses && after.state.assignments
                == run.state.assignments && after.state.events == run.state.events
                && after.state.announcements == run.state.announcements
                && after.state.course_summaries == run.state.course_summaries
        }),
        summary_run_after(run, Err(e)).state == run.state,
        summary_run_after(run, Err(e)).at == run.at + 1,
        summary_run_after(run, Err(e)).queue == run.queue,
{
}

/// A file can be summed up by its number where it is known and lies on disk; the first
/// file with that number is meant.
pub proof fn lemma_summarizable(st: AppStateView, file_id: u64)
    ensures
        summarizable_file(st, file_id) matches Ok(i) ==> 0 <= i < st.files.len() && st.files[i].id
            == file_id && st.files[i].local_path.len() > 0 && forall|j: int|
            0 <= j < i ==> (#[trigger] st.files[j]).id != file_id,
        (forall|j: int| 0 <= j < st.files.len() ==> (#[trigger] st.files[j]).id != file_id)
            ==> summarizable_file(st, file_id) == Err::<int, Seq<char>>("Archivo no encontrado"@),
        (exists|j: int| 0 <= j < st.files.len() && (#[trigger] st.files[j]).id == file_id)
            && summarizable_file(st, file_id) is Err ==> summarizable_file(st, file_id) == Err::<
            int,
            Seq<char>,
        >("El archivo no está descargado."@),
        (forall|j: int|
            0 <= j < st.files.len() && (#[trigger] st.files[j]).id == file_id
                ==> st.files[j].local_path.len() > 0) && (exists|j: int|
            0 <= j < st.files.len() && (#[trigger] st.files[j]).id == file_id) ==> summarizable_file(
            st,
            file_id,
        ) is Ok,
{
    events::lemma_file_from(st.files, file_id, 0);
}

/// The courses with summaries come in their order: a course counts where some file of it
/// has a summary.
pub proof fn lemma_courses_summed_up(st: AppStateView, n: int)
    requires
        0 <= n < st.courses.len(),
    ensures
        with_summaries_upto(st, 0).len() == 0,
        (exists|i: int|
            0 <= i < st.files.len() && (#[trigger] st.files[i]).course_id == st.courses[n].id
                && st.files[i].summary.len() > 0) ==> with_summaries_upto(st, n + 1)
            == with_summaries_upto(st, n).push(st.courses[n].id),
        !(exists|i: int|
            0 <= i < st.files.len() && (#[trigger] st.files[i]).course_id == st.courses[n].id
                && st.files[i].summary.len() > 0) ==> with_summaries_upto(st, n + 1)
            == with_summaries_upto(st, n),
{
    let id = st.courses[n].id;
    if exists|i: int|
        0 <= i < st.files.len() && (#[trigger] st.files[i]).course_id == id
            && st.files[i].summary.len() > 0 {
        let i = choose|i: int|
            0 <= i < st.files.len() && (#[trigger] st.files[i]).course_id == id
                && st.files[i].summary.len() > 0;
        assert(summed_up(st.files[i], id));
    }
    if has_summaries(st.files, id) {
        let i = choose|i: int| 0 <= i < st.files.len() && summed_up(#[trigger] st.files[i], id);
        assert(st.files[i].course_id == id);
    }
}

/// The course under a number is the first that has it.
pub proof fn lemma_course_of_number(courses: Seq<CourseView>, id: u64, i: int)
    requires
        0 <= i <= courses.len(),
    ensures
        match course_from(courses, id, i) {
            Some(k) => i <= k < courses.len() && courses[k].id == id && forall|j: int|
                i <= j < k ==> (#[trigger] courses[j]).id != id,
            None => forall|j: int| i <= j < courses.len() ==> (#[trigger] courses[j]).id != id,
        },
    decreases courses.len() - i,
{
    if i < courses.len() {
        lemma_course_of_number(courses, id, i + 1);
    }
}

/// A general summary is kept under its course and category with the course's name; a new
/// one comes last.
pub proof fn lemma_general_says(all: Seq<CourseSummaryView>, new: CourseSummaryView)
    ensures
        exists|i: int|
            0 <= i < with_general(all, new).len() && (#[trigger] with_general(
                all,
                new,
            )[i]).course_id == new.course_id && with_general(all, new)[i].category == new.category
                && with_general(all, new)[i].course_name == new.course_name && with_general(
                all,
                new,
            )[i].summary == new.summary,
        (forall|j: int|
            0 <= j < all.len() ==> !((#[trigger] all[j]).course_id == new.course_id
                && all[j].category == new.category)) ==> with_general(all, new) == all + seq![new],
        (exists|j: int|
            0 <= j < all.len() && (#[trigger] all[j]).course_id == new.course_id && all[j].category
                == new.category) ==> with_general(all, new).len() == all.len(),
        (forall|j: int|
            0 <= j < all.len() ==> !((#[trigger] all[j]).course_id == new.course_id
                && all[j].category == new.category)) ==> previous_of(
            all,
            new.course_id,
            new.category,
        ).len() == 0,
{
    lemma_general_from(all, new.course_id, new.category, 0);
    let out = with_general(all, new);
    match general_from(all, new.course_id, new.category, 0) {
        Some(k) => {
            assert(out[k].summary == new.summary);
            assert(all[k].course_id == new.course_id);
        },
        None => {
            assert(out[all.len() as int] == new);
            assert(out =~= all + seq![new]);
        },
    }
}

/// A run takes its general summaries one after the other: one that was written is kept
/// as that of its course and category, and a failure leaves the state as it was.
pub proof fn lemma_general_run(run: GeneralRunView, s: Seq<char>, e: Seq<char>)
    requires
        0 <= run.at < run.jobs.len(),
    ensures
        ({
            let after = general_run_after(run, Ok(s));
            let job = run.jobs[run.at];
            &&& after.at == run.at + 1
            &&& after.jobs == run.jobs
            &&& after.use_web == run.use_web
            &&& previous_of(after.state.course_summaries, job.course_id, job.category) == s
            &&& after.state.files == run.state.files && after.state.courses == run.state.courses
                && after.state.assignments == run.state.assignments && after.state.events
                == run.state.events && after.state.announcements == run.state.announcements
        }),
        general_run_after(run, Err(e)).state == run.state,
        general_run_after(run, Err(e)).at == run.at + 1,
        general_run_after(run, Err(e)).jobs == run.jobs,
{
    let job = run.jobs[run.at];
    lemma_general_kept(
        run.state.course_summaries,
        CourseSummaryView {
            course_id: job.course_id,
            course_name: job.name,
            category: job.category,
            summary: s,
        },
    );
}

/// What is seen of a run is what it holds, each thing as itself.
pub proof fn lemma_summary_run_seen(x: SummaryRun)
    ensures
        x@.state == x.state@,
        x@.queue == x.queue@,
        x@.at == x.at as int,
{
}

/// What is seen of a job is what it holds, each thing as itself.
pub proof fn lemma_general_job_seen(x: GeneralJob)
    ensures
        x@.course_id == x.course_id,
        x@.name == x.name@,
        x@.folder == x.folder@,
        x@.concluded == x.concluded,
        x@.category == x.category@,
        x@.body == x.body@,
{
}

/// What is seen of a run is what it holds, each thing as itself.
pub proof fn lemma_general_run_seen(x: GeneralRun)
    ensures
        x@.state == x.state@,
        x@.jobs == text::views(x.jobs@),
        x@.at == x.at as int,
        x@.use_web == x.use_web,
{
}

/// General summaries of a course are refused where the course is not known, and put off
/// where none of its files is summed up; otherwise nothing stands in the way.
pub proof fn lemma_course_refused(st: AppStateView, course_id: u64)
    ensures
        (forall|j: int| 0 <= j < st.courses.len() ==> (#[trigger] st.courses[j]).id != course_id)
            ==> course_refused(st, course_id) == Some(
            ProgressView::Error { message: "Ramo no encontrado"@ },
        ),
        (exists|j: int| 0 <= j < st.courses.len() && (#[trigger] st.courses[j]).id == course_id) && (
        forall|i: int|
            0 <= i < st.files.len() && (#[trigger] st.files[i]).course_id == course_id
                ==> st.files[i].summary.len() == 0) ==> course_refused(st, course_id) == Some(
            ProgressView::Done {
                message: "Primero resume las clases del ramo (Resumir → individual)."@,
            },
        ),
        (exists|j: int| 0 <= j < st.courses.len() && (#[trigger] st.courses[j]).id == course_id) && (
        exists|i: int|
            0 <= i < st.files.len() && (#[trigger] st.files[i]).course_id == course_id
                && st.files[i].summary.len() > 0) ==> course_refused(st, course_id) is None,
{
    lemma_course_of_number(st.courses, course_id, 0);
    if exists|i: int|
        0 <= i < st.files.len() && (#[trigger] st.files[i]).course_id == course_id
            && st.files[i].summary.len() > 0 {
        let i = choose|i: int|
            0 <= i < st.files.len() && (#[trigger] st.files[i]).course_id == course_id
                && st.files[i].summary.len() > 0;
        assert(summed_up(st.files[i], course_id));
    }
    if has_summaries(st.files, course_id) {
        let i = choose|i: int|
            0 <= i < st.files.len() && summed_up(#[trigger] st.files[i], course_id);
        assert(st.files[i].course_id == course_id);
    }
}

/// The summary of a file lies with those of its course: the course with its number,
/// under the course's name where no other course has it, and apart where the course is
/// over.
pub proof fn lemma_summary_path(download_dir: Seq<char>, st: AppStateView, i: int, k: int)
    requires
        0 <= i < st.files.len(),
        0 <= k < st.courses.len(),
        st.courses[k].id == st.files[i].course_id,
        forall|j: int| 0 <= j < st.courses.len() && j != k ==> (#[trigger] st.courses[j]).id
            != st.courses[k].id && st.courses[j].name != st.courses[k].name,
    ensures
        summary_path_of(download_dir, st, i) == places::summary_place(
            download_dir,
            st.files[i],
            st.courses[k].name,
            st.courses[k].concluded,
        ),
{
    let f = st.files[i];
    labels::lemma_folder_label(st.courses, f.course_id, f.course_name, k);
    labels::lemma_label_of_course(st.courses, k);
    labels::lemma_past(st.courses, f.course_id);
    assert(labels::past_ids(st.courses).contains(f.course_id) == st.courses[k].concluded) by {
        if labels::is_past(st.courses, f.course_id) {
            let j = choose|j: int|
                0 <= j < st.courses.len() && #[trigger] st.courses[j].concluded && st.courses[j].id
                    == f.course_id;
            assert(j == k);
        }
        if st.courses[k].concluded {
            assert(labels::is_past(st.courses, f.course_id));
        }
    }
}

/// The warning on a general summary names its course and category and says why.
pub proof fn lemma_general_warning(job: GeneralJobView, error: Seq<char>)
    ensures
        general_warning(job, error) == (ProgressView::Log {
            message: "⚠ "@ + job.name + " ("@ + job.category + "): "@ + error,
        }),
{
}

} // verus!
