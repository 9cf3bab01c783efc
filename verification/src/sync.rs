//! Synchronisation with Canvas: what was fetched is merged with what is known,
//! so that nothing done here is lost.

use vstd::prelude::*;
use vstd::string::*;
use std::collections::HashMap;
use crate::config::AppConfig;
use crate::progress::{Progress, ProgressView};
use crate::progress;
use crate::classify;
use crate::download;
use crate::summaries;
use crate::store::{
    Announcement, AnnouncementView, AppState, AppStateView, Assignment, AssignmentView, CanvasFile,
    CanvasFileView, Course, CourseView,
};
use crate::text;

verus! {

// ---------------------------------------------------------------------------
// Records by their number
// ---------------------------------------------------------------------------

/// The last position of `id` among the first `n` numbers.
pub open spec fn last_position(ids: Seq<u64>, id: u64, n: int) -> Option<int>
    decreases n,
{
    if n <= 0 {
        None
    } else if ids[n - 1] == id {
        Some(n - 1)
    } else {
        last_position(ids, id, n - 1)
    }
}

/// The last position of `id`.
pub open spec fn last_of(ids: Seq<u64>, id: u64) -> Option<int> {
    last_position(ids, id, ids.len() as int)
}

/// What the last position of a number is.
pub proof fn lemma_last_position(ids: Seq<u64>, id: u64, n: int)
    requires
        0 <= n <= ids.len(),
    ensures
        match last_position(ids, id, n) {
            Some(k) => 0 <= k < n && ids[k] == id && forall|j: int|
                k < j < n ==> #[trigger] ids[j] != id,
            None => forall|j: int| 0 <= j < n ==> #[trigger] ids[j] != id,
        },
    decreases n,
{
    if n > 0 && ids[n - 1] != id {
        lemma_last_position(ids, id, n - 1);
    }
}

/// A map gives the last position of each number.
pub open spec fn maps_last(m: Map<u64, usize>, ids: Seq<u64>, n: int) -> bool {
    forall|id: u64|
        #![trigger m.contains_key(id)]
        match last_position(ids, id, n) {
            Some(k) => m.contains_key(id) && m[id] == k,
            None => !m.contains_key(id),
        }
}

/// The last position of each number.
fn last_positions(ids: &Vec<u64>) -> (r: HashMap<u64, usize>)
    ensures
        maps_last(r@, ids@, ids@.len() as int),
{
    broadcast use vstd::std_specs::hash::group_hash_axioms;

    let mut m: HashMap<u64, usize> = HashMap::new();
    let mut i: usize = 0;
    while i < ids.len()
        invariant
            i <= ids@.len(),
            maps_last(m@, ids@, i as int),
        decreases ids.len() - i,
    {
        broadcast use vstd::std_specs::hash::group_hash_axioms;

        let ghost before = m@;
        m.insert(ids[i], i);
        assert forall|id: u64| #![trigger m@.contains_key(id)]
            match last_position(ids@, id, i + 1) {
                Some(k) => m@.contains_key(id) && m@[id] == k,
                None => !m@.contains_key(id),
            } by {
            assert(before.contains_key(id) || !before.contains_key(id));
        }
        i += 1;
    }
    m
}

/// The numbers of assignments.
pub open spec fn assignment_ids(s: Seq<AssignmentView>) -> Seq<u64> {
    s.map_values(|a: AssignmentView| a.id)
}

/// The numbers of files.
pub open spec fn file_ids(s: Seq<CanvasFileView>) -> Seq<u64> {
    s.map_values(|f: CanvasFileView| f.id)
}

/// The numbers of announcements.
pub open spec fn announcement_ids(s: Seq<AnnouncementView>) -> Seq<u64> {
    s.map_values(|a: AnnouncementView| a.id)
}

/// The numbers of assignments.
fn ids_of_assignments(v: &Vec<Assignment>) -> (r: Vec<u64>)
    ensures
        r@ == assignment_ids(text::views(v@)),
{
    let mut ids: Vec<u64> = Vec::new();
    let mut i: usize = 0;
    while i < v.len()
        invariant
            i <= v@.len(),
            ids@ == assignment_ids(text::views(v@)).take(i as int),
        decreases v.len() - i,
    {
        ids.push(v[i].id);
        assert(ids@ =~= assignment_ids(text::views(v@)).take(i + 1));
        i += 1;
    }
    assert(ids@ =~= assignment_ids(text::views(v@)));
    ids
}

/// The numbers of files.
fn ids_of_files(v: &Vec<CanvasFile>) -> (r: Vec<u64>)
    ensures
        r@ == file_ids(text::views(v@)),
{
    let mut ids: Vec<u64> = Vec::new();
    let mut i: usize = 0;
    while i < v.len()
        invariant
            i <= v@.len(),
            ids@ == file_ids(text::views(v@)).take(i as int),
        decreases v.len() - i,
    {
        ids.push(v[i].id);
        assert(ids@ =~= file_ids(text::views(v@)).take(i + 1));
        i += 1;
    }
    assert(ids@ =~= file_ids(text::views(v@)));
    ids
}

/// The numbers of announcements.
fn ids_of_announcements(v: &Vec<Announcement>) -> (r: Vec<u64>)
    ensures
        r@ == announcement_ids(text::views(v@)),
{
    let mut ids: Vec<u64> = Vec::new();
    let mut i: usize = 0;
    while i < v.len()
        invariant
            i <= v@.len(),
            ids@ == announcement_ids(text::views(v@)).take(i as int),
        decreases v.len() - i,
    {
        ids.push(v[i].id);
        assert(ids@ =~= announcement_ids(text::views(v@)).take(i + 1));
        i += 1;
    }
    assert(ids@ =~= announcement_ids(text::views(v@)));
    ids
}

// ---------------------------------------------------------------------------
// Merging
// ---------------------------------------------------------------------------

/// A fetched assignment with what the user said of it.
pub open spec fn merged_assignment(a: AssignmentView, known: Seq<AssignmentView>) -> AssignmentView {
    match last_of(assignment_ids(known), a.id) {
        Some(k) => AssignmentView { user_status: known[k].user_status, ..a },
        None => a,
    }
}

/// A fetched file with the work done on it: where it was downloaded to, its
/// category, its summary and its place in the search index.
pub open spec fn with_work(f: CanvasFileView, known: CanvasFileView) -> CanvasFileView {
    CanvasFileView {
        local_path: known.local_path,
        category: known.category,
        category_manual: known.category_manual,
        content_done: known.content_done,
        summary: known.summary,
        embedding: known.embedding,
        summary_pdf: known.summary_pdf,
        ..f
    }
}

/// A file fetched before the `i`-th has its number.
pub open spec fn came_before(ids: Seq<u64>, i: int) -> bool {
    exists|j: int| 0 <= j < i && #[trigger] ids[j] == ids[i]
}

/// The `i`-th fetched file with the work done on it. Where a number was fetched
/// twice, the first file of it has the work.
pub open spec fn merged_file(
    fetched: Seq<CanvasFileView>,
    i: int,
    known: Seq<CanvasFileView>,
) -> CanvasFileView {
    if came_before(file_ids(fetched), i) {
        fetched[i]
    } else {
        match last_of(file_ids(known), fetched[i].id) {
            Some(k) => with_work(fetched[i], known[k]),
            None => fetched[i],
        }
    }
}

/// A fetched announcement with whether it was read for dates.
pub open spec fn merged_announcement(
    a: AnnouncementView,
    known: Seq<AnnouncementView>,
) -> AnnouncementView {
    match last_of(announcement_ids(known), a.id) {
        Some(k) => AnnouncementView { dates_done: known[k].dates_done, ..a },
        None => a,
    }
}

/// The state after a synchronisation: what was fetched with what is known of it,
/// and what Canvas knows nothing of as it was.
pub open spec fn merged_state(
    known: AppStateView,
    courses: Seq<CourseView>,
    assignments: Seq<AssignmentView>,
    files: Seq<CanvasFileView>,
    announcements: Seq<AnnouncementView>,
    last_sync: Seq<char>,
) -> AppStateView {
    AppStateView {
        courses,
        assignments: assignments.map_values(
            |a: AssignmentView| merged_assignment(a, known.assignments),
        ),
        files: Seq::new(files.len(), |i: int| merged_file(files, i, known.files)),
        course_summaries: known.course_summaries,
        events: known.events,
        announcements: announcements.map_values(
            |a: AnnouncementView| merged_announcement(a, known.announcements),
        ),
        last_sync,
        notified: known.notified,
    }
}

/// Gives the fetched assignments what the user said of them.
fn merge_assignments(fetched: &mut Vec<Assignment>, known: &Vec<Assignment>)
    ensures
        text::views(final(fetched)@) == text::views(old(fetched)@).map_values(
            |a: AssignmentView| merged_assignment(a, text::views(known@)),
        ),
{
    broadcast use vstd::std_specs::hash::group_hash_axioms;

    let ids = ids_of_assignments(known);
    let m = last_positions(&ids);
    let ghost ks = text::views(known@);
    let ghost before = text::views(fetched@);
    let ghost after = before.map_values(|a: AssignmentView| merged_assignment(a, ks));
    let mut i: usize = 0;
    while i < fetched.len()
        invariant
            i <= fetched@.len(),
            fetched@.len() == before.len(),
            ks == text::views(known@),
            ids@ == assignment_ids(ks),
            maps_last(m@, ids@, ids@.len() as int),
            after == before.map_values(|a: AssignmentView| merged_assignment(a, ks)),
            forall|j: int| 0 <= j < i ==> (#[trigger] fetched@[j])@ == after[j],
            forall|j: int| i <= j < before.len() ==> (#[trigger] fetched@[j])@ == before[j],
        decreases fetched.len() - i,
    {
        broadcast use vstd::std_specs::hash::group_hash_axioms;

        let id = fetched[i].id;
        assert(fetched@[i as int]@ == before[i as int]);
        proof {
            lemma_last_position(ids@, id, ids@.len() as int);
            assert(m@.contains_key(id) == last_of(ids@, id) is Some);
        }
        if let Some(k) = m.get(&id) {
            let k: usize = *k;
            assert(ks[k as int] == known@[k as int]@);
            fetched[i].user_status = known[k].user_status.clone();
        }
        assert(fetched@[i as int]@ == after[i as int]);
        i += 1;
    }
    assert(text::views(fetched@) =~= after);
}

/// Gives the fetched files the work done on them.
fn merge_files(fetched: &mut Vec<CanvasFile>, known: &Vec<CanvasFile>)
    ensures
        text::views(final(fetched)@) == Seq::new(
            old(fetched)@.len(),
            |i: int| merged_file(text::views(old(fetched)@), i, text::views(known@)),
        ),
{
    broadcast use vstd::std_specs::hash::group_hash_axioms;

    let ids = ids_of_files(known);
    let mut m = last_positions(&ids);
    let ghost ks = text::views(known@);
    let ghost before = text::views(fetched@);
    let ghost fids = file_ids(before);
    let ghost after = Seq::new(before.len(), |j: int| merged_file(before, j, ks));
    let mut i: usize = 0;
    while i < fetched.len()
        invariant
            i <= fetched@.len(),
            fetched@.len() == before.len(),
            ks == text::views(known@),
            ids@ == file_ids(ks),
            fids == file_ids(before),
            forall|id: u64|
                #![trigger m@.contains_key(id)]
                m@.contains_key(id) == (last_of(ids@, id) is Some && !(exists|j: int|
                    0 <= j < i && #[trigger] fids[j] == id)),
            forall|id: u64| #[trigger]
                m@.contains_key(id) ==> last_of(ids@, id) == Some(m@[id] as int),
            after == Seq::new(before.len(), |j: int| merged_file(before, j, ks)),
            forall|j: int| 0 <= j < i ==> (#[trigger] fetched@[j])@ == after[j],
            forall|j: int| i <= j < before.len() ==> (#[trigger] fetched@[j])@ == before[j],
        decreases fetched.len() - i,
    {
        broadcast use vstd::std_specs::hash::group_hash_axioms;

        let id = fetched[i].id;
        assert(fetched@[i as int]@ == before[i as int]);
        assert(fids[i as int] == id);
        let ghost m0 = m@;
        proof {
            lemma_last_position(ids@, id, ids@.len() as int);
            assert(m0.contains_key(id) == (last_of(ids@, id) is Some && !came_before(
                fids,
                i as int,
            )));
        }
        if let Some(k) = m.remove(&id) {
            assert(ks[k as int] == known@[k as int]@);
            let old = known[k].clone();
            fetched[i].local_path = old.local_path;
            fetched[i].category = old.category;
            fetched[i].category_manual = old.category_manual;
            fetched[i].content_done = old.content_done;
            fetched[i].summary = old.summary;
            fetched[i].embedding = old.embedding;
            fetched[i].summary_pdf = old.summary_pdf;
        }
        assert(fetched@[i as int]@ == after[i as int]);
        assert forall|x: u64| #![trigger m@.contains_key(x)]
            m@.contains_key(x) == (last_of(ids@, x) is Some && !(exists|j: int|
                0 <= j < i + 1 && #[trigger] fids[j] == x)) by {
            assert(m0.contains_key(x) || !m0.contains_key(x));
            if x == id {
                assert(fids[i as int] == x);
            } else {
                assert(m@.contains_key(x) == m0.contains_key(x));
            }
        }
        assert forall|x: u64| #[trigger] m@.contains_key(x) implies last_of(ids@, x) == Some(
            m@[x] as int,
        ) by {
            assert(m0.contains_key(x));
        }
        i += 1;
    }
    assert(text::views(fetched@) =~= after);
}

/// Gives the fetched announcements whether they were read for dates.
fn merge_announcements(fetched: &mut Vec<Announcement>, known: &Vec<Announcement>)
    ensures
        text::views(final(fetched)@) == text::views(old(fetched)@).map_values(
            |a: AnnouncementView| merged_announcement(a, text::views(known@)),
        ),
{
    broadcast use vstd::std_specs::hash::group_hash_axioms;

    let ids = ids_of_announcements(known);
    let m = last_positions(&ids);
    let ghost ks = text::views(known@);
    let ghost before = text::views(fetched@);
    let ghost after = before.map_values(|a: AnnouncementView| merged_announcement(a, ks));
    let mut i: usize = 0;
    while i < fetched.len()
        invariant
            i <= fetched@.len(),
            fetched@.len() == before.len(),
            ks == text::views(known@),
            ids@ == announcement_ids(ks),
            maps_last(m@, ids@, ids@.len() as int),
            after == before.map_values(|a: AnnouncementView| merged_announcement(a, ks)),
            forall|j: int| 0 <= j < i ==> (#[trigger] fetched@[j])@ == after[j],
            forall|j: int| i <= j < before.len() ==> (#[trigger] fetched@[j])@ == before[j],
        decreases fetched.len() - i,
    {
        broadcast use vstd::std_specs::hash::group_hash_axioms;

        let id = fetched[i].id;
        assert(fetched@[i as int]@ == before[i as int]);
        proof {
            lemma_last_position(ids@, id, ids@.len() as int);
            assert(m@.contains_key(id) == last_of(ids@, id) is Some);
        }
        if let Some(k) = m.get(&id) {
            let k: usize = *k;
            assert(ks[k as int] == known@[k as int]@);
            fetched[i].dates_done = known[k].dates_done;
        }
        assert(fetched@[i as int]@ == after[i as int]);
        i += 1;
    }
    assert(text::views(fetched@) =~= after);
}

/// The state after a synchronisation.
pub fn merge(
    known: AppState,
    courses: Vec<Course>,
    fetched: Gathered,
    last_sync: String,
) -> (r: AppState)
    ensures
        r@ == merged_state(
            known@,
            text::views(courses@),
            text::views(fetched.assignments@),
            text::views(fetched.files@),
            text::views(fetched.announcements@),
            last_sync@,
        ),
{
    let mut assignments = fetched.assignments;
    let mut files = fetched.files;
    let mut announcements = fetched.announcements;
    merge_assignments(&mut assignments, &known.assignments);
    merge_files(&mut files, &known.files);
    merge_announcements(&mut announcements, &known.announcements);
    AppState {
        courses,
        assignments,
        files,
        course_summaries: known.course_summaries,
        events: known.events,
        announcements,
        last_sync,
        notified: known.notified,
    }
}

// ---------------------------------------------------------------------------
// The run
// ---------------------------------------------------------------------------

/// What was fetched so far, course by course.
pub struct Gathered {
    pub assignments: Vec<Assignment>,
    pub files: Vec<CanvasFile>,
    pub announcements: Vec<Announcement>,
}

/// Nothing fetched yet.
pub fn gathered_nothing() -> (r: Gathered)
    ensures
        r.assignments@.len() == 0,
        r.files@.len() == 0,
        r.announcements@.len() == 0,
{
    Gathered { assignments: Vec::new(), files: Vec::new(), announcements: Vec::new() }
}

/// What a fetch brought: nothing where it failed.
pub open spec fn brought<T>(r: Result<Vec<T>, String>) -> Seq<T> {
    match r {
        Ok(v) => v@,
        Err(_) => seq![],
    }
}

/// Takes in what was fetched of one course. A fetch that failed brings nothing
/// and stops nothing.
pub fn gather(
    all: &mut Gathered,
    assignments: Result<Vec<Assignment>, String>,
    files: Result<Vec<CanvasFile>, String>,
    announcements: Vec<Announcement>,
)
    ensures
        final(all).assignments@ == old(all).assignments@ + brought(assignments),
        final(all).files@ == old(all).files@ + brought(files),
        final(all).announcements@ == old(all).announcements@ + announcements@,
{
    let ghost before = *all;
    match assignments {
        Ok(v) => {
            let mut v = v;
            all.assignments.append(&mut v);
        },
        Err(_) => {},
    }
    match files {
        Ok(v) => {
            let mut v = v;
            all.files.append(&mut v);
        },
        Err(_) => {},
    }
    let mut v = announcements;
    all.announcements.append(&mut v);
    assert(all.assignments@ =~= before.assignments@ + brought(assignments));
    assert(all.files@ =~= before.files@ + brought(files));
}

/// The notice that stops a synchronisation without a token of Canvas.
pub open spec fn missing_token(cfg_token: Seq<char>) -> Option<ProgressView> {
    if text::blank(cfg_token) {
        Some(ProgressView::Error { message: "Falta el token de Canvas (Ajustes)."@ })
    } else {
        None
    }
}

/// The notice that stops a synchronisation, where there is no token of Canvas.
pub fn sync_refused(cfg: &AppConfig) -> (r: Option<Progress>)
    ensures
        text::opt_view(r) == missing_token(cfg@.canvas_token),
{
    if text::is_blank(cfg.canvas_token.as_str()) {
        Some(progress::error("Falta el token de Canvas (Ajustes)."))
    } else {
        None
    }
}

/// The notice that a synchronisation begins.
pub fn connecting() -> (r: Progress)
    ensures
        r@ == (ProgressView::Log { message: "Conectando con Canvas…"@ }),
{
    progress::log("Conectando con Canvas…".to_owned())
}

/// The notice on how many courses there are.
pub fn courses_found(courses: &Vec<Course>) -> (r: Progress)
    ensures
        r@ == (ProgressView::Log {
            message: text::decimal(courses@.len()) + " ramos encontrados."@,
        }),
{
    let mut s = text::number(courses.len() as u64);
    s.append(" ramos encontrados.");
    progress::log(s)
}

/// The notice that the `i`-th course is being fetched.
pub fn sync_step(courses: &Vec<Course>, i: usize) -> (r: Progress)
    requires
        i < courses@.len(),
    ensures
        r@ == (ProgressView::Step {
            phase: "sync"@,
            current: (i + 1) as u64,
            total: courses@.len() as u64,
            message: courses@[i as int]@.name,
        }),
{
    let n: usize = courses.len();
    progress::step("sync", (i + 1) as u64, n as u64, courses[i].name.clone())
}

/// A run through the courses of a synchronisation.
pub struct SyncRun {
    pub courses: Vec<Course>,
    /// The course that is next.
    pub at: usize,
    pub fetched: Gathered,
}

impl SyncRun {
    /// A run before its first course.
    pub fn begin(courses: Vec<Course>) -> (r: SyncRun)
        ensures
            r.courses@ == courses@,
            r.at == 0,
            r.fetched.assignments@.len() == 0,
            r.fetched.files@.len() == 0,
            r.fetched.announcements@.len() == 0,
    {
        SyncRun { courses, at: 0, fetched: gathered_nothing() }
    }

    /// Whether every course was fetched.
    pub fn is_over(&self) -> (r: bool)
        ensures
            r == (self.at >= self.courses@.len()),
    {
        self.at >= self.courses.len()
    }

    /// The notice that the next course is being fetched.
    pub fn notice(&self) -> (r: Progress)
        requires
            self.at < self.courses@.len(),
        ensures
            r@ == (ProgressView::Step {
                phase: "sync"@,
                current: (self.at + 1) as u64,
                total: self.courses@.len() as u64,
                message: self.courses@[self.at as int]@.name,
            }),
    {
        sync_step(&self.courses, self.at)
    }

    /// Takes in what was fetched of the next course, and goes on to the one
    /// behind it.
    pub fn take(
        &mut self,
        assignments: Result<Vec<Assignment>, String>,
        files: Result<Vec<CanvasFile>, String>,
        announcements: Vec<Announcement>,
    )
        requires
            old(self).at < old(self).courses@.len(),
        ensures
            final(self).courses@ == old(self).courses@,
            final(self).at == old(self).at + 1,
            final(self).fetched.assignments@ == old(self).fetched.assignments@ + brought(
                assignments,
            ),
            final(self).fetched.files@ == old(self).fetched.files@ + brought(files),
            final(self).fetched.announcements@ == old(self).fetched.announcements@
                + announcements@,
    {
        gather(&mut self.fetched, assignments, files, announcements);
        assert(self.at < self.courses.len());
        self.at = self.at + 1;
    }

    /// The state after the synchronisation, `known` being what is known by now.
    pub fn finish(self, known: AppState, last_sync: String) -> (r: AppState)
        ensures
            r@ == merged_state(
                known@,
                text::views(self.courses@),
                text::views(self.fetched.assignments@),
                text::views(self.fetched.files@),
                text::views(self.fetched.announcements@),
                last_sync@,
            ),
    {
        merge(known, self.courses, self.fetched, last_sync)
    }
}

/// The notice that a synchronisation is over.
pub fn sync_done(state: &AppState) -> (r: Progress)
    ensures
        r@ == (ProgressView::Done {
            message: "Sincronizado: "@ + text::decimal(state@.courses.len()) + " ramos, "@
                + text::decimal(state@.assignments.len()) + " tareas, "@ + text::decimal(
                state@.files.len(),
            ) + " archivos."@,
        }),
{
    let mut s = "Sincronizado: ".to_owned();
    s.append(text::number(state.courses.len() as u64).as_str());
    s.append(" ramos, ");
    s.append(text::number(state.assignments.len() as u64).as_str());
    s.append(" tareas, ");
    s.append(text::number(state.files.len() as u64).as_str());
    s.append(" archivos.");
    progress::done(s)
}

// ---------------------------------------------------------------------------
// What a synchronisation keeps
// ---------------------------------------------------------------------------

/// What the user said of an assignment survives a synchronisation.
pub proof fn lemma_status_survives(
    known: AppStateView,
    courses: Seq<CourseView>,
    assignments: Seq<AssignmentView>,
    files: Seq<CanvasFileView>,
    announcements: Seq<AnnouncementView>,
    last_sync: Seq<char>,
    i: int,
    k: int,
)
    requires
        0 <= i < assignments.len(),
        0 <= k < known.assignments.len(),
        known.assignments[k].id == assignments[i].id,
        forall|j: int|
            k < j < known.assignments.len() ==> (#[trigger] known.assignments[j]).id
                != assignments[i].id,
    ensures
        merged_state(
            known,
            courses,
            assignments,
            files,
            announcements,
            last_sync,
        ).assignments[i].user_status == known.assignments[k].user_status,
{
    let ids = assignment_ids(known.assignments);
    lemma_last_position(ids, assignments[i].id, ids.len() as int);
    assert(ids[k] == assignments[i].id);
    let m = last_of(ids, assignments[i].id)->0;
    if m > k {
        assert(known.assignments[m].id != assignments[i].id);
    }
}

/// A synchronisation makes nothing to be done again: a known file that is fetched
/// once more is to be downloaded, classified or summed up exactly where it was
/// before, and keeps its category, its lock, its summary and its place in the
/// search index.
pub proof fn lemma_work_survives(
    known: AppStateView,
    courses: Seq<CourseView>,
    assignments: Seq<AssignmentView>,
    files: Seq<CanvasFileView>,
    announcements: Seq<AnnouncementView>,
    last_sync: Seq<char>,
    i: int,
    k: int,
    force: bool,
)
    requires
        0 <= i < files.len(),
        !came_before(file_ids(files), i),
        0 <= k < known.files.len(),
        known.files[k].id == files[i].id,
        forall|j: int|
            k < j < known.files.len() ==> (#[trigger] known.files[j]).id != files[i].id,
    ensures
        ({
            let old = known.files[k];
            let new = merged_state(
                known,
                courses,
                assignments,
                files,
                announcements,
                last_sync,
            ).files[i];
            &&& download::wants_download(new) == download::wants_download(old)
            &&& classify::wants_class(new, force) == classify::wants_class(old, force)
            &&& summaries::wants_summary(new) == summaries::wants_summary(old)
            &&& new.category == old.category
            &&& new.category_manual == old.category_manual
            &&& new.summary == old.summary
            &&& new.embedding == old.embedding
            &&& new.local_path == old.local_path
        }),
{
    let ids = file_ids(known.files);
    lemma_last_position(ids, files[i].id, ids.len() as int);
    assert(ids[k] == files[i].id);
    let m = last_of(ids, files[i].id)->0;
    if m > k {
        assert(known.files[m].id != files[i].id);
    }
}

/// An announcement that was read is not read again after a synchronisation.
pub proof fn lemma_reading_survives(a: AnnouncementView, known: Seq<AnnouncementView>, k: int)
    requires
        0 <= k < known.len(),
        known[k].id == a.id,
        forall|j: int| k < j < known.len() ==> (#[trigger] known[j]).id != a.id,
        known[k].dates_done,
    ensures
        !classify::wants_reading(merged_announcement(a, known)),
{
    let ids = announcement_ids(known);
    lemma_last_position(ids, a.id, ids.len() as int);
    assert(ids[k] == a.id);
    let m = last_of(ids, a.id)->0;
    if m > k {
        assert(known[m].id != a.id);
    }
}

/// Synchronising twice with the same outcome is synchronising once, provided that
/// no two of the fetched files have the same number. What is fetched says nothing
/// of what the user said or of what was read.
pub proof fn lemma_sync_twice(
    known: AppStateView,
    courses: Seq<CourseView>,
    assignments: Seq<AssignmentView>,
    files: Seq<CanvasFileView>,
    announcements: Seq<AnnouncementView>,
    last_sync: Seq<char>,
)
    requires
        file_ids(files).no_duplicates(),
        forall|i: int|
            0 <= i < assignments.len() ==> (#[trigger] assignments[i]).user_status == Seq::<
                char,
            >::empty(),
        forall|i: int| 0 <= i < announcements.len() ==> !(#[trigger] announcements[i]).dates_done,
    ensures
        merged_state(
            merged_state(known, courses, assignments, files, announcements, last_sync),
            courses,
            assignments,
            files,
            announcements,
            last_sync,
        ) == merged_state(known, courses, assignments, files, announcements, last_sync),
{
    let once = merged_state(known, courses, assignments, files, announcements, last_sync);
    let twice = merged_state(once, courses, assignments, files, announcements, last_sync);
    let aids = assignment_ids(once.assignments);
    assert forall|i: int| 0 <= i < assignments.len() implies twice.assignments[i]
        == once.assignments[i] by {
        lemma_last_position(aids, assignments[i].id, aids.len() as int);
        assert(aids[i] == assignments[i].id);
        let m = last_of(aids, assignments[i].id)->0;
        assert(aids[m] == assignments[m].id);
        assert(assignments[m].user_status == assignments[i].user_status);
        assert(once.assignments[m] == merged_assignment(assignments[m], known.assignments));
        assert(once.assignments[i] == merged_assignment(assignments[i], known.assignments));
    }
    assert(twice.assignments =~= once.assignments);
    let fids = file_ids(once.files);
    assert forall|i: int| 0 <= i < files.len() implies twice.files[i] == once.files[i] by {
        lemma_last_position(fids, files[i].id, fids.len() as int);
        assert(fids[i] == files[i].id);
        let m = last_of(fids, files[i].id)->0;
        assert(fids[m] == files[m].id);
        assert(file_ids(files)[m] == file_ids(files)[i]);
        assert(m == i);
        assert(!came_before(file_ids(files), i));
    }
    assert(twice.files =~= once.files);
    let nids = announcement_ids(once.announcements);
    assert forall|i: int| 0 <= i < announcements.len() implies twice.announcements[i]
        == once.announcements[i] by {
        lemma_last_position(nids, announcements[i].id, nids.len() as int);
        assert(nids[i] == announcements[i].id);
        let m = last_of(nids, announcements[i].id)->0;
        assert(nids[m] == announcements[m].id);
        assert(announcements[m].dates_done == announcements[i].dates_done);
        assert(once.announcements[m] == merged_announcement(
            announcements[m],
            known.announcements,
        ));
        assert(once.announcements[i] == merged_announcement(
            announcements[i],
            known.announcements,
        ));
    }
    assert(twice.announcements =~= once.announcements);
}

/// What Canvas says of an assignment stands after a synchronisation, field by field;
/// only what the user said of it is not Canvas's to say, and of an assignment that
/// was not known there is nothing of the kind.
pub proof fn lemma_assignment_as_fetched(
    known: AppStateView,
    courses: Seq<CourseView>,
    assignments: Seq<AssignmentView>,
    files: Seq<CanvasFileView>,
    announcements: Seq<AnnouncementView>,
    last_sync: Seq<char>,
    i: int,
)
    requires
        0 <= i < assignments.len(),
    ensures
        ({
            let all = merged_state(
                known,
                courses,
                assignments,
                files,
                announcements,
                last_sync,
            ).assignments;
            let new = all[i];
            let a = assignments[i];
            &&& all.len() == assignments.len()
            &&& new.id == a.id
            &&& new.course_id == a.course_id
            &&& new.course_name == a.course_name
            &&& new.name == a.name
            &&& new.due_at == a.due_at
            &&& new.points == a.points
            &&& new.html_url == a.html_url
            &&& new.submitted == a.submitted
            &&& new.state == a.state
            &&& (forall|k: int|
                0 <= k < known.assignments.len() ==> (#[trigger] known.assignments[k]).id != a.id)
                ==> new.user_status == a.user_status
        }),
{
    let ids = assignment_ids(known.assignments);
    lemma_last_position(ids, assignments[i].id, ids.len() as int);
    match last_of(ids, assignments[i].id) {
        Some(k) => {
            assert(known.assignments[k].id == assignments[i].id);
        },
        None => {},
    }
}

/// What Canvas says of a file stands after a synchronisation, field by field, and a
/// file that was not known is as it was fetched. Of a known file everything that was
/// done with it is kept.
pub proof fn lemma_file_as_fetched(
    known: AppStateView,
    courses: Seq<CourseView>,
    assignments: Seq<AssignmentView>,
    files: Seq<CanvasFileView>,
    announcements: Seq<AnnouncementView>,
    last_sync: Seq<char>,
    i: int,
)
    requires
        0 <= i < files.len(),
    ensures
        ({
            let all = merged_state(
                known,
                courses,
                assignments,
                files,
                announcements,
                last_sync,
            ).files;
            let new = all[i];
            let f = files[i];
            &&& all.len() == files.len()
            &&& new.id == f.id
            &&& new.course_id == f.course_id
            &&& new.course_name == f.course_name
            &&& new.folder == f.folder
            &&& new.filename == f.filename
            &&& new.url == f.url
            &&& new.size == f.size
            &&& new.content_type == f.content_type
            &&& (forall|k: int|
                0 <= k < known.files.len() ==> (#[trigger] known.files[k]).id != f.id) ==> new == f
            &&& forall|k: int|
                0 <= k < known.files.len() && (#[trigger] known.files[k]).id == f.id && (forall|
                    j: int,
                |
                    k < j < known.files.len() ==> (#[trigger] known.files[j]).id != f.id) && (
                forall|j: int| 0 <= j < i ==> (#[trigger] files[j]).id != f.id) ==> {
                    &&& new.local_path == known.files[k].local_path
                    &&& new.category == known.files[k].category
                    &&& new.content_done == known.files[k].content_done
                    &&& new.category_manual == known.files[k].category_manual
                    &&& new.summary == known.files[k].summary
                    &&& new.embedding == known.files[k].embedding
                    &&& new.summary_pdf == known.files[k].summary_pdf
                }
        }),
{
    let ids = file_ids(known.files);
    lemma_last_position(ids, files[i].id, ids.len() as int);
    match last_of(ids, files[i].id) {
        Some(k) => {
            assert(known.files[k].id == files[i].id);
        },
        None => {},
    }
    let all = file_ids(files);
    if came_before(all, i) {
        let j = choose|j: int| 0 <= j < i && #[trigger] all[j] == all[i];
        assert(files[j].id == files[i].id);
    }
    assert forall|k: int|
        0 <= k < known.files.len() && (#[trigger] known.files[k]).id == files[i].id && (forall|
            j: int,
        |
            k < j < known.files.len() ==> (#[trigger] known.files[j]).id != files[i].id) implies
        last_of(ids, files[i].id) == Some(k) by {
        assert(ids[k] == files[i].id);
        let m = last_of(ids, files[i].id)->0;
        if m > k {
            assert(known.files[m].id != files[i].id);
        }
    }
}

/// What Canvas says of an announcement stands after a synchronisation, field by
/// field, and one that was not known is as it was fetched.
pub proof fn lemma_announcement_as_fetched(
    known: AppStateView,
    courses: Seq<CourseView>,
    assignments: Seq<AssignmentView>,
    files: Seq<CanvasFileView>,
    announcements: Seq<AnnouncementView>,
    last_sync: Seq<char>,
    i: int,
)
    requires
        0 <= i < announcements.len(),
    ensures
        ({
            let all = merged_state(
                known,
                courses,
                assignments,
                files,
                announcements,
                last_sync,
            ).announcements;
            let new = all[i];
            let a = announcements[i];
            &&& all.len() == announcements.len()
            &&& new.id == a.id
            &&& new.course_id == a.course_id
            &&& new.course_name == a.course_name
            &&& new.title == a.title
            &&& new.message == a.message
            &&& new.posted_at == a.posted_at
            &&& (forall|k: int|
                0 <= k < known.announcements.len() ==> (#[trigger] known.announcements[k]).id
                    != a.id) ==> new.dates_done == a.dates_done
        }),
{
    let ids = announcement_ids(known.announcements);
    lemma_last_position(ids, announcements[i].id, ids.len() as int);
    match last_of(ids, announcements[i].id) {
        Some(k) => {
            assert(known.announcements[k].id == announcements[i].id);
        },
        None => {},
    }
}

/// A synchronisation takes the courses as they were fetched and notes when it was; it
/// does not touch what Canvas knows nothing of: general summaries, events and the
/// notices that were sent.
pub proof fn lemma_rest_survives(
    known: AppStateView,
    courses: Seq<CourseView>,
    assignments: Seq<AssignmentView>,
    files: Seq<CanvasFileView>,
    announcements: Seq<AnnouncementView>,
    last_sync: Seq<char>,
)
    ensures
        ({
            let new = merged_state(known, courses, assignments, files, announcements, last_sync);
            &&& new.courses == courses
            &&& new.course_summaries == known.course_summaries
            &&& new.events == known.events
            &&& new.notified == known.notified
            &&& new.last_sync == last_sync
        }),
{
}

/// What a fetch brought is taken whole, and a fetch that failed brings nothing.
pub proof fn lemma_brought<T>(v: Vec<T>, e: String)
    ensures
        brought(Ok::<Vec<T>, String>(v)) == v@,
        brought(Err::<Vec<T>, String>(e)).len() == 0,
{
}

/// Whether an announcement's dates were looked for stays known, and so does that they
/// were not.
pub proof fn lemma_dates_done_survives(a: AnnouncementView, known: Seq<AnnouncementView>, k: int)
    requires
        0 <= k < known.len(),
        known[k].id == a.id,
        forall|j: int| k < j < known.len() ==> (#[trigger] known[j]).id != a.id,
    ensures
        merged_announcement(a, known).dates_done == known[k].dates_done,
{
    let ids = announcement_ids(known);
    lemma_last_position(ids, a.id, ids.len() as int);
    assert(ids[k] == a.id);
    let m = last_of(ids, a.id)->0;
    if m > k {
        assert(known[m].id != a.id);
    }
}

/// Without a token nothing is synchronised, and with one nothing stands in the way.
pub proof fn lemma_token_needed(token: Seq<char>)
    ensures
        missing_token(token) is Some <==> forall|i: int|
            0 <= i < token.len() ==> text::is_white(#[trigger] token[i]),
        missing_token(token) matches Some(p) ==> p == (ProgressView::Error {
            message: "Falta el token de Canvas (Ajustes)."@,
        }),
{
}

} // verus!
