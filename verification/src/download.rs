//! Downloading: which files are on disk already, which are still to be fetched
//! and where to.

use vstd::prelude::*;
use vstd::string::*;
use std::collections::HashMap;
use std::collections::HashSet;
use crate::config::AppConfig;
use crate::labels::{concluded_ids, course_labels, label_or};
use crate::labels;
use crate::places::build_dest;
use crate::places;
use crate::progress::{Progress, ProgressView};
use crate::progress;
use crate::queue::queue;
use crate::queue;
use crate::store::{AppState, AppStateView, CanvasFile, CanvasFileView};
use crate::text;

verus! {

/// Where a file belongs, by the labels of the courses and by which are over.
pub open spec fn dest_of(
    download_dir: Seq<char>,
    f: CanvasFileView,
    names: Map<u64, Seq<char>>,
    past: Set<u64>,
) -> Seq<char> {
    places::file_place(
        download_dir,
        f,
        labels::folder_label(names, f.course_id, f.course_name),
        past.contains(f.course_id),
    )
}

/// Where a file of the state belongs.
pub open spec fn state_dest(download_dir: Seq<char>, st: AppStateView, i: int) -> Seq<char> {
    dest_of(
        download_dir,
        st.files[i],
        labels::labels_of(st.courses),
        labels::past_ids(st.courses),
    )
}

/// Where a file belongs.
fn file_dest(
    cfg: &AppConfig,
    file: &CanvasFile,
    names: &HashMap<u64, String>,
    past: &HashSet<u64>,
) -> (r: String)
    ensures
        r@ == dest_of(cfg@.download_dir, file@, labels::text_map(names@), past@),
{
    broadcast use vstd::std_specs::hash::group_hash_axioms;

    let folder = label_or(names, file.course_id, file.course_name.as_str());
    build_dest(cfg, file, folder.as_str(), past.contains(&file.course_id))
}

/// Where each file belongs, in the order of the files.
pub fn destinations(cfg: &AppConfig, state: &AppState) -> (r: Vec<String>)
    ensures
        text::views(r@) == Seq::new(
            state@.files.len(),
            |i: int| state_dest(cfg@.download_dir, state@, i),
        ),
{
    let names = course_labels(state);
    let past = concluded_ids(state);
    let ghost all = Seq::new(
        state@.files.len(),
        |i: int| state_dest(cfg@.download_dir, state@, i),
    );
    let mut out: Vec<String> = Vec::new();
    let mut i: usize = 0;
    assert(text::views(out@) =~= all.take(0));
    while i < state.files.len()
        invariant
            i <= state.files@.len(),
            labels::text_map(names@) == labels::labels_of(state@.courses),
            past@ == labels::past_ids(state@.courses),
            all == Seq::new(
                state@.files.len(),
                |j: int| state_dest(cfg@.download_dir, state@, j),
            ),
            text::views(out@) == all.take(i as int),
        decreases state.files.len() - i,
    {
        assert(state@.files[i as int] == state.files@[i as int]@);
        let d = file_dest(cfg, &state.files[i], &names, &past);
        proof {
            assert(d@ == all[i as int]);
            text::lemma_views_push(out@, d);
            assert(all.take(i + 1) =~= all.take(i as int).push(d@));
        }
        out.push(d);
        i += 1;
    }
    assert(all.take(all.len() as int) =~= all);
    out
}

// ---------------------------------------------------------------------------
// What is on disk
// ---------------------------------------------------------------------------

/// A file after a look at the disk: where it lies at its destination, that is
/// where it is; where it lies nowhere any more, it is not downloaded.
pub open spec fn reconciled(
    f: CanvasFileView,
    dest: Seq<char>,
    at_dest: bool,
    at_path: bool,
) -> CanvasFileView {
    if at_dest {
        CanvasFileView { local_path: dest, ..f }
    } else if f.local_path.len() > 0 && !at_path {
        CanvasFileView { local_path: seq![], ..f }
    } else {
        f
    }
}

/// How many of the first `n` files turned out to lie at their destinations
/// without being known to.
pub open spec fn found_upto(
    files: Seq<CanvasFileView>,
    dests: Seq<Seq<char>>,
    at_dest: Seq<bool>,
    n: int,
) -> nat
    decreases n,
{
    if n <= 0 {
        0
    } else if at_dest[n - 1] && files[n - 1].local_path != dests[n - 1] {
        found_upto(files, dests, at_dest, n - 1) + 1
    } else {
        found_upto(files, dests, at_dest, n - 1)
    }
}

/// Brings the state in line with the disk: `dests[i]` is where the `i`-th file
/// belongs, `at_dest[i]` says whether it lies there, `at_path[i]` whether it lies
/// where it is said to. Returns how many files turned out to be there.
pub fn reconcile(
    state: &mut AppState,
    dests: &Vec<String>,
    at_dest: &Vec<bool>,
    at_path: &Vec<bool>,
) -> (found: u64)
    requires
        dests@.len() == old(state)@.files.len(),
        at_dest@.len() == old(state)@.files.len(),
        at_path@.len() == old(state)@.files.len(),
    ensures
        final(state)@ == (AppStateView {
            files: Seq::new(
                old(state)@.files.len(),
                |i: int|
                    reconciled(
                        old(state)@.files[i],
                        text::views(dests@)[i],
                        at_dest@[i],
                        at_path@[i],
                    ),
            ),
            ..old(state)@
        }),
        found == found_upto(
            old(state)@.files,
            text::views(dests@),
            at_dest@,
            old(state)@.files.len() as int,
        ),
{
    let ghost before = state@;
    let ghost ds = text::views(dests@);
    let ghost after = Seq::new(
        before.files.len(),
        |i: int| reconciled(before.files[i], ds[i], at_dest@[i], at_path@[i]),
    );
    let mut found: u64 = 0;
    let mut i: usize = 0;
    while i < state.files.len()
        invariant
            i <= state.files@.len(),
            state.files@.len() == before.files.len(),
            dests@.len() == before.files.len(),
            at_dest@.len() == before.files.len(),
            at_path@.len() == before.files.len(),
            ds == text::views(dests@),
            after == Seq::new(
                before.files.len(),
                |j: int| reconciled(before.files[j], ds[j], at_dest@[j], at_path@[j]),
            ),
            forall|j: int| 0 <= j < i ==> (#[trigger] state.files@[j])@ == after[j],
            forall|j: int|
                i <= j < before.files.len() ==> (#[trigger] state.files@[j])@ == before.files[j],
            state@ == (AppStateView { files: state@.files, ..before }),
            found == found_upto(before.files, ds, at_dest@, i as int),
            found <= i,
        decreases state.files.len() - i,
    {
        let ghost prev = state@;
        assert(state.files@[i as int]@ == before.files[i as int]);
        assert(ds[i as int] == dests@[i as int]@);
        if at_dest[i] {
            if !text::same(state.files[i].local_path.as_str(), dests[i].as_str()) {
                state.files[i].local_path = dests[i].clone();
                found += 1;
            }
        } else if !state.files[i].local_path.as_str().is_empty() && !at_path[i] {
            let none = String::new();
            assert(none@ =~= seq![]);
            state.files[i].local_path = none;
        }
        assert(state.files@[i as int]@ == after[i as int]);
        i += 1;
    }
    assert(state@.files =~= after);
    found
}

/// The notice on files that turned out to be on disk.
pub fn found_on_disk(found: u64) -> (r: Progress)
    ensures
        r@ == (ProgressView::Log {
            message: text::decimal(found as nat)
                + " archivos ya estaban en disco (no se re-descargan)."@,
        }),
{
    let mut s = text::number(found);
    s.append(" archivos ya estaban en disco (no se re-descargan).");
    progress::log(s)
}

// ---------------------------------------------------------------------------
// What is left to fetch
// ---------------------------------------------------------------------------

/// Whether a file is still to be downloaded.
pub open spec fn wants_download(f: CanvasFileView) -> bool {
    f.local_path.len() == 0
}

/// The files still to be downloaded, those of past courses last.
pub open spec fn download_queue(st: AppStateView) -> Seq<usize> {
    queue::queue_of(
        st.files,
        labels::past_ids(st.courses),
        |f: CanvasFileView| wants_download(f),
    )
}

/// The positions of the files still to be downloaded, those of past courses
/// last.
pub fn pending_downloads(state: &AppState) -> (r: Vec<usize>)
    ensures
        r@ == download_queue(state@),
{
    let past = concluded_ids(state);
    let ghost want = |f: CanvasFileView| wants_download(f);
    let mut wanted: Vec<bool> = Vec::new();
    let mut i: usize = 0;
    while i < state.files.len()
        invariant
            i <= state.files@.len(),
            want == (|f: CanvasFileView| wants_download(f)),
            wanted@.len() == i,
            forall|j: int| 0 <= j < i ==> #[trigger] wanted@[j] == want(state.files@[j]@),
        decreases state.files.len() - i,
    {
        wanted.push(state.files[i].local_path.as_str().is_empty());
        i += 1;
    }
    queue(&state.files, &wanted, &past, Ghost(want))
}

/// The notice that nothing is left to download.
pub fn nothing_to_download() -> (r: Progress)
    ensures
        r@ == (ProgressView::Done { message: "Todo descargado (nada nuevo)."@ }),
{
    progress::done("Todo descargado (nada nuevo).".to_owned())
}

/// The notice that the `n`-th file of the queue is being fetched.
pub fn download_step(file: &CanvasFile, n: usize, total: usize) -> (r: Progress)
    requires
        n < total,
    ensures
        r@ == (ProgressView::Step {
            phase: "download"@,
            current: (n + 1) as u64,
            total: total as u64,
            message: file@.course_name + " · "@ + file@.filename,
        }),
{
    let mut s = file.course_name.clone();
    s.append(" · ");
    s.append(file.filename.as_str());
    progress::step("download", (n + 1) as u64, total as u64, s)
}

/// The notice on a file that could not be fetched or summed up.
pub open spec fn file_warning(filename: Seq<char>, error: Seq<char>) -> ProgressView {
    ProgressView::Log { message: "⚠ "@ + filename + ": "@ + error }
}

/// The notice on a file that could not be fetched or summed up.
pub fn warn_of_file(filename: &str, error: &str) -> (r: Progress)
    ensures
        r@ == file_warning(filename@, error@),
{
    let mut s = "⚠ ".to_owned();
    s.append(filename);
    s.append(": ");
    s.append(error);
    progress::log(s)
}

/// Takes in what became of fetching the file at position `idx` to `dest`: where
/// it succeeded, the file lies there from now on; where not, nothing changes and
/// a notice says why.
pub fn take_download(state: &mut AppState, idx: usize, dest: String, outcome: Result<(), String>) -> (r:
    Option<Progress>)
    requires
        idx < old(state)@.files.len(),
    ensures
        match outcome {
            Ok(_) => r is None && final(state)@ == (AppStateView {
                files: old(state)@.files.update(
                    idx as int,
                    CanvasFileView { local_path: dest@, ..old(state)@.files[idx as int] },
                ),
                ..old(state)@
            }),
            Err(e) => r is Some && r->0@ == file_warning(
                old(state)@.files[idx as int].filename,
                e@,
            ) && *final(state) == *old(state),
        },
{
    let ghost before = state@;
    match outcome {
        Ok(_) => {
            state.files[idx].local_path = dest;
            assert(state@.files =~= before.files.update(
                idx as int,
                CanvasFileView { local_path: dest@, ..before.files[idx as int] },
            ));
            None
        },
        Err(e) => Some(warn_of_file(state.files[idx].filename.as_str(), e.as_str())),
    }
}

/// Whether the state is saved behind the `n`-th file: behind every fifth.
pub fn save_is_due(n: usize) -> (r: bool)
    ensures
        r == (n % 5 == 0),
{
    n % 5 == 0
}

/// The notice that the downloads are over.
pub fn download_done(total: usize) -> (r: Progress)
    ensures
        r@ == (ProgressView::Done {
            message: text::decimal(total as nat) + " archivos descargados."@,
        }),
{
    let mut s = text::number(total as u64);
    s.append(" archivos descargados.");
    progress::done(s)
}

// ---------------------------------------------------------------------------
// The run
// ---------------------------------------------------------------------------

/// A run of downloads.
pub struct DownloadRun {
    pub state: AppState,
    /// Where each file belongs.
    pub dests: Vec<String>,
    /// The files to fetch.
    pub queue: Vec<usize>,
    /// The one of them that is next.
    pub at: usize,
}

/// What a run has come to.
#[verifier::ext_equal]
pub struct DownloadRunView {
    pub state: AppStateView,
    pub dests: Seq<Seq<char>>,
    pub queue: Seq<usize>,
    pub at: int,
}

impl View for DownloadRun {
    type V = DownloadRunView;

    open spec fn view(&self) -> DownloadRunView {
        DownloadRunView {
            state: self.state@,
            dests: text::views(self.dests@),
            queue: self.queue@,
            at: self.at as int,
        }
    }
}

impl DownloadRunView {
    /// Every file has a destination, and the queue holds positions of files.
    pub open spec fn wf(self) -> bool {
        &&& self.dests.len() == self.state.files.len()
        &&& 0 <= self.at <= self.queue.len()
        &&& forall|k: int|
            0 <= k < self.queue.len() ==> (#[trigger] self.queue[k]) < self.state.files.len()
    }

    /// Nothing is left to fetch.
    pub open spec fn over(self) -> bool {
        self.at >= self.queue.len()
    }

    /// The position of the file that is next.
    pub open spec fn next(self) -> int {
        self.queue[self.at] as int
    }
}

/// The run after a look at the disk, before its first fetch.
pub open spec fn run_begin(
    st: AppStateView,
    dests: Seq<Seq<char>>,
    at_dest: Seq<bool>,
    at_path: Seq<bool>,
) -> DownloadRunView {
    let state = AppStateView {
        files: Seq::new(
            st.files.len(),
            |i: int| reconciled(st.files[i], dests[i], at_dest[i], at_path[i]),
        ),
        ..st
    };
    DownloadRunView { state, dests, queue: download_queue(state), at: 0 }
}

/// The run after a fetch, `fetched` saying whether it succeeded.
pub open spec fn run_after(run: DownloadRunView, fetched: bool) -> DownloadRunView {
    let i = run.next();
    DownloadRunView {
        state: if fetched {
            AppStateView {
                files: run.state.files.update(
                    i,
                    CanvasFileView { local_path: run.dests[i], ..run.state.files[i] },
                ),
                ..run.state
            }
        } else {
            run.state
        },
        at: run.at + 1,
        ..run
    }
}

impl DownloadRun {
    /// A run after a look at the disk, and how many files turned out to be there:
    /// `dests[i]` is where the `i`-th file belongs, `at_dest[i]` says whether it
    /// lies there, `at_path[i]` whether it lies where it is said to.
    pub fn begin(
        state: AppState,
        dests: Vec<String>,
        at_dest: &Vec<bool>,
        at_path: &Vec<bool>,
    ) -> (r: (DownloadRun, u64))
        requires
            dests@.len() == state@.files.len(),
            at_dest@.len() == state@.files.len(),
            at_path@.len() == state@.files.len(),
        ensures
            r.0@ == run_begin(state@, text::views(dests@), at_dest@, at_path@),
            r.0@.wf(),
            r.1 == found_upto(
                state@.files,
                text::views(dests@),
                at_dest@,
                state@.files.len() as int,
            ),
    {
        let mut state = state;
        let found = reconcile(&mut state, &dests, at_dest, at_path);
        let queue = pending_downloads(&state);
        proof {
            assert(state.files.len() <= usize::MAX);
            queue::lemma_queue(
                state@.files,
                labels::past_ids(state@.courses),
                |f: CanvasFileView| wants_download(f),
            );
        }
        (DownloadRun { state, dests, queue, at: 0 }, found)
    }

    /// Whether nothing is left to fetch.
    pub fn is_over(&self) -> (r: bool)
        ensures
            r == self@.over(),
    {
        self.at >= self.queue.len()
    }

    /// The position of the file that is next.
    pub fn next(&self) -> (r: usize)
        requires
            self@.wf(),
            !self@.over(),
        ensures
            r == self@.next(),
            r < self@.state.files.len(),
    {
        assert(self@.queue[self.at as int] < self@.state.files.len());
        self.queue[self.at]
    }

    /// The notice that the next file is being fetched.
    pub fn notice(&self) -> (r: Progress)
        requires
            self@.wf(),
            !self@.over(),
        ensures
            r@ == (ProgressView::Step {
                phase: "download"@,
                current: (self@.at + 1) as u64,
                total: self@.queue.len() as u64,
                message: self@.state.files[self@.next()].course_name + " · "@
                    + self@.state.files[self@.next()].filename,
            }),
    {
        let i: usize = self.next();
        assert(self@.state.files[i as int] == self.state.files@[i as int]@);
        download_step(&self.state.files[i], self.at, self.queue.len())
    }

    /// Where the next file belongs.
    pub fn dest(&self) -> (r: String)
        requires
            self@.wf(),
            !self@.over(),
        ensures
            r@ == self@.dests[self@.next()],
    {
        let i: usize = self.next();
        assert(self@.dests[i as int] == self.dests@[i as int]@);
        self.dests[i].clone()
    }

    /// Takes in what became of fetching the next file, and goes on to the one
    /// behind it. Returns the notice on why a fetch failed, and whether the state
    /// is to be saved now.
    pub fn take(&mut self, outcome: Result<(), String>) -> (r: (Option<Progress>, bool))
        requires
            old(self)@.wf(),
            !old(self)@.over(),
        ensures
            final(self)@ == run_after(old(self)@, outcome is Ok),
            final(self)@.wf(),
            match outcome {
                Ok(_) => r.0 is None,
                Err(e) => r.0 is Some && r.0->0@ == file_warning(
                    old(self)@.state.files[old(self)@.next()].filename,
                    e@,
                ),
            },
            r.1 == (old(self)@.at % 5 == 0),
    {
        let ghost before = self@;
        let i: usize = self.next();
        let dest = self.dest();
        let warning = take_download(&mut self.state, i, dest, outcome);
        let save = save_is_due(self.at);
        assert(self.at < self.queue.len());
        self.at = self.at + 1;
        assert(self@ =~= run_after(before, outcome is Ok));
        (warning, save)
    }
}

/// A file that was fetched is not to be fetched again, and the other files stay
/// as they were.
pub proof fn lemma_fetched_once(run: DownloadRunView)
    requires
        run.wf(),
        !run.over(),
        run.dests[run.next()].len() > 0,
    ensures
        !wants_download(run_after(run, true).state.files[run.next()]),
        forall|j: int|
            0 <= j < run.state.files.len() && j != run.next() ==> (#[trigger] run_after(
                run,
                true,
            ).state.files[j]) == run.state.files[j],
{
    assert(run.queue[run.at] < run.state.files.len());
}

/// A file that lies at its destination is not fetched again.
pub proof fn lemma_on_disk_not_fetched(f: CanvasFileView, dest: Seq<char>, at_path: bool)
    requires
        dest.len() > 0,
    ensures
        !wants_download(reconciled(f, dest, true, at_path)),
{
}

/// Looking at the disk a second time, with nothing changed on it, changes
/// nothing in the state.
pub proof fn lemma_reconciled_twice(
    f: CanvasFileView,
    dest: Seq<char>,
    at_dest: bool,
    at_path: bool,
)
    ensures
        reconciled(reconciled(f, dest, at_dest, at_path), dest, at_dest, at_path) == reconciled(
            f,
            dest,
            at_dest,
            at_path,
        ),
{
}

// ---------------------------------------------------------------------------
// What a run does
// ---------------------------------------------------------------------------

/// A file that lies where it belongs is known to lie there; one that lies neither there
/// nor where it was said to is known to be missing; any other is left as it was. Nothing
/// else of it changes.
pub proof fn lemma_reconciled(f: CanvasFileView, dest: Seq<char>, at_dest: bool, at_path: bool)
    ensures
        ({
            let g = reconciled(f, dest, at_dest, at_path);
            &&& at_dest ==> g.local_path == dest
            &&& !at_dest && !at_path ==> g.local_path.len() == 0
            &&& !at_dest && at_path ==> g.local_path == f.local_path
            &&& g.id == f.id && g.course_id == f.course_id && g.course_name == f.course_name
                && g.folder == f.folder && g.filename == f.filename && g.url == f.url && g.size
                == f.size && g.content_type == f.content_type && g.category == f.category
                && g.content_done == f.content_done && g.category_manual == f.category_manual
                && g.summary == f.summary && g.embedding == f.embedding && g.summary_pdf
                == f.summary_pdf
        }),
{
}

/// The files found on disk are counted one by one: those that lie where they belong and
/// were not known to.
pub proof fn lemma_found(
    files: Seq<CanvasFileView>,
    dests: Seq<Seq<char>>,
    at_dest: Seq<bool>,
    n: int,
)
    requires
        0 <= n,
    ensures
        found_upto(files, dests, at_dest, 0) == 0,
        at_dest[n] && files[n].local_path != dests[n] ==> found_upto(files, dests, at_dest, n + 1)
            == found_upto(files, dests, at_dest, n) + 1,
        !at_dest[n] || files[n].local_path == dests[n] ==> found_upto(
            files,
            dests,
            at_dest,
            n + 1,
        ) == found_upto(files, dests, at_dest, n),
{
}

/// What is fetched are exactly the files that lie nowhere, each once: those of current
/// courses before those of courses that are over, and among either in their order.
pub proof fn lemma_downloads(st: AppStateView)
    requires
        st.files.len() <= usize::MAX,
    ensures
        forall|i: int|
            0 <= i < st.files.len() ==> (download_queue(st).contains(i as usize) <==> (
            #[trigger] st.files[i]).local_path.len() == 0),
        download_queue(st).no_duplicates(),
        forall|j: int, k: int|
            0 <= j < k < download_queue(st).len() && labels::past_ids(st.courses).contains(
                st.files[(#[trigger] download_queue(st)[j]) as int].course_id,
            ) ==> labels::past_ids(st.courses).contains(
                st.files[(#[trigger] download_queue(st)[k]) as int].course_id,
            ),
{
    let past = labels::past_ids(st.courses);
    let want = |f: CanvasFileView| wants_download(f);
    queue::lemma_queue(st.files, past, want);
    let q = download_queue(st);
    assert forall|i: int| 0 <= i < st.files.len() implies (q.contains(i as usize) <==> (
    #[trigger] st.files[i]).local_path.len() == 0) by {
        if st.files[i].local_path.len() == 0 {
            assert(want(st.files[i]));
        }
        if q.contains(i as usize) {
            let k = choose|k: int| 0 <= k < q.len() && q[k] == i as usize;
            assert(want(st.files[q[k] as int]));
        }
    }
}

/// A run takes the files of its queue one after the other: a file that was fetched lies
/// where it belongs, one that was not is left as it was, and so is everything else.
pub proof fn lemma_run_after(run: DownloadRunView, fetched: bool)
    requires
        run.wf(),
        !run.over(),
    ensures
        ({
            let after = run_after(run, fetched);
            let i = run.queue[run.at] as int;
            &&& after.at == run.at + 1
            &&& after.queue == run.queue
            &&& after.dests == run.dests
            &&& !fetched ==> after.state == run.state
            &&& fetched ==> after.state.files[i].local_path == run.dests[i]
            &&& after.state.files.len() == run.state.files.len()
            &&& forall|j: int|
                0 <= j < run.state.files.len() && j != i ==> #[trigger] after.state.files[j]
                    == run.state.files[j]
            &&& after.state.files[i].id == run.state.files[i].id && after.state.files[i].category
                == run.state.files[i].category && after.state.files[i].summary
                == run.state.files[i].summary && after.state.files[i].filename
                == run.state.files[i].filename
            &&& after.state.courses == run.state.courses && after.state.assignments
                == run.state.assignments && after.state.events == run.state.events
                && after.state.announcements == run.state.announcements
                && after.state.course_summaries == run.state.course_summaries
                && after.state.last_sync == run.state.last_sync && after.state.notified
                == run.state.notified
        }),
{
}

/// A run begins with the state after a look at the disk, before its first file, and its
/// queue holds exactly the files that are not there.
pub proof fn lemma_run_begins(
    st: AppStateView,
    dests: Seq<Seq<char>>,
    at_dest: Seq<bool>,
    at_path: Seq<bool>,
    i: int,
)
    requires
        st.files.len() <= usize::MAX,
        0 <= i < st.files.len(),
        dests[i].len() > 0,
    ensures
        ({
            let run = run_begin(st, dests, at_dest, at_path);
            &&& run.at == 0
            &&& run.dests == dests
            &&& at_dest[i] ==> run.state.files[i].local_path == dests[i]
            &&& at_dest[i] ==> !run.queue.contains(i as usize)
            &&& !at_dest[i] && !at_path[i] ==> run.queue.contains(i as usize)
            &&& !at_dest[i] && at_path[i] && st.files[i].local_path.len() > 0
                ==> !run.queue.contains(i as usize)
        }),
{
    let run = run_begin(st, dests, at_dest, at_path);
    lemma_downloads(run.state);
    assert(run.state.files[i] == reconciled(st.files[i], dests[i], at_dest[i], at_path[i]));
}

/// What is seen of a run is what it holds, each thing as itself.
pub proof fn lemma_download_run_seen(x: DownloadRun)
    ensures
        x@.state == x.state@,
        x@.dests == text::views(x.dests@),
        x@.queue == x.queue@,
        x@.at == x.at as int,
{
}

/// A file belongs into the folder of its course: the course with its number, under the
/// course's name where no other course has it, and apart where the course is over.
pub proof fn lemma_dest(download_dir: Seq<char>, st: AppStateView, i: int, k: int)
    requires
        0 <= i < st.files.len(),
        0 <= k < st.courses.len(),
        st.courses[k].id == st.files[i].course_id,
        forall|j: int| 0 <= j < st.courses.len() && j != k ==> (#[trigger] st.courses[j]).id
            != st.courses[k].id && st.courses[j].name != st.courses[k].name,
    ensures
        state_dest(download_dir, st, i) == places::file_place(
            download_dir,
            st.files[i],
            st.courses[k].name,
            st.courses[k].concluded,
        ),
{
    let f = st.files[i];
    labels::lemma_folder_label(st.courses, f.course_id, f.course_name, k);
    labels::lemma_label_of_course(st.courses, k);
    labels::lemma_past(st.courses, f.course_id);
    assert(labels::past_ids(st.courses).contains(f.course_id) == st.courses[k].concluded) by {
        if labels::is_past(st.courses, f.course_id) {
            let j = choose|j: int|
                0 <= j < st.courses.len() && #[trigger] st.courses[j].concluded && st.courses[j].id
                    == f.course_id;
            assert(j == k);
        }
        if st.courses[k].concluded {
            assert(labels::is_past(st.courses, f.course_id));
        }
    }
}

/// The warning on a file names it and says why.
pub proof fn lemma_file_warning(filename: Seq<char>, error: Seq<char>)
    ensures
        file_warning(filename, error) == (ProgressView::Log {
            message: "⚠ "@ + filename + ": "@ + error,
        }),
{
}

} // verus!
