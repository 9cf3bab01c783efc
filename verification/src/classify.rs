//! The classification of all files, window by window, and the dates in
//! announcements.

use vstd::prelude::*;
use vstd::string::*;
use crate::answers::{ClassResult, ClassResultView, FoundDate, FoundDateView};
use crate::answers;
use crate::categories::folder_category;
use crate::categories;
use crate::events::{upsert_announcement_event, upsert_detected_event};
use crate::events;
use crate::labels::concluded_ids;
use crate::labels;
use crate::progress::{Progress, ProgressView};
use crate::progress;
use crate::queue::queue;
use crate::queue;
use crate::store::{
    AnnouncementView, AppState, AppStateView, CalEventView, CanvasFile, CanvasFileView,
};
use crate::text;

verus! {

// ---------------------------------------------------------------------------
// What is left to classify
// ---------------------------------------------------------------------------

/// Whether a file is to be classified: never where the user set its category;
/// else where it has none, where it was downloaded but not read yet, or where
/// everything is to be done again.
pub open spec fn wants_class(f: CanvasFileView, force: bool) -> bool {
    !f.category_manual && (force || f.category.len() == 0 || (f.local_path.len() > 0
        && !f.content_done))
}

/// The files to classify, those of past courses last.
pub open spec fn class_queue(st: AppStateView, force: bool) -> Seq<usize> {
    queue::queue_of(
        st.files,
        labels::past_ids(st.courses),
        |f: CanvasFileView| wants_class(f, force),
    )
}

/// The positions of the files to classify, those of past courses last.
pub fn pending_classes(state: &AppState, force: bool) -> (r: Vec<usize>)
    ensures
        r@ == class_queue(state@, force),
{
    let past = concluded_ids(state);
    let ghost want = |f: CanvasFileView| wants_class(f, force);
    let mut wanted: Vec<bool> = Vec::new();
    let mut i: usize = 0;
    while i < state.files.len()
        invariant
            i <= state.files@.len(),
            want == (|f: CanvasFileView| wants_class(f, force)),
            wanted@.len() == i,
            forall|j: int| 0 <= j < i ==> #[trigger] wanted@[j] == want(state.files@[j]@),
        decreases state.files.len() - i,
    {
        let f = &state.files[i];
        wanted.push(
            !f.category_manual && (force || f.category.as_str().is_empty() || (
            !f.local_path.as_str().is_empty() && !f.content_done)),
        );
        i += 1;
    }
    queue(&state.files, &wanted, &past, Ghost(want))
}

/// An announcement that is to be read again.
pub open spec fn reopened(a: AnnouncementView) -> AnnouncementView {
    AnnouncementView { dates_done: false, ..a }
}

/// Marks every announcement as one to be read again.
pub fn reopen_announcements(state: &mut AppState)
    ensures
        final(state)@ == (AppStateView {
            announcements: old(state)@.announcements.map_values(
                |a: AnnouncementView| reopened(a),
            ),
            ..old(state)@
        }),
{
    let ghost before = state@;
    let ghost after = before.announcements.map_values(|a: AnnouncementView| reopened(a));
    let mut i: usize = 0;
    while i < state.announcements.len()
        invariant
            i <= state.announcements@.len(),
            state.announcements@.len() == before.announcements.len(),
            after == before.announcements.map_values(|a: AnnouncementView| reopened(a)),
            forall|j: int| 0 <= j < i ==> (#[trigger] state.announcements@[j])@ == after[j],
            forall|j: int|
                i <= j < before.announcements.len() ==> (#[trigger] state.announcements@[j])@
                    == before.announcements[j],
            state@ == (AppStateView { announcements: state@.announcements, ..before }),
        decreases state.announcements.len() - i,
    {
        assert(state.announcements@[i as int]@ == before.announcements[i as int]);
        state.announcements[i].dates_done = false;
        assert(state.announcements@[i as int]@ == after[i as int]);
        i += 1;
    }
    assert(state@.announcements =~= after);
}

/// Whether there is an announcement that was not read.
pub fn has_unread(state: &AppState) -> (r: bool)
    ensures
        r == exists|i: int|
            0 <= i < state@.announcements.len() && !(#[trigger] state@.announcements[i]).dates_done,
{
    let mut i: usize = 0;
    while i < state.announcements.len()
        invariant
            i <= state.announcements@.len(),
            forall|j: int|
                0 <= j < i ==> (#[trigger] state@.announcements[j]).dates_done,
        decreases state.announcements.len() - i,
    {
        assert(state@.announcements[i as int] == state.announcements@[i as int]@);
        if !state.announcements[i].dates_done {
            return true;
        }
        i += 1;
    }
    false
}

/// The notice that everything is classified.
pub fn nothing_to_classify() -> (r: Progress)
    ensures
        r@ == (ProgressView::Done { message: "Todo clasificado."@ }),
{
    progress::done("Todo clasificado.".to_owned())
}

/// How many files are classified at a time.
pub const WINDOW: usize = 12;

/// How many announcements are read at a time.
pub const NEWS_WINDOW: usize = 8;

/// Where the window that begins at `start` ends.
pub open spec fn window_end(len: int, start: int, size: int) -> int {
    if start + size < len {
        start + size
    } else {
        len
    }
}

/// The window of the queue that begins at `start`.
pub fn window(pending: &Vec<usize>, start: usize, size: usize) -> (r: Vec<usize>)
    requires
        start <= pending@.len(),
    ensures
        r@ == pending@.subrange(
            start as int,
            window_end(pending@.len() as int, start as int, size as int),
        ),
{
    let n: usize = pending.len();
    let end: usize = if size < n - start {
        start + size
    } else {
        n
    };
    let mut out: Vec<usize> = Vec::new();
    let mut i: usize = start;
    while i < end
        invariant
            start <= i <= end <= pending@.len(),
            out@ == pending@.subrange(start as int, i as int),
        decreases end - i,
    {
        out.push(pending[i]);
        assert(pending@.subrange(start as int, i + 1) =~= pending@.subrange(
            start as int,
            i as int,
        ).push(pending@[i as int]));
        i += 1;
    }
    out
}

// ---------------------------------------------------------------------------
// A window of files
// ---------------------------------------------------------------------------

/// Every position is one of `len` files.
pub open spec fn in_range(idxs: Seq<usize>, len: int) -> bool {
    forall|k: int| 0 <= k < idxs.len() ==> (#[trigger] idxs[k]) < len
}

/// Whether the text of a file is to be read before it can be classified: its
/// folder does not tell its category, and it was downloaded.
pub open spec fn reads_text(f: CanvasFileView) -> bool {
    categories::category_of_folder(f.folder) is None && f.local_path.len() > 0
}

/// Whether the text of a file is to be read before it can be classified.
pub fn needs_text(f: &CanvasFile) -> (r: bool)
    ensures
        r == reads_text(f@),
{
    match folder_category(f.folder.as_str()) {
        Some(_) => false,
        None => !f.local_path.as_str().is_empty(),
    }
}

/// A file after a first look, `content` being its text: where its folder tells
/// its category, it is classified; where it was downloaded but holds no text,
/// there is nothing more to read.
pub open spec fn looked_at(f: CanvasFileView, content: Seq<char>) -> CanvasFileView {
    match categories::category_of_folder(f.folder) {
        Some(c) => CanvasFileView { category: c, content_done: true, ..f },
        None => if f.local_path.len() > 0 && text::blank(content) {
            CanvasFileView { content_done: true, ..f }
        } else {
            f
        },
    }
}

/// Whether a file is classified by its content.
pub open spec fn by_content(f: CanvasFileView, content: Seq<char>) -> bool {
    reads_text(f) && !text::blank(content)
}

/// Whether a file is classified by its name.
pub open spec fn by_name(f: CanvasFileView, content: Seq<char>) -> bool {
    categories::category_of_folder(f.folder) is None && !by_content(f, content)
}

/// What a first look at a window leaves: the files, those to classify by content
/// with their texts, and those to classify by name.
pub struct Triage {
    pub content: Vec<(usize, String)>,
    pub name_only: Vec<usize>,
}

/// What a first look leaves.
#[verifier::ext_equal]
pub struct TriageView {
    pub files: Seq<CanvasFileView>,
    pub content: Seq<(usize, Seq<char>)>,
    pub name_only: Seq<usize>,
}

/// What a first look at the first `n` files of a window leaves, `texts[k]` being
/// the text of the `k`-th.
pub open spec fn triage_upto(
    files: Seq<CanvasFileView>,
    idxs: Seq<usize>,
    texts: Seq<Seq<char>>,
    n: int,
) -> TriageView
    decreases n,
{
    if n <= 0 {
        TriageView { files, content: seq![], name_only: seq![] }
    } else {
        let t = triage_upto(files, idxs, texts, n - 1);
        let i = idxs[n - 1];
        let f = t.files[i as int];
        let s = texts[n - 1];
        TriageView {
            files: t.files.update(i as int, looked_at(f, s)),
            content: if by_content(f, s) {
                t.content.push((i, s))
            } else {
                t.content
            },
            name_only: if by_name(f, s) {
                t.name_only.push(i)
            } else {
                t.name_only
            },
        }
    }
}

/// A first look keeps the number of files, and its positions are among those of
/// the window.
pub proof fn lemma_triage(
    files: Seq<CanvasFileView>,
    idxs: Seq<usize>,
    texts: Seq<Seq<char>>,
    n: int,
)
    requires
        in_range(idxs, files.len() as int),
        0 <= n <= idxs.len(),
    ensures
        triage_upto(files, idxs, texts, n).files.len() == files.len(),
        in_range(triage_upto(files, idxs, texts, n).name_only, files.len() as int),
        forall|k: int|
            0 <= k < triage_upto(files, idxs, texts, n).content.len() ==> (
            #[trigger] triage_upto(files, idxs, texts, n).content[k]).0 < files.len(),
    decreases n,
{
    if n > 0 {
        lemma_triage(files, idxs, texts, n - 1);
        let t = triage_upto(files, idxs, texts, n - 1);
        let u = triage_upto(files, idxs, texts, n);
        assert forall|k: int| 0 <= k < u.name_only.len() implies (#[trigger] u.name_only[k])
            < files.len() by {
            if k < t.name_only.len() {
                assert(u.name_only[k] == t.name_only[k]);
            }
        }
        assert forall|k: int| 0 <= k < u.content.len() implies (#[trigger] u.content[k]).0
            < files.len() by {
            if k < t.content.len() {
                assert(u.content[k] == t.content[k]);
            }
        }
    }
}

/// Takes a first look at a window of files, `texts[k]` being the text of the
/// `k`-th.
pub fn triage_window(state: &mut AppState, idxs: &Vec<usize>, texts: &Vec<String>) -> (r: Triage)
    requires
        texts@.len() == idxs@.len(),
        in_range(idxs@, old(state)@.files.len() as int),
    ensures
        final(state)@ == (AppStateView {
            files: triage_upto(
                old(state)@.files,
                idxs@,
                text::views(texts@),
                idxs@.len() as int,
            ).files,
            ..old(state)@
        }),
        text::views(r.content@) == triage_upto(
            old(state)@.files,
            idxs@,
            text::views(texts@),
            idxs@.len() as int,
        ).content,
        r.name_only@ == triage_upto(
            old(state)@.files,
            idxs@,
            text::views(texts@),
            idxs@.len() as int,
        ).name_only,
        in_range(r.name_only@, old(state)@.files.len() as int),
        forall|k: int|
            0 <= k < r.content@.len() ==> (#[trigger] r.content@[k]).0 < old(state)@.files.len(),
{
    let ghost before = state@;
    let ghost ts = text::views(texts@);
    let mut content: Vec<(usize, String)> = Vec::new();
    let mut name_only: Vec<usize> = Vec::new();
    let mut k: usize = 0;
    assert(text::views(content@) =~= seq![]);
    while k < idxs.len()
        invariant
            k <= idxs@.len(),
            texts@.len() == idxs@.len(),
            in_range(idxs@, before.files.len() as int),
            state.files@.len() == before.files.len(),
            ts == text::views(texts@),
            state@ == (AppStateView {
                files: triage_upto(before.files, idxs@, ts, k as int).files,
                ..before
            }),
            text::views(content@) == triage_upto(before.files, idxs@, ts, k as int).content,
            name_only@ == triage_upto(before.files, idxs@, ts, k as int).name_only,
        decreases idxs.len() - k,
    {
        let i: usize = idxs[k];
        let ghost t = triage_upto(before.files, idxs@, ts, k as int);
        let ghost f = state@.files[i as int];
        assert(f == state.files@[i as int]@);
        assert(ts[k as int] == texts@[k as int]@);
        match folder_category(state.files[i].folder.as_str()) {
            Some(c) => {
                state.files[i].category = c.to_owned();
                state.files[i].content_done = true;
            },
            None => {
                if state.files[i].local_path.as_str().is_empty() {
                    name_only.push(i);
                } else if text::is_blank(texts[k].as_str()) {
                    state.files[i].content_done = true;
                    name_only.push(i);
                } else {
                    let item = (i, texts[k].clone());
                    proof {
                        text::lemma_views_push(content@, item);
                    }
                    content.push(item);
                }
            },
        }
        assert(state@.files =~= t.files.update(i as int, looked_at(f, ts[k as int])));
        k += 1;
    }
    proof {
        lemma_triage(before.files, idxs@, ts, idxs@.len() as int);
        assert forall|k: int| 0 <= k < content@.len() implies (#[trigger] content@[k]).0
            < before.files.len() by {
            assert(text::views(content@)[k] == content@[k]@);
        }
    }
    Triage { content, name_only }
}

/// What is asked of the files to classify by content.
pub fn content_items(state: &AppState, content: &Vec<(usize, String)>) -> (r: Vec<
    (String, String, String, String),
>)
    requires
        forall|k: int|
            0 <= k < content@.len() ==> (#[trigger] content@[k]).0 < state@.files.len(),
    ensures
        text::views(r@) == Seq::new(
            content@.len(),
            |k: int|
                {
                    let f = state@.files[content@[k].0 as int];
                    (f.filename, f.folder, f.course_name, content@[k].1@)
                },
        ),
{
    let ghost all = Seq::new(
        content@.len(),
        |k: int|
            {
                let f = state@.files[content@[k].0 as int];
                (f.filename, f.folder, f.course_name, content@[k].1@)
            },
    );
    let mut out: Vec<(String, String, String, String)> = Vec::new();
    let mut k: usize = 0;
    assert(text::views(out@) =~= all.take(0));
    while k < content.len()
        invariant
            k <= content@.len(),
            forall|j: int|
                0 <= j < content@.len() ==> (#[trigger] content@[j]).0 < state@.files.len(),
            all == Seq::new(
                content@.len(),
                |k: int|
                    {
                        let f = state@.files[content@[k].0 as int];
                        (f.filename, f.folder, f.course_name, content@[k].1@)
                    },
            ),
            text::views(out@) == all.take(k as int),
        decreases content.len() - k,
    {
        assert(content@[k as int].0 < state@.files.len());
        let f = &state.files[content[k].0];
        let item = (
            f.filename.clone(),
            f.folder.clone(),
            f.course_name.clone(),
            content[k].1.clone(),
        );
        proof {
            assert(item@ == all[k as int]);
            text::lemma_views_push(out@, item);
            assert(all.take(k + 1) =~= all.take(k as int).push(item@));
        }
        out.push(item);
        k += 1;
    }
    assert(all.take(all.len() as int) =~= all);
    out
}

/// What is asked of the files to classify by name.
pub fn name_items(state: &AppState, idxs: &Vec<usize>) -> (r: Vec<(String, String, String)>)
    requires
        in_range(idxs@, state@.files.len() as int),
    ensures
        text::views(r@) == idxs@.map_values(
            |i: usize|
                {
                    let f = state@.files[i as int];
                    (f.filename, f.folder, f.course_name)
                },
        ),
{
    let ghost all = idxs@.map_values(
        |i: usize|
            {
                let f = state@.files[i as int];
                (f.filename, f.folder, f.course_name)
            },
    );
    let mut out: Vec<(String, String, String)> = Vec::new();
    let mut k: usize = 0;
    assert(text::views(out@) =~= all.take(0));
    while k < idxs.len()
        invariant
            k <= idxs@.len(),
            in_range(idxs@, state@.files.len() as int),
            all == idxs@.map_values(
                |i: usize|
                    {
                        let f = state@.files[i as int];
                        (f.filename, f.folder, f.course_name)
                    },
            ),
            text::views(out@) == all.take(k as int),
        decreases idxs.len() - k,
    {
        assert(idxs@[k as int] < state@.files.len());
        let f = &state.files[idxs[k]];
        let item = (f.filename.clone(), f.folder.clone(), f.course_name.clone());
        proof {
            assert(item@ == all[k as int]);
            text::lemma_views_push(out@, item);
            assert(all.take(k + 1) =~= all.take(k as int).push(item@));
        }
        out.push(item);
        k += 1;
    }
    assert(all.take(all.len() as int) =~= all);
    out
}

/// The state after the result of one file by content: its category, and an event
/// where a date was found; in any case the file was read.
pub open spec fn with_result(
    st: AppStateView,
    i: int,
    result: Option<ClassResultView>,
) -> AppStateView {
    match result {
        Some(r) => {
            let f = CanvasFileView { category: r.category, ..st.files[i] };
            AppStateView {
                files: st.files.update(i, CanvasFileView { content_done: true, ..f }),
                events: if r.date.len() > 0 {
                    events::upserted(st.events, events::detected_event(f, r.date, r.event))
                } else {
                    st.events
                },
                ..st
            }
        },
        None => AppStateView {
            files: st.files.update(i, CanvasFileView { content_done: true, ..st.files[i] }),
            ..st
        },
    }
}

/// The state after the results of the first `n` files by content.
pub open spec fn with_results(
    st: AppStateView,
    content: Seq<(usize, Seq<char>)>,
    rs: Seq<ClassResultView>,
    n: int,
) -> AppStateView
    decreases n,
{
    if n <= 0 {
        st
    } else {
        with_result(
            with_results(st, content, rs, n - 1),
            content[n - 1].0 as int,
            if n - 1 < rs.len() {
                Some(rs[n - 1])
            } else {
                None
            },
        )
    }
}

/// Results keep the number of files, and the announcements.
pub proof fn lemma_results_keep(
    st: AppStateView,
    content: Seq<(usize, Seq<char>)>,
    rs: Seq<ClassResultView>,
    n: int,
)
    requires
        0 <= n <= content.len(),
        forall|k: int| 0 <= k < content.len() ==> (#[trigger] content[k]).0 < st.files.len(),
    ensures
        with_results(st, content, rs, n).files.len() == st.files.len(),
        with_results(st, content, rs, n).announcements == st.announcements,
        with_results(st, content, rs, n).courses == st.courses,
    decreases n,
{
    if n > 0 {
        lemma_results_keep(st, content, rs, n - 1);
        assert(content[n - 1].0 < st.files.len());
    }
}

/// Takes in the results of files by content.
pub fn apply_results(
    state: &mut AppState,
    content: &Vec<(usize, String)>,
    rs: &Vec<ClassResult>,
)
    requires
        forall|k: int|
            0 <= k < content@.len() ==> (#[trigger] content@[k]).0 < old(state)@.files.len(),
    ensures
        final(state)@ == with_results(
            old(state)@,
            text::views(content@),
            text::views(rs@),
            content@.len() as int,
        ),
        final(state)@.files.len() == old(state)@.files.len(),
{
    let ghost before = state@;
    let ghost cs = text::views(content@);
    let ghost rv = text::views(rs@);
    let mut k: usize = 0;
    while k < content.len()
        invariant
            k <= content@.len(),
            cs == text::views(content@),
            rv == text::views(rs@),
            forall|j: int|
                0 <= j < content@.len() ==> (#[trigger] content@[j]).0 < before.files.len(),
            state@.files.len() == before.files.len(),
            state@ == with_results(before, cs, rv, k as int),
        decreases content.len() - k,
    {
        let i: usize = content[k].0;
        assert(content@[k as int].0 < before.files.len());
        assert(cs[k as int].0 == i);
        let ghost st = state@;
        assert(st.files[i as int] == state.files@[i as int]@);
        if k < rs.len() {
            let r = &rs[k];
            assert(rv[k as int] == r@);
            state.files[i].category = r.category.clone();
            let ghost f = CanvasFileView { category: r@.category, ..st.files[i as int] };
            assert(state@.files =~= st.files.update(i as int, f));
            if !r.date.as_str().is_empty() {
                upsert_detected_event(state, i, r.date.as_str(), r.event.as_str());
            }
            let ghost mid = state@;
            assert(mid.files == st.files.update(i as int, f));
            assert(mid.files[i as int] == state.files@[i as int]@);
            state.files[i].content_done = true;
            assert(state@.files =~= mid.files.update(
                i as int,
                CanvasFileView { content_done: true, ..f },
            ));
            assert(state@.files =~= st.files.update(
                i as int,
                CanvasFileView { content_done: true, ..f },
            ));
            assert(state@ == with_result(st, i as int, Some(r@)));
        } else {
            state.files[i].content_done = true;
            assert(state@.files =~= st.files.update(
                i as int,
                CanvasFileView { content_done: true, ..st.files[i as int] },
            ));
            assert(state@ == with_result(st, i as int, None));
        }
        k += 1;
    }
}

/// The text whose embedding places a file in the search index.
pub fn embedding_input(f: &CanvasFile, content: &str) -> (r: String)
    ensures
        r@ == f@.filename + "\n"@ + content@,
{
    let mut s = f.filename.clone();
    s.append("\n");
    s.append(content);
    s
}

/// Whether a file has no place in the search index yet.
pub fn needs_embedding(f: &CanvasFile) -> (r: bool)
    ensures
        r == (f@.embedding.len() == 0),
{
    f.embedding.len() == 0
}

/// Gives a file its place in the search index.
pub fn set_embedding(state: &mut AppState, idx: usize, embedding: Vec<u32>)
    requires
        idx < old(state)@.files.len(),
    ensures
        final(state)@ == (AppStateView {
            files: old(state)@.files.update(
                idx as int,
                CanvasFileView { embedding: embedding@, ..old(state)@.files[idx as int] },
            ),
            ..old(state)@
        }),
{
    let ghost before = state@;
    state.files[idx].embedding = embedding;
    assert(state@.files =~= before.files.update(
        idx as int,
        CanvasFileView { embedding: embedding@, ..before.files[idx as int] },
    ));
}

/// The files after the categories of the first `n` by name.
pub open spec fn with_categories(
    files: Seq<CanvasFileView>,
    idxs: Seq<usize>,
    cats: Seq<Seq<char>>,
    n: int,
) -> Seq<CanvasFileView>
    decreases n,
{
    if n <= 0 {
        files
    } else {
        let before = with_categories(files, idxs, cats, n - 1);
        let i = idxs[n - 1] as int;
        if n - 1 < cats.len() {
            before.update(i, CanvasFileView { category: cats[n - 1], ..before[i] })
        } else {
            before
        }
    }
}

/// Takes in the categories of files by name.
pub fn apply_categories(state: &mut AppState, idxs: &Vec<usize>, cats: &Vec<String>)
    requires
        in_range(idxs@, old(state)@.files.len() as int),
    ensures
        final(state)@ == (AppStateView {
            files: with_categories(
                old(state)@.files,
                idxs@,
                text::views(cats@),
                idxs@.len() as int,
            ),
            ..old(state)@
        }),
        final(state)@.files.len() == old(state)@.files.len(),
{
    let ghost before = state@;
    let ghost cv = text::views(cats@);
    let mut k: usize = 0;
    while k < idxs.len()
        invariant
            k <= idxs@.len(),
            in_range(idxs@, before.files.len() as int),
            cv == text::views(cats@),
            state@.files.len() == before.files.len(),
            state@ == (AppStateView {
                files: with_categories(before.files, idxs@, cv, k as int),
                ..before
            }),
        decreases idxs.len() - k,
    {
        let i: usize = idxs[k];
        let ghost st = state@;
        assert(st.files[i as int] == state.files@[i as int]@);
        if k < cats.len() {
            assert(cv[k as int] == cats@[k as int]@);
            state.files[i].category = cats[k].clone();
            assert(state@.files =~= st.files.update(
                i as int,
                CanvasFileView { category: cv[k as int], ..st.files[i as int] },
            ));
        }
        k += 1;
    }
}

/// The notice that so many files are classified.
pub fn classify_step(done: u64, total: u64) -> (r: Progress)
    ensures
        r@ == (ProgressView::Step {
            phase: "classify"@,
            current: done,
            total,
            message: "Clasificando… ("@ + text::decimal(done as nat) + "/"@ + text::decimal(
                total as nat,
            ) + ")"@,
        }),
{
    let mut s = "Clasificando… (".to_owned();
    s.append(text::number(done).as_str());
    s.append("/");
    s.append(text::number(total).as_str());
    s.append(")");
    progress::step("classify", done, total, s)
}

// ---------------------------------------------------------------------------
// Announcements
// ---------------------------------------------------------------------------

/// Whether an announcement is to be read for dates.
pub open spec fn wants_reading(a: AnnouncementView) -> bool {
    !a.dates_done && !text::blank(a.message)
}

/// The positions of the announcements to read.
pub open spec fn news_queue(st: AppStateView) -> Seq<usize> {
    queue::marked(
        st.announcements.map_values(|a: AnnouncementView| wants_reading(a)),
        st.announcements.len() as int,
    )
}

/// The positions of the announcements to read.
pub fn pending_news(state: &AppState) -> (r: Vec<usize>)
    ensures
        r@ == news_queue(state@),
{
    let ghost flags = state@.announcements.map_values(|a: AnnouncementView| wants_reading(a));
    let mut out: Vec<usize> = Vec::new();
    let mut i: usize = 0;
    while i < state.announcements.len()
        invariant
            i <= state.announcements@.len(),
            flags == state@.announcements.map_values(|a: AnnouncementView| wants_reading(a)),
            out@ == queue::marked(flags, i as int),
        decreases state.announcements.len() - i,
    {
        let a = &state.announcements[i];
        assert(state@.announcements[i as int] == a@);
        if !a.dates_done && !text::is_blank(a.message.as_str()) {
            out.push(i);
        }
        i += 1;
    }
    out
}

/// The notice that announcements are being read.
pub fn reading_news(total: usize) -> (r: Progress)
    ensures
        r@ == (ProgressView::Log {
            message: "📢 Leyendo "@ + text::decimal(total as nat)
                + " anuncios para detectar fechas…"@,
        }),
{
    let mut s = "📢 Leyendo ".to_owned();
    s.append(text::number(total as u64).as_str());
    s.append(" anuncios para detectar fechas…");
    progress::log(s)
}

/// What is asked of the announcements of a window.
pub fn news_items(state: &AppState, idxs: &Vec<usize>) -> (r: Vec<(String, String, String)>)
    requires
        in_range(idxs@, state@.announcements.len() as int),
    ensures
        text::views(r@) == idxs@.map_values(
            |i: usize|
                {
                    let a = state@.announcements[i as int];
                    (a.title, a.course_name, a.message)
                },
        ),
{
    let ghost all = idxs@.map_values(
        |i: usize|
            {
                let a = state@.announcements[i as int];
                (a.title, a.course_name, a.message)
            },
    );
    let mut out: Vec<(String, String, String)> = Vec::new();
    let mut k: usize = 0;
    assert(text::views(out@) =~= all.take(0));
    while k < idxs.len()
        invariant
            k <= idxs@.len(),
            in_range(idxs@, state@.announcements.len() as int),
            all == idxs@.map_values(
                |i: usize|
                    {
                        let a = state@.announcements[i as int];
                        (a.title, a.course_name, a.message)
                    },
            ),
            text::views(out@) == all.take(k as int),
        decreases idxs.len() - k,
    {
        assert(idxs@[k as int] < state@.announcements.len());
        let a = &state.announcements[idxs[k]];
        let item = (a.title.clone(), a.course_name.clone(), a.message.clone());
        proof {
            assert(item@ == all[k as int]);
            text::lemma_views_push(out@, item);
            assert(all.take(k + 1) =~= all.take(k as int).push(item@));
        }
        out.push(item);
        k += 1;
    }
    assert(all.take(all.len() as int) =~= all);
    out
}

/// The events after the first `n` dates of an announcement.
pub open spec fn with_dates(
    evs: Seq<CalEventView>,
    a: AnnouncementView,
    found: Seq<FoundDateView>,
    n: int,
) -> Seq<CalEventView>
    decreases n,
{
    if n <= 0 {
        evs
    } else {
        events::upserted(
            with_dates(evs, a, found, n - 1),
            events::announced_event(
                a.id,
                n - 1,
                found[n - 1].date,
                found[n - 1].event,
                a.course_name,
                a.title,
            ),
        )
    }
}

/// The state after the dates of the announcements of the first `n` positions:
/// their dates are events, and they were read.
pub open spec fn with_news(
    st: AppStateView,
    idxs: Seq<usize>,
    lists: Seq<Seq<FoundDateView>>,
    n: int,
) -> AppStateView
    decreases n,
{
    if n <= 0 {
        st
    } else {
        let before = with_news(st, idxs, lists, n - 1);
        let i = idxs[n - 1] as int;
        let a = before.announcements[i];
        AppStateView {
            events: if n - 1 < lists.len() {
                with_dates(before.events, a, lists[n - 1], lists[n - 1].len() as int)
            } else {
                before.events
            },
            announcements: before.announcements.update(
                i,
                AnnouncementView { dates_done: true, ..a },
            ),
            ..before
        }
    }
}

/// Dates keep the number of announcements, and the files.
pub proof fn lemma_news_keep(
    st: AppStateView,
    idxs: Seq<usize>,
    lists: Seq<Seq<FoundDateView>>,
    n: int,
)
    requires
        0 <= n <= idxs.len(),
        in_range(idxs, st.announcements.len() as int),
    ensures
        with_news(st, idxs, lists, n).announcements.len() == st.announcements.len(),
        with_news(st, idxs, lists, n).files == st.files,
        with_news(st, idxs, lists, n).courses == st.courses,
    decreases n,
{
    if n > 0 {
        lemma_news_keep(st, idxs, lists, n - 1);
        assert(idxs[n - 1] < st.announcements.len());
    }
}

/// Puts the dates of an announcement among the events.
fn push_dates(state: &mut AppState, i: usize, found: &Vec<FoundDate>)
    requires
        i < old(state)@.announcements.len(),
    ensures
        final(state)@ == (AppStateView {
            events: with_dates(
                old(state)@.events,
                old(state)@.announcements[i as int],
                text::views(found@),
                found@.len() as int,
            ),
            ..old(state)@
        }),
{
    let ghost before = state@;
    let ghost fv = text::views(found@);
    let a = state.announcements[i].clone();
    assert(a@ == before.announcements[i as int]);
    let mut n: usize = 0;
    while n < found.len()
        invariant
            n <= found@.len(),
            fv == text::views(found@),
            a@ == before.announcements[i as int],
            state@ == (AppStateView {
                events: with_dates(before.events, a@, fv, n as int),
                ..before
            }),
        decreases found.len() - n,
    {
        assert(fv[n as int] == found@[n as int]@);
        upsert_announcement_event(
            state,
            a.id,
            n,
            found[n].date.as_str(),
            found[n].event.as_str(),
            a.course_name.as_str(),
            a.title.as_str(),
        );
        n += 1;
    }
}

/// Takes in the dates found in the announcements of a window.
pub fn apply_news(state: &mut AppState, idxs: &Vec<usize>, lists: &Vec<Vec<FoundDate>>)
    requires
        in_range(idxs@, old(state)@.announcements.len() as int),
    ensures
        final(state)@ == with_news(
            old(state)@,
            idxs@,
            answers::lists_view(lists@),
            idxs@.len() as int,
        ),
        final(state)@.announcements.len() == old(state)@.announcements.len(),
{
    let ghost before = state@;
    let ghost lv = answers::lists_view(lists@);
    let mut k: usize = 0;
    while k < idxs.len()
        invariant
            k <= idxs@.len(),
            in_range(idxs@, before.announcements.len() as int),
            lv == answers::lists_view(lists@),
            state@.announcements.len() == before.announcements.len(),
            state@ == with_news(before, idxs@, lv, k as int),
        decreases idxs.len() - k,
    {
        let i: usize = idxs[k];
        let ghost st = state@;
        assert(idxs@[k as int] < before.announcements.len());
        if k < lists.len() {
            assert(lv[k as int] == text::views(lists@[k as int]@));
            push_dates(state, i, &lists[k]);
        }
        let ghost mid = state@;
        assert(mid.announcements == st.announcements);
        assert(st.announcements[i as int] == state.announcements@[i as int]@);
        state.announcements[i].dates_done = true;
        assert(state@.announcements =~= st.announcements.update(
            i as int,
            AnnouncementView { dates_done: true, ..st.announcements[i as int] },
        ));
        k += 1;
    }
}

/// The notice that so many announcements are read.
pub fn news_step(end: usize, total: usize) -> (r: Progress)
    ensures
        r@ == (ProgressView::Step {
            phase: "classify"@,
            current: end as u64,
            total: total as u64,
            message: "Anuncios… ("@ + text::decimal(end as nat) + "/"@ + text::decimal(
                total as nat,
            ) + ")"@,
        }),
{
    let mut s = "Anuncios… (".to_owned();
    s.append(text::number(end as u64).as_str());
    s.append("/");
    s.append(text::number(total as u64).as_str());
    s.append(")");
    progress::step("classify", end as u64, total as u64, s)
}

/// The notice that the classification is over.
pub fn classify_done(files: usize, news: usize) -> (r: Progress)
    ensures
        r@ == (ProgressView::Done {
            message: text::decimal(files as nat) + " archivos clasificados · "@ + text::decimal(
                news as nat,
            ) + " anuncios leídos."@,
        }),
{
    let mut s = text::number(files as u64);
    s.append(" archivos clasificados · ");
    s.append(text::number(news as u64).as_str());
    s.append(" anuncios leídos.");
    progress::done(s)
}

// ---------------------------------------------------------------------------
// What the user set stays, and what is done is not done again
// ---------------------------------------------------------------------------

/// A file whose category the user set is never classified, not even where
/// everything is to be done again.
pub proof fn lemma_locked(st: AppStateView, force: bool, i: int)
    requires
        0 <= i < st.files.len() <= usize::MAX,
        st.files[i].category_manual,
    ensures
        !class_queue(st, force).contains(i as usize),
{
    let q = class_queue(st, force);
    queue::lemma_queue(
        st.files,
        labels::past_ids(st.courses),
        |f: CanvasFileView| wants_class(f, force),
    );
    if q.contains(i as usize) {
        let k = choose|k: int| 0 <= k < q.len() && q[k] == i as usize;
        assert(wants_class(st.files[q[k] as int], force));
    }
}

/// Setting a category by hand locks a file against classification; setting none
/// frees it.
pub proof fn lemma_set_by_hand(f: CanvasFileView, category: Seq<char>, force: bool)
    ensures
        !text::blank(category) ==> !wants_class(events::categorized(f, category), force),
        text::blank(category) ==> wants_class(events::categorized(f, category), true),
{
}

/// A file that needs no classification unless it is forced.
pub open spec fn settled(f: CanvasFileView) -> bool {
    !wants_class(f, false)
}

/// A file that is settled once it has a category.
pub open spec fn all_read(f: CanvasFileView) -> bool {
    f.local_path.len() == 0 || f.content_done
}

/// Where a file of a window stands after a first look.
pub open spec fn placed(t: TriageView, i: int) -> bool {
    ||| settled(t.files[i])
    ||| exists|k: int| 0 <= k < t.content.len() && (#[trigger] t.content[k]).0 == i
    ||| all_read(t.files[i]) && exists|k: int|
        0 <= k < t.name_only.len() && (#[trigger] t.name_only[k]) == i
}

/// After a first look every file of the window is settled, or goes on by content
/// or by name.
pub proof fn lemma_triage_places(
    files: Seq<CanvasFileView>,
    idxs: Seq<usize>,
    texts: Seq<Seq<char>>,
    n: int,
)
    requires
        in_range(idxs, files.len() as int),
        0 <= n <= idxs.len(),
    ensures
        triage_upto(files, idxs, texts, n).files.len() == files.len(),
        forall|k: int|
            0 <= k < n ==> placed(triage_upto(files, idxs, texts, n), #[trigger] idxs[k] as int),
        forall|j: int|
            0 <= j < files.len() && settled(files[j]) ==> settled(
                #[trigger] triage_upto(files, idxs, texts, n).files[j],
            ),
    decreases n,
{
    if n > 0 {
        lemma_triage_places(files, idxs, texts, n - 1);
        lemma_triage(files, idxs, texts, n - 1);
        let t = triage_upto(files, idxs, texts, n - 1);
        let u = triage_upto(files, idxs, texts, n);
        let i = idxs[n - 1] as int;
        let f = t.files[i];
        let s = texts[n - 1];
        match categories::category_of_folder(f.folder) {
            Some(c) => {
                categories::lemma_folder_gives_category(f.folder);
                categories::lemma_category_not_empty(c);
            },
            None => {},
        }
        assert forall|k: int| 0 <= k < n implies placed(u, #[trigger] idxs[k] as int) by {
            let j = idxs[k] as int;
            if k < n - 1 {
                assert(placed(t, j));
                if exists|m: int| 0 <= m < t.content.len() && (#[trigger] t.content[m]).0 == j {
                    let m = choose|m: int|
                        0 <= m < t.content.len() && (#[trigger] t.content[m]).0 == j;
                    assert(u.content[m].0 == j);
                }
                if exists|m: int| 0 <= m < t.name_only.len() && (#[trigger] t.name_only[m]) == j {
                    let m = choose|m: int|
                        0 <= m < t.name_only.len() && (#[trigger] t.name_only[m]) == j;
                    assert(u.name_only[m] == j);
                }
            } else {
                if by_content(f, s) {
                    assert(u.content[t.content.len() as int].0 == j);
                } else if by_name(f, s) {
                    assert(u.name_only[t.name_only.len() as int] == j);
                }
            }
        }
    }
}

/// Results by content settle their files and unsettle none.
pub proof fn lemma_results_settle(
    st: AppStateView,
    content: Seq<(usize, Seq<char>)>,
    rs: Seq<ClassResultView>,
    n: int,
)
    requires
        0 <= n <= content.len(),
        rs.len() == content.len(),
        forall|k: int| 0 <= k < content.len() ==> (#[trigger] content[k]).0 < st.files.len(),
        forall|k: int| 0 <= k < rs.len() ==> (#[trigger] rs[k]).category.len() > 0,
    ensures
        with_results(st, content, rs, n).files.len() == st.files.len(),
        forall|k: int|
            0 <= k < n ==> settled(
                with_results(st, content, rs, n).files[(#[trigger] content[k]).0 as int],
            ),
        forall|j: int|
            0 <= j < st.files.len() && settled(st.files[j]) ==> settled(
                #[trigger] with_results(st, content, rs, n).files[j],
            ),
        forall|j: int|
            0 <= j < st.files.len() && all_read(st.files[j]) ==> all_read(
                #[trigger] with_results(st, content, rs, n).files[j],
            ),
    decreases n,
{
    if n > 0 {
        lemma_results_settle(st, content, rs, n - 1);
        assert(rs[n - 1].category.len() > 0);
        assert(content[n - 1].0 < st.files.len());
    }
}

/// Categories by name settle their files, once those are read, and unsettle none.
pub proof fn lemma_categories_settle(
    files: Seq<CanvasFileView>,
    idxs: Seq<usize>,
    cats: Seq<Seq<char>>,
    n: int,
)
    requires
        0 <= n <= idxs.len(),
        cats.len() == idxs.len(),
        in_range(idxs, files.len() as int),
        forall|k: int| 0 <= k < cats.len() ==> (#[trigger] cats[k]).len() > 0,
    ensures
        with_categories(files, idxs, cats, n).len() == files.len(),
        forall|j: int|
            0 <= j < files.len() && settled(files[j]) ==> settled(
                #[trigger] with_categories(files, idxs, cats, n)[j],
            ),
        forall|j: int|
            0 <= j < files.len() && all_read(files[j]) ==> all_read(
                #[trigger] with_categories(files, idxs, cats, n)[j],
            ),
        forall|k: int|
            0 <= k < n && all_read(files[(#[trigger] idxs[k]) as int]) ==> settled(
                with_categories(files, idxs, cats, n)[idxs[k] as int],
            ),
    decreases n,
{
    if n > 0 {
        lemma_categories_settle(files, idxs, cats, n - 1);
        assert(cats[n - 1].len() > 0);
        assert(idxs[n - 1] < files.len());
    }
}

// ---------------------------------------------------------------------------
// What is classified, and what becomes of it
// ---------------------------------------------------------------------------

/// Classified are exactly the files that the user did not set by hand and that have no
/// category or lie on disk unread, or all but those set by hand where that is asked for;
/// each once, those of current courses first.
pub proof fn lemma_classes_wanted(st: AppStateView, force: bool)
    requires
        st.files.len() <= usize::MAX,
    ensures
        forall|i: int|
            0 <= i < st.files.len() ==> (class_queue(st, force).contains(i as usize) <==> !(
            #[trigger] st.files[i]).category_manual && (force || st.files[i].category.len() == 0 || (
            st.files[i].local_path.len() > 0 && !st.files[i].content_done))),
        class_queue(st, force).no_duplicates(),
        forall|j: int, k: int|
            0 <= j < k < class_queue(st, force).len() && labels::past_ids(st.courses).contains(
                st.files[(#[trigger] class_queue(st, force)[j]) as int].course_id,
            ) ==> labels::past_ids(st.courses).contains(
                st.files[(#[trigger] class_queue(st, force)[k]) as int].course_id,
            ),
{
    let past = labels::past_ids(st.courses);
    let want = |f: CanvasFileView| wants_class(f, force);
    queue::lemma_queue(st.files, past, want);
    let q = class_queue(st, force);
    assert forall|i: int| 0 <= i < st.files.len() implies (q.contains(i as usize) <==> !(
    #[trigger] st.files[i]).category_manual && (force || st.files[i].category.len() == 0 || (
    st.files[i].local_path.len() > 0 && !st.files[i].content_done))) by {
        if wants_class(st.files[i], force) {
            assert(want(st.files[i]));
        }
        if q.contains(i as usize) {
            let k = choose|k: int| 0 <= k < q.len() && q[k] == i as usize;
            assert(want(st.files[q[k] as int]));
        }
    }
}

/// Read are exactly the announcements with a message whose dates were not looked for
/// yet, each once and in their order.
pub proof fn lemma_news_wanted(st: AppStateView)
    requires
        st.announcements.len() <= usize::MAX,
    ensures
        forall|i: int|
            0 <= i < st.announcements.len() ==> (news_queue(st).contains(i as usize) <==> !(
            #[trigger] st.announcements[i]).dates_done && !text::blank(
                st.announcements[i].message,
            )),
        forall|j: int, k: int|
            0 <= j < k < news_queue(st).len() ==> (#[trigger] news_queue(st)[j]) < (
            #[trigger] news_queue(st)[k]),
{
    let flags = st.announcements.map_values(|a: AnnouncementView| wants_reading(a));
    let n = st.announcements.len() as int;
    queue::lemma_marked(flags, n);
    let q = news_queue(st);
    assert forall|i: int| 0 <= i < st.announcements.len() implies (q.contains(i as usize) <==> !(
    #[trigger] st.announcements[i]).dates_done && !text::blank(st.announcements[i].message)) by {
        assert(flags[i] == wants_reading(st.announcements[i]));
        if q.contains(i as usize) {
            let k = choose|k: int| 0 <= k < q.len() && q[k] == i as usize;
            assert(flags[q[k] as int]);
        }
    }
}

/// Windows follow one another without a gap: each holds as many as fit, and only the
/// last one fewer.
pub proof fn lemma_windows(len: int, start: int, size: int)
    requires
        0 <= start < len,
        0 < size,
    ensures
        start < window_end(len, start, size) <= len,
        window_end(len, start, size) - start <= size,
        window_end(len, start, size) < len ==> window_end(len, start, size) == start + size,
{
}

/// A first look settles a file whose folder names its category, and one that lies on
/// disk without any text to read; it changes nothing else.
pub proof fn lemma_looked_at(f: CanvasFileView, content: Seq<char>)
    ensures
        ({
            let g = looked_at(f, content);
            &&& categories::category_of_folder(f.folder) matches Some(c) ==> g.category == c
                && g.content_done
            &&& categories::category_of_folder(f.folder) is None ==> g.category == f.category
            &&& categories::category_of_folder(f.folder) is None && f.local_path.len() > 0
                && text::blank(content) ==> g.content_done
            &&& categories::category_of_folder(f.folder) is None && !(f.local_path.len() > 0
                && text::blank(content)) ==> g == f
            &&& g.id == f.id && g.course_id == f.course_id && g.course_name == f.course_name
                && g.folder == f.folder && g.filename == f.filename && g.url == f.url
                && g.size == f.size && g.content_type == f.content_type
                && g.local_path == f.local_path && g.category_manual == f.category_manual
                && g.embedding == f.embedding && g.summary_pdf == f.summary_pdf
            &&& g.summary == f.summary
        }),
{
}

/// A window is gone through file by file: one whose folder names no category is to be
/// classified by its text where it lies on disk and has some, and by its name otherwise.
pub proof fn lemma_triage_step(
    files: Seq<CanvasFileView>,
    idxs: Seq<usize>,
    texts: Seq<Seq<char>>,
    n: int,
)
    requires
        0 <= n < idxs.len(),
        in_range(idxs, files.len() as int),
    ensures
        ({
            let before = triage_upto(files, idxs, texts, n);
            let after = triage_upto(files, idxs, texts, n + 1);
            let i = idxs[n];
            let f = before.files[i as int];
            let unknown = categories::category_of_folder(f.folder) is None;
            let readable = f.local_path.len() > 0 && !text::blank(texts[n]);
            &&& unknown && readable ==> after.content == before.content.push((i, texts[n]))
                && after.name_only == before.name_only
            &&& unknown && !readable ==> after.content == before.content && after.name_only
                == before.name_only.push(i)
            &&& !unknown ==> after.content == before.content && after.name_only == before.name_only
            &&& after.files[i as int] == looked_at(f, texts[n])
            &&& forall|j: int|
                0 <= j < files.len() && j != i ==> #[trigger] after.files[j] == before.files[j]
        }),
        triage_upto(files, idxs, texts, 0).content.len() == 0,
        triage_upto(files, idxs, texts, 0).name_only.len() == 0,
        triage_upto(files, idxs, texts, 0).files == files,
{
    lemma_triage(files, idxs, texts, n);
}

/// A document that was read has the category that was found, and a day that was found in
/// it is an event of its course; everything else stays.
pub proof fn lemma_result_taken(st: AppStateView, i: int, r: ClassResultView)
    requires
        0 <= i < st.files.len(),
    ensures
        ({
            let after = with_result(st, i, Some(r));
            &&& after.files.len() == st.files.len()
            &&& after.files[i].category == r.category
            &&& after.files[i].content_done
            &&& after.files[i].id == st.files[i].id
                && after.files[i].course_id == st.files[i].course_id
                && after.files[i].course_name == st.files[i].course_name
                && after.files[i].folder == st.files[i].folder
                && after.files[i].filename == st.files[i].filename
                && after.files[i].url == st.files[i].url
                && after.files[i].size == st.files[i].size
                && after.files[i].content_type == st.files[i].content_type
                && after.files[i].local_path == st.files[i].local_path
                && after.files[i].category_manual == st.files[i].category_manual
                && after.files[i].embedding == st.files[i].embedding
                && after.files[i].summary_pdf == st.files[i].summary_pdf
            &&& after.files[i].summary == st.files[i].summary
            &&& forall|j: int|
                0 <= j < st.files.len() && j != i ==> #[trigger] after.files[j] == st.files[j]
            &&& r.date.len() == 0 ==> after.events == st.events
            &&& after.courses == st.courses && after.assignments == st.assignments
                && after.announcements == st.announcements && after.course_summaries
                == st.course_summaries
        }),
        r.date.len() > 0 ==> exists|k: int|
            0 <= k < with_result(st, i, Some(r)).events.len() && (#[trigger] with_result(
                st,
                i,
                Some(r),
            ).events[k]).date == r.date && with_result(st, i, Some(r)).events[k].course_name
                == st.files[i].course_name && with_result(st, i, Some(r)).events[k].id == "det-"@
                + text::decimal(st.files[i].id as nat) && with_result(st, i, Some(r)).events[k].title
                == (if r.event.len() == 0 {
                r.category + " · "@ + st.files[i].filename
            } else {
                r.event
            }),
        with_result(st, i, None).files[i].content_done,
        with_result(st, i, None).files[i].category == st.files[i].category,
        with_result(st, i, None).events == st.events,
{
    let f = CanvasFileView { category: r.category, ..st.files[i] };
    let ev = events::detected_event(f, r.date, r.event);
    events::lemma_upsert_says(st.events, ev);
    let evs = events::upserted(st.events, ev);
    let k = choose|k: int|
        0 <= k < evs.len() && (#[trigger] evs[k]).id == ev.id && evs[k].title == ev.title
            && evs[k].date == ev.date && evs[k].course_name == ev.course_name;
    if r.date.len() > 0 {
        assert(with_result(st, i, Some(r)).events[k].date == r.date);
    }
}

/// Results are taken in their order, each for the document at its place; a document
/// without one counts as read.
pub proof fn lemma_results_step(
    st: AppStateView,
    content: Seq<(usize, Seq<char>)>,
    rs: Seq<ClassResultView>,
    n: int,
)
    requires
        0 <= n < content.len(),
    ensures
        with_results(st, content, rs, 0) == st,
        n < rs.len() ==> with_results(st, content, rs, n + 1) == with_result(
            with_results(st, content, rs, n),
            content[n].0 as int,
            Some(rs[n]),
        ),
        n >= rs.len() ==> with_results(st, content, rs, n + 1) == with_result(
            with_results(st, content, rs, n),
            content[n].0 as int,
            None,
        ),
{
}

/// Of files that are classified by their names, each gets the category at its place, and
/// nothing else of it changes; no other file does.
pub proof fn lemma_categories_taken(
    files: Seq<CanvasFileView>,
    idxs: Seq<usize>,
    cats: Seq<Seq<char>>,
    n: int,
)
    requires
        0 <= n <= idxs.len(),
        cats.len() == idxs.len(),
        in_range(idxs, files.len() as int),
        idxs.no_duplicates(),
    ensures
        with_categories(files, idxs, cats, n).len() == files.len(),
        forall|k: int|
            0 <= k < n ==> with_categories(files, idxs, cats, n)[(#[trigger] idxs[k]) as int] == (
            CanvasFileView { category: cats[k], ..files[idxs[k] as int] }),
        forall|j: int|
            0 <= j < files.len() && (forall|k: int| 0 <= k < n ==> #[trigger] idxs[k] != j)
                ==> #[trigger] with_categories(files, idxs, cats, n)[j] == files[j],
    decreases n,
{
    if n > 0 {
        lemma_categories_taken(files, idxs, cats, n - 1);
        let before = with_categories(files, idxs, cats, n - 1);
        let after = with_categories(files, idxs, cats, n);
        let i = idxs[n - 1] as int;
        assert(forall|k: int| 0 <= k < n - 1 ==> #[trigger] idxs[k] != i);
        assert(before[i] == files[i]);
        assert forall|k: int| 0 <= k < n implies after[(#[trigger] idxs[k]) as int] == (
        CanvasFileView { category: cats[k], ..files[idxs[k] as int] }) by {
            if k < n - 1 {
                assert(idxs[k] != i);
            }
        }
        assert forall|j: int|
            0 <= j < files.len() && (forall|k: int| 0 <= k < n ==> #[trigger] idxs[k] != j) implies
            #[trigger] after[j] == files[j] by {
            assert(idxs[n - 1] != j);
            assert(before[j] == files[j]);
        }
    }
}

/// The days found in an announcement become events in their order, under the
/// announcement's number and their own; an announcement that was read is done, and
/// nothing else of it changes.
pub proof fn lemma_news_taken(
    st: AppStateView,
    idxs: Seq<usize>,
    lists: Seq<Seq<FoundDateView>>,
    n: int,
)
    requires
        0 <= n < idxs.len(),
        in_range(idxs, st.announcements.len() as int),
    ensures
        ({
            let before = with_news(st, idxs, lists, n);
            let after = with_news(st, idxs, lists, n + 1);
            let i = idxs[n] as int;
            let a = before.announcements[i];
            &&& after.announcements[i].dates_done
            &&& after.announcements[i].id == a.id && after.announcements[i].title == a.title
                && after.announcements[i].message == a.message && after.announcements[i].course_id
                == a.course_id && after.announcements[i].course_name == a.course_name
                && after.announcements[i].posted_at == a.posted_at
            &&& forall|j: int|
                0 <= j < st.announcements.len() && j != i ==> #[trigger] after.announcements[j]
                    == before.announcements[j]
            &&& n >= lists.len() ==> after.events == before.events
            &&& n < lists.len() ==> after.events == with_dates(
                before.events,
                a,
                lists[n],
                lists[n].len() as int,
            )
        }),
        with_news(st, idxs, lists, 0) == st,
{
    lemma_news_keep(st, idxs, lists, n);
}

/// Each day that was found in an announcement adds its event: on that day, in the
/// announcement's course, with what is due on it or with the announcement's title.
pub proof fn lemma_date_noted(
    evs: Seq<CalEventView>,
    a: AnnouncementView,
    found: Seq<FoundDateView>,
    n: int,
)
    requires
        0 <= n < found.len(),
    ensures
        with_dates(evs, a, found, 0) == evs,
        exists|k: int|
            0 <= k < with_dates(evs, a, found, n + 1).len() && (#[trigger] with_dates(
                evs,
                a,
                found,
                n + 1,
            )[k]).date == found[n].date && with_dates(evs, a, found, n + 1)[k].course_name
                == a.course_name && with_dates(evs, a, found, n + 1)[k].id == "ann-"@
                + text::decimal(a.id as nat) + "-"@ + text::decimal(n as nat) && with_dates(
                evs,
                a,
                found,
                n + 1,
            )[k].title == (if found[n].event.len() == 0 {
                a.title
            } else {
                found[n].event
            }),
{
    let before = with_dates(evs, a, found, n);
    let ev = events::announced_event(
        a.id,
        n,
        found[n].date,
        found[n].event,
        a.course_name,
        a.title,
    );
    events::lemma_upsert_says(before, ev);
    let out = events::upserted(before, ev);
    let k = choose|k: int|
        0 <= k < out.len() && (#[trigger] out[k]).id == ev.id && out[k].title == ev.title
            && out[k].date == ev.date && out[k].course_name == ev.course_name;
    assert(with_dates(evs, a, found, n + 1)[k].date == found[n].date);
}

/// An announcement that is to be read again is as it was, but not done.
pub proof fn lemma_reopened(a: AnnouncementView)
    ensures
        !reopened(a).dates_done,
        reopened(a).id == a.id && reopened(a).course_id == a.course_id && reopened(a).course_name
            == a.course_name && reopened(a).title == a.title && reopened(a).message == a.message
            && reopened(a).posted_at == a.posted_at,
{
}

/// Of documents that were read, each has the category of the result at its place and
/// counts as read, and nothing else of it changes; no other file does.
pub proof fn lemma_results_taken(
    st: AppStateView,
    content: Seq<(usize, Seq<char>)>,
    rs: Seq<ClassResultView>,
    n: int,
)
    requires
        0 <= n <= content.len(),
        rs.len() == content.len(),
        forall|k: int| 0 <= k < content.len() ==> (#[trigger] content[k]).0 < st.files.len(),
        forall|j: int, k: int|
            0 <= j < k < content.len() ==> (#[trigger] content[j]).0 != (#[trigger] content[k]).0,
    ensures
        with_results(st, content, rs, n).files.len() == st.files.len(),
        forall|k: int|
            0 <= k < n ==> with_results(st, content, rs, n).files[(#[trigger] content[k]).0 as int]
                == (CanvasFileView {
                category: rs[k].category,
                content_done: true,
                ..st.files[content[k].0 as int]
            }),
        forall|j: int|
            0 <= j < st.files.len() && (forall|k: int| 0 <= k < n ==> (#[trigger] content[k]).0 != j)
                ==> #[trigger] with_results(st, content, rs, n).files[j] == st.files[j],
    decreases n,
{
    if n > 0 {
        lemma_results_taken(st, content, rs, n - 1);
        let before = with_results(st, content, rs, n - 1).files;
        let after = with_results(st, content, rs, n).files;
        let i = content[n - 1].0 as int;
        assert forall|k: int| 0 <= k < n - 1 implies (#[trigger] content[k]).0 != i by {
            assert(content[k].0 != content[n - 1].0);
        }
        assert(before[i] == st.files[i]);
        assert forall|k: int| 0 <= k < n implies after[(#[trigger] content[k]).0 as int] == (
        CanvasFileView {
            category: rs[k].category,
            content_done: true,
            ..st.files[content[k].0 as int]
        }) by {
            if k < n - 1 {
                assert(content[k].0 != i);
            }
        }
        assert forall|j: int|
            0 <= j < st.files.len() && (forall|k: int|
                0 <= k < n ==> (#[trigger] content[k]).0 != j) implies #[trigger] after[j]
            == st.files[j] by {
            assert(content[n - 1].0 != j);
            assert(before[j] == st.files[j]);
        }
    }
}

} // verus!
