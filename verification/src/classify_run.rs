//! The run of a classification: what is to be read, asked and saved next, and
//! what the answers change.

use vstd::prelude::*;
use vstd::string::*;
use crate::answers::{classify_batch, classify_batch_content, detect_dates};
use crate::answers;
use crate::classify::{
    apply_categories, apply_news, apply_results, classify_step, content_items, embedding_input,
    has_unread, name_items, needs_embedding, needs_text, news_items, news_step, pending_classes,
    pending_news, reopen_announcements, set_embedding, triage_window, window,
    NEWS_WINDOW, WINDOW,
};
use crate::classify;
use crate::labels;
use crate::progress::{Progress, ProgressView};
use crate::prompts::{batch_prompt, content_prompt, dates_prompt};
use crate::prompts;
use crate::queue;
use crate::store::{AnnouncementView, AppState, AppStateView, CanvasFileView};
use crate::text;

verus! {

/// What a run waits for.
#[derive(Clone, Copy, Debug, PartialEq, Eq, Structural)]
pub enum ClassifyStage {
    /// There was nothing to do.
    Nothing,
    /// The texts of a window of files.
    Texts,
    /// The answer on the files to classify by content.
    Content,
    /// The embedding of one of them.
    Embedding,
    /// The answer on the files to classify by name.
    Names,
    /// The state to be saved behind a window of files.
    WindowDone,
    /// The answer on the dates of a window of announcements.
    News,
    /// The state to be saved behind a window of announcements.
    NewsDone,
    /// Nothing is left to do.
    Over,
}

/// A run of the classification.
pub struct ClassifyRun {
    pub stage: ClassifyStage,
    pub state: AppState,
    /// The files to classify.
    pub pending: Vec<usize>,
    /// Where the window of files begins.
    pub start: usize,
    /// The files of the window to classify by content, with their texts.
    pub content: Vec<(usize, String)>,
    /// The file of them whose embedding is waited for.
    pub at: usize,
    /// The files of the window to classify by name.
    pub names: Vec<usize>,
    /// The announcements to read.
    pub news: Vec<usize>,
    /// Where the window of announcements begins.
    pub news_start: usize,
}

/// What a run has come to.
#[verifier::ext_equal]
pub struct ClassifyRunView {
    pub stage: ClassifyStage,
    pub state: AppStateView,
    pub pending: Seq<usize>,
    pub start: int,
    pub content: Seq<(usize, Seq<char>)>,
    pub at: int,
    pub names: Seq<usize>,
    pub news: Seq<usize>,
    pub news_start: int,
}

impl View for ClassifyRun {
    type V = ClassifyRunView;

    open spec fn view(&self) -> ClassifyRunView {
        ClassifyRunView {
            stage: self.stage,
            state: self.state@,
            pending: self.pending@,
            start: self.start as int,
            content: text::views(self.content@),
            at: self.at as int,
            names: self.names@,
            news: self.news@,
            news_start: self.news_start as int,
        }
    }
}

impl ClassifyRunView {
    /// Positions are those of files and announcements, and windows begin where
    /// something is left.
    pub open spec fn wf(self) -> bool {
        let files = self.state.files.len() as int;
        let news = self.state.announcements.len() as int;
        &&& classify::in_range(self.pending, files)
        &&& classify::in_range(self.names, files)
        &&& classify::in_range(self.news, news)
        &&& forall|k: int| 0 <= k < self.content.len() ==> (#[trigger] self.content[k]).0 < files
        &&& 0 <= self.start <= self.pending.len()
        &&& 0 <= self.news_start <= self.news.len()
        &&& in_window(self.stage) ==> self.start < self.pending.len()
        &&& in_news(self.stage) ==> self.news_start < self.news.len()
        &&& self.stage == ClassifyStage::Embedding ==> 0 <= self.at < self.content.len()
    }

    /// Where the window of files ends.
    pub open spec fn end(self) -> int {
        classify::window_end(self.pending.len() as int, self.start, WINDOW as int)
    }

    /// Where the window of announcements ends.
    pub open spec fn news_end(self) -> int {
        classify::window_end(self.news.len() as int, self.news_start, NEWS_WINDOW as int)
    }

    /// The window of files.
    pub open spec fn files_now(self) -> Seq<usize> {
        self.pending.subrange(self.start, self.end())
    }

    /// The window of announcements.
    pub open spec fn news_now(self) -> Seq<usize> {
        self.news.subrange(self.news_start, self.news_end())
    }
}

/// The stages of a window of files.
pub open spec fn in_window(stage: ClassifyStage) -> bool {
    ||| stage == ClassifyStage::Texts
    ||| stage == ClassifyStage::Content
    ||| stage == ClassifyStage::Embedding
    ||| stage == ClassifyStage::Names
    ||| stage == ClassifyStage::WindowDone
}

/// The stages of a window of announcements.
pub open spec fn in_news(stage: ClassifyStage) -> bool {
    stage == ClassifyStage::News || stage == ClassifyStage::NewsDone
}

// ---------------------------------------------------------------------------
// The steps
// ---------------------------------------------------------------------------

/// The run on its way to the announcements.
pub open spec fn to_news(run: ClassifyRunView) -> ClassifyRunView {
    let news = classify::news_queue(run.state);
    ClassifyRunView {
        stage: if news.len() > 0 {
            ClassifyStage::News
        } else {
            ClassifyStage::Over
        },
        news,
        news_start: 0,
        ..run
    }
}

/// The state that a run begins with: where everything is to be done again, every
/// announcement is to be read again.
pub open spec fn begun_state(st: AppStateView, force: bool) -> AppStateView {
    if force {
        AppStateView {
            announcements: st.announcements.map_values(
                |a: AnnouncementView| classify::reopened(a),
            ),
            ..st
        }
    } else {
        st
    }
}

/// Some announcement was not read.
pub open spec fn unread(st: AppStateView) -> bool {
    exists|i: int| 0 <= i < st.announcements.len() && !(#[trigger] st.announcements[i]).dates_done
}

/// The run before its first step.
pub open spec fn run_begin(st: AppStateView, force: bool) -> ClassifyRunView {
    let state = begun_state(st, force);
    let run = ClassifyRunView {
        stage: ClassifyStage::Nothing,
        state,
        pending: classify::class_queue(st, force),
        start: 0,
        content: seq![],
        at: 0,
        names: seq![],
        news: seq![],
        news_start: 0,
    };
    if run.pending.len() > 0 {
        ClassifyRunView { stage: ClassifyStage::Texts, ..run }
    } else if unread(state) {
        to_news(run)
    } else {
        run
    }
}

/// The first file by content from the `k`-th on that has no embedding.
pub open spec fn next_blank(
    files: Seq<CanvasFileView>,
    content: Seq<(usize, Seq<char>)>,
    k: int,
) -> Option<int>
    decreases content.len() - k,
{
    if k < 0 || k >= content.len() {
        None
    } else if files[content[k].0 as int].embedding.len() == 0 {
        Some(k)
    } else {
        next_blank(files, content, k + 1)
    }
}

/// The run on its way to the files by name.
pub open spec fn to_names(run: ClassifyRunView) -> ClassifyRunView {
    ClassifyRunView {
        stage: if run.names.len() > 0 {
            ClassifyStage::Names
        } else {
            ClassifyStage::WindowDone
        },
        ..run
    }
}

/// The run on its way to the embeddings from the `k`-th file by content on.
pub open spec fn to_embeddings(run: ClassifyRunView, k: int) -> ClassifyRunView {
    match next_blank(run.state.files, run.content, k) {
        Some(at) => ClassifyRunView { stage: ClassifyStage::Embedding, at, ..run },
        None => to_names(run),
    }
}

/// The run after the texts of its window were read.
pub open spec fn after_texts(run: ClassifyRunView, texts: Seq<Seq<char>>) -> ClassifyRunView {
    let t = classify::triage_upto(
        run.state.files,
        run.files_now(),
        texts,
        run.files_now().len() as int,
    );
    let next = ClassifyRunView {
        state: AppStateView { files: t.files, ..run.state },
        content: t.content,
        names: t.name_only,
        ..run
    };
    if t.content.len() > 0 {
        ClassifyRunView { stage: ClassifyStage::Content, ..next }
    } else {
        to_names(next)
    }
}

/// What is asked of the files by content.
pub open spec fn content_asked(run: ClassifyRunView) -> Seq<
    (Seq<char>, Seq<char>, Seq<char>, Seq<char>),
> {
    Seq::new(
        run.content.len(),
        |k: int|
            {
                let f = run.state.files[run.content[k].0 as int];
                (f.filename, f.folder, f.course_name, run.content[k].1)
            },
    )
}

/// The run after the answer on the files by content.
pub open spec fn after_content(run: ClassifyRunView, answer: Option<Seq<char>>) -> ClassifyRunView {
    let rs = answers::batch_results(content_asked(run), answers::entries_in(answer));
    to_embeddings(
        ClassifyRunView {
            state: classify::with_results(run.state, run.content, rs, run.content.len() as int),
            ..run
        },
        0,
    )
}

/// The run after the embedding of a file; without one the file stays without.
pub open spec fn after_embedding(run: ClassifyRunView, found: Option<Seq<u32>>) -> ClassifyRunView {
    let i = run.content[run.at].0 as int;
    to_embeddings(
        ClassifyRunView {
            state: match found {
                Some(e) => AppStateView {
                    files: run.state.files.update(
                        i,
                        CanvasFileView { embedding: e, ..run.state.files[i] },
                    ),
                    ..run.state
                },
                None => run.state,
            },
            ..run
        },
        run.at + 1,
    )
}

/// What is asked of the files by name.
pub open spec fn names_asked(run: ClassifyRunView) -> Seq<(Seq<char>, Seq<char>, Seq<char>)> {
    run.names.map_values(
        |i: usize|
            {
                let f = run.state.files[i as int];
                (f.filename, f.folder, f.course_name)
            },
    )
}

/// The run after the answer on the files by name.
pub open spec fn after_names(run: ClassifyRunView, answer: Option<Seq<char>>) -> ClassifyRunView {
    let cats = answers::batch_categories(names_asked(run), answers::entries_in(answer));
    ClassifyRunView {
        stage: ClassifyStage::WindowDone,
        state: AppStateView {
            files: classify::with_categories(
                run.state.files,
                run.names,
                cats,
                run.names.len() as int,
            ),
            ..run.state
        },
        ..run
    }
}

/// What is asked of the announcements.
pub open spec fn news_asked(run: ClassifyRunView) -> Seq<(Seq<char>, Seq<char>, Seq<char>)> {
    run.news_now().map_values(
        |i: usize|
            {
                let a = run.state.announcements[i as int];
                (a.title, a.course_name, a.message)
            },
    )
}

/// The run after the answer on the announcements.
pub open spec fn after_news(run: ClassifyRunView, answer: Option<Seq<char>>) -> ClassifyRunView {
    let es = answers::entries_in(answer);
    let lists = answers::dates_after(run.news_now().len(), es, es.len() as int);
    ClassifyRunView {
        stage: ClassifyStage::NewsDone,
        state: classify::with_news(
            run.state,
            run.news_now(),
            lists,
            run.news_now().len() as int,
        ),
        ..run
    }
}

/// The run after the state was saved: on to the next window.
pub open spec fn after_save(run: ClassifyRunView) -> ClassifyRunView {
    if run.stage == ClassifyStage::WindowDone {
        let next = ClassifyRunView { start: run.end(), ..run };
        if run.end() < run.pending.len() {
            ClassifyRunView { stage: ClassifyStage::Texts, ..next }
        } else {
            to_news(next)
        }
    } else {
        let next = ClassifyRunView { news_start: run.news_end(), ..run };
        if run.news_end() < run.news.len() {
            ClassifyRunView { stage: ClassifyStage::News, ..next }
        } else {
            ClassifyRunView { stage: ClassifyStage::Over, ..next }
        }
    }
}

/// The question that a run waits to have answered.
pub open spec fn question_of(run: ClassifyRunView) -> Seq<char> {
    if run.stage == ClassifyStage::Content {
        prompts::content_question(content_asked(run))
    } else if run.stage == ClassifyStage::Names {
        prompts::batch_question(names_asked(run))
    } else {
        prompts::dates_question(news_asked(run))
    }
}

/// The run after the answer to its question.
pub open spec fn after_answer(run: ClassifyRunView, answer: Option<Seq<char>>) -> ClassifyRunView {
    if run.stage == ClassifyStage::Content {
        after_content(run, answer)
    } else if run.stage == ClassifyStage::Names {
        after_names(run, answer)
    } else {
        after_news(run, answer)
    }
}

/// A run that has a question to ask.
pub open spec fn asks(stage: ClassifyStage) -> bool {
    stage == ClassifyStage::Content || stage == ClassifyStage::Names || stage
        == ClassifyStage::News
}

// ---------------------------------------------------------------------------
// The steps keep a run well-formed
// ---------------------------------------------------------------------------

/// The announcements to read are among those that there are.
proof fn lemma_news_in_range(st: AppStateView)
    requires
        st.announcements.len() <= usize::MAX,
    ensures
        classify::in_range(classify::news_queue(st), st.announcements.len() as int),
{
    queue::lemma_marked(
        st.announcements.map_values(|a: AnnouncementView| classify::wants_reading(a)),
        st.announcements.len() as int,
    );
}

/// The files to classify are among those that there are.
proof fn lemma_pending_in_range(st: AppStateView, force: bool)
    requires
        st.files.len() <= usize::MAX,
    ensures
        classify::in_range(classify::class_queue(st, force), st.files.len() as int),
{
    queue::lemma_queue(
        st.files,
        labels::past_ids(st.courses),
        |f: CanvasFileView| classify::wants_class(f, force),
    );
}

/// Part of positions in range is in range.
proof fn lemma_subrange_in_range(idxs: Seq<usize>, a: int, b: int, len: int)
    requires
        classify::in_range(idxs, len),
        0 <= a <= b <= idxs.len(),
    ensures
        classify::in_range(idxs.subrange(a, b), len),
{
    assert forall|k: int| 0 <= k < idxs.subrange(a, b).len() implies (
    #[trigger] idxs.subrange(a, b)[k]) < len by {
        assert(idxs[a + k] < len);
    }
}

impl ClassifyRun {
    /// A run before its first step.
    pub fn begin(state: AppState, force: bool) -> (r: ClassifyRun)
        ensures
            r@ == run_begin(state@, force),
            r@.wf(),
    {
        let ghost st = state@;
        let mut state = state;
        let pending = pending_classes(&state, force);
        proof {
            assert(state.files.len() <= usize::MAX);
            lemma_pending_in_range(st, force);
        }
        if force {
            reopen_announcements(&mut state);
        }
        assert(state@ == begun_state(st, force));
        let unread = has_unread(&state);
        assert(unread == self::unread(state@));
        let mut run = ClassifyRun {
            stage: ClassifyStage::Nothing,
            state,
            pending,
            start: 0,
            content: Vec::new(),
            at: 0,
            names: Vec::new(),
            news: Vec::new(),
            news_start: 0,
        };
        assert(run@.content =~= seq![]);
        assert(run@.names =~= seq![]);
        assert(run@.news =~= seq![]);
        if run.pending.len() > 0 {
            run.stage = ClassifyStage::Texts;
        } else if unread {
            run.go_to_news();
        }
        run
    }

    /// On to the announcements.
    fn go_to_news(&mut self)
        requires
            old(self)@.wf(),
        ensures
            final(self)@ == to_news(old(self)@),
            final(self)@.wf(),
    {
        proof {
            assert(self.state.announcements.len() <= usize::MAX);
            lemma_news_in_range(self.state@);
        }
        let ghost before = self@;
        self.news = pending_news(&self.state);
        self.news_start = 0;
        if self.news.len() > 0 {
            self.stage = ClassifyStage::News;
        } else {
            self.stage = ClassifyStage::Over;
        }
        assert(self@ =~= to_news(before));
    }

    /// On to the files by name.
    fn go_to_names(&mut self)
        requires
            old(self)@.wf(),
            in_window(old(self)@.stage),
        ensures
            final(self)@ == to_names(old(self)@),
            final(self)@.wf(),
    {
        let ghost before = self@;
        if self.names.len() > 0 {
            self.stage = ClassifyStage::Names;
        } else {
            self.stage = ClassifyStage::WindowDone;
        }
        assert(self@ =~= to_names(before));
    }

    /// On to the embeddings from the `k`-th file by content on.
    fn go_to_embeddings(&mut self, k: usize)
        requires
            old(self)@.wf(),
            in_window(old(self)@.stage),
        ensures
            final(self)@ == to_embeddings(old(self)@, k as int),
            final(self)@.wf(),
    {
        let ghost before = self@;
        let mut j: usize = k;
        while j < self.content.len()
            invariant
                self@ == before,
                before == old(self)@,
                before.wf(),
                in_window(before.stage),
                next_blank(before.state.files, before.content, k as int) == next_blank(
                    before.state.files,
                    before.content,
                    j as int,
                ),
            ensures
                self@ == before,
                j >= before.content.len(),
                next_blank(before.state.files, before.content, k as int) is None,
            decreases self.content.len() - j,
        {
            assert(before.content[j as int] == self.content@[j as int]@);
            assert(before.content[j as int].0 < before.state.files.len());
            let i: usize = self.content[j].0;
            assert(before.state.files[i as int] == self.state.files@[i as int]@);
            if needs_embedding(&self.state.files[i]) {
                self.stage = ClassifyStage::Embedding;
                self.at = j;
                assert(self@ =~= to_embeddings(before, k as int));
                return;
            }
            j += 1;
        }
        self.go_to_names();
    }

    /// The files of the window whose texts are to be read: for each file of the
    /// window its path, or nothing where its text is not needed.
    pub fn texts_wanted(&self) -> (r: Vec<Option<String>>)
        requires
            self@.wf(),
            self@.stage == ClassifyStage::Texts,
        ensures
            r@.len() == self@.files_now().len(),
            forall|k: int|
                0 <= k < r@.len() ==> text::opt_view(#[trigger] r@[k]) == ({
                    let f = self@.state.files[self@.files_now()[k] as int];
                    if classify::reads_text(f) {
                        Some(f.local_path)
                    } else {
                        None
                    }
                }),
    {
        let idxs = window(&self.pending, self.start, WINDOW);
        proof {
            lemma_subrange_in_range(
                self@.pending,
                self@.start,
                self@.end(),
                self@.state.files.len() as int,
            );
        }
        let mut out: Vec<Option<String>> = Vec::new();
        let mut k: usize = 0;
        while k < idxs.len()
            invariant
                k <= idxs@.len(),
                idxs@ == self@.files_now(),
                classify::in_range(idxs@, self@.state.files.len() as int),
                out@.len() == k,
                forall|j: int|
                    0 <= j < k ==> text::opt_view(#[trigger] out@[j]) == ({
                        let f = self@.state.files[idxs@[j] as int];
                        if classify::reads_text(f) {
                            Some(f.local_path)
                        } else {
                            None
                        }
                    }),
            decreases idxs.len() - k,
        {
            assert(idxs@[k as int] < self@.state.files.len());
            let f = &self.state.files[idxs[k]];
            assert(self@.state.files[idxs@[k as int] as int] == f@);
            if needs_text(f) {
                out.push(Some(f.local_path.clone()));
            } else {
                out.push(None);
            }
            k += 1;
        }
        out
    }

    /// Takes in the texts of the window, one for each of its files.
    pub fn take_texts(&mut self, texts: &Vec<String>)
        requires
            old(self)@.wf(),
            old(self)@.stage == ClassifyStage::Texts,
            texts@.len() == old(self)@.files_now().len(),
        ensures
            final(self)@ == after_texts(old(self)@, text::views(texts@)),
            final(self)@.wf(),
    {
        let ghost before = self@;
        let idxs = window(&self.pending, self.start, WINDOW);
        proof {
            lemma_subrange_in_range(
                before.pending,
                before.start,
                before.end(),
                before.state.files.len() as int,
            );
            classify::lemma_triage(
                before.state.files,
                idxs@,
                text::views(texts@),
                idxs@.len() as int,
            );
        }
        let t = triage_window(&mut self.state, &idxs, texts);
        self.content = t.content;
        self.names = t.name_only;
        assert forall|k: int| 0 <= k < self@.content.len() implies (#[trigger] self@.content[k]).0
            < self@.state.files.len() by {
            assert(self@.content[k] == self.content@[k]@);
        }
        if self.content.len() > 0 {
            self.stage = ClassifyStage::Content;
        } else {
            self.go_to_names();
        }
        assert(self@ =~= after_texts(before, text::views(texts@)));
    }

    /// The question to ask of the cloud.
    pub fn question(&self) -> (r: String)
        requires
            self@.wf(),
            asks(self@.stage),
        ensures
            r@ == question_of(self@),
    {
        match self.stage {
            ClassifyStage::Content => {
                proof {
                    self.content_positions();
                }
                let items = content_items(&self.state, &self.content);
                assert(text::views(items@) =~= content_asked(self@)) by {
                    assert(text::views(items@).len() == self.content@.len());
                    assert forall|k: int| 0 <= k < items@.len() implies text::views(items@)[k]
                        == content_asked(self@)[k] by {
                        assert(self@.content[k] == self.content@[k]@);
                    }
                }
                content_prompt(&items)
            },
            ClassifyStage::Names => {
                let items = name_items(&self.state, &self.names);
                batch_prompt(&items)
            },
            _ => {
                proof {
                    lemma_subrange_in_range(
                        self@.news,
                        self@.news_start,
                        self@.news_end(),
                        self@.state.announcements.len() as int,
                    );
                }
                let idxs = window(&self.news, self.news_start, NEWS_WINDOW);
                let items = news_items(&self.state, &idxs);
                dates_prompt(&items)
            },
        }
    }

    /// The positions of the files by content are those of files.
    proof fn content_positions(&self)
        requires
            self@.wf(),
        ensures
            forall|k: int|
                0 <= k < self.content@.len() ==> (#[trigger] self.content@[k]).0
                    < self@.state.files.len(),
    {
        assert forall|k: int| 0 <= k < self.content@.len() implies (#[trigger] self.content@[k]).0
            < self@.state.files.len() by {
            assert(self@.content[k] == self.content@[k]@);
        }
    }

    /// Takes in the answer to the question.
    pub fn take_answer(&mut self, answer: &Result<String, String>)
        requires
            old(self)@.wf(),
            asks(old(self)@.stage),
        ensures
            final(self)@ == after_answer(old(self)@, answers::answer_view(*answer)),
            final(self)@.wf(),
    {
        let ghost before = self@;
        match self.stage {
            ClassifyStage::Content => {
                proof {
                    self.content_positions();
                }
                let items = content_items(&self.state, &self.content);
                assert(text::views(items@) =~= content_asked(before)) by {
                    assert(text::views(items@).len() == self.content@.len());
                    assert forall|k: int| 0 <= k < items@.len() implies text::views(items@)[k]
                        == content_asked(before)[k] by {
                        assert(before.content[k] == self.content@[k]@);
                    }
                }
                let rs = classify_batch_content(&items, answer);
                apply_results(&mut self.state, &self.content, &rs);
                proof {
                    classify::lemma_results_keep(
                        before.state,
                        before.content,
                        text::views(rs@),
                        before.content.len() as int,
                    );
                }
                self.go_to_embeddings(0);
            },
            ClassifyStage::Names => {
                let items = name_items(&self.state, &self.names);
                let cats = classify_batch(&items, answer);
                apply_categories(&mut self.state, &self.names, &cats);
                self.stage = ClassifyStage::WindowDone;
                assert(self@ =~= after_names(before, answers::answer_view(*answer)));
            },
            _ => {
                proof {
                    lemma_subrange_in_range(
                        before.news,
                        before.news_start,
                        before.news_end(),
                        before.state.announcements.len() as int,
                    );
                }
                let idxs = window(&self.news, self.news_start, NEWS_WINDOW);
                let lists = detect_dates(idxs.len(), answer);
                apply_news(&mut self.state, &idxs, &lists);
                proof {
                    classify::lemma_news_keep(
                        before.state,
                        idxs@,
                        answers::lists_view(lists@),
                        idxs@.len() as int,
                    );
                }
                self.stage = ClassifyStage::NewsDone;
                assert(self@ =~= after_news(before, answers::answer_view(*answer)));
            },
        }
    }

    /// The text whose embedding is waited for.
    pub fn embedding_wanted(&self) -> (r: String)
        requires
            self@.wf(),
            self@.stage == ClassifyStage::Embedding,
        ensures
            r@ == self@.state.files[self@.content[self@.at].0 as int].filename + "\n"@
                + self@.content[self@.at].1,
    {
        proof {
            self.content_positions();
        }
        assert(self@.content[self@.at] == self.content@[self.at as int]@);
        assert(self.content@[self.at as int].0 < self@.state.files.len());
        let i: usize = self.content[self.at].0;
        assert(self@.state.files[i as int] == self.state.files@[i as int]@);
        embedding_input(&self.state.files[i], self.content[self.at].1.as_str())
    }

    /// Takes in the embedding, or that there is none.
    pub fn take_embedding(&mut self, found: Option<Vec<u32>>)
        requires
            old(self)@.wf(),
            old(self)@.stage == ClassifyStage::Embedding,
        ensures
            final(self)@ == after_embedding(
                old(self)@,
                match found {
                    Some(e) => Some(e@),
                    None => None,
                },
            ),
            final(self)@.wf(),
    {
        let ghost before = self@;
        proof {
            self.content_positions();
        }
        assert(before.content[before.at] == self.content@[self.at as int]@);
        assert(self.content@[self.at as int].0 < before.state.files.len());
        match found {
            Some(e) => {
                let i: usize = self.content[self.at].0;
                set_embedding(&mut self.state, i, e);
            },
            None => {},
        }
        assert(self.at < self.content.len());
        let next: usize = self.at + 1;
        self.go_to_embeddings(next);
    }

    /// The notice behind a window.
    pub fn notice(&self) -> (r: Progress)
        requires
            self@.wf(),
            self@.stage == ClassifyStage::WindowDone || self@.stage == ClassifyStage::NewsDone,
        ensures
            r@ == (if self@.stage == ClassifyStage::WindowDone {
                ProgressView::Step {
                    phase: "classify"@,
                    current: self@.end() as u64,
                    total: self@.pending.len() as u64,
                    message: "Clasificando… ("@ + text::decimal(self@.end() as nat) + "/"@
                        + text::decimal(self@.pending.len()) + ")"@,
                }
            } else {
                ProgressView::Step {
                    phase: "classify"@,
                    current: self@.news_end() as u64,
                    total: self@.news.len() as u64,
                    message: "Anuncios… ("@ + text::decimal(self@.news_end() as nat) + "/"@
                        + text::decimal(self@.news.len()) + ")"@,
                }
            }),
    {
        match self.stage {
            ClassifyStage::WindowDone => {
                let end = window_stop(self.pending.len(), self.start, WINDOW);
                classify_step(end as u64, self.pending.len() as u64)
            },
            _ => {
                let end = window_stop(self.news.len(), self.news_start, NEWS_WINDOW);
                news_step(end, self.news.len())
            },
        }
    }

    /// Goes on to the next window, once the state was saved.
    pub fn saved(&mut self)
        requires
            old(self)@.wf(),
            old(self)@.stage == ClassifyStage::WindowDone || old(self)@.stage
                == ClassifyStage::NewsDone,
        ensures
            final(self)@ == after_save(old(self)@),
            final(self)@.wf(),
    {
        let ghost before = self@;
        match self.stage {
            ClassifyStage::WindowDone => {
                let n: usize = self.pending.len();
                self.start = window_stop(n, self.start, WINDOW);
                if self.start < n {
                    self.stage = ClassifyStage::Texts;
                    assert(self@ =~= after_save(before));
                } else {
                    self.stage = ClassifyStage::Over;
                    self.go_to_news();
                    assert(self@ =~= after_save(before));
                }
            },
            _ => {
                let n: usize = self.news.len();
                self.news_start = window_stop(n, self.news_start, NEWS_WINDOW);
                if self.news_start < n {
                    self.stage = ClassifyStage::News;
                } else {
                    self.stage = ClassifyStage::Over;
                }
                assert(self@ =~= after_save(before));
            },
        }
    }
}

/// Where the window that begins at `start` ends.
fn window_stop(len: usize, start: usize, size: usize) -> (r: usize)
    requires
        start <= len,
    ensures
        r == classify::window_end(len as int, start as int, size as int),
{
    if size < len - start {
        start + size
    } else {
        len
    }
}

// ---------------------------------------------------------------------------
// A run leaves nothing to classify
// ---------------------------------------------------------------------------

/// The file at position `j` is in the queue from `from` on.
pub open spec fn waits(run: ClassifyRunView, from: int, j: int) -> bool {
    exists|k: int| from <= k < run.pending.len() && (#[trigger] run.pending[k]) == j
}

/// The file at position `j` is among those to classify by content.
pub open spec fn has_content(run: ClassifyRunView, j: int) -> bool {
    exists|k: int| 0 <= k < run.content.len() && (#[trigger] run.content[k]).0 == j
}

/// The file at position `j` is among those to classify by name, and there is
/// nothing of it to read.
pub open spec fn has_name(run: ClassifyRunView, j: int) -> bool {
    classify::all_read(run.state.files[j]) && exists|k: int|
        0 <= k < run.names.len() && (#[trigger] run.names[k]) == j
}

/// The file at position `j` needs no classification, or the run will come to it.
pub open spec fn on_track(run: ClassifyRunView, j: int) -> bool {
    classify::settled(run.state.files[j]) || match run.stage {
        ClassifyStage::Texts => waits(run, run.start, j),
        ClassifyStage::Content => waits(run, run.end(), j) || has_content(run, j) || has_name(
            run,
            j,
        ),
        ClassifyStage::Embedding => waits(run, run.end(), j) || has_name(run, j),
        ClassifyStage::Names => waits(run, run.end(), j) || has_name(run, j),
        ClassifyStage::WindowDone => waits(run, run.end(), j),
        _ => false,
    }
}

/// Every file needs no classification, or the run will come to it.
pub open spec fn all_on_track(run: ClassifyRunView) -> bool {
    forall|j: int| 0 <= j < run.state.files.len() ==> #[trigger] on_track(run, j)
}

/// Every run begins on track, forced or not.
pub proof fn lemma_begin_on_track(st: AppStateView, force: bool)
    requires
        st.files.len() <= usize::MAX,
    ensures
        all_on_track(run_begin(st, force)),
{
    let run = run_begin(st, force);
    let want = |f: CanvasFileView| classify::wants_class(f, force);
    queue::lemma_queue(st.files, labels::past_ids(st.courses), want);
    assert forall|j: int| 0 <= j < run.state.files.len() implies #[trigger] on_track(run, j) by {
        if want(st.files[j]) {
            let q = classify::class_queue(st, force);
            assert(q.contains(j as usize));
            let k = choose|k: int| 0 <= k < q.len() && q[k] == j as usize;
            assert(run.pending[k] == j);
        }
    }
}

/// Reading the texts of a window keeps a run on track.
pub proof fn lemma_texts_on_track(run: ClassifyRunView, texts: Seq<Seq<char>>)
    requires
        run.wf(),
        run.stage == ClassifyStage::Texts,
        all_on_track(run),
        texts.len() == run.files_now().len(),
    ensures
        all_on_track(after_texts(run, texts)),
{
    let idxs = run.files_now();
    let files = run.state.files;
    let next = after_texts(run, texts);
    let t = classify::triage_upto(files, idxs, texts, idxs.len() as int);
    lemma_subrange_in_range(run.pending, run.start, run.end(), files.len() as int);
    classify::lemma_triage_places(files, idxs, texts, idxs.len() as int);
    assert forall|j: int| 0 <= j < next.state.files.len() implies #[trigger] on_track(next, j) by {
        assert(on_track(run, j));
        if !classify::settled(files[j]) {
            let k = choose|k: int|
                run.start <= k < run.pending.len() && (#[trigger] run.pending[k]) == j;
            if k < run.end() {
                assert(idxs[k - run.start] == j);
                assert(classify::placed(t, idxs[k - run.start] as int));
                if classify::settled(t.files[j]) {
                } else if exists|m: int|
                    0 <= m < t.content.len() && (#[trigger] t.content[m]).0 == j {
                    let m = choose|m: int|
                        0 <= m < t.content.len() && (#[trigger] t.content[m]).0 == j;
                    assert(next.content[m].0 == j);
                    assert(has_content(next, j));
                } else {
                    let m = choose|m: int|
                        0 <= m < t.name_only.len() && (#[trigger] t.name_only[m]) == j;
                    assert(next.names[m] == j);
                    assert(has_name(next, j));
                }
            } else {
                assert(next.pending[k] == j);
                assert(waits(next, next.end(), j));
            }
        }
    }
}

/// The answer on the files by content keeps a run on track.
pub proof fn lemma_content_on_track(run: ClassifyRunView, answer: Option<Seq<char>>)
    requires
        run.wf(),
        run.stage == ClassifyStage::Content,
        all_on_track(run),
    ensures
        all_on_track(after_content(run, answer)),
{
    let es = answers::entries_in(answer);
    let rs = answers::batch_results(content_asked(run), es);
    let st = classify::with_results(run.state, run.content, rs, run.content.len() as int);
    let next = after_content(run, answer);
    answers::lemma_batch_results(content_asked(run), es);
    assert forall|k: int| 0 <= k < rs.len() implies (#[trigger] rs[k]).category.len() > 0 by {
        assert(answers::sound_result(rs[k]));
        crate::categories::lemma_category_not_empty(rs[k].category);
    }
    classify::lemma_results_settle(run.state, run.content, rs, run.content.len() as int);
    assert forall|j: int| 0 <= j < next.state.files.len() implies #[trigger] on_track(next, j) by {
        assert(on_track(run, j));
        assert(next.state.files[j] == st.files[j]);
        if classify::settled(run.state.files[j]) {
        } else if has_content(run, j) {
            let k = choose|k: int| 0 <= k < run.content.len() && (#[trigger] run.content[k]).0 == j;
            assert(classify::settled(st.files[run.content[k].0 as int]));
        } else if waits(run, run.end(), j) {
            let k = choose|k: int|
                run.end() <= k < run.pending.len() && (#[trigger] run.pending[k]) == j;
            assert(next.pending[k] == j);
            assert(waits(next, next.end(), j));
        } else {
            let k = choose|k: int| 0 <= k < run.names.len() && (#[trigger] run.names[k]) == j;
            assert(next.names[k] == j);
            assert(has_name(next, j));
        }
    }
}

/// An embedding keeps a run on track.
pub proof fn lemma_embedding_on_track(run: ClassifyRunView, found: Option<Seq<u32>>)
    requires
        run.wf(),
        run.stage == ClassifyStage::Embedding,
        all_on_track(run),
    ensures
        all_on_track(after_embedding(run, found)),
{
    let next = after_embedding(run, found);
    assert(run.content[run.at].0 < run.state.files.len());
    assert forall|j: int| 0 <= j < next.state.files.len() implies #[trigger] on_track(next, j) by {
        assert(on_track(run, j));
        if classify::settled(run.state.files[j]) {
        } else if waits(run, run.end(), j) {
            let k = choose|k: int|
                run.end() <= k < run.pending.len() && (#[trigger] run.pending[k]) == j;
            assert(next.pending[k] == j);
            assert(waits(next, next.end(), j));
        } else {
            let k = choose|k: int| 0 <= k < run.names.len() && (#[trigger] run.names[k]) == j;
            assert(next.names[k] == j);
            assert(has_name(next, j));
        }
    }
}

/// The answer on the files by name keeps a run on track.
pub proof fn lemma_names_on_track(run: ClassifyRunView, answer: Option<Seq<char>>)
    requires
        run.wf(),
        run.stage == ClassifyStage::Names,
        all_on_track(run),
    ensures
        all_on_track(after_names(run, answer)),
{
    let es = answers::entries_in(answer);
    let cats = answers::batch_categories(names_asked(run), es);
    let files = run.state.files;
    let next = after_names(run, answer);
    answers::lemma_batch_categories(names_asked(run), es);
    assert forall|k: int| 0 <= k < cats.len() implies (#[trigger] cats[k]).len() > 0 by {
        crate::categories::lemma_category_not_empty(cats[k]);
    }
    classify::lemma_categories_settle(files, run.names, cats, run.names.len() as int);
    assert forall|j: int| 0 <= j < next.state.files.len() implies #[trigger] on_track(next, j) by {
        assert(on_track(run, j));
        if classify::settled(files[j]) {
        } else if waits(run, run.end(), j) {
            let k = choose|k: int|
                run.end() <= k < run.pending.len() && (#[trigger] run.pending[k]) == j;
            assert(next.pending[k] == j);
            assert(waits(next, next.end(), j));
        } else {
            let k = choose|k: int| 0 <= k < run.names.len() && (#[trigger] run.names[k]) == j;
            assert(classify::all_read(files[run.names[k] as int]));
        }
    }
}

/// Saving, and the answers on announcements, keep a run on track.
pub proof fn lemma_rest_on_track(run: ClassifyRunView, answer: Option<Seq<char>>)
    requires
        run.wf(),
        all_on_track(run),
    ensures
        run.stage == ClassifyStage::WindowDone || run.stage == ClassifyStage::NewsDone
            ==> all_on_track(after_save(run)),
        run.stage == ClassifyStage::News ==> all_on_track(after_news(run, answer)),
{
    if run.stage == ClassifyStage::News {
        let es = answers::entries_in(answer);
        let next = after_news(run, answer);
        lemma_subrange_in_range(
            run.news,
            run.news_start,
            run.news_end(),
            run.state.announcements.len() as int,
        );
        classify::lemma_news_keep(
            run.state,
            run.news_now(),
            answers::dates_after(run.news_now().len(), es, es.len() as int),
            run.news_now().len() as int,
        );
        assert forall|j: int| 0 <= j < next.state.files.len() implies #[trigger] on_track(
            next,
            j,
        ) by {
            assert(on_track(run, j));
        }
    }
    if run.stage == ClassifyStage::WindowDone || run.stage == ClassifyStage::NewsDone {
        let next = after_save(run);
        assert forall|j: int| 0 <= j < next.state.files.len() implies #[trigger] on_track(
            next,
            j,
        ) by {
            assert(on_track(run, j));
            if !classify::settled(run.state.files[j]) {
                let k = choose|k: int|
                    run.end() <= k < run.pending.len() && (#[trigger] run.pending[k]) == j;
                assert(next.pending[k] == j);
            }
        }
    }
}

/// A run on track that is over has left nothing to classify: the next run, unless
/// it is forced, finds no file to do.
pub proof fn lemma_over_means_done(run: ClassifyRunView)
    requires
        run.wf(),
        all_on_track(run),
        run.stage == ClassifyStage::Over || run.stage == ClassifyStage::Nothing,
        run.state.files.len() <= usize::MAX,
    ensures
        forall|j: int|
            0 <= j < run.state.files.len() ==> !classify::wants_class(
                #[trigger] run.state.files[j],
                false,
            ),
        classify::class_queue(run.state, false).len() == 0,
{
    assert forall|j: int| 0 <= j < run.state.files.len() implies !classify::wants_class(
        #[trigger] run.state.files[j],
        false,
    ) by {
        assert(on_track(run, j));
    }
    let q = classify::class_queue(run.state, false);
    queue::lemma_queue(
        run.state.files,
        labels::past_ids(run.state.courses),
        |f: CanvasFileView| classify::wants_class(f, false),
    );
    if q.len() > 0 {
        assert(q[0] < run.state.files.len());
        assert(classify::wants_class(run.state.files[q[0] as int], false));
    }
}

// ---------------------------------------------------------------------------
// A run leaves alone what is not to be classified
// ---------------------------------------------------------------------------

/// The file at position `j` is none of those that a run classifies.
pub open spec fn leaves_alone(run: ClassifyRunView, j: int) -> bool {
    &&& 0 <= j < run.state.files.len()
    &&& forall|k: int| 0 <= k < run.pending.len() ==> (#[trigger] run.pending[k]) != j
    &&& forall|k: int| 0 <= k < run.content.len() ==> (#[trigger] run.content[k]).0 != j
    &&& forall|k: int| 0 <= k < run.names.len() ==> (#[trigger] run.names[k]) != j
}

/// A first look leaves a file that is not in the window as it is, and does not pick
/// it.
proof fn lemma_triage_leaves(
    files: Seq<CanvasFileView>,
    idxs: Seq<usize>,
    texts: Seq<Seq<char>>,
    n: int,
    j: int,
)
    requires
        classify::in_range(idxs, files.len() as int),
        0 <= n <= idxs.len(),
        0 <= j < files.len(),
        forall|k: int| 0 <= k < idxs.len() ==> (#[trigger] idxs[k]) != j,
    ensures
        ({
            let t = classify::triage_upto(files, idxs, texts, n);
            &&& t.files.len() == files.len()
            &&& t.files[j] == files[j]
            &&& forall|k: int| 0 <= k < t.content.len() ==> (#[trigger] t.content[k]).0 != j
            &&& forall|k: int| 0 <= k < t.name_only.len() ==> (#[trigger] t.name_only[k]) != j
        }),
    decreases n,
{
    if n > 0 {
        lemma_triage_leaves(files, idxs, texts, n - 1, j);
        assert(idxs[n - 1] < files.len());
        assert(idxs[n - 1] != j);
    }
}

/// Results leave a file that is not among those by content as it is.
proof fn lemma_results_leave(
    st: AppStateView,
    content: Seq<(usize, Seq<char>)>,
    rs: Seq<answers::ClassResultView>,
    n: int,
    j: int,
)
    requires
        0 <= n <= content.len(),
        0 <= j < st.files.len(),
        forall|k: int| 0 <= k < content.len() ==> (#[trigger] content[k]).0 < st.files.len(),
        forall|k: int| 0 <= k < content.len() ==> (#[trigger] content[k]).0 != j,
    ensures
        classify::with_results(st, content, rs, n).files.len() == st.files.len(),
        classify::with_results(st, content, rs, n).files[j] == st.files[j],
    decreases n,
{
    if n > 0 {
        lemma_results_leave(st, content, rs, n - 1, j);
        assert(content[n - 1].0 < st.files.len());
        assert(content[n - 1].0 != j);
    }
}

/// Categories leave a file that is not among those by name as it is.
proof fn lemma_categories_leave(
    files: Seq<CanvasFileView>,
    idxs: Seq<usize>,
    cats: Seq<Seq<char>>,
    n: int,
    j: int,
)
    requires
        classify::in_range(idxs, files.len() as int),
        0 <= n <= idxs.len(),
        0 <= j < files.len(),
        forall|k: int| 0 <= k < idxs.len() ==> (#[trigger] idxs[k]) != j,
    ensures
        classify::with_categories(files, idxs, cats, n).len() == files.len(),
        classify::with_categories(files, idxs, cats, n)[j] == files[j],
    decreases n,
{
    if n > 0 {
        lemma_categories_leave(files, idxs, cats, n - 1, j);
        assert(idxs[n - 1] < files.len());
        assert(idxs[n - 1] != j);
    }
}

/// A run begins by leaving every file alone that is not to be classified: one whose
/// category the user set, even where everything is to be done again, and otherwise
/// one that has a category and of which nothing is left to read.
pub proof fn lemma_begin_leaves_alone(st: AppStateView, force: bool, j: int)
    requires
        0 <= j < st.files.len() <= usize::MAX,
        !classify::wants_class(st.files[j], force),
    ensures
        leaves_alone(run_begin(st, force), j),
        run_begin(st, force).state.files[j] == st.files[j],
{
    let q = classify::class_queue(st, force);
    queue::lemma_queue(
        st.files,
        labels::past_ids(st.courses),
        |f: CanvasFileView| classify::wants_class(f, force),
    );
    assert forall|k: int| 0 <= k < q.len() implies (#[trigger] q[k]) != j by {
        assert(classify::wants_class(st.files[q[k] as int], force));
    }
    assert(begun_state(st, force).files == st.files);
}

/// A file that a run leaves alone keeps every field through every step of it, and
/// the run goes on to leave it alone.
pub proof fn lemma_steps_leave_alone(
    run: ClassifyRunView,
    j: int,
    texts: Seq<Seq<char>>,
    answer: Option<Seq<char>>,
    found: Option<Seq<u32>>,
)
    requires
        run.wf(),
        leaves_alone(run, j),
    ensures
        run.stage == ClassifyStage::Texts && texts.len() == run.files_now().len() ==> leaves_alone(
            after_texts(run, texts),
            j,
        ) && after_texts(run, texts).state.files[j] == run.state.files[j],
        asks(run.stage) ==> leaves_alone(after_answer(run, answer), j) && after_answer(
            run,
            answer,
        ).state.files[j] == run.state.files[j],
        run.stage == ClassifyStage::Embedding ==> leaves_alone(after_embedding(run, found), j)
            && after_embedding(run, found).state.files[j] == run.state.files[j],
        run.stage == ClassifyStage::WindowDone || run.stage == ClassifyStage::NewsDone
            ==> leaves_alone(after_save(run), j) && after_save(run).state.files[j]
            == run.state.files[j],
{
    if run.stage == ClassifyStage::Texts && texts.len() == run.files_now().len() {
        let idxs = run.files_now();
        lemma_subrange_in_range(
            run.pending,
            run.start,
            run.end(),
            run.state.files.len() as int,
        );
        assert forall|k: int| 0 <= k < idxs.len() implies (#[trigger] idxs[k]) != j by {
            assert(run.pending[run.start + k] != j);
        }
        lemma_triage_leaves(run.state.files, idxs, texts, idxs.len() as int, j);
    }
    if run.stage == ClassifyStage::Content {
        let rs = answers::batch_results(content_asked(run), answers::entries_in(answer));
        lemma_results_leave(run.state, run.content, rs, run.content.len() as int, j);
    }
    if run.stage == ClassifyStage::Names {
        let cats = answers::batch_categories(names_asked(run), answers::entries_in(answer));
        lemma_categories_leave(run.state.files, run.names, cats, run.names.len() as int, j);
    }
    if run.stage == ClassifyStage::News {
        let es = answers::entries_in(answer);
        lemma_subrange_in_range(
            run.news,
            run.news_start,
            run.news_end(),
            run.state.announcements.len() as int,
        );
        classify::lemma_news_keep(
            run.state,
            run.news_now(),
            answers::dates_after(run.news_now().len(), es, es.len() as int),
            run.news_now().len() as int,
        );
    }
    if run.stage == ClassifyStage::Embedding {
        assert(run.content[run.at].0 != j);
        assert(run.content[run.at].0 < run.state.files.len());
    }
}

// ---------------------------------------------------------------------------
// What a run asks, and what it does with the answers
// ---------------------------------------------------------------------------

/// A run begins with the files that are to be classified, where there are some, and
/// otherwise with the announcements; to begin anew makes every announcement unread
/// again, and nothing else of the state changes.
pub proof fn lemma_run_starts(st: AppStateView, force: bool)
    ensures
        ({
            let run = run_begin(st, force);
            &&& run.pending == classify::class_queue(st, force)
            &&& run.start == 0
            &&& run.pending.len() > 0 ==> run.stage == ClassifyStage::Texts
            &&& run.pending.len() == 0 ==> run.stage == ClassifyStage::News || run.stage
                == ClassifyStage::Over || run.stage == ClassifyStage::Nothing
            &&& run.stage == ClassifyStage::News ==> run.news == classify::news_queue(run.state)
                && run.news.len() > 0 && run.news_start == 0
            &&& !force ==> run.state == st
            &&& run.state.files == st.files && run.state.courses == st.courses
                && run.state.assignments == st.assignments && run.state.events == st.events
                && run.state.course_summaries == st.course_summaries
            &&& run.state.announcements.len() == st.announcements.len()
            &&& force ==> forall|i: int|
                0 <= i < st.announcements.len() ==> !(
                #[trigger] run.state.announcements[i]).dates_done
            &&& forall|i: int|
                0 <= i < st.announcements.len() ==> (#[trigger] run.state.announcements[i]).id
                    == st.announcements[i].id && run.state.announcements[i].message
                    == st.announcements[i].message
        }),
{
}

/// Files come in windows of twelve, announcements in windows of eight, and the last
/// window holds what is left.
pub proof fn lemma_window_sizes(run: ClassifyRunView)
    requires
        run.wf(),
    ensures
        run.start + 12 <= run.pending.len() ==> run.files_now() == run.pending.subrange(
            run.start,
            run.start + 12,
        ),
        run.start + 12 > run.pending.len() ==> run.files_now() == run.pending.skip(run.start),
        run.news_start + 8 <= run.news.len() ==> run.news_now() == run.news.subrange(
            run.news_start,
            run.news_start + 8,
        ),
        run.news_start + 8 > run.news.len() ==> run.news_now() == run.news.skip(run.news_start),
{
    assert(run.pending.subrange(run.start, run.pending.len() as int) =~= run.pending.skip(
        run.start,
    ));
    assert(run.news.subrange(run.news_start, run.news.len() as int) =~= run.news.skip(
        run.news_start,
    ));
}

/// Behind a window, the next one begins where it ended; behind the last window of files
/// come the announcements, and behind their last window the run is over.
pub proof fn lemma_windows_follow(run: ClassifyRunView)
    requires
        run.wf(),
        run.stage == ClassifyStage::WindowDone || run.stage == ClassifyStage::NewsDone,
    ensures
        ({
            let next = after_save(run);
            &&& next.state == run.state
            &&& next.pending == run.pending
            &&& run.stage == ClassifyStage::WindowDone && run.start + 12 < run.pending.len()
                ==> next.stage == ClassifyStage::Texts && next.start == run.start + 12
            &&& run.stage == ClassifyStage::WindowDone && run.start + 12 >= run.pending.len()
                ==> next.start == run.pending.len() && next.news == classify::news_queue(run.state)
                && next.news_start == 0 && next.stage == (if next.news.len() > 0 {
                ClassifyStage::News
            } else {
                ClassifyStage::Over
            })
            &&& run.stage == ClassifyStage::NewsDone && run.news_start + 8 < run.news.len()
                ==> next.stage == ClassifyStage::News && next.news_start == run.news_start + 8
                && next.news == run.news
            &&& run.stage == ClassifyStage::NewsDone && run.news_start + 8 >= run.news.len()
                ==> next.stage == ClassifyStage::Over
        }),
{
}

/// What is asked of the documents, of the files by name and of the announcements: each
/// with its own name, folder and course, a document with its text, an announcement with
/// its title and message.
pub proof fn lemma_asked(run: ClassifyRunView, k: int)
    ensures
        0 <= k < run.content.len() ==> ({
            let f = run.state.files[run.content[k].0 as int];
            &&& content_asked(run)[k].0 == f.filename
            &&& content_asked(run)[k].1 == f.folder
            &&& content_asked(run)[k].2 == f.course_name
            &&& content_asked(run)[k].3 == run.content[k].1
        }),
        content_asked(run).len() == run.content.len(),
        0 <= k < run.names.len() ==> ({
            let f = run.state.files[run.names[k] as int];
            &&& names_asked(run)[k].0 == f.filename
            &&& names_asked(run)[k].1 == f.folder
            &&& names_asked(run)[k].2 == f.course_name
        }),
        names_asked(run).len() == run.names.len(),
        0 <= k < run.news_now().len() ==> ({
            let a = run.state.announcements[run.news_now()[k] as int];
            &&& news_asked(run)[k].0 == a.title
            &&& news_asked(run)[k].1 == a.course_name
            &&& news_asked(run)[k].2 == a.message
        }),
        news_asked(run).len() == run.news_now().len(),
        run.stage == ClassifyStage::Content ==> question_of(run) == prompts::content_question(
            content_asked(run),
        ),
        run.stage == ClassifyStage::Names ==> question_of(run) == prompts::batch_question(
            names_asked(run),
        ),
        run.stage == ClassifyStage::News ==> question_of(run) == prompts::dates_question(
            news_asked(run),
        ),
{
}

/// The answer on documents gives each of them the category of its own result, and it
/// counts as read.
pub proof fn lemma_content_taken(run: ClassifyRunView, answer: Option<Seq<char>>, k: int)
    requires
        run.wf(),
        run.stage == ClassifyStage::Content,
        0 <= k < run.content.len(),
        forall|i: int, j: int|
            0 <= i < j < run.content.len() ==> (#[trigger] run.content[i]).0 != (
            #[trigger] run.content[j]).0,
    ensures
        ({
            let next = after_answer(run, answer);
            let i = run.content[k].0 as int;
            let r = answers::batch_results(content_asked(run), answers::entries_in(answer))[k];
            &&& next.state.files[i].category == r.category
            &&& next.state.files[i].content_done
            &&& next.state.files[i].id == run.state.files[i].id && next.state.files[i].filename
                == run.state.files[i].filename && next.state.files[i].summary
                == run.state.files[i].summary && next.state.files[i].local_path
                == run.state.files[i].local_path
        }),
{
    let rs = answers::batch_results(content_asked(run), answers::entries_in(answer));
    answers::lemma_batch_results(content_asked(run), answers::entries_in(answer));
    classify::lemma_results_taken(run.state, run.content, rs, run.content.len() as int);
    assert(run.content[k].0 < run.state.files.len());
}

/// The answer on files by name gives each of them its own category, and then the window
/// is done.
pub proof fn lemma_names_taken(run: ClassifyRunView, answer: Option<Seq<char>>, k: int)
    requires
        run.wf(),
        run.stage == ClassifyStage::Names,
        0 <= k < run.names.len(),
        run.names.no_duplicates(),
    ensures
        ({
            let next = after_answer(run, answer);
            let i = run.names[k] as int;
            &&& next.stage == ClassifyStage::WindowDone
            &&& next.state.files[i].category == answers::batch_categories(
                names_asked(run),
                answers::entries_in(answer),
            )[k]
            &&& next.state.files[i].id == run.state.files[i].id
                && next.state.files[i].content_done == run.state.files[i].content_done
                && next.state.files[i].summary == run.state.files[i].summary
            &&& next.state.events == run.state.events
            &&& next.state.announcements == run.state.announcements
        }),
{
    let cats = answers::batch_categories(names_asked(run), answers::entries_in(answer));
    answers::lemma_batch_categories(names_asked(run), answers::entries_in(answer));
    classify::lemma_categories_taken(run.state.files, run.names, cats, run.names.len() as int);
    assert(run.names[k] < run.state.files.len());
}

/// The first file by content from `k` on that has no embedding.
pub proof fn lemma_next_blank(
    files: Seq<CanvasFileView>,
    content: Seq<(usize, Seq<char>)>,
    k: int,
)
    requires
        0 <= k <= content.len(),
    ensures
        match next_blank(files, content, k) {
            Some(m) => k <= m < content.len() && files[content[m].0 as int].embedding.len() == 0
                && forall|j: int|
                k <= j < m ==> files[(#[trigger] content[j]).0 as int].embedding.len() > 0,
            None => forall|j: int|
                k <= j < content.len() ==> files[(#[trigger] content[j]).0 as int].embedding.len()
                    > 0,
        },
    decreases content.len() - k,
{
    if k < content.len() {
        lemma_next_blank(files, content, k + 1);
    }
}

/// An embedding that was found is that of the file it was asked for; one that was not
/// leaves the files as they are. Either way the run goes on behind that file.
pub proof fn lemma_embedding_taken(run: ClassifyRunView, e: Seq<u32>)
    requires
        run.wf(),
        run.stage == ClassifyStage::Embedding,
    ensures
        ({
            let next = after_embedding(run, Some(e));
            let i = run.content[run.at].0 as int;
            &&& next.state.files[i].embedding == e
            &&& next.state.files[i].category == run.state.files[i].category
                && next.state.files[i].summary == run.state.files[i].summary
                && next.state.files[i].id == run.state.files[i].id
            &&& forall|j: int|
                0 <= j < run.state.files.len() && j != i ==> #[trigger] next.state.files[j]
                    == run.state.files[j]
            &&& next.stage == ClassifyStage::Embedding ==> run.at < next.at
        }),
        after_embedding(run, None).state == run.state,
        after_embedding(run, None).stage == ClassifyStage::Embedding ==> run.at < after_embedding(
            run,
            None,
        ).at,
{
    assert(run.content[run.at].0 < run.state.files.len());
    let i = run.content[run.at].0 as int;
    let files = run.state.files.update(
        i,
        CanvasFileView { embedding: e, ..run.state.files[i] },
    );
    lemma_next_blank(files, run.content, run.at + 1);
    lemma_next_blank(run.state.files, run.content, run.at + 1);
}

/// The texts of a window part its files: those to be classified by their text come
/// first, then those by their name; where there are none of either, the window is done.
pub proof fn lemma_texts_taken(run: ClassifyRunView, texts: Seq<Seq<char>>)
    requires
        run.wf(),
        run.stage == ClassifyStage::Texts,
    ensures
        ({
            let next = after_texts(run, texts);
            let t = classify::triage_upto(
                run.state.files,
                run.files_now(),
                texts,
                run.files_now().len() as int,
            );
            &&& next.content == t.content
            &&& next.names == t.name_only
            &&& next.state.files == t.files
            &&& next.state.events == run.state.events && next.state.announcements
                == run.state.announcements && next.state.courses == run.state.courses
            &&& t.content.len() > 0 ==> next.stage == ClassifyStage::Content
            &&& t.content.len() == 0 && t.name_only.len() > 0 ==> next.stage == ClassifyStage::Names
            &&& t.content.len() == 0 && t.name_only.len() == 0 ==> next.stage
                == ClassifyStage::WindowDone
            &&& next.start == run.start && next.pending == run.pending
        }),
{
}

/// What is seen of a run is what it holds, each thing as itself.
pub proof fn lemma_classify_run_seen(x: ClassifyRun)
    ensures
        x@.stage == x.stage,
        x@.state == x.state@,
        x@.pending == x.pending@,
        x@.start == x.start as int,
        x@.content == text::views(x.content@),
        x@.at == x.at as int,
        x@.names == x.names@,
        x@.news == x.news@,
        x@.news_start == x.news_start as int,
{
}

/// Without a file to classify, a run goes to the announcements where some were not read
/// yet, or where all are to be read anew; otherwise there is nothing to do.
pub proof fn lemma_run_without_files(st: AppStateView, force: bool)
    requires
        classify::class_queue(st, force).len() == 0,
    ensures
        ({
            let run = run_begin(st, force);
            let open = if force {
                st.announcements.len() > 0
            } else {
                exists|i: int|
                    0 <= i < st.announcements.len() && !(
                    #[trigger] st.announcements[i]).dates_done
            };
            &&& !open ==> run.stage == ClassifyStage::Nothing
            &&& open && classify::news_queue(run.state).len() > 0 ==> run.stage
                == ClassifyStage::News
            &&& open && classify::news_queue(run.state).len() == 0 ==> run.stage
                == ClassifyStage::Over
        }),
{
    let state = begun_state(st, force);
    if force && st.announcements.len() > 0 {
        assert(!state.announcements[0].dates_done);
    }
}

} // verus!
