//! Search by meaning: which files are compared with a query, and which are shown.

use vstd::prelude::*;
use vstd::string::*;
use vstd::set_lib::*;
use crate::queue;
use crate::store::{AppState, AppStateView, CanvasFile, CanvasFileView};
use crate::text;

verus! {

/// How many files a search shows at most.
pub const MAX_HITS: usize = 15;

/// A file that a search shows.
pub struct SearchHit {
    pub file_id: u64,
    pub filename: String,
    pub course_name: String,
    pub category: String,
    /// How near the file is to the query, as the bits of a single-precision
    /// number.
    pub score: u32,
}

/// What a hit says.
#[verifier::ext_equal]
pub struct SearchHitView {
    pub file_id: u64,
    pub filename: Seq<char>,
    pub course_name: Seq<char>,
    pub category: Seq<char>,
    pub score: u32,
}

impl View for SearchHit {
    type V = SearchHitView;

    open spec fn view(&self) -> SearchHitView {
        SearchHitView {
            file_id: self.file_id,
            filename: self.filename@,
            course_name: self.course_name@,
            category: self.category@,
            score: self.score,
        }
    }
}

/// The hit of a file.
pub open spec fn hit_of(f: CanvasFileView, score: u32) -> SearchHitView {
    SearchHitView {
        file_id: f.id,
        filename: f.filename,
        course_name: f.course_name,
        category: f.category,
        score,
    }
}

/// The positions of the files that have a place in the search index.
pub open spec fn indexed(files: Seq<CanvasFileView>) -> Seq<usize> {
    queue::marked(
        files.map_values(|f: CanvasFileView| f.embedding.len() > 0),
        files.len() as int,
    )
}

/// The positions of the files that have a place in the search index.
pub fn indexed_files(state: &AppState) -> (r: Vec<usize>)
    ensures
        r@ == indexed(state@.files),
{
    let ghost flags = state@.files.map_values(|f: CanvasFileView| f.embedding.len() > 0);
    let mut out: Vec<usize> = Vec::new();
    let mut i: usize = 0;
    while i < state.files.len()
        invariant
            i <= state.files@.len(),
            flags == state@.files.map_values(|f: CanvasFileView| f.embedding.len() > 0),
            out@ == queue::marked(flags, i as int),
        decreases state.files.len() - i,
    {
        assert(state@.files[i as int] == state.files@[i as int]@);
        if state.files[i].embedding.len() > 0 {
            out.push(i);
        }
        i += 1;
    }
    out
}

/// `order` ranks the first `n` keys: it names each once, greater keys first, and
/// of equal keys the earlier one first.
pub open spec fn ranks(order: Seq<usize>, keys: Seq<u32>, n: int) -> bool {
    &&& order.len() == n
    &&& forall|i: int| 0 <= i < order.len() ==> (#[trigger] order[i]) < n
    &&& forall|i: int, j: int|
        0 <= i < j < order.len() ==> comes_first(
            keys,
            (#[trigger] order[i]) as int,
            (#[trigger] order[j]) as int,
        )
}

/// The key at `a` ranks before the key at `b`.
pub open spec fn comes_first(keys: Seq<u32>, a: int, b: int) -> bool {
    keys[a] > keys[b] || (keys[a] == keys[b] && a < b)
}

/// The ranking of the keys.
fn ranking(keys: &Vec<u32>) -> (r: Vec<usize>)
    ensures
        ranks(r@, keys@, keys@.len() as int),
{
    let mut order: Vec<usize> = Vec::new();
    let mut n: usize = 0;
    while n < keys.len()
        invariant
            n <= keys@.len(),
            ranks(order@, keys@, n as int),
        decreases keys.len() - n,
    {
        let ghost before = order@;
        let mut j: usize = order.len();
        while j > 0 && keys[order[j - 1]] < keys[n]
            invariant
                n < keys@.len(),
                j <= order@.len(),
                order@ == before,
                ranks(before, keys@, n as int),
                forall|k: int|
                    j <= k < before.len() ==> keys@[(#[trigger] before[k]) as int] < keys@[n as int],
            decreases j,
        {
            j -= 1;
        }
        order.insert(j, n);
        proof {
            let after = order@;
            assert forall|a: int, b: int| 0 <= a < b < after.len() implies comes_first(
                keys@,
                (#[trigger] after[a]) as int,
                (#[trigger] after[b]) as int,
            ) by {
                if a < j && b < j {
                    assert(after[a] == before[a] && after[b] == before[b]);
                } else if a < j && b == j {
                    assert(after[a] == before[a]);
                    assert(before[a] < n);
                    if a < j - 1 {
                        assert(comes_first(keys@, before[a] as int, before[j - 1] as int));
                    }
                } else if a < j && b > j {
                    assert(after[a] == before[a] && after[b] == before[b - 1]);
                } else if a == j {
                    assert(after[b] == before[b - 1]);
                } else {
                    assert(after[a] == before[a - 1] && after[b] == before[b - 1]);
                }
            }
            assert forall|a: int| 0 <= a < after.len() implies (#[trigger] after[a]) < n + 1 by {
                if a < j {
                    assert(after[a] == before[a]);
                } else if a > j {
                    assert(after[a] == before[a - 1]);
                }
            }
        }
        n += 1;
    }
    order
}

/// A ranking names every position.
proof fn lemma_ranks_all(order: Seq<usize>, keys: Seq<u32>, n: int, x: int)
    requires
        ranks(order, keys, n),
        0 <= x < n,
    ensures
        exists|i: int| 0 <= i < n && (#[trigger] order[i]) == x,
{
    let s = order.map_values(|k: usize| k as int);
    assert forall|i: int, j: int| 0 <= i < s.len() && 0 <= j < s.len() && i != j implies s[i]
        != s[j] by {
        if i < j {
            assert(comes_first(keys, order[i] as int, order[j] as int));
        } else {
            assert(comes_first(keys, order[j] as int, order[i] as int));
        }
    }
    s.unique_seq_to_set();
    lemma_int_range(0, n);
    assert(s.to_set().subset_of(set_int_range(0, n))) by {
        assert forall|v: int| s.to_set().contains(v) implies set_int_range(0, n).contains(v) by {
            let i = choose|i: int| 0 <= i < s.len() && s[i] == v;
            assert(order[i] < n);
        }
    }
    vstd::seq_lib::seq_to_set_is_finite(s);
    lemma_subset_equality(s.to_set(), set_int_range(0, n));
    assert(s.to_set().contains(x));
    let i = choose|i: int| 0 <= i < s.len() && s[i] == x;
    assert(order[i] == x);
}

/// There is one ranking only: what a search shows depends on the scores alone.
pub proof fn lemma_ranking_unique(a: Seq<usize>, b: Seq<usize>, keys: Seq<u32>, n: int)
    requires
        ranks(a, keys, n),
        ranks(b, keys, n),
    ensures
        a == b,
{
    lemma_rankings_agree(a, b, keys, n, n);
    assert(a =~= b);
}

/// Two rankings agree on their first `m` positions.
proof fn lemma_rankings_agree(a: Seq<usize>, b: Seq<usize>, keys: Seq<u32>, n: int, m: int)
    requires
        ranks(a, keys, n),
        ranks(b, keys, n),
        0 <= m <= n,
    ensures
        forall|i: int| 0 <= i < m ==> a[i] == b[i],
    decreases m,
{
    if m > 0 {
        lemma_rankings_agree(a, b, keys, n, m - 1);
        let x = a[m - 1];
        let y = b[m - 1];
        if x != y {
            lemma_ranks_all(b, keys, n, x as int);
            lemma_ranks_all(a, keys, n, y as int);
            let i = choose|i: int| 0 <= i < n && (#[trigger] b[i]) == x;
            let j = choose|j: int| 0 <= j < n && (#[trigger] a[j]) == y;
            if i < m - 1 {
                assert(a[i] == x);
                assert(comes_first(keys, a[i] as int, a[m - 1] as int));
            }
            if j < m - 1 {
                assert(b[j] == y);
                assert(comes_first(keys, b[j] as int, b[m - 1] as int));
            }
            assert(comes_first(keys, b[m - 1] as int, b[i] as int));
            assert(comes_first(keys, a[m - 1] as int, a[j] as int));
        }
    }
}

/// The hits of a ranking.
pub open spec fn hits_of(
    st: AppStateView,
    idxs: Seq<usize>,
    scores: Seq<u32>,
    order: Seq<usize>,
) -> Seq<SearchHitView> {
    order.map_values(
        |k: usize| hit_of(st.files[idxs[k as int] as int], scores[k as int]),
    )
}

/// A hit tells of a file its number, its name, the name of its course and its
/// category.
pub open spec fn names_file(hit: SearchHit, f: CanvasFile) -> bool {
    &&& hit.file_id == f.id
    &&& hit.filename@ == f.filename@
    &&& hit.course_name@ == f.course_name@
    &&& hit.category@ == f.category@
}

/// A hit tells of one of the files at the positions `idxs`, with its score.
pub open spec fn names_some_file(
    hit: SearchHit,
    files: Seq<CanvasFile>,
    idxs: Seq<usize>,
    scores: Seq<u32>,
) -> bool {
    exists|k: int|
        0 <= k < idxs.len() && names_file(hit, files[(#[trigger] idxs[k]) as int]) && hit.score
            == scores[k]
}

/// The best of the compared files: `idxs` are their positions, `scores[k]` is
/// how near the `k`-th is, and `keys[k]` the same as a number that grows with it.
pub fn best_hits(state: &AppState, idxs: &Vec<usize>, scores: &Vec<u32>, keys: &Vec<u32>) -> (r: Vec<
    SearchHit,
>)
    requires
        scores@.len() == idxs@.len(),
        keys@.len() == idxs@.len(),
        forall|k: int| 0 <= k < idxs@.len() ==> (#[trigger] idxs@[k]) < state@.files.len(),
    ensures
        exists|order: Seq<usize>| #[trigger]
            ranks(order, keys@, keys@.len() as int) && text::views(r@) == hits_of(
                state@,
                idxs@,
                scores@,
                if order.len() > MAX_HITS {
                    order.take(MAX_HITS as int)
                } else {
                    order
                },
            ),
        r@.len() == if idxs@.len() > 15 {
            15
        } else {
            idxs@.len()
        },
        forall|i: int|
            0 <= i < r@.len() ==> names_some_file(
                #[trigger] r@[i],
                state.files@,
                idxs@,
                scores@,
            ),
{
    let mut order = ranking(keys);
    let ghost all = order@;
    if order.len() > MAX_HITS {
        order.truncate(MAX_HITS);
        assert(order@ =~= all.take(MAX_HITS as int));
    }
    let ghost hits = hits_of(state@, idxs@, scores@, order@);
    let mut out: Vec<SearchHit> = Vec::new();
    let mut n: usize = 0;
    assert(text::views(out@) =~= hits.take(0));
    assert forall|k: int| 0 <= k < order@.len() implies (#[trigger] order@[k]) < keys@.len() by {
        assert(order@[k] == all[k]);
    }
    while n < order.len()
        invariant
            n <= order@.len(),
            scores@.len() == idxs@.len(),
            keys@.len() == idxs@.len(),
            forall|k: int| 0 <= k < idxs@.len() ==> (#[trigger] idxs@[k]) < state@.files.len(),
            forall|k: int| 0 <= k < order@.len() ==> (#[trigger] order@[k]) < keys@.len(),
            hits == hits_of(state@, idxs@, scores@, order@),
            text::views(out@) == hits.take(n as int),
            out@.len() == n,
            forall|i: int|
                0 <= i < n ==> names_some_file(
                    #[trigger] out@[i],
                    state.files@,
                    idxs@,
                    scores@,
                ),
        decreases order.len() - n,
    {
        let k: usize = order[n];
        assert(idxs@[k as int] < state@.files.len());
        let f = &state.files[idxs[k]];
        let hit = SearchHit {
            file_id: f.id,
            filename: f.filename.clone(),
            course_name: f.course_name.clone(),
            category: f.category.clone(),
            score: scores[k],
        };
        proof {
            assert(hit@ == hits[n as int]);
            text::lemma_views_push(out@, hit);
            assert(hits.take(n + 1) =~= hits.take(n as int).push(hit@));
        }
        assert(names_file(hit, state.files@[idxs@[k as int] as int]));
        assert(names_some_file(hit, state.files@, idxs@, scores@));
        out.push(hit);
        n += 1;
    }
    assert(hits.take(hits.len() as int) =~= hits);
    assert(ranks(all, keys@, keys@.len() as int));
    out
}

/// A ranking names every file once, nearer files before farther ones and files that
/// are equally near in their order; and no file behind the first `m` is nearer than
/// one of those.
pub proof fn lemma_nearest_first(order: Seq<usize>, keys: Seq<u32>, m: int)
    requires
        ranks(order, keys, keys.len() as int),
        0 <= m <= keys.len(),
    ensures
        order.len() == keys.len(),
        forall|k: usize| 0 <= k < keys.len() ==> #[trigger] order.contains(k),
        forall|i: int, j: int|
            0 <= i < j < order.len() ==> keys[(#[trigger] order[i]) as int] >= keys[(
            #[trigger] order[j]) as int] && (keys[order[i] as int] == keys[order[j] as int]
                ==> order[i] < order[j]),
        forall|i: int, j: int|
            0 <= i < m <= j < order.len() ==> keys[(#[trigger] order[i]) as int] >= keys[(
            #[trigger] order[j]) as int],
{
    let n = keys.len() as int;
    assert(order.no_duplicates()) by {
        assert forall|i: int, j: int|
            0 <= i < order.len() && 0 <= j < order.len() && i != j implies order[i] != order[j] by {
            if i < j {
                assert(comes_first(keys, order[i] as int, order[j] as int));
            } else {
                assert(comes_first(keys, order[j] as int, order[i] as int));
            }
        }
    }
    assert forall|i: int, j: int| 0 <= i < j < order.len() implies keys[(
    #[trigger] order[i]) as int] >= keys[(#[trigger] order[j]) as int] && (keys[order[i] as int]
        == keys[order[j] as int] ==> order[i] < order[j]) by {
        assert(comes_first(keys, order[i] as int, order[j] as int));
    }
    let ints = order.map_values(|k: usize| k as int);
    let all = vstd::set_lib::set_int_range(0, n);
    vstd::set_lib::lemma_int_range(0, n);
    assert(ints.no_duplicates());
    ints.unique_seq_to_set();
    assert(ints.to_set().subset_of(all)) by {
        assert forall|x: int| ints.to_set().contains(x) implies all.contains(x) by {
            let i = choose|i: int| 0 <= i < ints.len() && ints[i] == x;
            assert(order[i] < n);
        }
    }
    vstd::set_lib::lemma_subset_equality(ints.to_set(), all);
    assert forall|k: usize| 0 <= k < keys.len() implies #[trigger] order.contains(k) by {
        assert(all.contains(k as int));
        let i = choose|i: int| 0 <= i < ints.len() && ints[i] == k as int;
        assert(order[i] == k);
    }
}

/// Exactly the files that have an embedding are compared with a query, each once and
/// in their order.
pub proof fn lemma_indexed(files: Seq<CanvasFileView>)
    requires
        files.len() <= usize::MAX,
    ensures
        forall|i: int|
            0 <= i < files.len() ==> indexed(files).contains(i as usize) == ((
            #[trigger] files[i]).embedding.len() > 0),
        forall|k: int|
            0 <= k < indexed(files).len() ==> (#[trigger] indexed(files)[k]) < files.len(),
        forall|j: int, k: int|
            0 <= j < k < indexed(files).len() ==> (#[trigger] indexed(files)[j]) < (
            #[trigger] indexed(files)[k]),
{
    let flags = files.map_values(|f: CanvasFileView| f.embedding.len() > 0);
    queue::lemma_marked(flags, files.len() as int);
    assert forall|i: int| 0 <= i < files.len() implies indexed(files).contains(i as usize) == ((
    #[trigger] files[i]).embedding.len() > 0) by {
        assert(flags[i] == (files[i].embedding.len() > 0));
        if indexed(files).contains(i as usize) {
            let k = choose|k: int| 0 <= k < indexed(files).len() && indexed(files)[k] == i as usize;
            assert(flags[indexed(files)[k] as int]);
        }
    }
}

/// What is seen of a hit is what it holds, each thing as itself.
pub proof fn lemma_search_hit_seen(x: SearchHit)
    ensures
        x@.file_id == x.file_id,
        x@.filename == x.filename@,
        x@.course_name == x.course_name@,
        x@.category == x.category@,
        x@.score == x.score,
{
}

/// A hit names its file: by its number, its name, its course and its category, each in
/// its own place.
pub proof fn lemma_hit_names(f: CanvasFile, hit: SearchHit, score: u32)
    ensures
        hit@ == hit_of(f@, score) ==> names_file(hit, f) && hit.score == score,
{
}

/// The hits are those of the files in the order that was found, each with its own score.
pub proof fn lemma_hits_listed(
    st: AppStateView,
    idxs: Seq<usize>,
    scores: Seq<u32>,
    order: Seq<usize>,
    i: int,
)
    requires
        0 <= i < order.len(),
    ensures
        ({
            let hit = hits_of(st, idxs, scores, order)[i];
            let f = st.files[idxs[order[i] as int] as int];
            &&& hit.file_id == f.id
            &&& hit.filename == f.filename
            &&& hit.course_name == f.course_name
            &&& hit.category == f.category
            &&& hit.score == scores[order[i] as int]
        }),
        hits_of(st, idxs, scores, order).len() == order.len(),
{
}

} // verus!
