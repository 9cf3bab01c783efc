//! The order in which files are worked on: those of current courses first, those
//! of courses that are over last.

use vstd::prelude::*;
use std::collections::HashSet;
use crate::store::{CanvasFile, CanvasFileView};
use crate::text;

verus! {

/// The positions of the marks among the first `n`, in ascending order.
pub open spec fn marked(flags: Seq<bool>, n: int) -> Seq<usize>
    decreases n,
{
    if n <= 0 {
        seq![]
    } else if flags[n - 1] {
        marked(flags, n - 1).push((n - 1) as usize)
    } else {
        marked(flags, n - 1)
    }
}

/// The files that are wanted and belong to current courses.
pub open spec fn current_flags(
    files: Seq<CanvasFileView>,
    past: Set<u64>,
    want: spec_fn(CanvasFileView) -> bool,
) -> Seq<bool> {
    files.map_values(|f: CanvasFileView| want(f) && !past.contains(f.course_id))
}

/// The files that are wanted and belong to courses that are over.
pub open spec fn past_flags(
    files: Seq<CanvasFileView>,
    past: Set<u64>,
    want: spec_fn(CanvasFileView) -> bool,
) -> Seq<bool> {
    files.map_values(|f: CanvasFileView| want(f) && past.contains(f.course_id))
}

/// The positions of the files that are wanted: those of current courses, then
/// those of courses that are over, each in their order.
pub open spec fn queue_of(
    files: Seq<CanvasFileView>,
    past: Set<u64>,
    want: spec_fn(CanvasFileView) -> bool,
) -> Seq<usize> {
    marked(current_flags(files, past, want), files.len() as int) + marked(
        past_flags(files, past, want),
        files.len() as int,
    )
}

/// The positions of the files that are wanted, `wanted[i]` saying whether the
/// `i`-th is.
pub(crate) fn queue(
    files: &Vec<CanvasFile>,
    wanted: &Vec<bool>,
    past: &HashSet<u64>,
    want: Ghost<spec_fn(CanvasFileView) -> bool>,
) -> (r: Vec<usize>)
    requires
        wanted@.len() == files@.len(),
        forall|i: int| 0 <= i < files@.len() ==> #[trigger] wanted@[i] == want@(files@[i]@),
    ensures
        r@ == queue_of(text::views(files@), past@, want@),
{
    broadcast use vstd::std_specs::hash::group_hash_axioms;

    let ghost fs = text::views(files@);
    let ghost cur = current_flags(fs, past@, want@);
    let ghost old = past_flags(fs, past@, want@);
    let mut first: Vec<usize> = Vec::new();
    let mut last: Vec<usize> = Vec::new();
    let mut i: usize = 0;
    while i < files.len()
        invariant
            i <= files@.len(),
            wanted@.len() == files@.len(),
            fs == text::views(files@),
            cur == current_flags(fs, past@, want@),
            old == past_flags(fs, past@, want@),
            forall|j: int| 0 <= j < files@.len() ==> #[trigger] wanted@[j] == want@(files@[j]@),
            first@ == marked(cur, i as int),
            last@ == marked(old, i as int),
        decreases files.len() - i,
    {
        broadcast use vstd::std_specs::hash::group_hash_axioms;

        assert(fs[i as int] == files@[i as int]@);
        if wanted[i] {
            if past.contains(&files[i].course_id) {
                last.push(i);
            } else {
                first.push(i);
            }
        }
        i += 1;
    }
    first.append(&mut last);
    first
}

/// The marked positions are in range, marked, ascending and all that there are.
pub proof fn lemma_marked(flags: Seq<bool>, n: int)
    requires
        0 <= n <= flags.len(),
        flags.len() <= usize::MAX,
    ensures
        forall|k: int|
            0 <= k < marked(flags, n).len() ==> (#[trigger] marked(flags, n)[k]) < n && flags[marked(
                flags,
                n,
            )[k] as int],
        forall|j: int, k: int|
            0 <= j < k < marked(flags, n).len() ==> (#[trigger] marked(flags, n)[j]) < (
            #[trigger] marked(flags, n)[k]),
        forall|i: int|
            0 <= i < n && #[trigger] flags[i] ==> marked(flags, n).contains(i as usize),
    decreases n,
{
    if n > 0 {
        lemma_marked(flags, n - 1);
        let before = marked(flags, n - 1);
        let after = marked(flags, n);
        assert forall|i: int| 0 <= i < n && #[trigger] flags[i] implies after.contains(
            i as usize,
        ) by {
            if i < n - 1 {
                let k = choose|k: int| 0 <= k < before.len() && before[k] == i as usize;
                assert(after[k] == i as usize);
            } else {
                assert(after[after.len() - 1] == i as usize);
            }
        }
    }
}

/// The queue holds every wanted file once and no other, and no file of a course
/// that is over comes before one of a current course.
pub proof fn lemma_queue(
    files: Seq<CanvasFileView>,
    past: Set<u64>,
    want: spec_fn(CanvasFileView) -> bool,
)
    requires
        files.len() <= usize::MAX,
    ensures
        forall|k: int|
            0 <= k < queue_of(files, past, want).len() ==> (#[trigger] queue_of(
                files,
                past,
                want,
            )[k]) < files.len() && want(files[queue_of(files, past, want)[k] as int]),
        forall|i: int|
            0 <= i < files.len() && want(#[trigger] files[i]) ==> queue_of(
                files,
                past,
                want,
            ).contains(i as usize),
        queue_of(files, past, want).no_duplicates(),
        forall|j: int, k: int|
            0 <= j < k < queue_of(files, past, want).len() && past.contains(
                files[(#[trigger] queue_of(files, past, want)[j]) as int].course_id,
            ) ==> past.contains(
                files[(#[trigger] queue_of(files, past, want)[k]) as int].course_id,
            ),
{
    let cur = current_flags(files, past, want);
    let old = past_flags(files, past, want);
    let a = marked(cur, files.len() as int);
    let b = marked(old, files.len() as int);
    let q = queue_of(files, past, want);
    lemma_marked(cur, files.len() as int);
    lemma_marked(old, files.len() as int);
    assert(q == a + b);
    assert forall|k: int| 0 <= k < q.len() implies (#[trigger] q[k]) < files.len() && want(
        files[q[k] as int],
    ) && past.contains(files[q[k] as int].course_id) == (k >= a.len()) by {
        if k < a.len() {
            assert(q[k] == a[k]);
            assert(cur[a[k] as int]);
        } else {
            assert(q[k] == b[k - a.len()]);
            assert(old[b[k - a.len()] as int]);
        }
    }
    assert forall|i: int| 0 <= i < files.len() && want(#[trigger] files[i]) implies q.contains(
        i as usize,
    ) by {
        if past.contains(files[i].course_id) {
            assert(old[i]);
            let k = choose|k: int| 0 <= k < b.len() && b[k] == i as usize;
            assert(q[a.len() + k] == i as usize);
        } else {
            assert(cur[i]);
            let k = choose|k: int| 0 <= k < a.len() && a[k] == i as usize;
            assert(q[k] == i as usize);
        }
    }
    assert forall|j: int, k: int| 0 <= j < q.len() && 0 <= k < q.len() && j != k implies q[j]
        != q[k] by {
        if j < a.len() && k < a.len() {
            assert(q[j] == a[j] && q[k] == a[k]);
        } else if j >= a.len() && k >= a.len() {
            assert(q[j] == b[j - a.len()] && q[k] == b[k - a.len()]);
        } else {
            assert(past.contains(files[q[j] as int].course_id) == (j >= a.len()));
            assert(past.contains(files[q[k] as int].course_id) == (k >= a.len()));
        }
    }
}

/// Of two files in the queue whose courses are both over, or both not, the one that
/// stands first in the state comes first.
pub proof fn lemma_queue_order(
    files: Seq<CanvasFileView>,
    past: Set<u64>,
    want: spec_fn(CanvasFileView) -> bool,
)
    requires
        files.len() <= usize::MAX,
    ensures
        forall|j: int, k: int|
            0 <= j < k < queue_of(files, past, want).len() && past.contains(
                files[(#[trigger] queue_of(files, past, want)[j]) as int].course_id,
            ) == past.contains(
                files[(#[trigger] queue_of(files, past, want)[k]) as int].course_id,
            ) ==> queue_of(files, past, want)[j] < queue_of(files, past, want)[k],
{
    let n = files.len() as int;
    let now = marked(current_flags(files, past, want), n);
    let over = marked(past_flags(files, past, want), n);
    let q = queue_of(files, past, want);
    lemma_marked(current_flags(files, past, want), n);
    lemma_marked(past_flags(files, past, want), n);
    assert forall|j: int, k: int|
        0 <= j < k < q.len() && past.contains(files[(#[trigger] q[j]) as int].course_id)
            == past.contains(files[(#[trigger] q[k]) as int].course_id) implies q[j] < q[k] by {
        if k < now.len() {
            assert(q[j] == now[j] && q[k] == now[k]);
        } else if j >= now.len() {
            assert(q[j] == over[j - now.len()] && q[k] == over[k - now.len()]);
        } else {
            assert(q[j] == now[j] && q[k] == over[k - now.len()]);
            assert(current_flags(files, past, want)[now[j] as int]);
            assert(past_flags(files, past, want)[over[k - now.len()] as int]);
        }
    }
}

} // verus!
