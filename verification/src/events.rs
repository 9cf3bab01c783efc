//! Changes to the state that come one at a time: events, notices that were
//! sent, and what the user sets by hand.

use vstd::prelude::*;
use vstd::string::*;
use crate::store::{
    AppState, AppStateView, AssignmentView, CalEvent, CalEventView, CanvasFile, CanvasFileView,
};
use crate::text;

verus! {

// ---------------------------------------------------------------------------
// Events
// ---------------------------------------------------------------------------

/// The position of the first event with this id, from `i` on.
pub open spec fn event_from(evs: Seq<CalEventView>, id: Seq<char>, i: int) -> Option<int>
    decreases evs.len() - i,
{
    if i < 0 || i >= evs.len() {
        None
    } else if evs[i].id == id {
        Some(i)
    } else {
        event_from(evs, id, i + 1)
    }
}

/// The events with `ev` among them: an event with its id takes its title, date
/// and course; where there is none, `ev` comes last.
pub open spec fn upserted(evs: Seq<CalEventView>, ev: CalEventView) -> Seq<CalEventView> {
    match event_from(evs, ev.id, 0) {
        Some(i) => evs.update(
            i,
            CalEventView { title: ev.title, date: ev.date, course_name: ev.course_name, ..evs[i] },
        ),
        None => evs.push(ev),
    }
}

/// Where the search from `i` on stops.
pub proof fn lemma_event_from(evs: Seq<CalEventView>, id: Seq<char>, i: int)
    requires
        0 <= i <= evs.len(),
    ensures
        match event_from(evs, id, i) {
            Some(k) => i <= k < evs.len() && evs[k].id == id && forall|j: int|
                i <= j < k ==> (#[trigger] evs[j]).id != id,
            None => forall|j: int| i <= j < evs.len() ==> (#[trigger] evs[j]).id != id,
        },
    decreases evs.len() - i,
{
    if i < evs.len() && evs[i].id != id {
        lemma_event_from(evs, id, i + 1);
    }
}

/// Puts `ev` among the events: an event with its id takes its title, date and
/// course; where there is none, `ev` comes last.
pub fn upsert_event(evs: &mut Vec<CalEvent>, ev: CalEvent)
    ensures
        text::views(final(evs)@) == upserted(text::views(old(evs)@), ev@),
{
    let ghost before = text::views(evs@);
    let mut i: usize = 0;
    while i < evs.len()
        invariant
            i <= evs@.len(),
            before == text::views(evs@),
            before == text::views(old(evs)@),
            event_from(before, ev@.id, 0) == event_from(before, ev@.id, i as int),
        decreases evs.len() - i,
    {
        assert(before[i as int] == evs@[i as int]@);
        if text::same(evs[i].id.as_str(), ev.id.as_str()) {
            evs[i].title = ev.title;
            evs[i].date = ev.date;
            evs[i].course_name = ev.course_name;
            assert(text::views(evs@) =~= upserted(before, ev@));
            return;
        }
        i += 1;
    }
    evs.push(ev);
    assert(text::views(evs@) =~= before.push(ev@));
}

/// The event of a date found in a file.
pub open spec fn detected_event(
    f: CanvasFileView,
    date: Seq<char>,
    title: Seq<char>,
) -> CalEventView {
    CalEventView {
        id: "det-"@ + text::decimal(f.id as nat),
        title: if title.len() == 0 {
            f.category + " · "@ + f.filename
        } else {
            title
        },
        date,
        course_name: f.course_name,
        source: "detected"@,
    }
}

/// Puts the date found in a file among the events.
pub fn upsert_detected_event(state: &mut AppState, file_idx: usize, date: &str, title_opt: &str)
    requires
        file_idx < old(state)@.files.len(),
    ensures
        final(state)@ == (AppStateView {
            events: upserted(
                old(state)@.events,
                detected_event(old(state)@.files[file_idx as int], date@, title_opt@),
            ),
            ..old(state)@
        }),
{
    let f = &state.files[file_idx];
    let id = text::concat("det-", text::number(f.id).as_str());
    let title = if title_opt.is_empty() {
        let mut t = f.category.clone();
        t.append(" · ");
        t.append(f.filename.as_str());
        t
    } else {
        title_opt.to_owned()
    };
    let ev = CalEvent {
        id,
        title,
        date: date.to_owned(),
        course_name: f.course_name.clone(),
        source: "detected".to_owned(),
    };
    assert(ev@ == detected_event(state@.files[file_idx as int], date@, title_opt@));
    upsert_event(&mut state.events, ev);
}

/// The event of the `n`-th date found in an announcement.
pub open spec fn announced_event(
    ann_id: u64,
    n: int,
    date: Seq<char>,
    title: Seq<char>,
    course: Seq<char>,
    ann_title: Seq<char>,
) -> CalEventView {
    CalEventView {
        id: "ann-"@ + text::decimal(ann_id as nat) + "-"@ + text::decimal(n as nat),
        title: if title.len() == 0 {
            ann_title
        } else {
            title
        },
        date,
        course_name: course,
        source: "announcement"@,
    }
}

/// Puts the `n`-th date found in an announcement among the events.
pub fn upsert_announcement_event(
    state: &mut AppState,
    ann_id: u64,
    n: usize,
    date: &str,
    title_opt: &str,
    course: &str,
    ann_title: &str,
)
    ensures
        final(state)@ == (AppStateView {
            events: upserted(
                old(state)@.events,
                announced_event(ann_id, n as int, date@, title_opt@, course@, ann_title@),
            ),
            ..old(state)@
        }),
{
    let mut id = "ann-".to_owned();
    id.append(text::number(ann_id).as_str());
    id.append("-");
    id.append(text::number(n as u64).as_str());
    let title = if title_opt.is_empty() {
        ann_title.to_owned()
    } else {
        title_opt.to_owned()
    };
    let ev = CalEvent {
        id,
        title,
        date: date.to_owned(),
        course_name: course.to_owned(),
        source: "announcement".to_owned(),
    };
    assert(ev@ == announced_event(ann_id, n as int, date@, title_opt@, course@, ann_title@));
    upsert_event(&mut state.events, ev);
}

/// The id of the event with the number `n` among those that the user enters.
pub open spec fn manual_id(n: int) -> Seq<char> {
    "man-"@ + text::decimal(n as nat)
}

/// Some event has this id.
pub open spec fn has_id(evs: Seq<CalEventView>, id: Seq<char>) -> bool {
    exists|i: int| 0 <= i < evs.len() && (#[trigger] evs[i]).id == id
}

/// The largest number up to `n` that no event has for its id.
pub open spec fn free_number(evs: Seq<CalEventView>, n: int) -> int
    decreases n,
{
    if n <= 0 || !has_id(evs, manual_id(n)) {
        n
    } else {
        free_number(evs, n - 1)
    }
}

/// The event that the user enters next to `evs`; without an id it gets that of a
/// number which no event has.
pub open spec fn entered_event(
    evs: Seq<CalEventView>,
    title: Seq<char>,
    date: Seq<char>,
    course_name: Seq<char>,
    id: Seq<char>,
) -> CalEventView {
    CalEventView {
        id: if text::blank(id) {
            manual_id(free_number(evs, (evs.len() + 1) as int))
        } else {
            id
        },
        title,
        date,
        course_name,
        source: "manual"@,
    }
}

/// No two events have the same id.
pub open spec fn ids_apart(evs: Seq<CalEventView>) -> bool {
    forall|i: int, j: int|
        0 <= i < j < evs.len() ==> (#[trigger] evs[i]).id != (#[trigger] evs[j]).id
}

/// Fewer events than numbers leave a number free.
proof fn lemma_some_number_free(evs: Seq<CalEventView>, n: int)
    requires
        n > evs.len(),
    ensures
        exists|k: int| 1 <= k <= n && !has_id(evs, #[trigger] manual_id(k)),
{
    if forall|k: int| 1 <= k <= n ==> has_id(evs, #[trigger] manual_id(k)) {
        let wanted = Seq::new(n as nat, |k: int| manual_id(k + 1));
        let ids = evs.map_values(|e: CalEventView| e.id);
        assert forall|j: int, k: int| 0 <= j < wanted.len() && 0 <= k < wanted.len() && j != k implies
            wanted[j] != wanted[k] by {
            if wanted[j] == wanted[k] {
                assert(wanted[j].skip("man-"@.len() as int) =~= text::decimal((j + 1) as nat));
                assert(wanted[k].skip("man-"@.len() as int) =~= text::decimal((k + 1) as nat));
                text::lemma_decimal_injective((j + 1) as nat, (k + 1) as nat);
            }
        }
        wanted.unique_seq_to_set();
        ids.lemma_cardinality_of_set();
        assert(wanted.to_set().subset_of(ids.to_set())) by {
            assert forall|id: Seq<char>| wanted.to_set().contains(id) implies ids.to_set().contains(
                id,
            ) by {
                let k = choose|k: int| 0 <= k < wanted.len() && wanted[k] == id;
                assert(has_id(evs, manual_id(k + 1)));
                let i = choose|i: int| 0 <= i < evs.len() && (#[trigger] evs[i]).id == id;
                assert(ids[i] == id);
            }
        }
        vstd::set_lib::lemma_len_subset(wanted.to_set(), ids.to_set());
    }
}

/// A number is free where the search for one ends, if one up to `n` is.
proof fn lemma_free_number(evs: Seq<CalEventView>, n: int, k: int)
    requires
        1 <= k <= n,
        !has_id(evs, manual_id(k)),
    ensures
        k <= free_number(evs, n) <= n,
        !has_id(evs, manual_id(free_number(evs, n))),
    decreases n,
{
    if has_id(evs, manual_id(n)) {
        lemma_free_number(evs, n - 1, k);
    }
}

/// An event that the user enters without an id is added: it comes last, the events
/// before it stay as they were, and its id is that of no other.
pub proof fn lemma_entered_is_added(
    evs: Seq<CalEventView>,
    title: Seq<char>,
    date: Seq<char>,
    course_name: Seq<char>,
    id: Seq<char>,
)
    requires
        text::blank(id),
    ensures
        ({
            let ev = entered_event(evs, title, date, course_name, id);
            &&& 1 <= free_number(evs, (evs.len() + 1) as int) <= evs.len() + 1
            &&& !has_id(evs, ev.id)
            &&& upserted(evs, ev) == evs.push(ev)
            &&& ids_apart(evs) ==> ids_apart(upserted(evs, ev))
        }),
{
    let n = (evs.len() + 1) as int;
    lemma_some_number_free(evs, n);
    let k = choose|k: int| 1 <= k <= n && !has_id(evs, #[trigger] manual_id(k));
    lemma_free_number(evs, n, k);
    let ev = entered_event(evs, title, date, course_name, id);
    lemma_event_from(evs, ev.id, 0);
}

/// Whether some event has this id.
fn id_is_taken(evs: &Vec<CalEvent>, id: &str) -> (r: bool)
    ensures
        r == has_id(text::views(evs@), id@),
{
    let ghost all = text::views(evs@);
    let mut i: usize = 0;
    while i < evs.len()
        invariant
            i <= evs@.len(),
            all == text::views(evs@),
            forall|j: int| 0 <= j < i ==> (#[trigger] all[j]).id != id@,
        decreases evs.len() - i,
    {
        assert(all[i as int] == evs@[i as int]@);
        if text::same(evs[i].id.as_str(), id) {
            return true;
        }
        i += 1;
    }
    false
}

/// The id of a number that no event has.
fn free_id(evs: &Vec<CalEvent>) -> (r: String)
    requires
        evs@.len() < usize::MAX,
    ensures
        r@ == manual_id(free_number(text::views(evs@), (evs@.len() + 1) as int)),
{
    let ghost all = text::views(evs@);
    let mut n: usize = evs.len() + 1;
    let mut id = text::concat("man-", text::number(n as u64).as_str());
    while n > 0 && id_is_taken(evs, id.as_str())
        invariant
            all == text::views(evs@),
            id@ == manual_id(n as int),
            free_number(all, n as int) == free_number(all, (evs@.len() + 1) as int),
        decreases n,
    {
        n -= 1;
        id = text::concat("man-", text::number(n as u64).as_str());
    }
    id
}

/// Puts an event that the user enters among those entered before. Without an id it
/// is a new event and comes last; with one it takes the place of the event that
/// has it.
pub fn add_event(
    evs: &mut Vec<CalEvent>,
    title: String,
    date: String,
    course_name: String,
    id: String,
)
    requires
        old(evs)@.len() < usize::MAX,
    ensures
        text::views(final(evs)@) == upserted(
            text::views(old(evs)@),
            entered_event(text::views(old(evs)@), title@, date@, course_name@, id@),
        ),
        text::blank(id@) ==> {
            &&& text::views(old(evs)@).is_prefix_of(text::views(final(evs)@))
            &&& final(evs)@.len() == old(evs)@.len() + 1
            &&& !has_id(text::views(old(evs)@), final(evs)@.last()@.id)
            &&& ids_apart(text::views(old(evs)@)) ==> ids_apart(text::views(final(evs)@))
        },
{
    let ghost before = text::views(evs@);
    proof {
        if text::blank(id@) {
            lemma_entered_is_added(before, title@, date@, course_name@, id@);
        }
    }
    let id = if text::is_blank(id.as_str()) {
        free_id(evs)
    } else {
        id
    };
    let ev = CalEvent { id, title, date, course_name, source: "manual".to_owned() };
    upsert_event(evs, ev);
    assert(text::views(evs@).len() == evs@.len());
    assert(evs@.len() > 0 ==> evs@.last()@ == text::views(evs@).last());
}

/// The events without those of this id.
pub open spec fn deleted(evs: Seq<CalEventView>, id: Seq<char>) -> Seq<CalEventView> {
    evs.filter(|e: CalEventView| e.id != id)
}

/// Takes the events with this id out; says whether there were any.
pub fn delete_event(evs: &mut Vec<CalEvent>, id: &str) -> (changed: bool)
    ensures
        text::views(final(evs)@) == deleted(text::views(old(evs)@), id@),
        changed == (exists|i: int|
            0 <= i < old(evs)@.len() && (#[trigger] old(evs)@[i])@.id == id@),
{
    let mut out: Vec<CalEvent> = Vec::new();
    let mut changed = false;
    let ghost all = text::views(evs@);
    let ghost keep = |e: CalEventView| e.id != id@;
    let mut i: usize = 0;
    proof {
        reveal(Seq::filter);
        assert(text::views(out@) =~= all.take(0).filter(keep));
    }
    while i < evs.len()
        invariant
            i <= evs@.len(),
            evs@ == old(evs)@,
            all == text::views(evs@),
            keep == (|e: CalEventView| e.id != id@),
            text::views(out@) == all.take(i as int).filter(keep),
            changed == (exists|j: int| 0 <= j < i && (#[trigger] old(evs)@[j])@.id == id@),
        decreases evs.len() - i,
    {
        proof {
            reveal(Seq::filter);
            assert(all.take(i + 1).drop_last() =~= all.take(i as int));
            assert(all.take(i + 1).last() == evs@[i as int]@);
        }
        if text::same(evs[i].id.as_str(), id) {
            assert(old(evs)@[i as int]@.id == id@);
            changed = true;
        } else {
            let e = evs[i].clone();
            proof {
                text::lemma_views_push(out@, e);
            }
            out.push(e);
        }
        i += 1;
    }
    assert(all.take(all.len() as int) =~= all);
    *evs = out;
    changed
}

/// The events to show: those of the state that the user did not enter, then those
/// that the user entered.
pub open spec fn events_to_show(
    evs: Seq<CalEventView>,
    manual: Seq<CalEventView>,
) -> Seq<CalEventView> {
    evs.filter(|e: CalEventView| e.source != "manual"@) + manual
}

/// Puts the events that the user entered in the place of those that the state
/// holds of them.
pub fn show_user_events(state: &mut AppState, manual: &Vec<CalEvent>)
    ensures
        final(state)@ == (AppStateView {
            events: events_to_show(old(state)@.events, text::views(manual@)),
            ..old(state)@
        }),
{
    let mut out: Vec<CalEvent> = Vec::new();
    let ghost all = state@.events;
    let ghost keep = |e: CalEventView| e.source != "manual"@;
    let mut i: usize = 0;
    proof {
        reveal(Seq::filter);
        assert(text::views(out@) =~= all.take(0).filter(keep));
    }
    while i < state.events.len()
        invariant
            i <= state.events@.len(),
            *state == *old(state),
            all == text::views(state.events@),
            keep == (|e: CalEventView| e.source != "manual"@),
            text::views(out@) == all.take(i as int).filter(keep),
        decreases state.events.len() - i,
    {
        let e = &state.events[i];
        proof {
            reveal(Seq::filter);
            assert(all.take(i + 1).drop_last() =~= all.take(i as int));
            assert(all.take(i + 1).last() == e@);
        }
        if !text::same(e.source.as_str(), "manual") {
            let e = e.clone();
            proof {
                text::lemma_views_push(out@, e);
            }
            out.push(e);
        }
        i += 1;
    }
    assert(all.take(all.len() as int) =~= all);
    let ghost own = text::views(out@);
    let ghost ms = text::views(manual@);
    let mut k: usize = 0;
    assert(text::views(out@) =~= own + ms.take(0));
    while k < manual.len()
        invariant
            k <= manual@.len(),
            ms == text::views(manual@),
            text::views(out@) == own + ms.take(k as int),
        decreases manual.len() - k,
    {
        let e = manual[k].clone();
        proof {
            text::lemma_views_push(out@, e);
            assert(ms.take(k + 1) =~= ms.take(k as int).push(e@));
            assert(own + ms.take(k + 1) =~= (own + ms.take(k as int)).push(e@));
        }
        out.push(e);
        k += 1;
    }
    assert(ms.take(ms.len() as int) =~= ms);
    state.events = out;
}

/// Putting an event in a second time changes nothing.
pub proof fn lemma_upsert_twice(evs: Seq<CalEventView>, ev: CalEventView)
    ensures
        upserted(upserted(evs, ev), ev) == upserted(evs, ev),
{
    lemma_event_from(evs, ev.id, 0);
    let once = upserted(evs, ev);
    lemma_event_from(once, ev.id, 0);
    match event_from(evs, ev.id, 0) {
        Some(i) => {
            assert(once[i].id == ev.id);
            let k = event_from(once, ev.id, 0)->0;
            if k < i {
                assert(once[k] == evs[k]);
            }
            assert(k == i);
        },
        None => {
            assert(once[evs.len() as int] == ev);
            let k = event_from(once, ev.id, 0)->0;
            if k < evs.len() {
                assert(once[k] == evs[k]);
            }
        },
    }
    assert(upserted(once, ev) =~= once);
}

/// Putting an event in leaves every event with another id as it was and in its
/// place, and keeps ids apart where they were apart.
pub proof fn lemma_upsert_others(evs: Seq<CalEventView>, ev: CalEventView)
    ensures
        evs.len() <= upserted(evs, ev).len(),
        forall|i: int|
            0 <= i < evs.len() && (#[trigger] evs[i]).id != ev.id ==> upserted(evs, ev)[i]
                == evs[i],
        (forall|i: int, j: int|
            0 <= i < j < evs.len() ==> (#[trigger] evs[i]).id != (#[trigger] evs[j]).id) ==> forall|
            i: int,
            j: int,
        |
            0 <= i < j < upserted(evs, ev).len() ==> (#[trigger] upserted(evs, ev)[i]).id != (
            #[trigger] upserted(evs, ev)[j]).id,
{
    lemma_event_from(evs, ev.id, 0);
    let out = upserted(evs, ev);
    assert forall|i: int| 0 <= i < evs.len() implies (#[trigger] out[i]).id == evs[i].id by {}
}

/// No event with a deleted id is left, and deleting an event that was just put in
/// leaves what deleting it before would have left.
pub proof fn lemma_delete(evs: Seq<CalEventView>, ev: CalEventView)
    ensures
        forall|i: int|
            0 <= i < deleted(evs, ev.id).len() ==> (#[trigger] deleted(evs, ev.id)[i]).id != ev.id,
        deleted(upserted(evs, ev), ev.id) == deleted(evs, ev.id),
{
    let keep = |e: CalEventView| e.id != ev.id;
    lemma_filtered(evs, keep);
    lemma_event_from(evs, ev.id, 0);
    match event_from(evs, ev.id, 0) {
        Some(k) => {
            let new = upserted(evs, ev)[k];
            lemma_filter_ignores(evs, k, new, keep);
        },
        None => {
            reveal(Seq::filter);
            assert(evs.push(ev).drop_last() =~= evs);
        },
    }
}

/// What a filter leaves passes the filter.
proof fn lemma_filtered(evs: Seq<CalEventView>, keep: spec_fn(CalEventView) -> bool)
    ensures
        forall|i: int| 0 <= i < evs.filter(keep).len() ==> keep(#[trigger] evs.filter(keep)[i]),
    decreases evs.len(),
{
    reveal(Seq::filter);
    if evs.len() > 0 {
        lemma_filtered(evs.drop_last(), keep);
    }
}

/// A filter does not see the change of an event that it drops before and after.
proof fn lemma_filter_ignores(
    evs: Seq<CalEventView>,
    k: int,
    new: CalEventView,
    keep: spec_fn(CalEventView) -> bool,
)
    requires
        0 <= k < evs.len(),
        !keep(evs[k]),
        !keep(new),
    ensures
        evs.update(k, new).filter(keep) == evs.filter(keep),
    decreases evs.len(),
{
    reveal(Seq::filter);
    let up = evs.update(k, new);
    if k == evs.len() - 1 {
        assert(up.drop_last() =~= evs.drop_last());
    } else {
        assert(up.drop_last() =~= evs.drop_last().update(k, new));
        lemma_filter_ignores(evs.drop_last(), k, new, keep);
    }
}

/// The dates of different files are different events: what is found in one file
/// never overwrites what was found in another.
pub proof fn lemma_detected_apart(
    f: CanvasFileView,
    g: CanvasFileView,
    date: Seq<char>,
    title: Seq<char>,
    other_date: Seq<char>,
    other_title: Seq<char>,
)
    requires
        f.id != g.id,
    ensures
        detected_event(f, date, title).id != detected_event(g, other_date, other_title).id,
{
    let a = text::decimal(f.id as nat);
    let b = text::decimal(g.id as nat);
    if "det-"@ + a == "det-"@ + b {
        assert(("det-"@ + a).skip("det-"@.len() as int) =~= a);
        assert(("det-"@ + b).skip("det-"@.len() as int) =~= b);
        text::lemma_decimal_injective(f.id as nat, g.id as nat);
    }
}

/// The text of `a` and `n` with a dash between them tells both.
proof fn lemma_dashed(a: nat, n: nat, b: nat, m: nat)
    requires
        text::decimal(a) + "-"@ + text::decimal(n) == text::decimal(b) + "-"@ + text::decimal(m),
    ensures
        a == b,
        n == m,
{
    reveal_strlit("-");
    text::lemma_decimal(a);
    text::lemma_decimal(b);
    let x = text::decimal(a);
    let y = text::decimal(b);
    let s = x + "-"@ + text::decimal(n);
    let t = y + "-"@ + text::decimal(m);
    assert(s[x.len() as int] == '-');
    assert(t[y.len() as int] == '-');
    if x.len() < y.len() {
        assert(t[x.len() as int] == y[x.len() as int]);
        assert(text::is_digit(y[x.len() as int]));
    }
    if y.len() < x.len() {
        assert(s[y.len() as int] == x[y.len() as int]);
        assert(text::is_digit(x[y.len() as int]));
    }
    assert(x =~= s.take(x.len() as int));
    assert(y =~= t.take(y.len() as int));
    text::lemma_decimal_injective(a, b);
    assert(text::decimal(n) =~= s.skip((x.len() + 1) as int));
    assert(text::decimal(m) =~= t.skip((y.len() + 1) as int));
    text::lemma_decimal_injective(n, m);
}

/// The dates of an announcement are different events, also from those of any
/// other announcement and from those of files.
pub proof fn lemma_announced_apart(
    ann_id: u64,
    n: nat,
    other_id: u64,
    m: nat,
    f: CanvasFileView,
    date: Seq<char>,
    title: Seq<char>,
    course: Seq<char>,
    ann_title: Seq<char>,
)
    requires
        ann_id != other_id || n != m,
    ensures
        announced_event(ann_id, n as int, date, title, course, ann_title).id
            != announced_event(other_id, m as int, date, title, course, ann_title).id,
        announced_event(ann_id, n as int, date, title, course, ann_title).id
            != detected_event(f, date, title).id,
{
    reveal_strlit("ann-");
    reveal_strlit("det-");
    let a = text::decimal(ann_id as nat) + "-"@ + text::decimal(n);
    let b = text::decimal(other_id as nat) + "-"@ + text::decimal(m);
    let x = announced_event(ann_id, n as int, date, title, course, ann_title).id;
    let y = announced_event(other_id, m as int, date, title, course, ann_title).id;
    assert(x =~= "ann-"@ + a);
    assert(y =~= "ann-"@ + b);
    if x == y {
        assert(x.skip(4) =~= a);
        assert(y.skip(4) =~= b);
        lemma_dashed(ann_id as nat, n, other_id as nat, m);
    }
    assert(x[0] == 'a');
    assert(detected_event(f, date, title).id[0] == 'd');
}

// ---------------------------------------------------------------------------
// Notices
// ---------------------------------------------------------------------------

/// How many notices are remembered.
pub const NOTICES_KEPT: usize = 2000;

/// The notices that were sent, with `key` among them; of more than are
/// remembered, the oldest are forgotten.
pub open spec fn noted(keys: Seq<Seq<char>>, key: Seq<char>) -> Seq<Seq<char>> {
    if keys.contains(key) {
        keys
    } else {
        let all = keys.push(key);
        if all.len() > NOTICES_KEPT {
            all.skip(all.len() - NOTICES_KEPT)
        } else {
            all
        }
    }
}

/// Remembers that a notice was sent; says whether that is new.
pub fn mark_notified(state: &mut AppState, key: String) -> (changed: bool)
    ensures
        final(state)@ == (AppStateView {
            notified: noted(old(state)@.notified, key@),
            ..old(state)@
        }),
        changed == !old(state)@.notified.contains(key@),
{
    let ghost keys = state@.notified;
    let mut i: usize = 0;
    while i < state.notified.len()
        invariant
            i <= state.notified@.len(),
            *state == *old(state),
            keys == text::views(state.notified@),
            keys == old(state)@.notified,
            forall|j: int| 0 <= j < i ==> #[trigger] keys[j] != key@,
        decreases state.notified.len() - i,
    {
        assert(keys[i as int] == state.notified@[i as int]@);
        if text::same(state.notified[i].as_str(), key.as_str()) {
            assert(keys.contains(key@));
            return false;
        }
        i += 1;
    }
    assert(!keys.contains(key@));
    proof {
        text::lemma_views_push(state.notified@, key);
    }
    state.notified.push(key);
    let n: usize = state.notified.len();
    if n > NOTICES_KEPT {
        let extra: usize = n - NOTICES_KEPT;
        let ghost all = state.notified@;
        let rest = state.notified.split_off(extra);
        assert(text::views(rest@) =~= text::views(all).skip(extra as int));
        state.notified = rest;
    }
    true
}

/// A notice that was marked is remembered, marking it again changes nothing,
/// and the memory neither outgrows its size nor holds a notice twice.
pub proof fn lemma_noted(keys: Seq<Seq<char>>, key: Seq<char>)
    ensures
        noted(keys, key).contains(key),
        noted(noted(keys, key), key) == noted(keys, key),
        keys.len() <= NOTICES_KEPT ==> noted(keys, key).len() <= NOTICES_KEPT,
        keys.no_duplicates() ==> noted(keys, key).no_duplicates(),
{
    let all = keys.push(key);
    let out = noted(keys, key);
    if !keys.contains(key) {
        assert(out.last() == key);
        assert(out[out.len() - 1] == key);
        if keys.no_duplicates() {
            assert forall|i: int, j: int| 0 <= i < all.len() && 0 <= j < all.len() && i != j implies
            all[i] != all[j] by {
                if i == keys.len() {
                    assert(keys.contains(keys[j]));
                }
                if j == keys.len() {
                    assert(keys.contains(keys[i]));
                }
            }
        }
    }
}

// ---------------------------------------------------------------------------
// What the user sets by hand
// ---------------------------------------------------------------------------

/// The position of the first file with this number, from `i` on.
pub open spec fn file_from(files: Seq<CanvasFileView>, id: u64, i: int) -> Option<int>
    decreases files.len() - i,
{
    if i < 0 || i >= files.len() {
        None
    } else if files[i].id == id {
        Some(i)
    } else {
        file_from(files, id, i + 1)
    }
}

/// The position of the first file with this number.
pub fn find_file(files: &Vec<CanvasFile>, id: u64) -> (r: Option<usize>)
    ensures
        match r {
            Some(i) => i < files@.len() && file_from(text::views(files@), id, 0) == Some(i as int),
            None => file_from(text::views(files@), id, 0) is None,
        },
{
    let ghost fs = text::views(files@);
    let mut i: usize = 0;
    while i < files.len()
        invariant
            i <= files@.len(),
            fs == text::views(files@),
            file_from(fs, id, 0) == file_from(fs, id, i as int),
        decreases files.len() - i,
    {
        assert(fs[i as int] == files@[i as int]@);
        if files[i].id == id {
            return Some(i);
        }
        i += 1;
    }
    None
}

/// A file after the user set its category: a category fixes the file against
/// classification, none frees it again.
pub open spec fn categorized(f: CanvasFileView, category: Seq<char>) -> CanvasFileView {
    if text::blank(category) {
        CanvasFileView { category_manual: false, ..f }
    } else {
        CanvasFileView { category, category_manual: true, content_done: true, ..f }
    }
}

/// Sets the category of a file by hand.
pub fn set_file_category(state: &mut AppState, file_id: u64, category: String) -> (r: Result<
    (),
    String,
>)
    ensures
        match file_from(old(state)@.files, file_id, 0) {
            Some(i) => r is Ok && final(state)@ == (AppStateView {
                files: old(state)@.files.update(
                    i,
                    categorized(old(state)@.files[i], category@),
                ),
                ..old(state)@
            }),
            None => r is Err && r->Err_0@ == "Archivo no encontrado"@ && *final(state) == *old(state),
        },
{
    match find_file(&state.files, file_id) {
        Some(i) => {
            let ghost before = state@.files;
            if text::is_blank(category.as_str()) {
                state.files[i].category_manual = false;
            } else {
                state.files[i].category = category;
                state.files[i].category_manual = true;
                state.files[i].content_done = true;
            }
            assert(state@.files =~= before.update(
                i as int,
                categorized(before[i as int], category@),
            ));
            Ok(())
        },
        None => Err("Archivo no encontrado".to_owned()),
    }
}

/// The position of the first assignment with this number, from `i` on.
pub open spec fn assignment_from(assignments: Seq<AssignmentView>, id: u64, i: int) -> Option<int>
    decreases assignments.len() - i,
{
    if i < 0 || i >= assignments.len() {
        None
    } else if assignments[i].id == id {
        Some(i)
    } else {
        assignment_from(assignments, id, i + 1)
    }
}

/// What the user can say of an assignment: that it is done, or dismissed.
pub open spec fn status_set(status: Seq<char>) -> Seq<char> {
    if status == "done"@ || status == "dismissed"@ {
        status
    } else {
        ""@
    }
}

/// Sets by hand what the user says of an assignment; anything but "done" and
/// "dismissed" takes back what was said.
pub fn set_assignment_status(state: &mut AppState, assignment_id: u64, status: String) -> (r: Result<
    (),
    String,
>)
    ensures
        match assignment_from(old(state)@.assignments, assignment_id, 0) {
            Some(i) => r is Ok && final(state)@ == (AppStateView {
                assignments: old(state)@.assignments.update(
                    i,
                    AssignmentView {
                        user_status: status_set(status@),
                        ..old(state)@.assignments[i]
                    },
                ),
                ..old(state)@
            }),
            None => r is Err && r->Err_0@ == "Tarea no encontrada"@ && *final(state) == *old(state),
        },
{
    let ghost all = state@.assignments;
    let mut i: usize = 0;
    while i < state.assignments.len()
        invariant
            i <= state.assignments@.len(),
            *state == *old(state),
            all == text::views(state.assignments@),
            all == old(state)@.assignments,
            assignment_from(all, assignment_id, 0) == assignment_from(all, assignment_id, i as int),
        decreases state.assignments.len() - i,
    {
        assert(all[i as int] == state.assignments@[i as int]@);
        if state.assignments[i].id == assignment_id {
            let known = text::same(status.as_str(), "done") || text::same(
                status.as_str(),
                "dismissed",
            );
            state.assignments[i].user_status = if known {
                status
            } else {
                "".to_owned()
            };
            assert(state@.assignments =~= all.update(
                i as int,
                AssignmentView { user_status: status_set(status@), ..all[i as int] },
            ));
            return Ok(());
        }
        i += 1;
    }
    Err("Tarea no encontrada".to_owned())
}

// ---------------------------------------------------------------------------
// What the events say
// ---------------------------------------------------------------------------

/// Whatever was there, after an event was put in, an event under its id has its title,
/// its date and its course; a new one comes last, with its own source.
pub proof fn lemma_upsert_says(evs: Seq<CalEventView>, ev: CalEventView)
    ensures
        exists|i: int|
            0 <= i < upserted(evs, ev).len() && (#[trigger] upserted(evs, ev)[i]).id == ev.id
                && upserted(evs, ev)[i].title == ev.title && upserted(evs, ev)[i].date == ev.date
                && upserted(evs, ev)[i].course_name == ev.course_name,
        has_id(evs, ev.id) ==> upserted(evs, ev).len() == evs.len(),
        !has_id(evs, ev.id) ==> upserted(evs, ev) == evs + seq![ev],
        forall|i: int|
            0 <= i < evs.len() ==> (#[trigger] upserted(evs, ev)[i]).id == evs[i].id
                && upserted(evs, ev)[i].source == evs[i].source,
{
    lemma_event_from(evs, ev.id, 0);
    let after = upserted(evs, ev);
    match event_from(evs, ev.id, 0) {
        Some(k) => {
            assert(after[k].title == ev.title);
            assert(evs[k].id == ev.id);
        },
        None => {
            assert(after[evs.len() as int] == ev);
            assert(after =~= evs + seq![ev]);
        },
    }
}

/// A date found in a file is an event of the file's course under the file's number: with
/// the title that was found, or with the file's category and name.
pub proof fn lemma_detected_says(f: CanvasFileView, date: Seq<char>, title: Seq<char>)
    ensures
        ({
            let ev = detected_event(f, date, title);
            &&& ev.id == "det-"@ + text::decimal(f.id as nat)
            &&& title.len() > 0 ==> ev.title == title
            &&& title.len() == 0 ==> ev.title == f.category + " · "@ + f.filename
            &&& ev.date == date
            &&& ev.course_name == f.course_name
            &&& ev.source == "detected"@
        }),
{
}

/// A date found in an announcement is an event of its course, under the announcement's
/// number and the date's own: with the title that was found, or with the
/// announcement's.
pub proof fn lemma_announced_says(
    ann_id: u64,
    n: nat,
    date: Seq<char>,
    title: Seq<char>,
    course: Seq<char>,
    ann_title: Seq<char>,
)
    ensures
        ({
            let ev = announced_event(ann_id, n as int, date, title, course, ann_title);
            &&& ev.id == "ann-"@ + text::decimal(ann_id as nat) + "-"@ + text::decimal(n)
            &&& title.len() > 0 ==> ev.title == title
            &&& title.len() == 0 ==> ev.title == ann_title
            &&& ev.date == date
            &&& ev.course_name == course
            &&& ev.source == "announcement"@
        }),
{
}

/// An event that the user enters is what the user said, under the id that was given or
/// under a number of its own.
pub proof fn lemma_entered_says(
    evs: Seq<CalEventView>,
    title: Seq<char>,
    date: Seq<char>,
    course_name: Seq<char>,
    id: Seq<char>,
)
    ensures
        ({
            let ev = entered_event(evs, title, date, course_name, id);
            &&& ev.title == title
            &&& ev.date == date
            &&& ev.course_name == course_name
            &&& ev.source == "manual"@
            &&& !text::blank(id) ==> ev.id == id
            &&& text::blank(id) ==> exists|n: nat| ev.id == "man-"@ + #[trigger] text::decimal(n)
        }),
{
    let ev = entered_event(evs, title, date, course_name, id);
    if text::blank(id) {
        let n = free_number(evs, (evs.len() + 1) as int) as nat;
        assert(ev.id == "man-"@ + text::decimal(n));
    }
}

/// Where events are left, whatever decides it.
proof fn lemma_filter_one(x: CalEventView, keep: spec_fn(CalEventView) -> bool)
    ensures
        keep(x) ==> seq![x].filter(keep) == seq![x],
        !keep(x) ==> seq![x].filter(keep).len() == 0,
{
    reveal(Seq::filter);
    reveal_with_fuel(Seq::filter, 2);
    assert(seq![x].drop_last() =~= Seq::empty());
    assert(seq![x].last() == x);
    assert(Seq::<CalEventView>::empty().filter(keep) =~= Seq::empty());
    assert(Seq::<CalEventView>::empty().push(x) =~= seq![x]);
}

/// Deleting goes event by event: those under the id go, and every other one stays, in
/// its place among them.
pub proof fn lemma_deleted(a: Seq<CalEventView>, b: Seq<CalEventView>, x: CalEventView, id: Seq<
    char,
>)
    ensures
        deleted(a + b, id) == deleted(a, id) + deleted(b, id),
        x.id == id ==> deleted(seq![x], id).len() == 0,
        x.id != id ==> deleted(seq![x], id) == seq![x],
{
    let keep = |e: CalEventView| e.id != id;
    Seq::filter_distributes_over_add(a, b, keep);
    lemma_filter_one(x, keep);
}

/// What is shown goes event by event too: those of the state that the user did not
/// enter, and then those of the user's file.
pub proof fn lemma_shown(
    a: Seq<CalEventView>,
    b: Seq<CalEventView>,
    x: CalEventView,
    manual: Seq<CalEventView>,
)
    ensures
        events_to_show(a + b, manual) == events_to_show(a, Seq::empty()) + events_to_show(
            b,
            Seq::empty(),
        ) + manual,
        x.source == "manual"@ ==> events_to_show(seq![x], manual) == manual,
        x.source != "manual"@ ==> events_to_show(seq![x], manual) == seq![x] + manual,
{
    let keep = |e: CalEventView| e.source != "manual"@;
    Seq::filter_distributes_over_add(a, b, keep);
    lemma_filter_one(x, keep);
    assert(events_to_show(a, Seq::empty()) =~= a.filter(keep));
    assert(events_to_show(b, Seq::empty()) =~= b.filter(keep));
    if x.source == "manual"@ {
        assert(events_to_show(seq![x], manual) =~= manual);
    }
}

/// The notices that are remembered are the latest 2000: a new one is added at the end,
/// and only where there would be more does the oldest go.
pub proof fn lemma_latest_noted(keys: Seq<Seq<char>>, key: Seq<char>)
    ensures
        keys.contains(key) ==> noted(keys, key) == keys,
        !keys.contains(key) && keys.len() < 2000 ==> noted(keys, key) == keys + seq![key],
        !keys.contains(key) && keys.len() == 2000 ==> noted(keys, key) == keys.skip(1) + seq![key],
{
    if keys.len() < 2000 {
        assert(keys.push(key) =~= keys + seq![key]);
    } else {
        assert(keys.push(key).skip(1) =~= keys.skip(1) + seq![key]);
    }
}

/// The file under a number is the first that has it.
pub proof fn lemma_file_from(files: Seq<CanvasFileView>, id: u64, i: int)
    requires
        0 <= i <= files.len(),
    ensures
        match file_from(files, id, i) {
            Some(k) => i <= k < files.len() && files[k].id == id && forall|j: int|
                i <= j < k ==> (#[trigger] files[j]).id != id,
            None => forall|j: int| i <= j < files.len() ==> (#[trigger] files[j]).id != id,
        },
    decreases files.len() - i,
{
    if i < files.len() {
        lemma_file_from(files, id, i + 1);
    }
}

/// The assignment under a number is the first that has it.
pub proof fn lemma_assignment_from(assignments: Seq<AssignmentView>, id: u64, i: int)
    requires
        0 <= i <= assignments.len(),
    ensures
        match assignment_from(assignments, id, i) {
            Some(k) => i <= k < assignments.len() && assignments[k].id == id && forall|j: int|
                i <= j < k ==> (#[trigger] assignments[j]).id != id,
            None => forall|j: int|
                i <= j < assignments.len() ==> (#[trigger] assignments[j]).id != id,
        },
    decreases assignments.len() - i,
{
    if i < assignments.len() {
        lemma_assignment_from(assignments, id, i + 1);
    }
}

/// A category that the user sets is the file's, by hand and for good; without one the
/// file is no longer set by hand and keeps its category. Nothing else of it changes.
pub proof fn lemma_categorized(f: CanvasFileView, category: Seq<char>)
    ensures
        ({
            let g = categorized(f, category);
            &&& !text::blank(category) ==> g.category == category && g.category_manual
                && g.content_done
            &&& text::blank(category) ==> g.category == f.category && !g.category_manual
                && g.content_done == f.content_done
            &&& g.id == f.id && g.course_id == f.course_id && g.course_name == f.course_name
                && g.folder == f.folder && g.filename == f.filename && g.url == f.url && g.size
                == f.size && g.content_type == f.content_type && g.local_path == f.local_path
                && g.summary == f.summary && g.embedding == f.embedding && g.summary_pdf
                == f.summary_pdf
        }),
{
}

/// An assignment can be marked as done or as dismissed; any other word takes the mark
/// away.
pub proof fn lemma_status_set(status: Seq<char>)
    ensures
        status_set("done"@) == "done"@,
        status_set("dismissed"@) == "dismissed"@,
        status != "done"@ && status != "dismissed"@ ==> status_set(status).len() == 0,
{
    reveal_strlit("");
}

} // verus!
