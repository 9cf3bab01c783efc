//! The to-do list of the desktop: the user's own items stay, the items with the
//! mark are those of the assignments still to be done.

use vstd::prelude::*;
use vstd::string::*;
use crate::calendar::local_deadlines;
use crate::calendar;
use crate::days::today;
use crate::days;
use crate::json::{
    bool_entry, json_of_value, list_of, object_entry, string_entry, text_of_list, JsonView,
};
use crate::json;
use crate::labels::concluded_ids;
use crate::labels;
use crate::paths::join_path;
use crate::paths;
use crate::store::{AppState, AppStateView, Assignment, AssignmentView};
use crate::text;

verus! {

/// What the items of the assignments begin with.
pub const TODO_MARK: &'static str = "🎓 ";

/// The path of the to-do list, below the home folder.
pub const TODO_FILE: &'static str = ".local/state/quickshell/user/todo.json";

/// The path of the to-do list.
pub fn todo_path(home: &str) -> (r: String)
    ensures
        r@ == paths::path_push(home@, TODO_FILE@),
{
    join_path(home, TODO_FILE)
}

/// Whether an item with this text is one of an assignment.
pub open spec fn managed(content: Option<Seq<char>>) -> bool {
    match content {
        Some(c) => TODO_MARK@.is_prefix_of(c),
        None => false,
    }
}

/// The text of an item.
pub open spec fn content_of(item: JsonView) -> Option<Seq<char>> {
    item.get_str("content"@)
}

/// Whether an item is the user's own.
pub open spec fn is_own(item: JsonView) -> bool {
    !managed(content_of(item))
}

/// The items of a list that are the user's own.
pub open spec fn own_items(list: Seq<JsonView>) -> Seq<JsonView> {
    list.filter(|item: JsonView| is_own(item))
}

/// Every item of the user's own can be read back once it was written.
pub open spec fn own_items_plain(list: Seq<JsonView>) -> bool {
    json::all_plain(own_items(list))
}

/// Whether an assignment belongs on the list, `day` being the local day of its
/// deadline.
pub open spec fn to_do(
    a: AssignmentView,
    past: Set<u64>,
    day: Seq<char>,
    now: Seq<char>,
) -> bool {
    &&& !past.contains(a.course_id)
    &&& !a.submitted
    &&& a.user_status != "done"@
    &&& a.user_status != "dismissed"@
    &&& a.due_at is Some
    &&& a.due_at->0.len() > 0
    &&& !text::precedes(day, now)
}

/// The text of the item of an assignment.
pub open spec fn task_text(a: AssignmentView, day: Seq<char>) -> Seq<char> {
    TODO_MARK@ + a.name + " · "@ + a.course_name + " (vence "@ + day + ")"@
}

/// The item of an assignment, its members in the order of their names.
pub open spec fn task_of(a: AssignmentView, day: Seq<char>) -> JsonView {
    JsonView::Object(
        seq![
            ("content"@, JsonView::Str(task_text(a, day))),
            ("done"@, JsonView::Bool(false)),
            ("due"@, JsonView::Str(day)),
        ],
    )
}

/// The items of the assignments, `days[i]` being the local day of the `i`-th
/// deadline and `now` the day of today.
pub open spec fn tasks(
    assignments: Seq<AssignmentView>,
    past: Set<u64>,
    ds: Seq<Seq<char>>,
    now: Seq<char>,
) -> Seq<JsonView>
    decreases assignments.len(),
{
    if assignments.len() == 0 {
        seq![]
    } else {
        let a = assignments.last();
        let day = ds[assignments.len() - 1];
        let before = tasks(assignments.drop_last(), past, ds, now);
        if to_do(a, past, day, now) {
            before.push(task_of(a, day))
        } else {
            before
        }
    }
}

/// The list after an update: the user's own items in their order, then the items
/// of the assignments.
pub open spec fn todo_after(
    list: Seq<JsonView>,
    st: AppStateView,
    ds: Seq<Seq<char>>,
    now: Seq<char>,
) -> Seq<JsonView> {
    own_items(list) + tasks(st.assignments, labels::past_ids(st.courses), ds, now)
}

/// Whether an item is one of an assignment.
fn is_managed(item: &serde_json::Value) -> (r: bool)
    ensures
        r == !is_own(json::value_content(*item)),
{
    let item = json_of_value(item);
    match item.get_str("content") {
        Some(c) => text::starts_with(c, TODO_MARK),
        None => false,
    }
}

/// Takes the items of the assignments off a list.
fn drop_managed(list: &mut Vec<serde_json::Value>)
    ensures
        json::contents(final(list)@) == own_items(json::contents(old(list)@)),
{
    let ghost all = json::contents(list@);
    let ghost mut k: int = 0;
    let mut i: usize = 0;
    proof {
        reveal(Seq::filter);
        assert(own_items(all.take(0)) =~= seq![]);
        assert(json::contents(list@) =~= own_items(all.take(0)) + all.skip(0));
    }
    while i < list.len()
        invariant
            0 <= k <= all.len(),
            i == own_items(all.take(k)).len(),
            json::contents(list@) == own_items(all.take(k)) + all.skip(k),
            all == json::contents(old(list)@),
        decreases list.len() - i,
    {
        let ghost before = list@;
        let ghost own = own_items(all.take(k));
        proof {
            reveal(Seq::filter);
            assert(json::contents(list@)[i as int] == json::value_content(list@[i as int]));
            assert(json::contents(list@)[i as int] == all[k]);
            assert(all.take(k + 1).drop_last() =~= all.take(k));
            assert(all.take(k + 1).last() == all[k]);
        }
        if is_managed(&list[i]) {
            let _ = list.remove(i);
            assert(json::contents(list@) =~= json::contents(before).remove(i as int));
            assert(json::contents(list@) =~= own + all.skip(k + 1));
        } else {
            i += 1;
            assert(json::contents(list@) =~= own.push(all[k]) + all.skip(k + 1));
        }
        proof {
            k = k + 1;
        }
    }
    proof {
        assert(json::contents(list@).len() == list@.len());
        assert(all.skip(k).len() == 0);
        assert(all.take(k) =~= all);
        assert(json::contents(list@) =~= own_items(all));
    }
}

/// The item of an assignment.
fn task_entry(a: &Assignment, day: &str) -> (r: serde_json::Value)
    ensures
        json::value_content(r) == task_of(a@, day@),
{
    let mut content = TODO_MARK.to_owned();
    content.append(a.name.as_str());
    content.append(" · ");
    content.append(a.course_name.as_str());
    content.append(" (vence ");
    content.append(day);
    content.append(")");
    let mut v: Vec<(String, serde_json::Value)> = Vec::new();
    v.push(("content".to_owned(), string_entry(content.as_str())));
    v.push(("done".to_owned(), bool_entry(false)));
    v.push(("due".to_owned(), string_entry(day)));
    proof {
        reveal_strlit("content");
        reveal_strlit("done");
        reveal_strlit("due");
        reveal_with_fuel(text::precedes, 2);
        assert("done"@.skip(1)[0] == 'o' && "due"@.skip(1)[0] == 'u');
        assert(json::members(v@) =~= task_of(a@, day@)->Object_0);
    }
    object_entry(v)
}

/// The text of the list after an update of the list in the text `file`, `ds[i]`
/// being the local day of the `i`-th deadline and `now` the day of today. A text
/// that is no list counts as an empty one. Updating the text once more, on the same
/// day and with the same assignments, leaves it as it is, unless an item of the
/// user's own holds a fraction or is nested too deep to be read back.
pub fn todo_text(state: &AppState, file: &str, ds: &Vec<String>, now: &str) -> (r: String)
    requires
        ds@.len() == state@.assignments.len(),
    ensures
        r@ == json::list_text(todo_after(json::listed(file@), state@, text::views(ds@), now@)),
        own_items_plain(json::listed(file@)) ==> {
            &&& json::listed(r@) == todo_after(
                json::listed(file@),
                state@,
                text::views(ds@),
                now@,
            )
            &&& json::list_text(todo_after(json::listed(r@), state@, text::views(ds@), now@)) == r@
        },
{
    broadcast use vstd::std_specs::hash::group_hash_axioms;

    let past = concluded_ids(state);
    let mut out = list_of(file);
    drop_managed(&mut out);
    let ghost own = json::contents(out@);
    let ghost all = state@.assignments;
    let ghost dv = text::views(ds@);
    let mut k: usize = 0;
    assert(json::contents(out@) =~= own + tasks(all.take(0), past@, dv, now@));
    while k < state.assignments.len()
        invariant
            k <= state.assignments@.len(),
            ds@.len() == state.assignments@.len(),
            all == text::views(state.assignments@),
            dv == text::views(ds@),
            json::contents(out@) == own + tasks(all.take(k as int), past@, dv, now@),
        decreases state.assignments.len() - k,
    {
        broadcast use vstd::std_specs::hash::group_hash_axioms;

        let a = &state.assignments[k];
        let day = ds[k].as_str();
        assert(all.take(k + 1).drop_last() =~= all.take(k as int));
        assert(all.take(k + 1).last() == a@);
        assert(dv[k as int] == day@);
        let dated = match &a.due_at {
            Some(due) => {
                assert(a@.due_at == Some(due@));
                !due.as_str().is_empty()
            },
            None => false,
        };
        if dated && !past.contains(&a.course_id) && !a.submitted && !text::same(
            a.user_status.as_str(),
            "done",
        ) && !text::same(a.user_status.as_str(), "dismissed") && !text::before(day, now) {
            let item = task_entry(a, day);
            proof {
                let before = tasks(all.take(k as int), past@, dv, now@);
                assert(json::contents(out@.push(item)) =~= json::contents(out@).push(
                    task_of(a@, day@),
                ));
                assert(own + before.push(task_of(a@, day@)) =~= (own + before).push(
                    task_of(a@, day@),
                ));
            }
            out.push(item);
        }
        k += 1;
    }
    assert(all.take(all.len() as int) =~= all);
    proof {
        let list = json::listed(file@);
        if own_items_plain(list) {
            lemma_after_is_plain(list, state@, dv, now@);
        }
        lemma_update_twice(list, state@, dv, now@);
    }
    text_of_list(&out)
}

/// The text of the list after an update of the list in the text `file`, with the
/// local days of the deadlines and the day of today.
pub fn sync_quickshell_todo(state: &AppState, file: &str) -> (r: String)
    ensures
        exists|ds: Seq<Seq<char>>, now: Seq<char>|
            calendar::deadline_days(state@.assignments, ds) && (exists|n: int| #[trigger]
                days::names_day(now, n)) && r@ == json::list_text(
                #[trigger] todo_after(json::listed(file@), state@, ds, now),
            ) && (own_items_plain(json::listed(file@)) ==> json::list_text(
                todo_after(json::listed(r@), state@, ds, now),
            ) == r@),
{
    let ds = local_deadlines(state);
    let now = today();
    todo_text(state, file, &ds, now.as_str())
}

// ---------------------------------------------------------------------------
// What an update keeps
// ---------------------------------------------------------------------------

/// None of the items of the assignments is the user's own.
proof fn lemma_tasks_managed(
    assignments: Seq<AssignmentView>,
    past: Set<u64>,
    ds: Seq<Seq<char>>,
    now: Seq<char>,
)
    ensures
        own_items(tasks(assignments, past, ds, now)) == Seq::<JsonView>::empty(),
    decreases assignments.len(),
{
    reveal(Seq::filter);
    if assignments.len() > 0 {
        let a = assignments.last();
        let day = ds[assignments.len() - 1];
        let before = tasks(assignments.drop_last(), past, ds, now);
        lemma_tasks_managed(assignments.drop_last(), past, ds, now);
        if to_do(a, past, day, now) {
            let item = task_of(a, day);
            assert(content_of(item) == Some(task_text(a, day))) by {
                assert(item->Object_0[0].0 == "content"@);
            }
            assert(TODO_MARK@.is_prefix_of(task_text(a, day))) by {
                assert(task_text(a, day).take(TODO_MARK@.len() as int) =~= TODO_MARK@);
            }
            assert(before.push(item).drop_last() =~= before);
        }
    }
}

/// The user's own items among themselves are all of them.
proof fn lemma_own_again(list: Seq<JsonView>)
    ensures
        own_items(own_items(list)) == own_items(list),
    decreases list.len(),
{
    reveal(Seq::filter);
    if list.len() > 0 {
        lemma_own_again(list.drop_last());
        let before = own_items(list.drop_last());
        if is_own(list.last()) {
            assert(before.push(list.last()).drop_last() =~= before);
        }
    }
}

/// The items of the assignments can be read back.
proof fn lemma_tasks_plain(
    assignments: Seq<AssignmentView>,
    past: Set<u64>,
    ds: Seq<Seq<char>>,
    now: Seq<char>,
)
    ensures
        json::all_plain(tasks(assignments, past, ds, now)),
    decreases assignments.len(),
{
    if assignments.len() > 0 {
        lemma_tasks_plain(assignments.drop_last(), past, ds, now);
        let item = task_of(assignments.last(), ds[assignments.len() - 1]);
        assert(json::is_plain(item, json::MAX_DEPTH as int)) by {
            reveal_with_fuel(json::is_plain, 2);
        }
    }
}

/// An updated list can be read back where the user's own items can.
proof fn lemma_after_is_plain(
    list: Seq<JsonView>,
    st: AppStateView,
    ds: Seq<Seq<char>>,
    now: Seq<char>,
)
    requires
        own_items_plain(list),
    ensures
        json::all_plain(todo_after(list, st, ds, now)),
{
    let past = labels::past_ids(st.courses);
    let own = own_items(list);
    let new = tasks(st.assignments, past, ds, now);
    let all = todo_after(list, st, ds, now);
    lemma_tasks_plain(st.assignments, past, ds, now);
    assert forall|i: int| 0 <= i < all.len() implies json::is_plain(
        #[trigger] all[i],
        json::MAX_DEPTH as int,
    ) by {
        if i < own.len() {
            assert(all[i] == own[i]);
        } else {
            assert(all[i] == new[i - own.len()]);
        }
    }
}

/// An update keeps every item of the user's own, as it is and in their order, and
/// adds none to them.
pub proof fn lemma_own_items_stay(
    list: Seq<JsonView>,
    st: AppStateView,
    ds: Seq<Seq<char>>,
    now: Seq<char>,
)
    ensures
        own_items(todo_after(list, st, ds, now)) == own_items(list),
{
    let past = labels::past_ids(st.courses);
    let new = tasks(st.assignments, past, ds, now);
    Seq::filter_distributes_over_add(own_items(list), new, |item: JsonView| is_own(item));
    lemma_tasks_managed(st.assignments, past, ds, now);
    lemma_own_again(list);
    assert(own_items(list) + Seq::<JsonView>::empty() =~= own_items(list));
}

/// Updating a list that was just updated, on the same assignments and the same
/// day, changes nothing.
pub proof fn lemma_update_twice(
    list: Seq<JsonView>,
    st: AppStateView,
    ds: Seq<Seq<char>>,
    now: Seq<char>,
)
    ensures
        todo_after(todo_after(list, st, ds, now), st, ds, now) == todo_after(list, st, ds, now),
{
    lemma_own_items_stay(list, st, ds, now);
}

/// The assignment is still to be done: its course is not over, it was neither handed
/// in nor set aside by the user, and its deadline has not passed.
pub open spec fn is_pending(
    st: AppStateView,
    a: AssignmentView,
    day: Seq<char>,
    now: Seq<char>,
) -> bool {
    &&& forall|c: int|
        0 <= c < st.courses.len() && (#[trigger] st.courses[c]).id == a.course_id
            ==> !st.courses[c].concluded
    &&& !a.submitted
    &&& a.user_status != "done"@
    &&& a.user_status != "dismissed"@
    &&& a.due_at matches Some(due) && due.len() > 0
    &&& day == now || text::precedes(now, day)
}

/// What belongs on the list is what is pending.
proof fn lemma_to_do_is_pending(
    st: AppStateView,
    a: AssignmentView,
    day: Seq<char>,
    now: Seq<char>,
)
    ensures
        to_do(a, labels::past_ids(st.courses), day, now) == is_pending(st, a, day, now),
{
    let past = labels::past_ids(st.courses);
    text::lemma_precedes_total(day, now);
    text::lemma_precedes_irreflexive(now);
    assert(past.contains(a.course_id) == labels::is_past(st.courses, a.course_id));
    if labels::is_past(st.courses, a.course_id) {
        let c = choose|c: int|
            0 <= c < st.courses.len() && #[trigger] st.courses[c].concluded && st.courses[c].id
                == a.course_id;
        assert(st.courses[c].id == a.course_id);
    } else {
        assert forall|c: int|
            0 <= c < st.courses.len() && (#[trigger] st.courses[c]).id == a.course_id implies
            !st.courses[c].concluded by {
            assert(!(st.courses[c].concluded && st.courses[c].id == a.course_id));
        }
    }
}

/// The items of assignments without the `k`-th, where it is not to be done.
proof fn lemma_tasks_without(
    assignments: Seq<AssignmentView>,
    past: Set<u64>,
    ds: Seq<Seq<char>>,
    now: Seq<char>,
    k: int,
)
    requires
        0 <= k < assignments.len() <= ds.len(),
        !to_do(assignments[k], past, ds[k], now),
    ensures
        tasks(assignments, past, ds, now) == tasks(
            assignments.remove(k),
            past,
            ds.remove(k),
            now,
        ),
    decreases assignments.len(),
{
    let n = assignments.len() - 1;
    let rest = assignments.remove(k);
    if k == n {
        assert(rest =~= assignments.drop_last());
        lemma_tasks_agree(rest, past, ds, ds.remove(k), now);
    } else {
        lemma_tasks_without(assignments.drop_last(), past, ds, now, k);
        assert(rest.drop_last() =~= assignments.drop_last().remove(k));
        assert(rest.last() == assignments.last());
        assert(ds.remove(k)[n - 1] == ds[n]);
    }
}

/// Only the days of the assignments themselves count.
proof fn lemma_tasks_agree(
    assignments: Seq<AssignmentView>,
    past: Set<u64>,
    ds: Seq<Seq<char>>,
    es: Seq<Seq<char>>,
    now: Seq<char>,
)
    requires
        forall|i: int| 0 <= i < assignments.len() ==> #[trigger] ds[i] == es[i],
    ensures
        tasks(assignments, past, ds, now) == tasks(assignments, past, es, now),
    decreases assignments.len(),
{
    if assignments.len() > 0 {
        lemma_tasks_agree(assignments.drop_last(), past, ds, es, now);
        assert(ds[assignments.len() - 1] == es[assignments.len() - 1]);
    }
}

/// An assignment that is not to be done leaves no trace on the list: of a course that
/// is over, handed in, marked as done or dismissed by the user, without a deadline or
/// past it. The list is the same without that assignment.
pub proof fn lemma_only_pending_listed(
    list: Seq<JsonView>,
    st: AppStateView,
    ds: Seq<Seq<char>>,
    now: Seq<char>,
    k: int,
)
    requires
        0 <= k < st.assignments.len() == ds.len(),
        ({
            let a = st.assignments[k];
            ||| exists|c: int|
                0 <= c < st.courses.len() && (#[trigger] st.courses[c]).id == a.course_id
                    && st.courses[c].concluded
            ||| a.submitted
            ||| a.user_status == "done"@
            ||| a.user_status == "dismissed"@
            ||| a.due_at is None
            ||| a.due_at == Some(Seq::<char>::empty())
            ||| text::precedes(ds[k], now)
        }),
    ensures
        todo_after(list, st, ds, now) == todo_after(
            list,
            AppStateView { assignments: st.assignments.remove(k), ..st },
            ds.remove(k),
            now,
        ),
{
    let a = st.assignments[k];
    text::lemma_precedes_total(ds[k], now);
    lemma_to_do_is_pending(st, a, ds[k], now);
    if text::precedes(ds[k], now) {
        text::lemma_precedes_irreflexive(now);
    }
    lemma_tasks_without(st.assignments, labels::past_ids(st.courses), ds, now, k);
}

/// An item says of an assignment what is to be done and until when.
pub open spec fn says(item: JsonView, a: AssignmentView, day: Seq<char>) -> bool {
    &&& item.get_str("content"@) == Some(
        "🎓 "@ + a.name + " · "@ + a.course_name + " (vence "@ + day + ")"@,
    )
    &&& item.get("done"@) == Some(JsonView::Bool(false))
    &&& item.get_str("due"@) == Some(day)
}

/// The item of an assignment says what is to be done.
proof fn lemma_task_says(a: AssignmentView, day: Seq<char>)
    ensures
        says(task_of(a, day), a, day),
{
    reveal_strlit("content");
    reveal_strlit("done");
    reveal_strlit("due");
    reveal_with_fuel(json::member, 4);
    let es = task_of(a, day)->Object_0;
    let one = es.subrange(1, 3);
    let two = one.subrange(1, 2);
    assert(one[0] == es[1] && one[1] == es[2] && two[0] == es[2]);
    assert("content"@.len() == 7 && "done"@.len() == 4 && "due"@.len() == 3);
}

/// Every assignment that is to be done has an item, and every item is one of such an
/// assignment.
proof fn lemma_tasks_exact(
    assignments: Seq<AssignmentView>,
    past: Set<u64>,
    ds: Seq<Seq<char>>,
    now: Seq<char>,
)
    ensures
        forall|k: int|
            0 <= k < assignments.len() && to_do(#[trigger] assignments[k], past, ds[k], now)
                ==> exists|i: int|
                0 <= i < tasks(assignments, past, ds, now).len() && says(
                    #[trigger] tasks(assignments, past, ds, now)[i],
                    assignments[k],
                    ds[k],
                ),
        forall|i: int|
            0 <= i < tasks(assignments, past, ds, now).len() ==> exists|k: int|
                0 <= k < assignments.len() && to_do(#[trigger] assignments[k], past, ds[k], now)
                    && says(
                    #[trigger] tasks(assignments, past, ds, now)[i],
                    assignments[k],
                    ds[k],
                ),
        tasks(assignments, past, ds, now).len() <= assignments.len(),
    decreases assignments.len(),
{
    if assignments.len() > 0 {
        let n = assignments.len() - 1;
        let rest = assignments.drop_last();
        let before = tasks(rest, past, ds, now);
        let after = tasks(assignments, past, ds, now);
        lemma_tasks_exact(rest, past, ds, now);
        lemma_task_says(assignments[n], ds[n]);
        assert forall|k: int|
            0 <= k < assignments.len() && to_do(#[trigger] assignments[k], past, ds[k], now) implies
            exists|i: int|
                0 <= i < after.len() && says(#[trigger] after[i], assignments[k], ds[k]) by {
            if k < n {
                assert(rest[k] == assignments[k]);
                let i = choose|i: int|
                    0 <= i < before.len() && says(#[trigger] before[i], rest[k], ds[k]);
                assert(after[i] == before[i]);
            } else {
                assert(after[after.len() - 1] == task_of(assignments[n], ds[n]));
            }
        }
        assert forall|i: int| 0 <= i < after.len() implies exists|k: int|
            0 <= k < assignments.len() && to_do(#[trigger] assignments[k], past, ds[k], now)
                && says(#[trigger] after[i], assignments[k], ds[k]) by {
            if i < before.len() {
                assert(after[i] == before[i]);
                let k = choose|k: int|
                    0 <= k < rest.len() && to_do(#[trigger] rest[k], past, ds[k], now) && says(
                        before[i],
                        rest[k],
                        ds[k],
                    );
                assert(rest[k] == assignments[k]);
            } else {
                assert(to_do(assignments[n], past, ds[n], now));
            }
        }
    }
}

/// The updated list holds the user's own items, those without the mark, and an item
/// for each pending assignment with its name, its course and its day; and nothing
/// else.
pub proof fn lemma_list_is_exact(
    list: Seq<JsonView>,
    st: AppStateView,
    ds: Seq<Seq<char>>,
    now: Seq<char>,
)
    requires
        st.assignments.len() == ds.len(),
    ensures
        forall|k: int|
            0 <= k < st.assignments.len() && is_pending(
                st,
                #[trigger] st.assignments[k],
                ds[k],
                now,
            ) ==> exists|i: int|
                0 <= i < todo_after(list, st, ds, now).len() && says(
                    #[trigger] todo_after(list, st, ds, now)[i],
                    st.assignments[k],
                    ds[k],
                ),
        forall|j: int|
            0 <= j < list.len() && !((#[trigger] list[j]).get_str("content"@) matches Some(c)
                && "🎓 "@.is_prefix_of(c)) ==> todo_after(list, st, ds, now).contains(list[j]),
        forall|i: int|
            0 <= i < todo_after(list, st, ds, now).len() ==> {
                let item = #[trigger] todo_after(list, st, ds, now)[i];
                ||| list.contains(item) && !(item.get_str("content"@) matches Some(c)
                    && "🎓 "@.is_prefix_of(c))
                ||| exists|k: int|
                    0 <= k < st.assignments.len() && is_pending(
                        st,
                        #[trigger] st.assignments[k],
                        ds[k],
                        now,
                    ) && says(item, st.assignments[k], ds[k])
            },
{
    let past = labels::past_ids(st.courses);
    let own = own_items(list);
    let new = tasks(st.assignments, past, ds, now);
    let all = todo_after(list, st, ds, now);
    lemma_tasks_exact(st.assignments, past, ds, now);
    assert forall|k: int|
        0 <= k < st.assignments.len() && is_pending(
            st,
            #[trigger] st.assignments[k],
            ds[k],
            now,
        ) implies exists|i: int|
        0 <= i < all.len() && says(#[trigger] all[i], st.assignments[k], ds[k]) by {
        lemma_to_do_is_pending(st, st.assignments[k], ds[k], now);
        let i = choose|i: int|
            0 <= i < new.len() && says(#[trigger] new[i], st.assignments[k], ds[k]);
        assert(all[own.len() + i] == new[i]);
    }
    assert forall|j: int|
        0 <= j < list.len() && !((#[trigger] list[j]).get_str("content"@) matches Some(c)
            && "🎓 "@.is_prefix_of(c)) implies all.contains(list[j]) by {
        list.lemma_filter_contains(|item: JsonView| is_own(item), j);
        let i = choose|i: int| 0 <= i < own.len() && own[i] == list[j];
        assert(all[i] == list[j]);
    }
    assert forall|i: int| 0 <= i < all.len() implies {
        let item = #[trigger] all[i];
        ||| list.contains(item) && !(item.get_str("content"@) matches Some(c)
            && "🎓 "@.is_prefix_of(c))
        ||| exists|k: int|
            0 <= k < st.assignments.len() && is_pending(
                st,
                #[trigger] st.assignments[k],
                ds[k],
                now,
            ) && says(item, st.assignments[k], ds[k])
    } by {
        if i < own.len() {
            assert(all[i] == own[i]);
            list.lemma_filter_pred(|item: JsonView| is_own(item), i);
            lemma_own_among(list, own[i]);
        } else {
            let m = i - own.len();
            assert(all[i] == new[m]);
            let k = choose|k: int|
                0 <= k < st.assignments.len() && to_do(
                    #[trigger] st.assignments[k],
                    past,
                    ds[k],
                    now,
                ) && says(new[m], st.assignments[k], ds[k]);
            lemma_to_do_is_pending(st, st.assignments[k], ds[k], now);
        }
    }
}

/// An own item of a list is one of the list.
proof fn lemma_own_among(list: Seq<JsonView>, x: JsonView)
    requires
        own_items(list).contains(x),
    ensures
        list.contains(x),
    decreases list.len(),
{
    reveal(Seq::filter);
    if list.len() > 0 {
        let rest = list.drop_last();
        if own_items(rest).contains(x) {
            lemma_own_among(rest, x);
            let i = choose|i: int| 0 <= i < rest.len() && rest[i] == x;
            assert(list[i] == x);
        } else {
            let own = own_items(list);
            let i = choose|i: int| 0 <= i < own.len() && own[i] == x;
            if i < own_items(rest).len() {
                assert(own_items(rest)[i] == x);
            }
            assert(list[list.len() - 1] == x);
        }
    }
}

/// The user's own items come first, in their order, and an assignment's item stands
/// behind those of the assignments before it.
pub proof fn lemma_list_in_order(
    list: Seq<JsonView>,
    st: AppStateView,
    ds: Seq<Seq<char>>,
    now: Seq<char>,
)
    requires
        0 < st.assignments.len() == ds.len(),
    ensures
        ({
            let fewer = AppStateView { assignments: st.assignments.drop_last(), ..st };
            let before = todo_after(list, fewer, ds, now);
            let after = todo_after(list, st, ds, now);
            let a = st.assignments.last();
            &&& own_items(list).is_prefix_of(after)
            &&& is_pending(st, a, ds.last(), now) ==> after.len() == before.len() + 1
                && before.is_prefix_of(after) && says(after.last(), a, ds.last())
            &&& !is_pending(st, a, ds.last(), now) ==> after == before
        }),
{
    let past = labels::past_ids(st.courses);
    let a = st.assignments.last();
    let fewer = AppStateView { assignments: st.assignments.drop_last(), ..st };
    let before = todo_after(list, fewer, ds, now);
    let after = todo_after(list, st, ds, now);
    lemma_to_do_is_pending(st, a, ds.last(), now);
    assert(after.take(own_items(list).len() as int) =~= own_items(list));
    if is_pending(st, a, ds.last(), now) {
        assert(after =~= before.push(task_of(a, ds.last())));
        lemma_task_says(a, ds.last());
    }
}

/// Items count one by one: one with the mark of an assignment's is not the user's own,
/// and any other is.
pub proof fn lemma_own_items(a: Seq<JsonView>, b: Seq<JsonView>, x: JsonView)
    ensures
        own_items(a + b) == own_items(a) + own_items(b),
        (x.get_str("content"@) matches Some(c) && "🎓 "@.is_prefix_of(c)) ==> own_items(
            seq![x],
        ).len() == 0,
        !(x.get_str("content"@) matches Some(c) && "🎓 "@.is_prefix_of(c)) ==> own_items(seq![x])
            == seq![x],
{
    let keep = |item: JsonView| is_own(item);
    Seq::filter_distributes_over_add(a, b, keep);
    reveal(Seq::filter);
    reveal_with_fuel(Seq::filter, 2);
    assert(seq![x].drop_last() =~= Seq::empty());
    assert(seq![x].last() == x);
    assert(Seq::<JsonView>::empty().filter(keep) =~= Seq::empty());
    assert(Seq::<JsonView>::empty().push(x) =~= seq![x]);
}

} // verus!
