//! The calendar: the `.ics` document and the entries of the desktop widget.

use vstd::prelude::*;
use vstd::string::*;
use vstd::utf8::*;
use std::collections::HashSet;
use crate::days::local_date;
use crate::days;
use crate::json::{object_entry, parse_array, string_entry, text_of_list, Json, JsonView};
use crate::json;
use crate::labels::concluded_ids;
use crate::labels;
use crate::paths::join_path;
use crate::paths;
use crate::store::{AppState, AppStateView, Assignment, AssignmentView, CalEvent, CalEventView};
use crate::text;

verus! {

// ---------------------------------------------------------------------------
// Events that the user enters
// ---------------------------------------------------------------------------

/// The file of the events that the user enters, below the home folder.
pub const USER_EVENTS_FILE: &'static str = ".local/state/quickshell/user/aula_user_events.json";

/// The file of the events that the user enters.
pub fn user_events_path(home: &str) -> (r: String)
    ensures
        r@ == paths::path_push(home@, USER_EVENTS_FILE@),
{
    join_path(home, USER_EVENTS_FILE)
}

/// An entry of the user's file as an event.
pub open spec fn user_event(v: JsonView) -> CalEventView {
    CalEventView {
        id: v.text_of("id"@),
        title: v.text_of("title"@),
        date: v.text_of("date"@),
        course_name: v.text_of("course"@),
        source: "manual"@,
    }
}

/// The events of the first `n` entries: those with a title and a date.
pub open spec fn user_events_upto(vs: Seq<JsonView>, n: int) -> Seq<CalEventView>
    decreases n,
{
    if n <= 0 {
        seq![]
    } else {
        let e = user_event(vs[n - 1]);
        let before = user_events_upto(vs, n - 1);
        if e.title.len() > 0 && e.date.len() > 0 {
            before.push(e)
        } else {
            before
        }
    }
}

/// The events in the text of the user's file; none where the text is no JSON
/// array.
pub open spec fn user_events_in(file: Seq<char>) -> Seq<CalEventView> {
    match json::array_of_text(file) {
        Some(vs) => user_events_upto(vs, vs.len() as int),
        None => seq![],
    }
}

/// The events of the entries of the user's file: those with a title and a date.
pub fn user_events_of(arr: &Vec<Json>) -> (r: Vec<CalEvent>)
    ensures
        text::views(r@) == user_events_upto(text::views(arr@), arr@.len() as int),
{
    let mut out: Vec<CalEvent> = Vec::new();
    let ghost vs = text::views(arr@);
    let mut i: usize = 0;
    assert(text::views(out@) =~= seq![]);
    while i < arr.len()
        invariant
            i <= arr@.len(),
            vs == text::views(arr@),
            text::views(out@) == user_events_upto(vs, i as int),
        decreases arr.len() - i,
    {
        let v = &arr[i];
        assert(vs[i as int] == v@);
        let e = CalEvent {
            id: v.text_of("id"),
            title: v.text_of("title"),
            date: v.text_of("date"),
            course_name: v.text_of("course"),
            source: "manual".to_owned(),
        };
        assert(e@ == user_event(v@));
        if !e.title.as_str().is_empty() && !e.date.as_str().is_empty() {
            proof {
                text::lemma_views_push(out@, e);
            }
            out.push(e);
        }
        i += 1;
    }
    out
}

/// The events in the text of the user's file.
pub fn read_user_events(file: &str) -> (r: Vec<CalEvent>)
    ensures
        text::views(r@) == user_events_in(file@),
{
    match parse_array(file) {
        Some(arr) => user_events_of(&arr),
        None => {
            let none: Vec<CalEvent> = Vec::new();
            assert(text::views(none@) =~= seq![]);
            none
        },
    }
}

/// An event as an entry of the user's file, its members in the order of their
/// names.
pub open spec fn user_entry(e: CalEventView) -> JsonView {
    JsonView::Object(
        seq![
            ("course"@, JsonView::Str(e.course_name)),
            ("date"@, JsonView::Str(e.date)),
            ("id"@, JsonView::Str(e.id)),
            ("title"@, JsonView::Str(e.title)),
        ],
    )
}

/// An event as an entry of the user's file.
fn entry_of(e: &CalEvent) -> (r: serde_json::Value)
    ensures
        json::value_content(r) == user_entry(e@),
{
    let mut v: Vec<(String, serde_json::Value)> = Vec::new();
    v.push(("course".to_owned(), string_entry(e.course_name.as_str())));
    v.push(("date".to_owned(), string_entry(e.date.as_str())));
    v.push(("id".to_owned(), string_entry(e.id.as_str())));
    v.push(("title".to_owned(), string_entry(e.title.as_str())));
    proof {
        reveal_strlit("course");
        reveal_strlit("date");
        reveal_strlit("id");
        reveal_strlit("title");
        assert(json::members(v@) =~= user_entry(e@)->Object_0);
    }
    object_entry(v)
}

/// The entries of some events.
pub open spec fn user_entries(evs: Seq<CalEventView>) -> Seq<JsonView> {
    evs.map_values(|e: CalEventView| user_entry(e))
}

/// Every event was entered by the user, with a title and a date.
pub open spec fn entered(evs: Seq<CalEventView>) -> bool {
    forall|i: int|
        0 <= i < evs.len() ==> (#[trigger] evs[i]).title.len() > 0 && evs[i].date.len() > 0
            && evs[i].source == "manual"@
}

/// The text of the user's file with these events. What is written is what is read
/// from it: events that the user entered come back, in their order.
pub fn write_user_events(evs: &Vec<CalEvent>) -> (r: String)
    ensures
        r@ == json::list_text(user_entries(text::views(evs@))),
        json::array_of_text(r@) == Some(user_entries(text::views(evs@))),
        entered(text::views(evs@)) ==> user_events_in(r@) == text::views(evs@),
{
    let ghost all = user_entries(text::views(evs@));
    let mut out: Vec<serde_json::Value> = Vec::new();
    let mut i: usize = 0;
    assert(json::contents(out@) =~= all.take(0));
    while i < evs.len()
        invariant
            i <= evs@.len(),
            all == user_entries(text::views(evs@)),
            json::contents(out@) == all.take(i as int),
        decreases evs.len() - i,
    {
        let v = entry_of(&evs[i]);
        proof {
            assert(json::value_content(v) == all[i as int]);
            assert(json::contents(out@.push(v)) =~= json::contents(out@).push(all[i as int]));
            assert(all.take(i + 1) =~= all.take(i as int).push(all[i as int]));
        }
        out.push(v);
        i += 1;
    }
    assert(all.take(all.len() as int) =~= all);
    proof {
        json::lemma_table_is_plain(json::contents(out@));
    }
    let r = text_of_list(&out);
    proof {
        if entered(text::views(evs@)) {
            lemma_user_events_read_back(text::views(evs@), r@);
        }
    }
    r
}

/// An entry written for an event reads as that event, entered by the user.
proof fn lemma_entry_read(e: CalEventView)
    ensures
        user_event(user_entry(e)) == (CalEventView { source: "manual"@, ..e }),
{
    reveal_strlit("id");
    reveal_strlit("title");
    reveal_strlit("date");
    reveal_strlit("course");
    reveal_with_fuel(json::member, 5);
    let es = user_entry(e)->Object_0;
    let a = es.subrange(1, 4);
    let b = a.subrange(1, 3);
    let c = b.subrange(1, 2);
    assert(a[0] == es[1] && a[1] == es[2] && a[2] == es[3]);
    assert(b[0] == es[2] && b[1] == es[3]);
    assert(c[0] == es[3]);
    assert("id"@ != "title"@ && "id"@ != "date"@ && "id"@ != "course"@) by {
        assert("id"@.len() == 2 && "title"@.len() == 5 && "date"@.len() == 4 && "course"@.len()
            == 6);
    }
    assert("title"@ != "date"@ && "title"@ != "course"@ && "date"@ != "course"@) by {
        assert("title"@.len() == 5 && "date"@.len() == 4 && "course"@.len() == 6);
    }
}

/// The first `n` entries written for events read as those events.
proof fn lemma_entries_read(evs: Seq<CalEventView>, n: int)
    requires
        0 <= n <= evs.len(),
        entered(evs),
    ensures
        user_events_upto(user_entries(evs), n) == evs.take(n),
    decreases n,
{
    let vs = user_entries(evs);
    if n > 0 {
        lemma_entries_read(evs, n - 1);
        let e = evs[n - 1];
        lemma_entry_read(e);
        assert(user_event(vs[n - 1]) =~= e);
        assert(evs.take(n) =~= evs.take(n - 1).push(e));
    } else {
        assert(evs.take(n) =~= seq![]);
    }
}

/// What is written to the user's file is what is read from it: from a file whose
/// text is the array of these events, every event that the user entered with a
/// title and a date comes back, in their order.
pub proof fn lemma_user_events_read_back(evs: Seq<CalEventView>, file: Seq<char>)
    requires
        entered(evs),
        json::array_of_text(file) == Some(user_entries(evs)),
    ensures
        user_events_in(file) == evs,
{
    lemma_entries_read(evs, evs.len() as int);
    assert(evs.take(evs.len() as int) =~= evs);
}

// ---------------------------------------------------------------------------
// Pieces of the .ics document
// ---------------------------------------------------------------------------

/// What stands before the first `.` of a text.
pub open spec fn before_dot(s: Seq<char>) -> Seq<char> {
    match text::first_index(s, '.') {
        Some(i) => s.take(i),
        None => s,
    }
}

/// A date and time in the basic format of iCalendar: without fractions, dashes
/// and colons, and with a `Z` at the end.
pub open spec fn basic_time(iso: Seq<char>) -> Seq<char> {
    let out = before_dot(text::trimmed(iso)).filter(|c: char| !seq!['-', ':'].contains(c));
    if out.len() > 0 && out.last() == 'Z' {
        out
    } else {
        out.push('Z')
    }
}

/// A date and time of ISO 8601 (`2026-06-10T23:59:59Z`) in the basic format of
/// iCalendar (`20260610T235959Z`).
pub fn ics_dt(iso: &str) -> (r: String)
    ensures
        r@ == basic_time(iso@),
{
    let t = text::trim(iso);
    let v = text::chars_of(t.as_str());
    let base = match text::index_of(v.as_slice(), '.') {
        Some(i) => {
            let head = text::take_chars(t.as_str(), i);
            assert(head@ =~= t@.take(i as int));
            head
        },
        None => t,
    };
    let dashes: [char; 2] = ['-', ':'];
    let mut out = text::without_chars(base.as_str(), dashes.as_slice());
    assert(dashes@ =~= seq!['-', ':']);
    let w = text::chars_of(out.as_str());
    let n: usize = w.len();
    if n == 0 || w[n - 1] != 'Z' {
        out.push('Z');
    }
    out
}

/// A character as it stands in a text of iCalendar.
pub open spec fn escape_char(c: char) -> Seq<char> {
    if c == '\\' {
        seq!['\\', '\\']
    } else if c == ';' {
        seq!['\\', ';']
    } else if c == ',' {
        seq!['\\', ',']
    } else if c == '\n' {
        seq!['\\', 'n']
    } else {
        seq![c]
    }
}

/// A text with the characters that mean something to iCalendar escaped.
pub open spec fn escaped(s: Seq<char>) -> Seq<char>
    decreases s.len(),
{
    if s.len() == 0 {
        seq![]
    } else {
        escape_char(s[0]) + escaped(s.skip(1))
    }
}

/// A text with the characters that mean something to iCalendar escaped.
pub fn ics_esc(s: &str) -> (r: String)
    ensures
        r@ == escaped(s@),
{
    let v = text::chars_of(s);
    let mut out = String::new();
    let mut i: usize = 0;
    assert(s@.skip(0) =~= s@);
    assert(out@ + escaped(s@.skip(0)) =~= escaped(s@));
    while i < v.len()
        invariant
            v@ == s@,
            i <= v@.len(),
            out@ + escaped(s@.skip(i as int)) == escaped(s@),
        decreases v.len() - i,
    {
        let c = v[i];
        let ghost before = out@;
        if c == '\\' {
            out.push('\\');
            out.push('\\');
        } else if c == ';' {
            out.push('\\');
            out.push(';');
        } else if c == ',' {
            out.push('\\');
            out.push(',');
        } else if c == '\n' {
            out.push('\\');
            out.push('n');
        } else {
            out.push(c);
        }
        proof {
            assert(out@ =~= before + escape_char(c));
            assert(s@.skip(i as int).skip(1) =~= s@.skip(i + 1));
            assert(out@ + escaped(s@.skip(i + 1)) =~= before + escaped(s@.skip(i as int)));
        }
        i += 1;
    }
    assert(escaped(s@.skip(s@.len() as int)) =~= seq![]);
    assert(out@ =~= escaped(s@));
    out
}

/// Escaping loses nothing: two texts that look alike escaped are the same.
pub proof fn lemma_escaped_injective(a: Seq<char>, b: Seq<char>)
    requires
        escaped(a) == escaped(b),
    ensures
        a == b,
    decreases a.len(),
{
    if a.len() == 0 || b.len() == 0 {
        if a.len() > 0 {
            assert(escaped(a).len() > 0);
        }
        if b.len() > 0 {
            assert(escaped(b).len() > 0);
        }
        assert(a =~= b);
    } else {
        let x = escape_char(a[0]);
        let y = escape_char(b[0]);
        let p = escaped(a.skip(1));
        let q = escaped(b.skip(1));
        assert((x + p)[0] == x[0]);
        assert((y + q)[0] == y[0]);
        assert(x.len() == 2 ==> (x + p)[1] == x[1]);
        assert(y.len() == 2 ==> (y + q)[1] == y[1]);
        assert(a[0] == b[0]);
        assert(p =~= (x + p).skip(x.len() as int));
        assert(q =~= (y + q).skip(y.len() as int));
        lemma_escaped_injective(a.skip(1), b.skip(1));
        assert(a =~= seq![a[0]] + a.skip(1));
        assert(b =~= seq![b[0]] + b.skip(1));
    }
}

/// An escaped text holds no line feed.
pub proof fn lemma_escaped_no_line_feed(s: Seq<char>)
    ensures
        !escaped(s).contains('\n'),
    decreases s.len(),
{
    if s.len() > 0 {
        lemma_escaped_no_line_feed(s.skip(1));
        let x = escape_char(s[0]);
        let p = escaped(s.skip(1));
        assert forall|i: int| 0 <= i < escaped(s).len() implies escaped(s)[i] != '\n' by {
            if i < x.len() {
                assert(escaped(s)[i] == x[i]);
            } else {
                assert(escaped(s)[i] == p[i - x.len()]);
                assert(p.contains(p[i - x.len()]));
            }
        }
    }
}

// ---------------------------------------------------------------------------
// Deadlines
// ---------------------------------------------------------------------------

/// Whether an assignment appears in the calendar: its course is not over, it was
/// not dismissed, and it has a deadline.
pub open spec fn has_deadline(a: AssignmentView, past: Set<u64>) -> bool {
    &&& !past.contains(a.course_id)
    &&& a.user_status != "dismissed"@
    &&& a.due_at is Some
    &&& a.due_at->0.len() > 0
}

/// The event of a deadline.
pub open spec fn deadline_event(a: AssignmentView) -> Seq<char> {
    let dt = basic_time(a.due_at->0);
    "BEGIN:VEVENT\r\nUID:aula-"@ + text::decimal(a.id as nat) + "@aula\r\nDTSTAMP:"@ + dt
        + "\r\nDTSTART:"@ + dt + "\r\nDTEND:"@ + dt + "\r\nSUMMARY:"@ + escaped(
        a.name + " · "@ + a.course_name,
    ) + "\r\nDESCRIPTION:"@ + escaped(a.course_name) + "\r\nEND:VEVENT\r\n"@
}

/// The task of an assignment that is still to be done.
pub open spec fn deadline_task(a: AssignmentView) -> Seq<char> {
    let dt = basic_time(a.due_at->0);
    "BEGIN:VTODO\r\nUID:aula-todo-"@ + text::decimal(a.id as nat) + "@aula\r\nDTSTAMP:"@ + dt
        + "\r\nDUE:"@ + dt + "\r\nSUMMARY:"@ + escaped(a.name + " · "@ + a.course_name)
        + "\r\nSTATUS:NEEDS-ACTION\r\nEND:VTODO\r\n"@
}

/// Whether an assignment is still to be done.
pub open spec fn still_open(a: AssignmentView) -> bool {
    !a.submitted && a.user_status != "done"@
}

/// What an assignment puts into the document.
pub open spec fn deadline_entry(a: AssignmentView, past: Set<u64>) -> Seq<char> {
    if !has_deadline(a, past) {
        seq![]
    } else if still_open(a) {
        deadline_event(a) + deadline_task(a)
    } else {
        deadline_event(a)
    }
}

/// What the assignments put into the document, in their order.
pub open spec fn deadlines(assignments: Seq<AssignmentView>, past: Set<u64>) -> Seq<char>
    decreases assignments.len(),
{
    if assignments.len() == 0 {
        seq![]
    } else {
        deadlines(assignments.drop_last(), past) + deadline_entry(assignments.last(), past)
    }
}

/// The line that sums up an assignment.
fn assignment_summary(a: &Assignment) -> (r: String)
    ensures
        r@ == escaped(a@.name + " · "@ + a@.course_name),
{
    let mut s = a.name.clone();
    s.append(" · ");
    s.append(a.course_name.as_str());
    ics_esc(s.as_str())
}

/// The event of a deadline.
fn ics_event(a: &Assignment, due: &str) -> (r: String)
    requires
        a@.due_at == Some(due@),
    ensures
        r@ == deadline_event(a@),
{
    let dt = ics_dt(due);
    let summary = assignment_summary(a);
    let course = ics_esc(a.course_name.as_str());
    let id = text::number(a.id);
    let mut s = "BEGIN:VEVENT\r\nUID:aula-".to_owned();
    s.append(id.as_str());
    s.append("@aula\r\nDTSTAMP:");
    s.append(dt.as_str());
    s.append("\r\nDTSTART:");
    s.append(dt.as_str());
    s.append("\r\nDTEND:");
    s.append(dt.as_str());
    s.append("\r\nSUMMARY:");
    s.append(summary.as_str());
    s.append("\r\nDESCRIPTION:");
    s.append(course.as_str());
    s.append("\r\nEND:VEVENT\r\n");
    s
}

/// The task of an assignment.
fn ics_task(a: &Assignment, due: &str) -> (r: String)
    requires
        a@.due_at == Some(due@),
    ensures
        r@ == deadline_task(a@),
{
    let dt = ics_dt(due);
    let summary = assignment_summary(a);
    let id = text::number(a.id);
    let mut s = "BEGIN:VTODO\r\nUID:aula-todo-".to_owned();
    s.append(id.as_str());
    s.append("@aula\r\nDTSTAMP:");
    s.append(dt.as_str());
    s.append("\r\nDUE:");
    s.append(dt.as_str());
    s.append("\r\nSUMMARY:");
    s.append(summary.as_str());
    s.append("\r\nSTATUS:NEEDS-ACTION\r\nEND:VTODO\r\n");
    s
}

/// What an assignment puts into the document.
fn ics_deadline(a: &Assignment, past: &HashSet<u64>) -> (r: String)
    ensures
        r@ == deadline_entry(a@, past@),
{
    broadcast use vstd::std_specs::hash::group_hash_axioms;

    if past.contains(&a.course_id) || text::same(a.user_status.as_str(), "dismissed") {
        return String::new();
    }
    match &a.due_at {
        Some(due) => {
            if due.as_str().is_empty() {
                return String::new();
            }
            assert(a@.due_at == Some(due@));
            let mut s = ics_event(a, due.as_str());
            if !a.submitted && !text::same(a.user_status.as_str(), "done") {
                let task = ics_task(a, due.as_str());
                s.append(task.as_str());
            }
            s
        },
        None => String::new(),
    }
}

// ---------------------------------------------------------------------------
// Events
// ---------------------------------------------------------------------------

/// Whether a date names a day alone: ten bytes with a dash among them.
pub open spec fn day_alone(date: Seq<char>) -> bool {
    encode_utf8(date).len() == 10 && date.contains('-')
}

/// The title of an event, with its course where it has one.
pub open spec fn event_title(ev: CalEventView) -> Seq<char> {
    if ev.course_name.len() == 0 {
        ev.title
    } else {
        ev.title + " · "@ + ev.course_name
    }
}

/// What an event puts into the document; nothing where it has no date.
pub open spec fn event_entry(ev: CalEventView) -> Seq<char> {
    if text::blank(ev.date) {
        seq![]
    } else {
        let day = ev.date.filter(|c: char| !seq!['-'].contains(c));
        let time = basic_time(ev.date);
        let stamp = if day_alone(ev.date) {
            day + "T000000Z"@
        } else {
            time
        };
        let start = if day_alone(ev.date) {
            "DTSTART;VALUE=DATE:"@ + day
        } else {
            "DTSTART:"@ + time
        };
        "BEGIN:VEVENT\r\nUID:aula-ev-"@ + ev.id + "@aula\r\nDTSTAMP:"@ + stamp + "\r\n"@ + start
            + "\r\nSUMMARY:"@ + escaped(event_title(ev)) + "\r\nEND:VEVENT\r\n"@
    }
}

/// What events put into the document, in their order.
pub open spec fn event_entries(evs: Seq<CalEventView>) -> Seq<char>
    decreases evs.len(),
{
    if evs.len() == 0 {
        seq![]
    } else {
        event_entries(evs.drop_last()) + event_entry(evs.last())
    }
}

/// What an event puts into the document.
fn ics_calendar_event(ev: &CalEvent) -> (r: String)
    ensures
        r@ == event_entry(ev@),
{
    if text::is_blank(ev.date.as_str()) {
        return String::new();
    }
    let v = text::chars_of(ev.date.as_str());
    proof {
        text::lemma_first_index(ev.date@, '-');
    }
    let dashed = text::index_of(v.as_slice(), '-').is_some();
    assert(dashed == ev.date@.contains('-'));
    let (start, stamp) = if text::byte_len(ev.date.as_str()) == 10 && dashed {
        let dash: [char; 1] = ['-'];
        let day = text::without_chars(ev.date.as_str(), dash.as_slice());
        assert(dash@ =~= seq!['-']);
        let start = text::concat("DTSTART;VALUE=DATE:", day.as_str());
        let stamp = text::concat(day.as_str(), "T000000Z");
        (start, stamp)
    } else {
        let dt = ics_dt(ev.date.as_str());
        let start = text::concat("DTSTART:", dt.as_str());
        (start, dt)
    };
    let mut title = ev.title.clone();
    if !ev.course_name.as_str().is_empty() {
        title.append(" · ");
        title.append(ev.course_name.as_str());
    }
    let summary = ics_esc(title.as_str());
    let mut s = "BEGIN:VEVENT\r\nUID:aula-ev-".to_owned();
    s.append(ev.id.as_str());
    s.append("@aula\r\nDTSTAMP:");
    s.append(stamp.as_str());
    s.append("\r\n");
    s.append(start.as_str());
    s.append("\r\nSUMMARY:");
    s.append(summary.as_str());
    s.append("\r\nEND:VEVENT\r\n");
    s
}

/// What events put into the document.
fn ics_calendar_events(evs: &Vec<CalEvent>) -> (r: String)
    ensures
        r@ == event_entries(text::views(evs@)),
{
    let mut s = String::new();
    let ghost all = text::views(evs@);
    let mut i: usize = 0;
    while i < evs.len()
        invariant
            i <= evs@.len(),
            all == text::views(evs@),
            s@ == event_entries(all.take(i as int)),
        decreases evs.len() - i,
    {
        let entry = ics_calendar_event(&evs[i]);
        assert(all.take(i + 1).drop_last() =~= all.take(i as int));
        assert(all.take(i + 1).last() == evs@[i as int]@);
        s.append(entry.as_str());
        i += 1;
    }
    assert(all.take(all.len() as int) =~= all);
    s
}

// ---------------------------------------------------------------------------
// The document
// ---------------------------------------------------------------------------

/// The first lines of the document.
pub const ICS_HEAD: &'static str = "BEGIN:VCALENDAR\r\nVERSION:2.0\r\nPRODID:-//Aula//Gestor UC//ES\r\nCALSCALE:GREGORIAN\r\nX-WR-CALNAME:Aula UC\r\n";

/// The last line of the document.
pub const ICS_TAIL: &'static str = "END:VCALENDAR\r\n";

/// The `.ics` document of a state and of the events that the user entered: the
/// deadlines of the current courses, then the events.
pub open spec fn ics_document(st: AppStateView, manual: Seq<CalEventView>) -> Seq<char> {
    ICS_HEAD@ + deadlines(st.assignments, labels::past_ids(st.courses)) + event_entries(st.events)
        + event_entries(manual) + ICS_TAIL@
}

/// The `.ics` document: an event for each deadline and a task for each
/// assignment still to be done, then the events that were detected and those
/// that the user entered. Courses that are over are left out.
pub fn export_ics(state: &AppState, manual: &Vec<CalEvent>) -> (r: String)
    ensures
        r@ == ics_document(state@, text::views(manual@)),
{
    let past = concluded_ids(state);
    let mut due = String::new();
    let ghost all = state@.assignments;
    let mut i: usize = 0;
    while i < state.assignments.len()
        invariant
            i <= state.assignments@.len(),
            all == text::views(state.assignments@),
            due@ == deadlines(all.take(i as int), past@),
        decreases state.assignments.len() - i,
    {
        let entry = ics_deadline(&state.assignments[i], &past);
        assert(all.take(i + 1).drop_last() =~= all.take(i as int));
        assert(all.take(i + 1).last() == state.assignments@[i as int]@);
        due.append(entry.as_str());
        i += 1;
    }
    assert(all.take(all.len() as int) =~= all);
    let mut s = ICS_HEAD.to_owned();
    s.append(due.as_str());
    let detected = ics_calendar_events(&state.events);
    s.append(detected.as_str());
    let entered = ics_calendar_events(manual);
    s.append(entered.as_str());
    s.append(ICS_TAIL);
    s
}

/// Where the `.ics` document lies, below the home folder.
pub const ICS_FOLDER: &'static str = ".local/share/aula";

/// The path of the `.ics` document.
pub fn ics_path(home: &str) -> (r: String)
    ensures
        r@ == paths::path_push(paths::path_push(home@, ICS_FOLDER@), "aula.ics"@),
{
    let dir = join_path(home, ICS_FOLDER);
    join_path(dir.as_str(), "aula.ics")
}

/// Assignments of courses that are over, dismissed ones and those without a
/// deadline leave no trace in the calendar: it is that of the others.
pub proof fn lemma_only_deadlines_count(assignments: Seq<AssignmentView>, past: Set<u64>)
    ensures
        deadlines(assignments, past) == deadlines(
            assignments.filter(|a: AssignmentView| has_deadline(a, past)),
            past,
        ),
    decreases assignments.len(),
{
    let keep = |a: AssignmentView| has_deadline(a, past);
    reveal(Seq::filter);
    if assignments.len() > 0 {
        let rest = assignments.drop_last();
        let a = assignments.last();
        lemma_only_deadlines_count(rest, past);
        if keep(a) {
            assert(assignments.filter(keep) =~= rest.filter(keep).push(a));
            assert(rest.filter(keep).push(a).drop_last() =~= rest.filter(keep));
        } else {
            assert(assignments.filter(keep) =~= rest.filter(keep));
            assert(deadlines(rest, past) + seq![] =~= deadlines(rest, past));
        }
    }
}

// ---------------------------------------------------------------------------
// The widget's entries
// ---------------------------------------------------------------------------

/// An entry of the calendar widget of the desktop.
pub struct WidgetEvent {
    pub title: String,
    /// The day, `YYYY-MM-DD`.
    pub date: String,
    pub course: String,
    /// `tarea`, or where the event comes from.
    pub kind: String,
}

/// What an entry of the calendar widget holds.
#[verifier::ext_equal]
pub struct WidgetEventView {
    pub title: Seq<char>,
    pub date: Seq<char>,
    pub course: Seq<char>,
    pub kind: Seq<char>,
}

impl View for WidgetEvent {
    type V = WidgetEventView;

    open spec fn view(&self) -> WidgetEventView {
        WidgetEventView {
            title: self.title@,
            date: self.date@,
            course: self.course@,
            kind: self.kind@,
        }
    }
}

/// Whether the widget shows the deadline of an assignment.
pub open spec fn on_widget(a: AssignmentView, past: Set<u64>) -> bool {
    &&& !past.contains(a.course_id)
    &&& a.user_status != "dismissed"@
    &&& a.due_at is Some
    &&& encode_utf8(a.due_at->0).len() >= 10
}

/// The entries of the assignments, `days[i]` being the local day of the `i`-th
/// deadline.
pub open spec fn widget_deadlines(
    assignments: Seq<AssignmentView>,
    past: Set<u64>,
    days: Seq<Seq<char>>,
) -> Seq<WidgetEventView>
    decreases assignments.len(),
{
    if assignments.len() == 0 {
        seq![]
    } else {
        let a = assignments.last();
        let before = widget_deadlines(assignments.drop_last(), past, days);
        if on_widget(a, past) {
            before.push(
                WidgetEventView {
                    title: a.name,
                    date: days[assignments.len() - 1],
                    course: a.course_name,
                    kind: "tarea"@,
                },
            )
        } else {
            before
        }
    }
}

/// Whether the widget shows an event, wherever it comes from: it has a full date.
pub open spec fn event_on_widget(ev: CalEventView) -> bool {
    encode_utf8(ev.date).len() >= 10
}

/// The entries of the events.
pub open spec fn widget_events(evs: Seq<CalEventView>) -> Seq<WidgetEventView>
    decreases evs.len(),
{
    if evs.len() == 0 {
        seq![]
    } else {
        let ev = evs.last();
        let before = widget_events(evs.drop_last());
        if event_on_widget(ev) {
            before.push(
                WidgetEventView {
                    title: ev.title,
                    date: text::byte_prefix(ev.date, 10),
                    course: ev.course_name,
                    kind: ev.source,
                },
            )
        } else {
            before
        }
    }
}

/// The entries of the widget, `days[i]` being the local day of the `i`-th
/// deadline.
pub open spec fn widget_entries(st: AppStateView, days: Seq<Seq<char>>) -> Seq<WidgetEventView> {
    widget_deadlines(st.assignments, labels::past_ids(st.courses), days) + widget_events(st.events)
}

/// No date of an event that the widget shows has a character across its tenth
/// byte.
pub open spec fn dates_cut(evs: Seq<CalEventView>) -> bool {
    forall|i: int|
        0 <= i < evs.len() && event_on_widget(#[trigger] evs[i]) ==> text::cuts_at(evs[i].date, 10)
}

/// Whether the day can be cut out of the date of each event that the widget
/// shows.
pub fn event_dates_cut(state: &AppState) -> (r: bool)
    ensures
        r == dates_cut(state@.events),
{
    let ghost all = state@.events;
    let mut i: usize = 0;
    while i < state.events.len()
        invariant
            i <= state.events@.len(),
            all == text::views(state.events@),
            all == state@.events,
            forall|j: int|
                0 <= j < i && event_on_widget(#[trigger] all[j]) ==> text::cuts_at(all[j].date, 10),
        decreases state.events.len() - i,
    {
        let ev = &state.events[i];
        assert(all[i as int] == ev@);
        if text::byte_len(ev.date.as_str()) >= 10 && !text::can_cut(ev.date.as_str(), 10) {
            return false;
        }
        i += 1;
    }
    true
}

/// The entries of the widget, `days[i]` being the local day of the `i`-th
/// deadline.
pub fn widget_calendar(state: &AppState, days: &Vec<String>) -> (r: Vec<WidgetEvent>)
    requires
        days@.len() == state@.assignments.len(),
        dates_cut(state@.events),
    ensures
        text::views(r@) == widget_entries(state@, text::views(days@)),
{
    broadcast use vstd::std_specs::hash::group_hash_axioms;

    let past = concluded_ids(state);
    let mut out: Vec<WidgetEvent> = Vec::new();
    let ghost all = state@.assignments;
    let ghost ds = text::views(days@);
    let mut i: usize = 0;
    assert(text::views(out@) =~= seq![]);
    while i < state.assignments.len()
        invariant
            i <= state.assignments@.len(),
            days@.len() == state.assignments@.len(),
            all == text::views(state.assignments@),
            ds == text::views(days@),
            text::views(out@) == widget_deadlines(all.take(i as int), past@, ds),
        decreases state.assignments.len() - i,
    {
        broadcast use vstd::std_specs::hash::group_hash_axioms;

        let a = &state.assignments[i];
        assert(all.take(i + 1).drop_last() =~= all.take(i as int));
        assert(all.take(i + 1).last() == a@);
        assert(ds[i as int] == days@[i as int]@);
        let full = match &a.due_at {
            Some(due) => {
                assert(a@.due_at == Some(due@));
                text::byte_len(due.as_str()) >= 10
            },
            None => false,
        };
        if full && !past.contains(&a.course_id) && !text::same(a.user_status.as_str(), "dismissed") {
            let e = WidgetEvent {
                title: a.name.clone(),
                date: days[i].clone(),
                course: a.course_name.clone(),
                kind: "tarea".to_owned(),
            };
            proof {
                text::lemma_views_push(out@, e);
            }
            out.push(e);
        }
        i += 1;
    }
    assert(all.take(all.len() as int) =~= all);
    let ghost due = text::views(out@);
    let ghost evs = state@.events;
    let mut k: usize = 0;
    assert(text::views(out@) =~= due + widget_events(evs.take(0)));
    while k < state.events.len()
        invariant
            k <= state.events@.len(),
            evs == text::views(state.events@),
            dates_cut(evs),
            text::views(out@) == due + widget_events(evs.take(k as int)),
        decreases state.events.len() - k,
    {
        let ev = &state.events[k];
        assert(evs[k as int] == ev@);
        assert(evs.take(k + 1).drop_last() =~= evs.take(k as int));
        assert(evs.take(k + 1).last() == ev@);
        if text::byte_len(ev.date.as_str()) >= 10 {
            assert(event_on_widget(evs[k as int]));
            let e = WidgetEvent {
                title: ev.title.clone(),
                date: text::byte_head(ev.date.as_str(), 10),
                course: ev.course_name.clone(),
                kind: ev.source.clone(),
            };
            proof {
                text::lemma_views_push(out@, e);
                assert(due + widget_events(evs.take(k as int)).push(e@) =~= (due + widget_events(
                    evs.take(k as int),
                )).push(e@));
            }
            out.push(e);
        }
        k += 1;
    }
    assert(evs.take(evs.len() as int) =~= evs);
    out
}

/// `days[i]` is a local day of the `i`-th deadline.
pub open spec fn deadline_days(assignments: Seq<AssignmentView>, ds: Seq<Seq<char>>) -> bool {
    &&& ds.len() == assignments.len()
    &&& forall|i: int|
        0 <= i < ds.len() ==> match assignments[i].due_at {
            Some(due) => days::is_local_day(due, #[trigger] ds[i]),
            None => ds[i].len() == 0,
        }
}

/// The local days of the deadlines, in the order of the assignments; nothing
/// where an assignment has none.
pub fn local_deadlines(state: &AppState) -> (r: Vec<String>)
    ensures
        deadline_days(state@.assignments, text::views(r@)),
{
    let mut ds: Vec<String> = Vec::new();
    let ghost all = state@.assignments;
    let mut i: usize = 0;
    while i < state.assignments.len()
        invariant
            i <= state.assignments@.len(),
            all == text::views(state.assignments@),
            ds@.len() == i,
            forall|j: int|
                0 <= j < i ==> match all[j].due_at {
                    Some(due) => days::is_local_day(due, (#[trigger] ds@[j])@),
                    None => ds@[j]@.len() == 0,
                },
        decreases state.assignments.len() - i,
    {
        assert(all[i as int] == state.assignments@[i as int]@);
        let day = match &state.assignments[i].due_at {
            Some(due) => local_date(due.as_str()),
            None => String::new(),
        };
        ds.push(day);
        i += 1;
    }
    ds
}

/// An entry as it stands in the widget's file, its members in the order of their
/// names.
pub open spec fn widget_entry(e: WidgetEventView) -> JsonView {
    JsonView::Object(
        seq![
            ("course"@, JsonView::Str(e.course)),
            ("date"@, JsonView::Str(e.date)),
            ("kind"@, JsonView::Str(e.kind)),
            ("title"@, JsonView::Str(e.title)),
        ],
    )
}

/// An entry as it stands in the widget's file.
fn widget_value(e: &WidgetEvent) -> (r: serde_json::Value)
    ensures
        json::value_content(r) == widget_entry(e@),
{
    let mut v: Vec<(String, serde_json::Value)> = Vec::new();
    v.push(("course".to_owned(), string_entry(e.course.as_str())));
    v.push(("date".to_owned(), string_entry(e.date.as_str())));
    v.push(("kind".to_owned(), string_entry(e.kind.as_str())));
    v.push(("title".to_owned(), string_entry(e.title.as_str())));
    proof {
        reveal_strlit("course");
        reveal_strlit("date");
        reveal_strlit("kind");
        reveal_strlit("title");
        assert(json::members(v@) =~= widget_entry(e@)->Object_0);
    }
    object_entry(v)
}

/// What the widget's file holds of these entries.
pub open spec fn widget_values(es: Seq<WidgetEventView>) -> Seq<JsonView> {
    es.map_values(|e: WidgetEventView| widget_entry(e))
}

/// The text of the widget's file with these entries.
pub fn widget_text(es: &Vec<WidgetEvent>) -> (r: String)
    ensures
        r@ == json::list_text(widget_values(text::views(es@))),
        json::array_of_text(r@) == Some(widget_values(text::views(es@))),
{
    let ghost all = widget_values(text::views(es@));
    let mut out: Vec<serde_json::Value> = Vec::new();
    let mut i: usize = 0;
    assert(json::contents(out@) =~= all.take(0));
    while i < es.len()
        invariant
            i <= es@.len(),
            all == widget_values(text::views(es@)),
            json::contents(out@) == all.take(i as int),
        decreases es.len() - i,
    {
        let v = widget_value(&es[i]);
        proof {
            assert(json::value_content(v) == all[i as int]);
            assert(json::contents(out@.push(v)) =~= json::contents(out@).push(all[i as int]));
            assert(all.take(i + 1) =~= all.take(i as int).push(all[i as int]));
        }
        out.push(v);
        i += 1;
    }
    assert(all.take(all.len() as int) =~= all);
    proof {
        json::lemma_table_is_plain(json::contents(out@));
    }
    text_of_list(&out)
}

/// The text of the widget's file: the deadlines of the current courses by their
/// local day, then the events, those that were detected and those that the user
/// entered.
pub fn export_quickshell_events(state: &AppState) -> (r: String)
    requires
        dates_cut(state@.events),
    ensures
        exists|ds: Seq<Seq<char>>| #[trigger]
            deadline_days(state@.assignments, ds) && r@ == json::list_text(
                widget_values(widget_entries(state@, ds)),
            ) && json::array_of_text(r@) == Some(widget_values(widget_entries(state@, ds))),
{
    let ds = local_deadlines(state);
    let es = widget_calendar(state, &ds);
    assert(deadline_days(state@.assignments, text::views(ds@)));
    widget_text(&es)
}

/// The path of the widget's entries, below the home folder.
pub const WIDGET_FILE: &'static str = ".local/state/quickshell/user/aula_events.json";

/// The path of the widget's entries.
pub fn widget_path(home: &str) -> (r: String)
    ensures
        r@ == paths::path_push(home@, WIDGET_FILE@),
{
    join_path(home, WIDGET_FILE)
}

// ---------------------------------------------------------------------------
// What the calendar says
// ---------------------------------------------------------------------------

/// The user's file tells of an event its id, its title, its date and its course, each
/// under its name; and an entry with a title and a date is read as such an event.
pub proof fn lemma_entries_tell(e: CalEventView, v: JsonView)
    ensures
        user_entry(e).get_str("id"@) == Some(e.id),
        user_entry(e).get_str("title"@) == Some(e.title),
        user_entry(e).get_str("date"@) == Some(e.date),
        user_entry(e).get_str("course"@) == Some(e.course_name),
        v.get_str("id"@) matches Some(s) ==> user_event(v).id == s,
        v.get_str("title"@) matches Some(s) ==> user_event(v).title == s,
        v.get_str("date"@) matches Some(s) ==> user_event(v).date == s,
        v.get_str("course"@) matches Some(s) ==> user_event(v).course_name == s,
        user_event(v).source == "manual"@,
{
    reveal_strlit("id");
    reveal_strlit("title");
    reveal_strlit("date");
    reveal_strlit("course");
    reveal_with_fuel(json::member, 5);
    let es = user_entry(e)->Object_0;
    let a = es.subrange(1, 4);
    let b = a.subrange(1, 3);
    let c = b.subrange(1, 2);
    assert(a[0] == es[1] && a[1] == es[2] && a[2] == es[3]);
    assert(b[0] == es[2] && b[1] == es[3]);
    assert(c[0] == es[3]);
    assert("id"@.len() == 2 && "title"@.len() == 5 && "date"@.len() == 4 && "course"@.len() == 6);
}

/// Every entry of the user's file with a title and a date is an event, and no other.
pub proof fn lemma_entered_events(vs: Seq<JsonView>, n: int)
    requires
        0 <= n <= vs.len(),
    ensures
        forall|i: int|
            0 <= i < n && (#[trigger] vs[i]).text_of("title"@).len() > 0 && vs[i].text_of(
                "date"@,
            ).len() > 0 ==> user_events_upto(vs, n).contains(user_event(vs[i])),
        forall|k: int|
            0 <= k < user_events_upto(vs, n).len() ==> (#[trigger] user_events_upto(
                vs,
                n,
            )[k]).title.len() > 0 && user_events_upto(vs, n)[k].date.len() > 0,
        user_events_upto(vs, n).len() <= n,
    decreases n,
{
    if n > 0 {
        lemma_entered_events(vs, n - 1);
        let before = user_events_upto(vs, n - 1);
        let after = user_events_upto(vs, n);
        assert forall|i: int|
            0 <= i < n && (#[trigger] vs[i]).text_of("title"@).len() > 0 && vs[i].text_of(
                "date"@,
            ).len() > 0 implies after.contains(user_event(vs[i])) by {
            if i < n - 1 {
                let k = choose|k: int| 0 <= k < before.len() && before[k] == user_event(vs[i]);
                assert(after[k] == before[k]);
            } else {
                assert(after[after.len() - 1] == user_event(vs[i]));
            }
        }
        assert forall|k: int| 0 <= k < after.len() implies (#[trigger] after[k]).title.len() > 0
            && after[k].date.len() > 0 by {
            if k < before.len() {
                assert(after[k] == before[k]);
            }
        }
    }
}

/// Escaping goes character by character: `\\`, `;` and `,` get a backslash in front, a
/// line feed becomes `\\n`, and every other character stays.
pub proof fn lemma_escaped_by_char(a: Seq<char>, b: Seq<char>, c: char)
    ensures
        escaped(a + b) == escaped(a) + escaped(b),
        escaped(seq!['\\']) == seq!['\\', '\\'],
        escaped(seq![';']) == seq!['\\', ';'],
        escaped(seq![',']) == seq!['\\', ','],
        escaped(seq!['\n']) == seq!['\\', 'n'],
        c != '\\' && c != ';' && c != ',' && c != '\n' ==> escaped(seq![c]) == seq![c],
    decreases a.len(),
{
    reveal_with_fuel(escaped, 3);
    assert(seq!['\\'].skip(1).len() == 0 && seq![';'].skip(1).len() == 0 && seq![','].skip(1).len()
        == 0 && seq!['\n'].skip(1).len() == 0 && seq![c].skip(1).len() == 0);
    assert(escaped(seq!['\\']) =~= seq!['\\', '\\']);
    assert(escaped(seq![';']) =~= seq!['\\', ';']);
    assert(escaped(seq![',']) =~= seq!['\\', ',']);
    assert(escaped(seq!['\n']) =~= seq!['\\', 'n']);
    assert(c != '\\' && c != ';' && c != ',' && c != '\n' ==> escaped(seq![c]) =~= seq![c]);
    if a.len() > 0 {
        lemma_escaped_by_char(a.skip(1), b, c);
        assert((a + b).skip(1) =~= a.skip(1) + b);
        assert(escaped(a + b) =~= escaped(a) + escaped(b));
    } else {
        assert(a + b =~= b);
        assert(escaped(a) + escaped(b) =~= escaped(b));
    }
}

/// A time in the basic format holds no dash and no colon and ends with `Z`.
pub proof fn lemma_basic_time(iso: Seq<char>)
    ensures
        !basic_time(iso).contains('-'),
        !basic_time(iso).contains(':'),
        basic_time(iso).len() > 0 && basic_time(iso).last() == 'Z',
        forall|i: int|
            0 <= i < before_dot(text::trimmed(iso)).len() && (#[trigger] before_dot(
                text::trimmed(iso),
            )[i]) != '-' && before_dot(text::trimmed(iso))[i] != ':' ==> basic_time(iso).contains(
                before_dot(text::trimmed(iso))[i],
            ),
{
    let head = before_dot(text::trimmed(iso));
    let drop = seq!['-', ':'];
    let keep = |c: char| !seq!['-', ':'].contains(c);
    let out = head.filter(keep);
    let r = basic_time(iso);
    assert(drop[0] == '-' && drop[1] == ':');
    assert forall|i: int| 0 <= i < r.len() implies r[i] != '-' && r[i] != ':' by {
        if i < out.len() {
            head.lemma_filter_pred(keep, i);
            assert(r[i] == out[i]);
        }
    }
    assert forall|i: int| 0 <= i < head.len() && (#[trigger] head[i]) != '-' && head[i]
        != ':' implies r.contains(head[i]) by {
        assert(keep(head[i])) by {
            if drop.contains(head[i]) {
                let k = choose|k: int| 0 <= k < drop.len() && drop[k] == head[i];
                assert(k == 0 || k == 1);
            }
        }
        head.lemma_filter_contains(keep, i);
        let k = choose|k: int| 0 <= k < out.len() && out[k] == head[i];
        assert(r[k] == head[i]);
    }
}

/// The deadlines of two lists, one behind the other, stand one behind the other.
proof fn lemma_deadlines_add(a: Seq<AssignmentView>, b: Seq<AssignmentView>, past: Set<u64>)
    ensures
        deadlines(a + b, past) == deadlines(a, past) + deadlines(b, past),
    decreases b.len(),
{
    if b.len() == 0 {
        assert(a + b =~= a);
        assert(deadlines(a, past) + deadlines(b, past) =~= deadlines(a, past));
    } else {
        lemma_deadlines_add(a, b.drop_last(), past);
        assert((a + b).drop_last() =~= a + b.drop_last());
        assert((a + b).last() == b.last());
        assert(deadlines(a + b, past) =~= deadlines(a, past) + deadlines(b, past));
    }
}

/// The entries of two lists of events, one behind the other, stand one behind the
/// other.
proof fn lemma_events_add(a: Seq<CalEventView>, b: Seq<CalEventView>)
    ensures
        event_entries(a + b) == event_entries(a) + event_entries(b),
    decreases b.len(),
{
    if b.len() == 0 {
        assert(a + b =~= a);
        assert(event_entries(a) + event_entries(b) =~= event_entries(a));
    } else {
        lemma_events_add(a, b.drop_last());
        assert((a + b).drop_last() =~= a + b.drop_last());
        assert((a + b).last() == b.last());
        assert(event_entries(a + b) =~= event_entries(a) + event_entries(b));
    }
}

/// An assignment counts for the calendar: it has a deadline, its course is not over
/// and the user did not dismiss it.
pub open spec fn counts(st: AppStateView, a: AssignmentView) -> bool {
    &&& forall|c: int|
        0 <= c < st.courses.len() && (#[trigger] st.courses[c]).id == a.course_id
            ==> !st.courses[c].concluded
    &&& a.user_status != "dismissed"@
    &&& a.due_at matches Some(due) && due.len() > 0
}

/// What counts has a deadline.
proof fn lemma_counts(st: AppStateView, a: AssignmentView)
    ensures
        has_deadline(a, labels::past_ids(st.courses)) == counts(st, a),
{
    labels::lemma_past(st.courses, a.course_id);
}

/// Every assignment that counts is an event of the calendar under its number, at its
/// deadline and with its name and course; and while it is neither handed in nor marked
/// as done, it is a task to be done until then.
#[verifier::rlimit(40)]
pub proof fn lemma_deadline_in_calendar(st: AppStateView, manual: Seq<CalEventView>, k: int)
    requires
        0 <= k < st.assignments.len(),
        counts(st, st.assignments[k]),
    ensures
        ({
            let a = st.assignments[k];
            let at = basic_time(a.due_at->0);
            let what = escaped(a.name + " · "@ + a.course_name);
            let doc = ics_document(st, manual);
            &&& text::contains(
                doc,
                "BEGIN:VEVENT\r\nUID:aula-"@ + text::decimal(a.id as nat) + "@aula\r\nDTSTAMP:"@ + at
                    + "\r\nDTSTART:"@ + at + "\r\nDTEND:"@ + at + "\r\nSUMMARY:"@ + what
                    + "\r\nDESCRIPTION:"@ + escaped(a.course_name) + "\r\nEND:VEVENT\r\n"@,
            )
            &&& !a.submitted && a.user_status != "done"@ ==> text::contains(
                doc,
                "BEGIN:VTODO\r\nUID:aula-todo-"@ + text::decimal(a.id as nat)
                    + "@aula\r\nDTSTAMP:"@ + at + "\r\nDUE:"@ + at + "\r\nSUMMARY:"@ + what
                    + "\r\nSTATUS:NEEDS-ACTION\r\nEND:VTODO\r\n"@,
            )
        }),
{
    let a = st.assignments[k];
    let past = labels::past_ids(st.courses);
    lemma_counts(st, a);
    let front = st.assignments.take(k);
    let back = st.assignments.skip(k + 1);
    assert(st.assignments =~= front + seq![a] + back);
    lemma_deadlines_add(front + seq![a], back, past);
    lemma_deadlines_add(front, seq![a], past);
    reveal_with_fuel(deadlines, 2);
    assert(seq![a].drop_last().len() == 0);
    let entry = deadline_entry(a, past);
    assert(deadlines(seq![a], past) =~= entry);
    let head = ICS_HEAD@ + deadlines(front, past);
    let tail = deadlines(back, past) + event_entries(st.events) + event_entries(manual) + ICS_TAIL@;
    let doc = ics_document(st, manual);
    assert(doc =~= head + entry + tail);
    let ev = deadline_event(a);
    if still_open(a) {
        let task = deadline_task(a);
        text::lemma_contains_part(Seq::<char>::empty(), ev, task);
        assert(Seq::<char>::empty() + ev + task =~= entry);
        text::lemma_contains_part(ev, task, Seq::<char>::empty());
        assert(ev + task + Seq::<char>::empty() =~= entry);
        text::lemma_contains_in(head, entry, tail, task);
    } else {
        text::lemma_contains_part(Seq::<char>::empty(), ev, Seq::<char>::empty());
        assert(Seq::<char>::empty() + ev + Seq::<char>::empty() =~= entry);
    }
    text::lemma_contains_in(head, entry, tail, ev);
}

/// An assignment that does not count leaves no trace in the calendar, and one that is
/// handed in or marked as done is no task: with it the calendar is longer by its event
/// alone.
#[verifier::rlimit(40)]
pub proof fn lemma_no_other_deadline(st: AppStateView, manual: Seq<CalEventView>, k: int)
    requires
        0 <= k < st.assignments.len(),
    ensures
        ({
            let a = st.assignments[k];
            let at = basic_time(a.due_at->0);
            let doc = ics_document(st, manual);
            let without = ics_document(
                AppStateView { assignments: st.assignments.remove(k), ..st },
                manual,
            );
            &&& !counts(st, a) ==> doc == without
            &&& counts(st, a) && (a.submitted || a.user_status == "done"@) ==> doc.len()
                == without.len() + ("BEGIN:VEVENT\r\nUID:aula-"@ + text::decimal(a.id as nat)
                + "@aula\r\nDTSTAMP:"@ + at + "\r\nDTSTART:"@ + at + "\r\nDTEND:"@ + at
                + "\r\nSUMMARY:"@ + escaped(a.name + " · "@ + a.course_name) + "\r\nDESCRIPTION:"@
                + escaped(a.course_name) + "\r\nEND:VEVENT\r\n"@).len()
        }),
{
    let a = st.assignments[k];
    let past = labels::past_ids(st.courses);
    lemma_counts(st, a);
    let front = st.assignments.take(k);
    let back = st.assignments.skip(k + 1);
    assert(st.assignments =~= front + seq![a] + back);
    assert(st.assignments.remove(k) =~= front + back);
    lemma_deadlines_add(front + seq![a], back, past);
    lemma_deadlines_add(front, seq![a], past);
    lemma_deadlines_add(front, back, past);
    reveal_with_fuel(deadlines, 2);
    assert(seq![a].drop_last().len() == 0);
    assert(deadlines(seq![a], past) =~= deadline_entry(a, past));
    if !counts(st, a) {
        assert(deadlines(st.assignments, past) =~= deadlines(front, past) + deadlines(back, past));
    }
}

/// The same characters, grouped otherwise.
proof fn lemma_regroup(
    h: Seq<char>,
    x: Seq<char>,
    y: Seq<char>,
    f: Seq<char>,
    e: Seq<char>,
    b: Seq<char>,
    t: Seq<char>,
)
    requires
        x + y == f + e + b,
    ensures
        h + x + y + t == (h + f) + e + (b + t),
{
    assert(h + x + y + t =~= h + (x + y) + t);
    assert(h + (f + e + b) + t =~= (h + f) + e + (b + t));
}

/// What an event puts into the calendar stands in it.
#[verifier::rlimit(40)]
proof fn lemma_entry_in_calendar(st: AppStateView, manual: Seq<CalEventView>, ev: CalEventView)
    requires
        st.events.contains(ev) || manual.contains(ev),
    ensures
        text::contains(ics_document(st, manual), event_entry(ev)),
{
    let past = labels::past_ids(st.courses);
    let all = st.events + manual;
    lemma_events_add(st.events, manual);
    let k: int = if st.events.contains(ev) {
        choose|k: int| 0 <= k < st.events.len() && st.events[k] == ev
    } else {
        st.events.len() + choose|k: int| 0 <= k < manual.len() && manual[k] == ev
    };
    assert(all[k] == ev);
    let front = all.take(k);
    let back = all.skip(k + 1);
    assert(all =~= front + seq![ev] + back);
    lemma_events_add(front + seq![ev], back);
    lemma_events_add(front, seq![ev]);
    let entry = event_entry(ev);
    assert(event_entries(seq![ev]) == entry) by {
        reveal_with_fuel(event_entries, 2);
        assert(seq![ev].drop_last().len() == 0);
        assert(event_entries(seq![ev]) =~= entry);
    }
    let due = deadlines(st.assignments, past);
    let f = event_entries(front);
    let b = event_entries(back);
    lemma_regroup(
        ICS_HEAD@ + due,
        event_entries(st.events),
        event_entries(manual),
        f,
        entry,
        b,
        ICS_TAIL@,
    );
    text::lemma_contains_part(ICS_HEAD@ + due + f, entry, b + ICS_TAIL@);
}

/// Every event with a date, those of the state and those that the user entered, is in
/// the calendar under its id, with its title and course: on its day where its date is
/// one, and otherwise at its time.
pub proof fn lemma_event_in_calendar(st: AppStateView, manual: Seq<CalEventView>, ev: CalEventView)
    requires
        st.events.contains(ev) || manual.contains(ev),
        !text::blank(ev.date),
    ensures
        ({
            let what = if ev.course_name.len() == 0 {
                ev.title
            } else {
                ev.title + " · "@ + ev.course_name
            };
            let day = ev.date.filter(|c: char| !seq!['-'].contains(c));
            let at = basic_time(ev.date);
            let doc = ics_document(st, manual);
            &&& encode_utf8(ev.date).len() == 10 && ev.date.contains('-') ==> text::contains(
                doc,
                "BEGIN:VEVENT\r\nUID:aula-ev-"@ + ev.id + "@aula\r\nDTSTAMP:"@ + (day
                    + "T000000Z"@) + "\r\n"@ + ("DTSTART;VALUE=DATE:"@ + day) + "\r\nSUMMARY:"@
                    + escaped(what) + "\r\nEND:VEVENT\r\n"@,
            )
            &&& !(encode_utf8(ev.date).len() == 10 && ev.date.contains('-')) ==> text::contains(
                doc,
                "BEGIN:VEVENT\r\nUID:aula-ev-"@ + ev.id + "@aula\r\nDTSTAMP:"@ + at + "\r\n"@ + (
                "DTSTART:"@ + at) + "\r\nSUMMARY:"@ + escaped(what) + "\r\nEND:VEVENT\r\n"@,
            )
        }),
{
    lemma_entry_in_calendar(st, manual, ev);
}

/// An event without a date leaves no trace in the calendar.
pub proof fn lemma_undated_left_out(st: AppStateView, manual: Seq<CalEventView>, k: int)
    requires
        0 <= k < st.events.len(),
        text::blank(st.events[k].date),
    ensures
        ics_document(st, manual) == ics_document(
            AppStateView { events: st.events.remove(k), ..st },
            manual,
        ),
{
    let ev = st.events[k];
    let front = st.events.take(k);
    let back = st.events.skip(k + 1);
    assert(st.events =~= front + seq![ev] + back);
    assert(st.events.remove(k) =~= front + back);
    lemma_events_add(front + seq![ev], back);
    lemma_events_add(front, seq![ev]);
    lemma_events_add(front, back);
    reveal_with_fuel(event_entries, 2);
    assert(seq![ev].drop_last().len() == 0);
    assert(event_entries(seq![ev]).len() == 0);
    assert(event_entries(st.events) =~= event_entries(front) + event_entries(back));
}

/// The document is a calendar of iCalendar, closed where it was opened.
pub proof fn lemma_calendar_frame(st: AppStateView, manual: Seq<CalEventView>)
    ensures
        "BEGIN:VCALENDAR\r\nVERSION:2.0\r\n"@.is_prefix_of(ics_document(st, manual)),
        ics_document(st, manual).skip(
            ics_document(st, manual).len() - "END:VCALENDAR\r\n"@.len(),
        ) == "END:VCALENDAR\r\n"@,
{
    reveal_strlit("BEGIN:VCALENDAR\r\nVERSION:2.0\r\n");
    reveal_strlit(
        "BEGIN:VCALENDAR\r\nVERSION:2.0\r\nPRODID:-//Aula//Gestor UC//ES\r\nCALSCALE:GREGORIAN\r\nX-WR-CALNAME:Aula UC\r\n",
    );
    let doc = ics_document(st, manual);
    let front = "BEGIN:VCALENDAR\r\nVERSION:2.0\r\n"@;
    assert(doc.take(front.len() as int) =~= front);
    assert(doc.skip(doc.len() - ICS_TAIL@.len()) =~= ICS_TAIL@);
}

/// The widget's file tells of an entry its title, its day, its course and its kind,
/// each under its name.
pub proof fn lemma_widget_tells(e: WidgetEventView)
    ensures
        widget_entry(e).get_str("title"@) == Some(e.title),
        widget_entry(e).get_str("date"@) == Some(e.date),
        widget_entry(e).get_str("course"@) == Some(e.course),
        widget_entry(e).get_str("kind"@) == Some(e.kind),
{
    reveal_strlit("kind");
    reveal_strlit("title");
    reveal_strlit("date");
    reveal_strlit("course");
    reveal_with_fuel(json::member, 5);
    let es = widget_entry(e)->Object_0;
    let a = es.subrange(1, 4);
    let b = a.subrange(1, 3);
    let c = b.subrange(1, 2);
    assert(a[0] == es[1] && a[1] == es[2] && a[2] == es[3]);
    assert(b[0] == es[2] && b[1] == es[3]);
    assert(c[0] == es[3]);
    assert("kind"@[0] == 'k' && "title"@.len() == 5 && "date"@[0] == 'd' && "course"@.len() == 6);
    assert("kind"@ != "date"@);
}

/// Some entry is the deadline of the assignment.
pub open spec fn shows_deadline(es: Seq<WidgetEventView>, a: AssignmentView, day: Seq<char>) -> bool {
    exists|i: int|
        0 <= i < es.len() && (#[trigger] es[i]).title == a.name && es[i].date == day
            && es[i].course == a.course_name && es[i].kind == "tarea"@
}

/// Some entry is the event.
pub open spec fn shows_event(es: Seq<WidgetEventView>, ev: CalEventView) -> bool {
    exists|i: int|
        0 <= i < es.len() && (#[trigger] es[i]).title == ev.title && es[i].date
            == text::byte_prefix(ev.date, 10) && es[i].course == ev.course_name && es[i].kind
            == ev.source
}

/// The deadlines on the widget.
proof fn lemma_widget_deadlines(
    assignments: Seq<AssignmentView>,
    past: Set<u64>,
    days: Seq<Seq<char>>,
    k: int,
)
    requires
        0 <= k < assignments.len(),
    ensures
        on_widget(assignments[k], past) ==> shows_deadline(
            widget_deadlines(assignments, past, days),
            assignments[k],
            days[k],
        ),
        widget_deadlines(assignments, past, days).len() <= assignments.len(),
    decreases assignments.len(),
{
    let n = assignments.len() - 1;
    let rest = assignments.drop_last();
    let before = widget_deadlines(rest, past, days);
    let after = widget_deadlines(assignments, past, days);
    if k < n {
        lemma_widget_deadlines(rest, past, days, k);
        assert(rest[k] == assignments[k]);
        if on_widget(assignments[k], past) {
            let i = choose|i: int|
                0 <= i < before.len() && (#[trigger] before[i]).title == assignments[k].name
                    && before[i].date == days[k] && before[i].course == assignments[k].course_name
                    && before[i].kind == "tarea"@;
            assert(after[i] == before[i]);
        }
    } else {
        if n > 0 {
            lemma_widget_deadlines(rest, past, days, 0);
        }
        if on_widget(assignments[k], past) {
            assert(after[after.len() - 1].title == assignments[k].name);
        }
    }
}

/// The events on the widget.
proof fn lemma_widget_events(evs: Seq<CalEventView>, k: int)
    requires
        0 <= k < evs.len(),
    ensures
        encode_utf8(evs[k].date).len() >= 10 ==> shows_event(widget_events(evs), evs[k]),
    decreases evs.len(),
{
    let n = evs.len() - 1;
    let rest = evs.drop_last();
    let before = widget_events(rest);
    let after = widget_events(evs);
    if k < n {
        lemma_widget_events(rest, k);
        assert(rest[k] == evs[k]);
        if encode_utf8(evs[k].date).len() >= 10 {
            let i = choose|i: int|
                0 <= i < before.len() && (#[trigger] before[i]).title == evs[k].title
                    && before[i].date == text::byte_prefix(evs[k].date, 10) && before[i].course
                    == evs[k].course_name && before[i].kind == evs[k].source;
            assert(after[i] == before[i]);
        }
    } else if encode_utf8(evs[k].date).len() >= 10 {
        assert(after[after.len() - 1].title == evs[k].title);
    }
}

/// The widget shows every deadline of a current course that the user did not dismiss,
/// on its day, and every event with a full date, whoever made it; and it shows no
/// deadline of a course that is over, none that was dismissed and none without a date:
/// without such an assignment its entries are the same.
pub proof fn lemma_widget_shows(st: AppStateView, days: Seq<Seq<char>>)
    requires
        days.len() == st.assignments.len(),
    ensures
        forall|k: int|
            0 <= k < st.assignments.len() && counts(st, #[trigger] st.assignments[k])
                && encode_utf8(st.assignments[k].due_at->0).len() >= 10 ==> shows_deadline(
                widget_entries(st, days),
                st.assignments[k],
                days[k],
            ),
        forall|k: int|
            0 <= k < st.events.len() && encode_utf8((#[trigger] st.events[k]).date).len() >= 10
                ==> shows_event(widget_entries(st, days), st.events[k]),
{
    let past = labels::past_ids(st.courses);
    let due = widget_deadlines(st.assignments, past, days);
    let evs = widget_events(st.events);
    let all = widget_entries(st, days);
    assert forall|k: int|
        0 <= k < st.assignments.len() && counts(st, #[trigger] st.assignments[k]) && encode_utf8(
            st.assignments[k].due_at->0,
        ).len() >= 10 implies shows_deadline(all, st.assignments[k], days[k]) by {
        let a = st.assignments[k];
        lemma_counts(st, a);
        lemma_widget_deadlines(st.assignments, past, days, k);
        let i = choose|i: int|
            0 <= i < due.len() && (#[trigger] due[i]).title == a.name && due[i].date == days[k]
                && due[i].course == a.course_name && due[i].kind == "tarea"@;
        assert(all[i] == due[i]);
    }
    assert forall|k: int|
        0 <= k < st.events.len() && encode_utf8((#[trigger] st.events[k]).date).len() >= 10 implies
        shows_event(all, st.events[k]) by {
        let ev = st.events[k];
        lemma_widget_events(st.events, k);
        let i = choose|i: int|
            0 <= i < evs.len() && (#[trigger] evs[i]).title == ev.title && evs[i].date
                == text::byte_prefix(ev.date, 10) && evs[i].course == ev.course_name && evs[i].kind
                == ev.source;
        assert(all[due.len() + i] == evs[i]);
    }
}

/// The entries of assignments without the last, where it is not shown.
proof fn lemma_widget_without(
    assignments: Seq<AssignmentView>,
    past: Set<u64>,
    days: Seq<Seq<char>>,
    k: int,
)
    requires
        0 <= k < assignments.len() <= days.len(),
        !on_widget(assignments[k], past),
    ensures
        widget_deadlines(assignments, past, days) == widget_deadlines(
            assignments.remove(k),
            past,
            days.remove(k),
        ),
    decreases assignments.len(),
{
    let n = assignments.len() - 1;
    let rest = assignments.remove(k);
    if k == n {
        assert(rest =~= assignments.drop_last());
        lemma_widget_agree(rest, past, days, days.remove(k));
    } else {
        lemma_widget_without(assignments.drop_last(), past, days, k);
        assert(rest.drop_last() =~= assignments.drop_last().remove(k));
        assert(rest.last() == assignments.last());
        assert(days.remove(k)[n - 1] == days[n]);
    }
}

/// Only the days of the assignments themselves count.
proof fn lemma_widget_agree(
    assignments: Seq<AssignmentView>,
    past: Set<u64>,
    ds: Seq<Seq<char>>,
    es: Seq<Seq<char>>,
)
    requires
        forall|i: int| 0 <= i < assignments.len() ==> #[trigger] ds[i] == es[i],
    ensures
        widget_deadlines(assignments, past, ds) == widget_deadlines(assignments, past, es),
    decreases assignments.len(),
{
    if assignments.len() > 0 {
        lemma_widget_agree(assignments.drop_last(), past, ds, es);
        assert(ds[assignments.len() - 1] == es[assignments.len() - 1]);
    }
}

/// An assignment of a course that is over, one that the user dismissed and one without
/// a full date leave no trace on the widget.
pub proof fn lemma_widget_hides(st: AppStateView, days: Seq<Seq<char>>, k: int)
    requires
        days.len() == st.assignments.len(),
        0 <= k < st.assignments.len(),
        !counts(st, st.assignments[k]) || encode_utf8(st.assignments[k].due_at->0).len() < 10,
    ensures
        widget_entries(st, days) == widget_entries(
            AppStateView { assignments: st.assignments.remove(k), ..st },
            days.remove(k),
        ),
{
    let past = labels::past_ids(st.courses);
    lemma_counts(st, st.assignments[k]);
    if st.assignments[k].due_at is Some && st.assignments[k].due_at->0.len() == 0 {
        assert(st.assignments[k].due_at->0 =~= Seq::<char>::empty());
        assert(encode_utf8(Seq::<char>::empty()).len() == 0);
    }
    lemma_widget_without(st.assignments, past, days, k);
}

/// What stays when dashes and colons are dropped.
proof fn lemma_kept(s: Seq<char>)
    requires
        !s.contains('-'),
        !s.contains(':'),
    ensures
        s.filter(|c: char| !seq!['-', ':'].contains(c)) == s,
    decreases s.len(),
{
    reveal(Seq::filter);
    let keep = |c: char| !seq!['-', ':'].contains(c);
    if s.len() > 0 {
        let rest = s.drop_last();
        assert(!rest.contains('-') && !rest.contains(':')) by {
            if rest.contains('-') {
                let i = choose|i: int| 0 <= i < rest.len() && rest[i] == '-';
                assert(s[i] == '-');
            }
            if rest.contains(':') {
                let i = choose|i: int| 0 <= i < rest.len() && rest[i] == ':';
                assert(s[i] == ':');
            }
        }
        lemma_kept(rest);
        assert(keep(s.last())) by {
            let drop = seq!['-', ':'];
            if drop.contains(s.last()) {
                let k = choose|k: int| 0 <= k < drop.len() && drop[k] == s.last();
                assert(drop[0] == '-' && drop[1] == ':');
                assert(s[s.len() - 1] == s.last());
                assert(s.contains(s.last()));
            }
        }
        assert(rest.push(s.last()) =~= s);
    }
}

/// A dash or a colon alone leaves nothing.
proof fn lemma_dropped()
    ensures
        seq!['-'].filter(|c: char| !seq!['-', ':'].contains(c)).len() == 0,
        seq![':'].filter(|c: char| !seq!['-', ':'].contains(c)).len() == 0,
{
    reveal(Seq::filter);
    reveal_with_fuel(Seq::filter, 2);
    let keep = |c: char| !seq!['-', ':'].contains(c);
    let drop = seq!['-', ':'];
    assert(drop[0] == '-' && drop[1] == ':');
    assert(!keep('-') && !keep(':'));
    assert(seq!['-'].drop_last().len() == 0 && seq![':'].drop_last().len() == 0);
    assert(seq!['-'].drop_last() =~= Seq::empty() && seq![':'].drop_last() =~= Seq::empty());
}

/// The parts of a text between two separators that are dropped.
proof fn lemma_drop_between(a: Seq<char>, c: char, b: Seq<char>)
    requires
        c == '-' || c == ':',
    ensures
        (a + seq![c] + b).filter(|c: char| !seq!['-', ':'].contains(c)) == a.filter(
            |c: char| !seq!['-', ':'].contains(c),
        ) + b.filter(|c: char| !seq!['-', ':'].contains(c)),
{
    let keep = |c: char| !seq!['-', ':'].contains(c);
    lemma_dropped();
    Seq::filter_distributes_over_add(a + seq![c], b, keep);
    Seq::filter_distributes_over_add(a, seq![c], keep);
    assert(a.filter(keep) + seq![c].filter(keep) =~= a.filter(keep));
}

/// A part of a time: it holds no mark and no blank.
pub open spec fn time_part(s: Seq<char>) -> bool {
    forall|i: int|
        0 <= i < s.len() ==> (#[trigger] s[i]) != '-' && s[i] != ':' && s[i] != '.'
            && !text::is_white(s[i])
}

/// A time of the extended format, with or without fractions of a second, becomes the
/// same time in the basic format: its parts in their order, without the marks between
/// them and without the fraction.
pub proof fn lemma_time_made_basic(
    year: Seq<char>,
    month: Seq<char>,
    day: Seq<char>,
    minute: Seq<char>,
    second: Seq<char>,
    fraction: Seq<char>,
)
    requires
        time_part(year) && time_part(month) && time_part(day) && time_part(minute) && time_part(
            second,
        ) && time_part(fraction),
        year.len() > 0 && second.len() > 0 && second.last() != 'Z' && fraction.len() > 0,
    ensures
        basic_time(
            year + seq!['-'] + month + seq!['-'] + day + seq![':'] + minute + seq![':'] + second,
        ) == year + month + day + minute + second + seq!['Z'],
        basic_time(
            year + seq!['-'] + month + seq!['-'] + day + seq![':'] + minute + seq![':'] + second
                + seq!['Z'],
        ) == year + month + day + minute + second + seq!['Z'],
        basic_time(
            year + seq!['-'] + month + seq!['-'] + day + seq![':'] + minute + seq![':'] + second
                + seq!['.'] + fraction,
        ) == year + month + day + minute + second + seq!['Z'],
{
    let z = seq!['Z'];
    let s = year + seq!['-'] + month + seq!['-'] + day + seq![':'] + minute + seq![':'] + second;
    let keep = |c: char| !seq!['-', ':'].contains(c);
    let plain = year + month + day + minute + second;
    lemma_time_filtered(year, month, day, minute, second);
    assert(s.filter(keep) == plain);
    assert(plain.last() == second.last());
    lemma_no_dot(year, month, day, minute, second);
    assert(s[0] == year[0] && s.last() == second.last());
    text::lemma_trim_nothing(s);
    text::lemma_first_index(s, '.');
    assert(before_dot(s) == s);
    // With the mark of universal time.
    let sz = s + z;
    assert(sz[0] == s[0] && sz.last() == 'Z');
    text::lemma_trim_nothing(sz);
    text::lemma_first_index(sz, '.');
    assert(text::first_index(sz, '.') is None) by {
        if text::first_index(sz, '.') is Some {
            let p = text::first_index(sz, '.')->0;
            if p < s.len() {
                assert(s[p] == '.');
            }
        }
    }
    Seq::filter_distributes_over_add(s, z, keep);
    assert(time_part(z));
    lemma_part_kept(z);
    assert(sz.filter(keep) == plain + z);
    // With a fraction.
    let sf = s + seq!['.'] + fraction;
    assert(sf[0] == s[0] && sf.last() == fraction.last());
    text::lemma_trim_nothing(sf);
    text::lemma_first_index(sf, '.');
    assert(text::first_index(sf, '.') == Some(s.len() as int)) by {
        assert(sf[s.len() as int] == '.');
        let p = text::first_index(sf, '.')->0;
        if p < s.len() {
            assert(s[p] == '.');
        }
    }
    assert(sf.take(s.len() as int) =~= s);
    assert(before_dot(sf) == s);
    assert(plain.push('Z') =~= plain + z);
}

/// A part of a time is kept whole.
proof fn lemma_part_kept(s: Seq<char>)
    requires
        time_part(s),
    ensures
        s.filter(|c: char| !seq!['-', ':'].contains(c)) == s,
{
    lemma_kept(s);
}

/// The time of the extended format without its marks.
proof fn lemma_time_filtered(
    year: Seq<char>,
    month: Seq<char>,
    day: Seq<char>,
    minute: Seq<char>,
    second: Seq<char>,
)
    requires
        time_part(year) && time_part(month) && time_part(day) && time_part(minute) && time_part(
            second,
        ),
    ensures
        (year + seq!['-'] + month + seq!['-'] + day + seq![':'] + minute + seq![':']
            + second).filter(|c: char| !seq!['-', ':'].contains(c)) == year + month + day + minute
            + second,
{
    let keep = |c: char| !seq!['-', ':'].contains(c);
    lemma_part_kept(year);
    lemma_part_kept(month);
    lemma_part_kept(day);
    lemma_part_kept(minute);
    lemma_part_kept(second);
    let a = year + seq!['-'] + month;
    let b = a + seq!['-'] + day;
    let c = b + seq![':'] + minute;
    lemma_drop_between(year, '-', month);
    lemma_drop_between(a, '-', day);
    lemma_drop_between(b, ':', minute);
    lemma_drop_between(c, ':', second);
}

/// No dot stands in a time without fractions.
proof fn lemma_no_dot(
    year: Seq<char>,
    month: Seq<char>,
    day: Seq<char>,
    minute: Seq<char>,
    second: Seq<char>,
)
    requires
        time_part(year) && time_part(month) && time_part(day) && time_part(minute) && time_part(
            second,
        ),
    ensures
        forall|i: int|
            0 <= i < (year + seq!['-'] + month + seq!['-'] + day + seq![':'] + minute + seq![':']
                + second).len() ==> #[trigger] (year + seq!['-'] + month + seq!['-'] + day + seq![
                ':',
            ] + minute + seq![':'] + second)[i] != '.',
{
}

/// What is seen of an entry of the widget is what it holds, each thing as itself.
pub proof fn lemma_widget_event_seen(x: WidgetEvent)
    ensures
        x@.title == x.title@,
        x@.date == x.date@,
        x@.course == x.course@,
        x@.kind == x.kind@,
{
}

/// The widget's entries stand in their order: the deadlines first, each behind those of
/// the assignments before it, and then the events, each behind those before it.
pub proof fn lemma_widget_in_order(st: AppStateView, days: Seq<Seq<char>>)
    ensures
        ({
            let due = AppStateView { events: Seq::empty(), ..st };
            let evs = AppStateView { assignments: Seq::empty(), ..st };
            widget_entries(st, days) == widget_entries(due, days) + widget_entries(evs, days)
        }),
        st.events.len() == 0 && st.assignments.len() > 0 ==> widget_entries(
            AppStateView { assignments: st.assignments.drop_last(), ..st },
            days,
        ).is_prefix_of(widget_entries(st, days)),
        st.events.len() > 0 ==> widget_entries(
            AppStateView { events: st.events.drop_last(), ..st },
            days,
        ).is_prefix_of(widget_entries(st, days)),
{
    let past = labels::past_ids(st.courses);
    let d = widget_deadlines(st.assignments, past, days);
    let e = widget_events(st.events);
    assert(widget_deadlines(Seq::empty(), past, days) =~= Seq::empty());
    assert(widget_events(Seq::empty()) =~= Seq::empty());
    assert(d + Seq::<WidgetEventView>::empty() =~= d);
    assert(Seq::<WidgetEventView>::empty() + e =~= e);
    if st.events.len() == 0 && st.assignments.len() > 0 {
        assert(e =~= Seq::empty());
        let b = widget_deadlines(st.assignments.drop_last(), past, days);
        assert(d.take(b.len() as int) =~= b);
        assert(b + e =~= b);
        assert(d + e =~= d);
    }
    if st.events.len() > 0 {
        let b = widget_events(st.events.drop_last());
        assert(e.take(b.len() as int) =~= b);
        assert((d + e).take((d + b).len() as int) =~= d + b);
    }
}

/// The files that the widget and the user share hold an entry for each event, in their
/// order.
pub proof fn lemma_entries_in_order(evs: Seq<CalEventView>, es: Seq<WidgetEventView>, i: int)
    ensures
        user_entries(evs).len() == evs.len(),
        widget_values(es).len() == es.len(),
        0 <= i < evs.len() ==> user_entries(evs)[i].get_str("title"@) == Some(evs[i].title)
            && user_entries(evs)[i].get_str("date"@) == Some(evs[i].date),
        0 <= i < es.len() ==> widget_values(es)[i].get_str("title"@) == Some(es[i].title)
            && widget_values(es)[i].get_str("date"@) == Some(es[i].date),
{
    if 0 <= i < evs.len() {
        lemma_entries_tell(evs[i], JsonView::Null);
    }
    if 0 <= i < es.len() {
        lemma_widget_tells(es[i]);
    }
}

} // verus!
