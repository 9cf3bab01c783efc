//! Names of courses as folders carry them, and which courses are over.

use vstd::prelude::*;
use vstd::string::*;
use vstd::slice::slice_subrange;
use std::collections::HashMap;
use std::collections::HashSet;
use crate::store::{AppState, Course, CourseView};
use crate::text::is_digit_char;
use crate::text;

verus! {

/// The word of a term that speaks for the first semester.
pub const FIRST_SEMESTER: &'static str = "primer";

/// The word of a term that speaks for the second semester.
pub const SECOND_SEMESTER: &'static str = "segundo";

/// Words of a term that speak for the summer term.
pub const SUMMER_TERM: [&'static str; 2] = ["tav", "verano"];

/// Four digits stand in `s` from position `i` on.
pub open spec fn year_at(s: Seq<char>, i: int) -> bool {
    0 <= i && i + 4 <= s.len() && text::is_digit(s[i]) && text::is_digit(s[i + 1])
        && text::is_digit(s[i + 2]) && text::is_digit(s[i + 3])
}

/// The first four digits in a row from position `i` on, or nothing.
pub open spec fn year_from(s: Seq<char>, i: int) -> Seq<char>
    decreases s.len() - i,
{
    if i < 0 || i + 4 > s.len() {
        seq![]
    } else if year_at(s, i) {
        s.subrange(i, i + 4)
    } else {
        year_from(s, i + 1)
    }
}

/// The digit `d` stands in `s` at `i + 1` as the number of a semester: behind a
/// dash, a space or a slash, and not as the first digit of a year.
pub open spec fn number_at(s: Seq<char>, d: char, i: int) -> bool {
    &&& 0 <= i && i + 1 < s.len()
    &&& s[i] == '-' || s[i] == ' ' || s[i] == '/'
    &&& s[i + 1] == d
    &&& !year_at(s, i + 1)
}

/// The digit `d` stands in `s` as the number of a semester.
pub open spec fn numbered(s: Seq<char>, d: char) -> bool {
    exists|i: int| #[trigger] number_at(s, d, i)
}

/// A term in lower case speaks for the summer term: it has a word for it, and none
/// for a semester.
pub open spec fn is_summer(l: Seq<char>) -> bool {
    text::contains_any(l, SUMMER_TERM@) && !text::contains(l, FIRST_SEMESTER@) && !text::contains(
        l,
        SECOND_SEMESTER@,
    )
}

/// The semester that a term in lower case speaks for, by its words and numbers, or
/// nothing. The number of a summer term is that of no semester.
pub open spec fn semester(l: Seq<char>) -> Seq<char> {
    if is_summer(l) {
        "TAV"@
    } else if text::contains(l, FIRST_SEMESTER@) || numbered(l, '1') {
        "Primer semestre"@
    } else if text::contains(l, SECOND_SEMESTER@) || numbered(l, '2') {
        "Segundo semestre"@
    } else {
        ""@
    }
}

/// The label of the term `t`, `l` being the same text in lower case: semester
/// and year as far as they are told, else the term as it stands.
pub open spec fn label_with(t: Seq<char>, l: Seq<char>) -> Seq<char> {
    let sem = semester(l);
    let year = year_from(l, 0);
    if sem.len() > 0 && year.len() > 0 {
        sem + " "@ + year
    } else if sem.len() > 0 {
        sem
    } else if year.len() > 0 {
        year
    } else {
        t
    }
}

/// The label of a term of Canvas.
pub open spec fn label_of_term(term: Seq<char>) -> Seq<char> {
    let t = text::trimmed(term);
    if t.len() == 0 {
        seq![]
    } else {
        label_with(t, text::lowercase(t))
    }
}

/// The first four digits in a row, or nothing.
pub fn year_in(s: &str) -> (r: String)
    ensures
        r@ == year_from(s@, 0),
{
    let v = text::chars_of(s);
    let n: usize = v.len();
    let mut i: usize = 0;
    while i < n && n - i >= 4
        invariant
            v@ == s@,
            n == v@.len(),
            i <= n,
            year_from(s@, 0) == year_from(s@, i as int),
        decreases n - i,
    {
        if is_digit_char(v[i]) && is_digit_char(v[i + 1]) && is_digit_char(v[i + 2])
            && is_digit_char(v[i + 3]) {
            return text::string_of(slice_subrange(v.as_slice(), i, i + 4));
        }
        i += 1;
    }
    String::new()
}

/// Whether a digit stands in a text as the number of a semester.
fn has_number(s: &str, d: char) -> (r: bool)
    ensures
        r == numbered(s@, d),
{
    let v = text::chars_of(s);
    let n: usize = v.len();
    let mut i: usize = 0;
    while i < n && n - i >= 2
        invariant
            v@ == s@,
            n == v@.len(),
            i <= n,
            forall|j: int| 0 <= j < i ==> !(#[trigger] number_at(s@, d, j)),
        decreases n - i,
    {
        if (v[i] == '-' || v[i] == ' ' || v[i] == '/') && v[i + 1] == d {
            let year = n - i >= 5 && is_digit_char(v[i + 1]) && is_digit_char(v[i + 2])
                && is_digit_char(v[i + 3]) && is_digit_char(v[i + 4]);
            if !year {
                assert(number_at(s@, d, i as int));
                return true;
            }
        }
        i += 1;
    }
    false
}

/// The semester that a term in lower case speaks for, or nothing.
pub fn semester_in(l: &str) -> (r: &'static str)
    ensures
        r@ == semester(l@),
{
    let first = text::has(l, FIRST_SEMESTER);
    let second = text::has(l, SECOND_SEMESTER);
    if !first && !second && text::has_any(l, SUMMER_TERM.as_slice()) {
        "TAV"
    } else if first || has_number(l, '1') {
        "Primer semestre"
    } else if second || has_number(l, '2') {
        "Segundo semestre"
    } else {
        ""
    }
}

/// The label of the term `t`, `l` being the same text in lower case.
pub fn term_label_lowered(t: &str, l: &str) -> (r: String)
    ensures
        r@ == label_with(t@, l@),
{
    let year = year_in(l);
    let sem = semester_in(l);
    if !sem.is_empty() {
        if !year.as_str().is_empty() {
            let mut out = sem.to_owned();
            out.append(" ");
            out.append(year.as_str());
            out
        } else {
            sem.to_owned()
        }
    } else if !year.as_str().is_empty() {
        year
    } else {
        t.to_owned()
    }
}

/// The label of a term of Canvas: "Primer semestre 2026" and the like.
pub fn term_label(term: &str) -> (r: String)
    ensures
        r@ == label_of_term(term@),
{
    let t = text::trim(term);
    if t.as_str().is_empty() {
        return String::new();
    }
    let l = t.as_str().to_lowercase();
    term_label_lowered(t.as_str(), l.as_str())
}

// ---------------------------------------------------------------------------
// Labels of courses
// ---------------------------------------------------------------------------

/// Another course has the name of the `i`-th.
pub open spec fn name_repeats(courses: Seq<CourseView>, i: int) -> bool {
    exists|j: int|
        0 <= j < courses.len() && j != i && #[trigger] courses[j].name == courses[i].name
}

/// What tells a course from others of its name: the label of its term, or its
/// number where the term says nothing.
pub open spec fn label_suffix(c: CourseView) -> Seq<char> {
    let tl = label_of_term(c.term);
    if tl.len() == 0 {
        "#"@ + text::decimal(c.id as nat)
    } else {
        tl
    }
}

/// The label of the `i`-th course: its name, with the term where the name
/// alone would not tell it from another.
pub open spec fn label_at(courses: Seq<CourseView>, i: int) -> Seq<char> {
    if name_repeats(courses, i) {
        courses[i].name + " ("@ + label_suffix(courses[i]) + ")"@
    } else {
        courses[i].name
    }
}

/// The labels of the first `n` courses by their number; where a number occurs
/// twice, that of the later course.
pub open spec fn labels_upto(courses: Seq<CourseView>, n: int) -> Map<u64, Seq<char>>
    decreases n,
{
    if n <= 0 {
        Map::empty()
    } else {
        labels_upto(courses, n - 1).insert(courses[n - 1].id, label_at(courses, n - 1))
    }
}

/// The labels of all courses by their number.
pub open spec fn labels_of(courses: Seq<CourseView>) -> Map<u64, Seq<char>> {
    labels_upto(courses, courses.len() as int)
}

/// A map of texts by what the texts are.
pub open spec fn text_map(m: Map<u64, String>) -> Map<u64, Seq<char>> {
    m.map_values(|s: String| s@)
}

/// Whether another course has the name of the `i`-th.
fn repeats(courses: &Vec<Course>, i: usize) -> (r: bool)
    requires
        i < courses@.len(),
    ensures
        r == name_repeats(text::views(courses@), i as int),
{
    let ghost cs = text::views(courses@);
    let mut j: usize = 0;
    while j < courses.len()
        invariant
            i < courses@.len(),
            j <= courses@.len(),
            cs == text::views(courses@),
            forall|k: int|
                0 <= k < j && k != i ==> #[trigger] cs[k].name != cs[i as int].name,
        decreases courses.len() - j,
    {
        assert(cs[j as int].name == courses@[j as int].name@);
        if j != i && text::same(courses[j].name.as_str(), courses[i].name.as_str()) {
            return true;
        }
        j += 1;
    }
    false
}

/// The labels of the courses by their number.
pub fn course_labels(state: &AppState) -> (r: HashMap<u64, String>)
    ensures
        text_map(r@) == labels_of(state@.courses),
{
    broadcast use vstd::std_specs::hash::group_hash_axioms;

    let courses = &state.courses;
    let ghost cs = state@.courses;
    let mut out: HashMap<u64, String> = HashMap::new();
    let mut i: usize = 0;
    assert(text_map(out@) =~= labels_upto(cs, 0));
    while i < courses.len()
        invariant
            i <= courses@.len(),
            cs == text::views(courses@),
            text_map(out@) == labels_upto(cs, i as int),
        decreases courses.len() - i,
    {
        broadcast use vstd::std_specs::hash::group_hash_axioms;

        let c = &courses[i];
        assert(cs[i as int] == c@);
        let label = if repeats(courses, i) {
            let tl = term_label(c.term.as_str());
            let mut s = c.name.clone();
            s.append(" (");
            if tl.as_str().is_empty() {
                let suffix = text::concat("#", text::number(c.id).as_str());
                s.append(suffix.as_str());
            } else {
                s.append(tl.as_str());
            }
            s.append(")");
            s
        } else {
            c.name.clone()
        };
        assert(label@ == label_at(cs, i as int));
        let ghost prev = out@;
        out.insert(c.id, label);
        assert(text_map(out@) =~= text_map(prev).insert(c.id, label@));
        i += 1;
    }
    out
}

/// The label under `id`, or `name` where there is none.
pub open spec fn folder_label(labels: Map<u64, Seq<char>>, id: u64, name: Seq<char>) -> Seq<char> {
    if labels.contains_key(id) {
        labels[id]
    } else {
        name
    }
}

/// The label under `id`, or `name` where there is none.
pub fn label_or(labels: &HashMap<u64, String>, id: u64, name: &str) -> (r: String)
    ensures
        r@ == folder_label(text_map(labels@), id, name@),
{
    broadcast use vstd::std_specs::hash::group_hash_axioms;

    match labels.get(&id) {
        Some(s) => {
            assert(text_map(labels@)[id] == s@);
            s.clone()
        },
        None => name.to_owned(),
    }
}

/// Every course has a label, and a course whose name no other has is labelled
/// with its name.
pub proof fn lemma_labels(courses: Seq<CourseView>, n: int, i: int)
    requires
        0 <= i < n <= courses.len(),
        forall|j: int| i < j < n ==> #[trigger] courses[j].id != courses[i].id,
    ensures
        labels_upto(courses, n).contains_key(courses[i].id),
        labels_upto(courses, n)[courses[i].id] == label_at(courses, i),
        !name_repeats(courses, i) ==> labels_upto(courses, n)[courses[i].id] == courses[i].name,
    decreases n,
{
    if i < n - 1 {
        lemma_labels(courses, n - 1, i);
        assert(courses[n - 1].id != courses[i].id);
    }
}

// ---------------------------------------------------------------------------
// Courses that are over
// ---------------------------------------------------------------------------

/// `id` is the number of a course that is over.
pub open spec fn is_past(courses: Seq<CourseView>, id: u64) -> bool {
    exists|i: int|
        0 <= i < courses.len() && #[trigger] courses[i].concluded && courses[i].id == id
}

/// The numbers of the courses that are over.
pub open spec fn past_ids(courses: Seq<CourseView>) -> Set<u64> {
    Set::new(|id: u64| is_past(courses, id))
}

/// The numbers of the courses that are over.
pub fn concluded_ids(state: &AppState) -> (r: HashSet<u64>)
    ensures
        r@ == past_ids(state@.courses),
{
    broadcast use vstd::std_specs::hash::group_hash_axioms;

    let courses = &state.courses;
    let ghost cs = state@.courses;
    let mut out: HashSet<u64> = HashSet::new();
    let mut i: usize = 0;
    assert(out@ =~= past_ids(cs.take(0)));
    while i < courses.len()
        invariant
            i <= courses@.len(),
            cs == text::views(courses@),
            out@ == past_ids(cs.take(i as int)),
        decreases courses.len() - i,
    {
        broadcast use vstd::std_specs::hash::group_hash_axioms;

        let ghost prev = out@;
        assert(cs[i as int] == courses@[i as int]@);
        if courses[i].concluded {
            out.insert(courses[i].id);
        }
        proof {
            let a = cs.take(i as int);
            let b = cs.take(i + 1);
            assert forall|id: u64| is_past(b, id) == (is_past(a, id) || (cs[i as int].concluded
                && cs[i as int].id == id)) by {
                if is_past(a, id) {
                    let k = choose|k: int|
                        0 <= k < a.len() && #[trigger] a[k].concluded && a[k].id == id;
                    assert(b[k] == a[k]);
                }
                if is_past(b, id) {
                    let k = choose|k: int|
                        0 <= k < b.len() && #[trigger] b[k].concluded && b[k].id == id;
                    if k < i {
                        assert(a[k] == b[k]);
                    }
                }
                if cs[i as int].concluded && cs[i as int].id == id {
                    assert(b[i as int].concluded);
                }
            }
            assert(out@ =~= past_ids(b));
        }
        i += 1;
    }
    assert(cs.take(cs.len() as int) =~= cs);
    out
}

// ---------------------------------------------------------------------------
// What a label says
// ---------------------------------------------------------------------------

/// A digit `d` stands in the text behind a dash, a space or a slash, and no year
/// begins there.
pub open spec fn has_mark(l: Seq<char>, d: char) -> bool {
    exists|i: int|
        #![trigger l[i]]
        1 <= i < l.len() && l[i] == d && (l[i - 1] == '-' || l[i - 1] == ' ' || l[i - 1] == '/')
            && !(i + 3 < l.len() && '0' <= l[i + 1] <= '9' && '0' <= l[i + 2] <= '9' && '0' <= l[i
            + 3] <= '9')
}

/// A number of a semester is a mark.
proof fn lemma_marks(l: Seq<char>, d: char)
    requires
        '0' <= d <= '9',
    ensures
        numbered(l, d) == has_mark(l, d),
{
    if numbered(l, d) {
        let i = choose|i: int| #[trigger] number_at(l, d, i);
        assert(l[i + 1] == d);
    }
    if has_mark(l, d) {
        let i = choose|i: int|
            #![trigger l[i]]
            1 <= i < l.len() && l[i] == d && (l[i - 1] == '-' || l[i - 1] == ' ' || l[i - 1] == '/')
                && !(i + 3 < l.len() && '0' <= l[i + 1] <= '9' && '0' <= l[i + 2] <= '9' && '0'
                <= l[i + 3] <= '9');
        assert(number_at(l, d, i - 1));
    }
}

/// Which semester a term in lower case speaks for: "primer" is the first, "segundo"
/// the second unless a number says first, "tav" or "verano" alone the summer term
/// whatever its number, and otherwise the number decides.
pub proof fn lemma_semesters(l: Seq<char>)
    ensures
        ({
            let first = text::contains(l, "primer"@);
            let second = text::contains(l, "segundo"@);
            let summer = text::contains(l, "tav"@) || text::contains(l, "verano"@);
            let one = has_mark(l, '1');
            let two = has_mark(l, '2');
            &&& first ==> semester(l) == "Primer semestre"@
            &&& !first && second && one ==> semester(l) == "Primer semestre"@
            &&& !first && second && !one ==> semester(l) == "Segundo semestre"@
            &&& !first && !second && summer ==> semester(l) == "TAV"@
            &&& !first && !second && !summer && one ==> semester(l) == "Primer semestre"@
            &&& !first && !second && !summer && !one && two ==> semester(l)
                == "Segundo semestre"@
            &&& !first && !second && !summer && !one && !two ==> semester(l).len() == 0
        }),
{
    reveal_strlit("");
    lemma_marks(l, '1');
    lemma_marks(l, '2');
    assert(SUMMER_TERM@[0]@ == "tav"@ && SUMMER_TERM@[1]@ == "verano"@);
    if text::contains_any(l, SUMMER_TERM@) {
        let i = choose|i: int|
            0 <= i < SUMMER_TERM@.len() && text::contains(l, #[trigger] SUMMER_TERM@[i]@);
        assert(i == 0 || i == 1);
    }
}

/// The year of a text is its first four digits in a row; a text without such a row
/// has none.
pub proof fn lemma_year(s: Seq<char>, i: int)
    requires
        0 <= i,
    ensures
        year_from(s, i).len() == 0 || year_from(s, i).len() == 4,
        year_from(s, i).len() == 0 ==> forall|k: int|
            i <= k && k + 4 <= s.len() ==> !('0' <= #[trigger] s[k] <= '9' && '0' <= s[k + 1]
                <= '9' && '0' <= s[k + 2] <= '9' && '0' <= s[k + 3] <= '9'),
        year_from(s, i).len() == 4 ==> exists|k: int|
            i <= k && k + 4 <= s.len() && year_from(s, i) == #[trigger] s.subrange(k, k + 4) && '0'
                <= s[k] <= '9' && '0' <= s[k + 1] <= '9' && '0' <= s[k + 2] <= '9' && '0' <= s[k
                + 3] <= '9',
    decreases s.len() - i,
{
    if i + 4 <= s.len() {
        if year_at(s, i) {
            assert(s.subrange(i, i + 4).len() == 4);
        } else {
            lemma_year(s, i + 1);
        }
    }
}

/// The label of a term begins with the semester and ends with the year, as far as
/// they are told, and is the term itself where neither is.
pub proof fn lemma_label_says(t: Seq<char>, l: Seq<char>)
    ensures
        ({
            let label = label_with(t, l);
            let sem = semester(l);
            let year = year_from(l, 0);
            &&& sem.len() > 0 ==> sem.is_prefix_of(label)
            &&& year.len() > 0 ==> label.skip(label.len() - year.len()) == year
            &&& sem.len() > 0 && year.len() > 0 ==> label.len() == sem.len() + 1 + year.len()
                && label[sem.len() as int] == ' '
            &&& sem.len() > 0 && year.len() == 0 ==> label.len() == sem.len()
            &&& sem.len() == 0 && year.len() > 0 ==> label.len() == year.len()
            &&& sem.len() == 0 && year.len() == 0 ==> label == t
        }),
{
    reveal_strlit(" ");
    let sem = semester(l);
    let year = year_from(l, 0);
    let label = label_with(t, l);
    if sem.len() > 0 && year.len() > 0 {
        assert(label.take(sem.len() as int) =~= sem);
        assert(label.skip(label.len() - year.len()) =~= year);
    } else if sem.len() == 0 && year.len() > 0 {
        assert(label.skip(0) =~= year);
    }
}

/// A course is labelled with its name; where another has that name too, the term is
/// put behind it in brackets, so that courses of one name whose terms have different
/// labels have different labels.
pub proof fn lemma_labels_tell_apart(courses: Seq<CourseView>, i: int, j: int)
    requires
        0 <= i < courses.len(),
        0 <= j < courses.len(),
        i != j,
        courses[i].name == courses[j].name,
        label_of_term(courses[i].term).len() > 0,
        label_of_term(courses[j].term).len() > 0,
        label_of_term(courses[i].term) != label_of_term(courses[j].term),
    ensures
        label_at(courses, i) != label_at(courses, j),
        courses[i].name.is_prefix_of(label_at(courses, i)),
        text::contains(label_at(courses, i), label_of_term(courses[i].term)),
{
    assert(courses[i].name == courses[j].name && courses[j].name == courses[i].name);
    assert(name_repeats(courses, i) && name_repeats(courses, j));
    let a = courses[i].name + " ("@;
    let x = label_of_term(courses[i].term);
    let y = label_of_term(courses[j].term);
    let p = label_at(courses, i);
    let q = label_at(courses, j);
    assert(p == a + x + ")"@);
    assert(q == a + y + ")"@);
    text::lemma_contains_part(a, x, ")"@);
    assert(p.take(courses[i].name.len() as int) =~= courses[i].name);
    if p == q {
        assert(x.len() == y.len());
        assert(p.subrange(a.len() as int, (a.len() + x.len()) as int) =~= x);
        assert(q.subrange(a.len() as int, (a.len() + y.len()) as int) =~= y);
    }
}

/// Courses of one name without a term are told apart by their numbers.
pub proof fn lemma_numbers_tell_apart(courses: Seq<CourseView>, i: int, j: int)
    requires
        0 <= i < courses.len(),
        0 <= j < courses.len(),
        i != j,
        courses[i].name == courses[j].name,
        label_of_term(courses[i].term).len() == 0,
        label_of_term(courses[j].term).len() == 0,
        courses[i].id != courses[j].id,
    ensures
        label_at(courses, i) != label_at(courses, j),
{
    assert(courses[i].name == courses[j].name && courses[j].name == courses[i].name);
    assert(name_repeats(courses, i) && name_repeats(courses, j));
    let a = courses[i].name + " ("@;
    let x = "#"@ + text::decimal(courses[i].id as nat);
    let y = "#"@ + text::decimal(courses[j].id as nat);
    let p = label_at(courses, i);
    let q = label_at(courses, j);
    assert(p == a + x + ")"@);
    assert(q == a + y + ")"@);
    if p == q {
        assert(x.len() == y.len());
        assert(p.subrange(a.len() as int, (a.len() + x.len()) as int) =~= x);
        assert(q.subrange(a.len() as int, (a.len() + y.len()) as int) =~= y);
        assert(x.skip("#"@.len() as int) =~= text::decimal(courses[i].id as nat));
        assert(y.skip("#"@.len() as int) =~= text::decimal(courses[j].id as nat));
        text::lemma_decimal_injective(courses[i].id as nat, courses[j].id as nat);
    }
}

/// A course is over exactly where a course of that number is.
pub proof fn lemma_past(courses: Seq<CourseView>, id: u64)
    ensures
        past_ids(courses).contains(id) ==> exists|i: int|
            0 <= i < courses.len() && (#[trigger] courses[i]).id == id && courses[i].concluded,
        forall|i: int|
            0 <= i < courses.len() && (#[trigger] courses[i]).id == id && courses[i].concluded
                ==> past_ids(courses).contains(id),
{
    if past_ids(courses).contains(id) {
        let i = choose|i: int|
            0 <= i < courses.len() && #[trigger] courses[i].concluded && courses[i].id == id;
        assert(courses[i].id == id);
    }
    assert forall|i: int|
        0 <= i < courses.len() && (#[trigger] courses[i]).id == id && courses[i].concluded implies
        past_ids(courses).contains(id) by {
        assert(is_past(courses, id));
    }
}

/// A course whose name no other has is labelled with its name; where another has it,
/// with the label of its term in brackets behind it, or with its number where the term
/// says nothing.
pub proof fn lemma_label_of_course(courses: Seq<CourseView>, i: int)
    requires
        0 <= i < courses.len(),
    ensures
        (forall|j: int| 0 <= j < courses.len() && j != i ==> (#[trigger] courses[j]).name
            != courses[i].name) ==> label_at(courses, i) == courses[i].name,
        (exists|j: int| 0 <= j < courses.len() && j != i && (#[trigger] courses[j]).name
            == courses[i].name) && label_of_term(courses[i].term).len() > 0 ==> label_at(courses, i)
            == courses[i].name + " ("@ + label_of_term(courses[i].term) + ")"@,
        (exists|j: int| 0 <= j < courses.len() && j != i && (#[trigger] courses[j]).name
            == courses[i].name) && label_of_term(courses[i].term).len() == 0 ==> label_at(
            courses,
            i,
        ) == courses[i].name + " ("@ + ("#"@ + text::decimal(courses[i].id as nat)) + ")"@,
        text::blank(courses[i].term) ==> label_of_term(courses[i].term).len() == 0,
        !text::blank(courses[i].term) ==> label_of_term(courses[i].term) == label_with(
            text::trimmed(courses[i].term),
            text::lowercase(text::trimmed(courses[i].term)),
        ),
{
    text::lemma_trimmed(courses[i].term);
}

/// The folder of a course's files bears the label of the course with their number, and
/// the name that the files have where no course has it.
pub proof fn lemma_folder_label(courses: Seq<CourseView>, id: u64, name: Seq<char>, i: int)
    ensures
        0 <= i < courses.len() && courses[i].id == id && (forall|j: int|
            i < j < courses.len() ==> (#[trigger] courses[j]).id != id) ==> folder_label(
            labels_of(courses),
            id,
            name,
        ) == label_at(courses, i),
        (forall|j: int| 0 <= j < courses.len() ==> (#[trigger] courses[j]).id != id)
            ==> folder_label(labels_of(courses), id, name) == name,
{
    if 0 <= i < courses.len() && courses[i].id == id && (forall|j: int|
        i < j < courses.len() ==> (#[trigger] courses[j]).id != id) {
        lemma_labels(courses, courses.len() as int, i);
    }
    if forall|j: int| 0 <= j < courses.len() ==> (#[trigger] courses[j]).id != id {
        lemma_no_label(courses, courses.len() as int, id);
    }
}

/// A number that no course has has no label.
proof fn lemma_no_label(courses: Seq<CourseView>, n: int, id: u64)
    requires
        0 <= n <= courses.len(),
        forall|j: int| 0 <= j < courses.len() ==> (#[trigger] courses[j]).id != id,
    ensures
        !labels_upto(courses, n).contains_key(id),
    decreases n,
{
    if n > 0 {
        lemma_no_label(courses, n - 1, id);
        assert(courses[n - 1].id != id);
    }
}

} // verus!
