//! What the answers of the language models come to.

use vstd::prelude::*;
use vstd::string::*;
use crate::categories::{category_named_in, keyword_category, match_category};
use crate::categories;
use crate::json::{extract_json_array, Json, JsonView};
use crate::json;
use crate::text::is_digit_char;
use crate::text;

verus! {

/// What an answer says, where there is one.
pub open spec fn answer_view(r: Result<String, String>) -> Option<Seq<char>> {
    match r {
        Ok(s) => Some(s@),
        Err(_) => None,
    }
}

/// The entries of an answer: the array in its text; none where there is no
/// answer or no array in it.
pub open spec fn entries_in(answer: Option<Seq<char>>) -> Seq<JsonView> {
    match answer {
        Some(s) => match json::array_in(s) {
            Some(es) => es,
            None => seq![],
        },
        None => seq![],
    }
}

/// The entries of an answer.
fn answer_entries(answer: &Result<String, String>) -> (r: Vec<Json>)
    ensures
        text::views(r@) == entries_in(answer_view(*answer)),
{
    match answer {
        Ok(s) => match extract_json_array(s.as_str()) {
            Some(es) => es,
            None => {
                let none: Vec<Json> = Vec::new();
                assert(text::views(none@) =~= seq![]);
                none
            },
        },
        Err(_) => {
            let none: Vec<Json> = Vec::new();
            assert(text::views(none@) =~= seq![]);
            none
        },
    }
}

// ---------------------------------------------------------------------------
// One document
// ---------------------------------------------------------------------------

/// The category of one document: the one that the answer, in lower case, names;
/// else the one that the words of the document and of the answer speak for.
pub open spec fn category_with(
    filename: Seq<char>,
    content: Seq<char>,
    lowered: Option<Seq<char>>,
) -> Seq<char> {
    let hay = filename + " "@ + text::first_chars(content, 3000);
    match lowered {
        Some(ans) => match categories::named_category(ans, 0) {
            Some(c) => c,
            None => categories::category_by_words(text::lowercase(hay + " "@ + ans)),
        },
        None => categories::category_by_words(text::lowercase(hay)),
    }
}

/// The category of one document, `lowered` being the answer in lower case.
pub fn classify_lowered(filename: &str, content: &str, lowered: Option<&str>) -> (r: String)
    ensures
        r@ == category_with(
            filename@,
            content@,
            match lowered {
                Some(s) => Some(s@),
                None => None,
            },
        ),
        categories::is_category(r@),
{
    let mut hay = filename.to_owned();
    hay.append(" ");
    hay.append(text::take_chars(content, 3000).as_str());
    match lowered {
        Some(ans) => match category_named_in(ans) {
            Some(c) => {
                proof {
                    categories::lemma_named_is_category(ans@, 0);
                }
                c.to_owned()
            },
            None => {
                hay.append(" ");
                hay.append(ans);
                proof {
                    categories::lemma_words_give_category(text::lowercase(hay@));
                }
                keyword_category(hay.as_str()).to_owned()
            },
        },
        None => {
            proof {
                categories::lemma_words_give_category(text::lowercase(hay@));
            }
            keyword_category(hay.as_str()).to_owned()
        },
    }
}

/// The answer in lower case, where there is one.
pub open spec fn lowered_answer(answer: Option<Seq<char>>) -> Option<Seq<char>> {
    match answer {
        Some(s) => Some(text::lowercase(s)),
        None => None,
    }
}

/// The category of one document, by the answer of the local model; without an
/// answer by its words alone.
pub fn classify(filename: &str, content: &str, answer: &Result<String, String>) -> (r: String)
    ensures
        r@ == category_with(filename@, content@, lowered_answer(answer_view(*answer))),
        categories::is_category(r@),
{
    match answer {
        Ok(s) => {
            let lower = s.as_str().to_lowercase();
            classify_lowered(filename, content, Some(lower.as_str()))
        },
        Err(_) => classify_lowered(filename, content, None),
    }
}

// ---------------------------------------------------------------------------
// Files by name
// ---------------------------------------------------------------------------

/// The category that the folder and the name of a file speak for.
pub open spec fn words_category(folder: Seq<char>, filename: Seq<char>) -> Seq<char> {
    categories::category_by_words(text::lowercase(folder + " "@ + filename))
}

/// The category that the folder and the name of a file speak for.
fn category_by_folder_and_name(folder: &str, filename: &str) -> (r: String)
    ensures
        r@ == words_category(folder@, filename@),
{
    let mut s = folder.to_owned();
    s.append(" ");
    s.append(filename);
    keyword_category(s.as_str()).to_owned()
}

/// The category that an entry names.
pub open spec fn entry_category(e: JsonView) -> Option<Seq<char>> {
    match e.get_str("cat"@) {
        Some(s) => categories::named_category(text::lowercase(s), 0),
        None => None,
    }
}

/// The category that an entry names.
fn category_in_entry(e: &Json) -> (r: Option<String>)
    ensures
        text::opt_view(r) == entry_category(e@),
{
    match e.get_str("cat") {
        Some(s) => match_category(s),
        None => None,
    }
}

/// The categories after an entry: that of the file it numbers is the one it
/// names. An entry without a number of the files or without a category changes
/// nothing.
pub open spec fn with_name_entry(cats: Seq<Seq<char>>, e: JsonView) -> Seq<Seq<char>> {
    match e.get_u64("i"@) {
        Some(i) => match entry_category(e) {
            Some(c) => if i < cats.len() {
                cats.update(i as int, c)
            } else {
                cats
            },
            None => cats,
        },
        None => cats,
    }
}

/// The categories after the first `n` entries.
pub open spec fn with_name_entries(
    cats: Seq<Seq<char>>,
    es: Seq<JsonView>,
    n: int,
) -> Seq<Seq<char>>
    decreases n,
{
    if n <= 0 {
        cats
    } else {
        with_name_entry(with_name_entries(cats, es, n - 1), es[n - 1])
    }
}

/// The categories of files: by their words, and where the answer names one, that
/// one.
pub open spec fn batch_categories(
    items: Seq<(Seq<char>, Seq<char>, Seq<char>)>,
    es: Seq<JsonView>,
) -> Seq<Seq<char>> {
    with_name_entries(
        items.map_values(|it: (Seq<char>, Seq<char>, Seq<char>)| words_category(it.1, it.0)),
        es,
        es.len() as int,
    )
}

/// Entries leave as many categories as there were, and each a category.
proof fn lemma_name_entries(cats: Seq<Seq<char>>, es: Seq<JsonView>, n: int)
    requires
        forall|i: int| 0 <= i < cats.len() ==> categories::is_category(#[trigger] cats[i]),
    ensures
        with_name_entries(cats, es, n).len() == cats.len(),
        forall|i: int|
            0 <= i < cats.len() ==> categories::is_category(
                #[trigger] with_name_entries(cats, es, n)[i],
            ),
    decreases n,
{
    if n > 0 {
        lemma_name_entries(cats, es, n - 1);
        match es[n - 1].get_str("cat"@) {
            Some(s) => {
                categories::lemma_named_is_category(text::lowercase(s), 0);
            },
            None => {},
        }
    }
}

/// Whatever the answer says, there is one category for each file.
pub proof fn lemma_batch_categories(
    items: Seq<(Seq<char>, Seq<char>, Seq<char>)>,
    es: Seq<JsonView>,
)
    ensures
        batch_categories(items, es).len() == items.len(),
        forall|i: int|
            0 <= i < items.len() ==> categories::is_category(
                #[trigger] batch_categories(items, es)[i],
            ),
{
    let base = items.map_values(
        |it: (Seq<char>, Seq<char>, Seq<char>)| words_category(it.1, it.0),
    );
    assert forall|k: int| 0 <= k < base.len() implies categories::is_category(
        #[trigger] base[k],
    ) by {
        categories::lemma_words_give_category(text::lowercase(items[k].1 + " "@ + items[k].0));
    }
    lemma_name_entries(base, es, es.len() as int);
}

/// The categories of files, `es` being the entries of an answer: one for each
/// file, in their order.
pub fn classify_by_entries(items: &Vec<(String, String, String)>, es: &Vec<Json>) -> (r: Vec<
    String,
>)
    ensures
        text::views(r@) == batch_categories(text::views(items@), text::views(es@)),
        r@.len() == items@.len(),
        forall|i: int| 0 <= i < r@.len() ==> categories::is_category((#[trigger] r@[i])@),
{
    let ghost its = text::views(items@);
    let ghost base = its.map_values(
        |it: (Seq<char>, Seq<char>, Seq<char>)| words_category(it.1, it.0),
    );
    let mut out: Vec<String> = Vec::new();
    let mut i: usize = 0;
    while i < items.len()
        invariant
            i <= items@.len(),
            its == text::views(items@),
            base == its.map_values(
                |it: (Seq<char>, Seq<char>, Seq<char>)| words_category(it.1, it.0),
            ),
            text::views(out@) == base.take(i as int),
        decreases items.len() - i,
    {
        let c = category_by_folder_and_name(items[i].1.as_str(), items[i].0.as_str());
        proof {
            assert(c@ == base[i as int]);
            text::lemma_views_push(out@, c);
            assert(base.take(i + 1) =~= base.take(i as int).push(c@));
        }
        out.push(c);
        i += 1;
    }
    assert(base.take(base.len() as int) =~= base);
    let ghost entries = text::views(es@);
    let mut k: usize = 0;
    while k < es.len()
        invariant
            k <= es@.len(),
            entries == text::views(es@),
            text::views(out@) == with_name_entries(base, entries, k as int),
        decreases es.len() - k,
    {
        let e = &es[k];
        assert(entries[k as int] == e@);
        let ghost before = text::views(out@);
        match e.get_u64("i") {
            Some(i) => {
                match category_in_entry(e) {
                    Some(c) => {
                        let n: usize = out.len();
                        if i < n as u64 {
                            let j: usize = i as usize;
                            out[j] = c;
                            assert(text::views(out@) =~= before.update(j as int, c@));
                        }
                    },
                    None => {},
                }
            },
            None => {},
        }
        k += 1;
    }
    proof {
        lemma_batch_categories(its, entries);
        assert forall|j: int| 0 <= j < out@.len() implies categories::is_category(
            (#[trigger] out@[j])@,
        ) by {
            assert(text::views(out@)[j] == out@[j]@);
        }
    }
    out
}

/// The categories of files by name, folder and course: one for each file, in
/// their order, by the answer of the cloud; without an answer by their words.
pub fn classify_batch(
    items: &Vec<(String, String, String)>,
    answer: &Result<String, String>,
) -> (r: Vec<String>)
    ensures
        text::views(r@) == batch_categories(
            text::views(items@),
            entries_in(answer_view(*answer)),
        ),
        r@.len() == items@.len(),
        forall|i: int| 0 <= i < r@.len() ==> categories::is_category((#[trigger] r@[i])@),
{
    let es = answer_entries(answer);
    classify_by_entries(items, &es)
}

// ---------------------------------------------------------------------------
// Documents by content
// ---------------------------------------------------------------------------

/// What the classification of a document by its content found.
pub struct ClassResult {
    pub category: String,
    /// A date in the document that matters (`YYYY-MM-DD`), or nothing.
    pub date: String,
    /// What is due on that date, or nothing.
    pub event: String,
}

/// What a classification found.
#[verifier::ext_equal]
pub struct ClassResultView {
    pub category: Seq<char>,
    pub date: Seq<char>,
    pub event: Seq<char>,
}

impl View for ClassResult {
    type V = ClassResultView;

    open spec fn view(&self) -> ClassResultView {
        ClassResultView { category: self.category@, date: self.date@, event: self.event@ }
    }
}

/// Whether a text has the form of a date, `YYYY-MM-DD`.
pub open spec fn looks_dated(s: Seq<char>) -> bool {
    &&& s.len() == 10
    &&& text::is_digit(s[0]) && text::is_digit(s[1]) && text::is_digit(s[2]) && text::is_digit(s[3])
    &&& s[4] == '-'
    &&& text::is_digit(s[5]) && text::is_digit(s[6])
    &&& s[7] == '-'
    &&& text::is_digit(s[8]) && text::is_digit(s[9])
}

/// Whether a text has the form of a date, `YYYY-MM-DD`.
pub fn is_dated(s: &str) -> (r: bool)
    ensures
        r == looks_dated(s@),
{
    let v = text::chars_of(s);
    v.len() == 10 && is_digit_char(v[0]) && is_digit_char(v[1]) && is_digit_char(v[2])
        && is_digit_char(v[3]) && v[4] == '-' && is_digit_char(v[5]) && is_digit_char(v[6]) && v[7]
        == '-' && is_digit_char(v[8]) && is_digit_char(v[9])
}

/// The result of a document after an entry on it: its category is the one that
/// the entry names, and a text in the form of a date is taken with its event.
pub open spec fn with_entry(r: ClassResultView, e: JsonView) -> ClassResultView {
    let date = text::trimmed(e.text_of("fecha"@));
    ClassResultView {
        category: match entry_category(e) {
            Some(c) => c,
            None => r.category,
        },
        date: if looks_dated(date) {
            date
        } else {
            r.date
        },
        event: if looks_dated(date) {
            text::trimmed(e.text_of("evento"@))
        } else {
            r.event
        },
    }
}

/// The results after the first `n` entries; an entry without a number of the
/// documents changes nothing.
pub open spec fn with_entries(
    rs: Seq<ClassResultView>,
    es: Seq<JsonView>,
    n: int,
) -> Seq<ClassResultView>
    decreases n,
{
    if n <= 0 {
        rs
    } else {
        let before = with_entries(rs, es, n - 1);
        match es[n - 1].get_u64("i"@) {
            Some(i) => if i < before.len() {
                before.update(i as int, with_entry(before[i as int], es[n - 1]))
            } else {
                before
            },
            None => before,
        }
    }
}

/// The result of a document without an answer on it.
pub open spec fn first_result(
    item: (Seq<char>, Seq<char>, Seq<char>, Seq<char>),
) -> ClassResultView {
    ClassResultView { category: words_category(item.1, item.0), date: seq![], event: seq![] }
}

/// The results of documents by their contents.
pub open spec fn batch_results(
    items: Seq<(Seq<char>, Seq<char>, Seq<char>, Seq<char>)>,
    es: Seq<JsonView>,
) -> Seq<ClassResultView> {
    with_entries(
        items.map_values(|it: (Seq<char>, Seq<char>, Seq<char>, Seq<char>)| first_result(it)),
        es,
        es.len() as int,
    )
}

/// A result has a category, its date is `YYYY-MM-DD` or empty, and it has an event
/// only with a date.
pub open spec fn sound_result(r: ClassResultView) -> bool {
    &&& categories::is_category(r.category)
    &&& looks_dated(r.date) || r.date.len() == 0
    &&& r.date.len() == 0 ==> r.event.len() == 0
}

/// Entries leave as many results as there were, and each sound.
proof fn lemma_entries(rs: Seq<ClassResultView>, es: Seq<JsonView>, n: int)
    requires
        forall|i: int| 0 <= i < rs.len() ==> sound_result(#[trigger] rs[i]),
    ensures
        with_entries(rs, es, n).len() == rs.len(),
        forall|i: int| 0 <= i < rs.len() ==> sound_result(#[trigger] with_entries(rs, es, n)[i]),
    decreases n,
{
    if n > 0 {
        lemma_entries(rs, es, n - 1);
        match es[n - 1].get_str("cat"@) {
            Some(s) => {
                categories::lemma_named_is_category(text::lowercase(s), 0);
            },
            None => {},
        }
    }
}

/// Whatever the answer says, there is one sound result for each document.
pub proof fn lemma_batch_results(
    items: Seq<(Seq<char>, Seq<char>, Seq<char>, Seq<char>)>,
    es: Seq<JsonView>,
)
    ensures
        batch_results(items, es).len() == items.len(),
        forall|i: int|
            0 <= i < items.len() ==> sound_result(#[trigger] batch_results(items, es)[i]),
{
    let base = items.map_values(
        |it: (Seq<char>, Seq<char>, Seq<char>, Seq<char>)| first_result(it),
    );
    assert forall|k: int| 0 <= k < base.len() implies sound_result(#[trigger] base[k]) by {
        categories::lemma_words_give_category(text::lowercase(items[k].1 + " "@ + items[k].0));
    }
    lemma_entries(base, es, es.len() as int);
}

/// The results of documents, `es` being the entries of an answer: one for each
/// document, in their order.
pub fn results_by_entries(
    items: &Vec<(String, String, String, String)>,
    es: &Vec<Json>,
) -> (r: Vec<ClassResult>)
    ensures
        text::views(r@) == batch_results(text::views(items@), text::views(es@)),
        r@.len() == items@.len(),
        forall|i: int| 0 <= i < r@.len() ==> sound_result((#[trigger] r@[i])@),
{
    let ghost its = text::views(items@);
    let ghost base = its.map_values(
        |it: (Seq<char>, Seq<char>, Seq<char>, Seq<char>)| first_result(it),
    );
    let mut out: Vec<ClassResult> = Vec::new();
    let mut i: usize = 0;
    while i < items.len()
        invariant
            i <= items@.len(),
            its == text::views(items@),
            base == its.map_values(
                |it: (Seq<char>, Seq<char>, Seq<char>, Seq<char>)| first_result(it),
            ),
            text::views(out@) == base.take(i as int),
        decreases items.len() - i,
    {
        let c = category_by_folder_and_name(items[i].1.as_str(), items[i].0.as_str());
        let r = ClassResult { category: c, date: String::new(), event: String::new() };
        proof {
            assert(r@ =~= base[i as int]);
            text::lemma_views_push(out@, r);
            assert(base.take(i + 1) =~= base.take(i as int).push(r@));
        }
        out.push(r);
        i += 1;
    }
    assert(base.take(base.len() as int) =~= base);
    let ghost entries = text::views(es@);
    let mut k: usize = 0;
    while k < es.len()
        invariant
            k <= es@.len(),
            entries == text::views(es@),
            text::views(out@) == with_entries(base, entries, k as int),
        decreases es.len() - k,
    {
        let e = &es[k];
        assert(entries[k as int] == e@);
        let ghost before = text::views(out@);
        match e.get_u64("i") {
            Some(i) => {
                let n: usize = out.len();
                if i < n as u64 {
                    let j: usize = i as usize;
                    assert(before[j as int] == out@[j as int]@);
                    match category_in_entry(e) {
                        Some(c) => {
                            out[j].category = c;
                        },
                        None => {},
                    }
                    let found = e.text_of("fecha");
                    let date = text::trim(found.as_str());
                    if is_dated(date.as_str()) {
                        let event = e.text_of("evento");
                        out[j].date = date;
                        out[j].event = text::trim(event.as_str());
                    }
                    assert(text::views(out@) =~= before.update(
                        j as int,
                        with_entry(before[j as int], e@),
                    ));
                }
            },
            None => {},
        }
        k += 1;
    }
    proof {
        lemma_batch_results(its, entries);
        assert forall|j: int| 0 <= j < out@.len() implies sound_result((#[trigger] out@[j])@) by {
            assert(text::views(out@)[j] == out@[j]@);
        }
    }
    out
}

/// The results of documents by their contents: one for each document, in their
/// order, by the answer of the cloud; without an answer the category that their
/// words speak for, and no date.
pub fn classify_batch_content(
    items: &Vec<(String, String, String, String)>,
    answer: &Result<String, String>,
) -> (r: Vec<ClassResult>)
    ensures
        text::views(r@) == batch_results(text::views(items@), entries_in(answer_view(*answer))),
        r@.len() == items@.len(),
        forall|i: int| 0 <= i < r@.len() ==> sound_result((#[trigger] r@[i])@),
{
    let es = answer_entries(answer);
    results_by_entries(items, &es)
}

// ---------------------------------------------------------------------------
// Dates in announcements
// ---------------------------------------------------------------------------

/// A date that an announcement mentions.
pub struct FoundDate {
    pub date: String,
    pub event: String,
}

/// What a found date is.
#[verifier::ext_equal]
pub struct FoundDateView {
    pub date: Seq<char>,
    pub event: Seq<char>,
}

impl View for FoundDate {
    type V = FoundDateView;

    open spec fn view(&self) -> FoundDateView {
        FoundDateView { date: self.date@, event: self.event@ }
    }
}

/// Lists of found dates.
pub open spec fn lists_view(v: Seq<Vec<FoundDate>>) -> Seq<Seq<FoundDateView>> {
    v.map_values(|l: Vec<FoundDate>| text::views(l@))
}

/// The dates among the first `n` values that look like dates.
pub open spec fn dates_upto(vs: Seq<JsonView>, n: int) -> Seq<FoundDateView>
    decreases n,
{
    if n <= 0 {
        seq![]
    } else {
        let date = text::trimmed(vs[n - 1].text_of("fecha"@));
        let before = dates_upto(vs, n - 1);
        if looks_dated(date) {
            before.push(
                FoundDateView { date, event: text::trimmed(vs[n - 1].text_of("evento"@)) },
            )
        } else {
            before
        }
    }
}

/// The dates of an entry.
pub open spec fn entry_dates(e: JsonView) -> Seq<FoundDateView> {
    match e.get("fechas"@) {
        Some(v) => match v.as_array() {
            Some(vs) => dates_upto(vs, vs.len() as int),
            None => seq![],
        },
        None => seq![],
    }
}

/// The dates of `count` announcements after the first `n` entries: each entry
/// adds its dates to the announcement that it numbers.
pub open spec fn dates_after(count: nat, es: Seq<JsonView>, n: int) -> Seq<Seq<FoundDateView>>
    decreases n,
{
    if n <= 0 {
        Seq::new(count, |i: int| Seq::<FoundDateView>::empty())
    } else {
        let before = dates_after(count, es, n - 1);
        match es[n - 1].get_u64("i"@) {
            Some(i) => if i < before.len() {
                before.update(i as int, before[i as int] + entry_dates(es[n - 1]))
            } else {
                before
            },
            None => before,
        }
    }
}

/// The dates of an entry.
fn dates_of_entry(e: &Json) -> (r: Vec<FoundDate>)
    ensures
        text::views(r@) == entry_dates(e@),
{
    let mut out: Vec<FoundDate> = Vec::new();
    assert(text::views(out@) =~= seq![]);
    match e.get("fechas") {
        Some(v) => match v.as_array() {
            Some(vs) => {
                let ghost all = text::views(vs@);
                let mut i: usize = 0;
                while i < vs.len()
                    invariant
                        i <= vs@.len(),
                        all == text::views(vs@),
                        text::views(out@) == dates_upto(all, i as int),
                    decreases vs.len() - i,
                {
                    let f = &vs[i];
                    assert(all[i as int] == f@);
                    let found = f.text_of("fecha");
                    let date = text::trim(found.as_str());
                    if is_dated(date.as_str()) {
                        let event = f.text_of("evento");
                        let d = FoundDate { date, event: text::trim(event.as_str()) };
                        proof {
                            text::lemma_views_push(out@, d);
                        }
                        out.push(d);
                    }
                    i += 1;
                }
            },
            None => {},
        },
        None => {},
    }
    out
}

/// The dates of `count` announcements, `es` being the entries of an answer: a
/// list for each announcement, in their order.
pub fn dates_by_entries(count: usize, es: &Vec<Json>) -> (r: Vec<Vec<FoundDate>>)
    ensures
        lists_view(r@) == dates_after(count as nat, text::views(es@), es@.len() as int),
        r@.len() == count,
{
    let mut out: Vec<Vec<FoundDate>> = Vec::new();
    let ghost entries = text::views(es@);
    let ghost none = Seq::new(count as nat, |i: int| Seq::<FoundDateView>::empty());
    let mut i: usize = 0;
    while i < count
        invariant
            i <= count,
            none == Seq::new(count as nat, |j: int| Seq::<FoundDateView>::empty()),
            lists_view(out@) == none.take(i as int),
        decreases count - i,
    {
        let empty: Vec<FoundDate> = Vec::new();
        proof {
            assert(text::views(empty@) =~= Seq::<FoundDateView>::empty());
            assert(lists_view(out@.push(empty)) =~= lists_view(out@).push(text::views(empty@)));
            assert(none.take(i + 1) =~= none.take(i as int).push(none[i as int]));
        }
        out.push(empty);
        i += 1;
    }
    assert(none.take(count as int) =~= none);
    let mut k: usize = 0;
    while k < es.len()
        invariant
            k <= es@.len(),
            entries == text::views(es@),
            out@.len() == count,
            lists_view(out@) == dates_after(count as nat, entries, k as int),
        decreases es.len() - k,
    {
        let e = &es[k];
        assert(entries[k as int] == e@);
        let ghost before = lists_view(out@);
        match e.get_u64("i") {
            Some(i) => {
                if i < count as u64 {
                    let j: usize = i as usize;
                    let mut found = dates_of_entry(e);
                    let ghost new = found@;
                    let ghost list = out@[j as int]@;
                    out[j].append(&mut found);
                    proof {
                        assert(before[j as int] == text::views(list));
                        assert(text::views(out@[j as int]@) =~= text::views(list) + text::views(
                            new,
                        ));
                        assert(lists_view(out@) =~= before.update(
                            j as int,
                            before[j as int] + entry_dates(e@),
                        ));
                    }
                }
            },
            None => {},
        }
        k += 1;
    }
    out
}

/// The dates of announcements: a list for each, in their order, by the answer of
/// the cloud; empty ones without an answer.
pub fn detect_dates(count: usize, answer: &Result<String, String>) -> (r: Vec<Vec<FoundDate>>)
    ensures
        lists_view(r@) == dates_after(
            count as nat,
            entries_in(answer_view(*answer)),
            entries_in(answer_view(*answer)).len() as int,
        ),
        r@.len() == count,
{
    let es = answer_entries(answer);
    dates_by_entries(count, &es)
}

/// Every date that is found has the form `YYYY-MM-DD`.
pub proof fn lemma_found_dates(vs: Seq<JsonView>, n: int)
    ensures
        forall|i: int|
            0 <= i < dates_upto(vs, n).len() ==> looks_dated((#[trigger] dates_upto(vs, n)[i]).date),
    decreases n,
{
    if n > 0 {
        lemma_found_dates(vs, n - 1);
        let before = dates_upto(vs, n - 1);
        let after = dates_upto(vs, n);
        assert forall|i: int| 0 <= i < after.len() implies looks_dated(
            (#[trigger] after[i]).date,
        ) by {
            if i < before.len() {
                assert(after[i] == before[i]);
            }
        }
    }
}

// ---------------------------------------------------------------------------
// What an answer decides
// ---------------------------------------------------------------------------

/// An answer that names a category decides; otherwise the words of the file's name, of
/// the first 3000 characters of its content and of the answer do, and without an answer
/// those of the name and the content.
pub proof fn lemma_answer_decides(filename: Seq<char>, content: Seq<char>, ans: Seq<char>)
    ensures
        categories::named_category(ans, 0) matches Some(c) ==> category_with(
            filename,
            content,
            Some(ans),
        ) == c,
        categories::named_category(ans, 0) is None ==> category_with(filename, content, Some(ans))
            == categories::category_by_words(
            text::lowercase(filename + " "@ + text::first_chars(content, 3000) + " "@ + ans),
        ),
        category_with(filename, content, None) == categories::category_by_words(
            text::lowercase(filename + " "@ + text::first_chars(content, 3000)),
        ),
        entries_in(None).len() == 0,
{
}

/// The entry gives the file at `k` a category.
pub open spec fn decides(e: JsonView, k: int, c: Seq<char>) -> bool {
    &&& e.get_u64("i"@) matches Some(i) && i == k
    &&& e.get_str("cat"@) matches Some(s) && categories::named_category(text::lowercase(s), 0)
        == Some(c)
}

/// The entry gives the file at `k` some category.
pub open spec fn decides_any(e: JsonView, k: int) -> bool {
    &&& e.get_u64("i"@) matches Some(i) && i == k
    &&& e.get_str("cat"@) matches Some(s) && categories::named_category(text::lowercase(s), 0)
        is Some
}

/// What entries make of categories.
proof fn lemma_last_entry_counts(cats: Seq<Seq<char>>, es: Seq<JsonView>, n: int, k: int, j: int)
    requires
        0 <= n <= es.len(),
        0 <= k < cats.len(),
    ensures
        with_name_entries(cats, es, n).len() == cats.len(),
        (forall|i: int| 0 <= i < n ==> !decides_any(#[trigger] es[i], k)) ==> with_name_entries(
            cats,
            es,
            n,
        )[k] == cats[k],
        0 <= j < n && decides_any(es[j], k) && (forall|i: int|
            j < i < n ==> !decides_any(#[trigger] es[i], k)) ==> decides(
            es[j],
            k,
            with_name_entries(cats, es, n)[k],
        ),
    decreases n,
{
    if n > 0 {
        lemma_last_entry_counts(cats, es, n - 1, k, j);
    }
}

/// Of a batch of files, each gets the category that the last entry with its number
/// names; where no entry names one, the words of its folder and its name decide.
pub proof fn lemma_entries_decide(
    items: Seq<(Seq<char>, Seq<char>, Seq<char>)>,
    es: Seq<JsonView>,
    k: int,
    j: int,
)
    requires
        0 <= k < items.len(),
    ensures
        (forall|i: int| 0 <= i < es.len() ==> !decides_any(#[trigger] es[i], k))
            ==> batch_categories(items, es)[k] == categories::category_by_words(
            text::lowercase(items[k].1 + " "@ + items[k].0),
        ),
        0 <= j < es.len() && decides_any(es[j], k) && (forall|i: int|
            j < i < es.len() ==> !decides_any(#[trigger] es[i], k)) ==> decides(
            es[j],
            k,
            batch_categories(items, es)[k],
        ),
{
    let cats = items.map_values(
        |it: (Seq<char>, Seq<char>, Seq<char>)| words_category(it.1, it.0),
    );
    lemma_last_entry_counts(cats, es, es.len() as int, k, j);
}

/// The entry speaks of the document at `k` and names a day for it.
pub open spec fn dates_it(e: JsonView, k: int) -> bool {
    &&& e.get_u64("i"@) matches Some(i) && i == k
    &&& looks_dated(text::trimmed(e.text_of("fecha"@)))
}

/// What entries make of results.
proof fn lemma_last_result_counts(rs: Seq<ClassResultView>, es: Seq<JsonView>, n: int, k: int, j: int)
    requires
        0 <= n <= es.len(),
        0 <= k < rs.len(),
    ensures
        with_entries(rs, es, n).len() == rs.len(),
        (forall|i: int| 0 <= i < n ==> !decides_any(#[trigger] es[i], k)) ==> with_entries(
            rs,
            es,
            n,
        )[k].category == rs[k].category,
        0 <= j < n && decides_any(es[j], k) && (forall|i: int|
            j < i < n ==> !decides_any(#[trigger] es[i], k)) ==> decides(
            es[j],
            k,
            with_entries(rs, es, n)[k].category,
        ),
        (forall|i: int| 0 <= i < n ==> !dates_it(#[trigger] es[i], k)) ==> with_entries(
            rs,
            es,
            n,
        )[k].date == rs[k].date && with_entries(rs, es, n)[k].event == rs[k].event,
        0 <= j < n && dates_it(es[j], k) && (forall|i: int|
            j < i < n ==> !dates_it(#[trigger] es[i], k)) ==> with_entries(rs, es, n)[k].date
            == text::trimmed(es[j].text_of("fecha"@)) && with_entries(rs, es, n)[k].event
            == text::trimmed(es[j].text_of("evento"@)),
    decreases n,
{
    if n > 0 {
        lemma_last_result_counts(rs, es, n - 1, k, j);
    }
}

/// Of a batch of documents, each gets the category that the last entry with its number
/// names, and the day and the event of the last one that names a day for it; without
/// such entries its category comes from the words of its folder and its name, and it
/// has no day.
pub proof fn lemma_results_decide(
    items: Seq<(Seq<char>, Seq<char>, Seq<char>, Seq<char>)>,
    es: Seq<JsonView>,
    k: int,
    j: int,
)
    requires
        0 <= k < items.len(),
    ensures
        (forall|i: int| 0 <= i < es.len() ==> !decides_any(#[trigger] es[i], k)) ==> batch_results(
            items,
            es,
        )[k].category == categories::category_by_words(
            text::lowercase(items[k].1 + " "@ + items[k].0),
        ),
        0 <= j < es.len() && decides_any(es[j], k) && (forall|i: int|
            j < i < es.len() ==> !decides_any(#[trigger] es[i], k)) ==> decides(
            es[j],
            k,
            batch_results(items, es)[k].category,
        ),
        (forall|i: int| 0 <= i < es.len() ==> !dates_it(#[trigger] es[i], k)) ==> batch_results(
            items,
            es,
        )[k].date.len() == 0 && batch_results(items, es)[k].event.len() == 0,
        0 <= j < es.len() && dates_it(es[j], k) && (forall|i: int|
            j < i < es.len() ==> !dates_it(#[trigger] es[i], k)) ==> batch_results(
            items,
            es,
        )[k].date == text::trimmed(es[j].text_of("fecha"@)) && batch_results(items, es)[k].event
            == text::trimmed(es[j].text_of("evento"@)),
{
    let rs = items.map_values(
        |it: (Seq<char>, Seq<char>, Seq<char>, Seq<char>)| first_result(it),
    );
    lemma_last_result_counts(rs, es, es.len() as int, k, j);
}

/// A day is ten characters: four digits, two and two, with dashes between them.
pub proof fn lemma_looks_dated(y: Seq<char>, m: Seq<char>, d: Seq<char>)
    requires
        forall|i: int| 0 <= i < y.len() ==> '0' <= #[trigger] y[i] <= '9',
        forall|i: int| 0 <= i < m.len() ==> '0' <= #[trigger] m[i] <= '9',
        forall|i: int| 0 <= i < d.len() ==> '0' <= #[trigger] d[i] <= '9',
    ensures
        looks_dated(y + seq!['-'] + m + seq!['-'] + d) <==> y.len() == 4 && m.len() == 2 && d.len()
            == 2,
{
    let s = y + seq!['-'] + m + seq!['-'] + d;
    assert(s[y.len() as int] == '-');
    assert(s[(y.len() + 1 + m.len()) as int] == '-');
    assert forall|i: int| 0 <= i < s.len() && i != y.len() && i != y.len() + 1 + m.len() implies '0'
        <= #[trigger] s[i] <= '9' by {
        if i < y.len() {
            assert(s[i] == y[i]);
        } else if i < y.len() + 1 + m.len() {
            assert(s[i] == m[i - y.len() - 1]);
        } else {
            assert(s[i] == d[i - y.len() - m.len() - 2]);
        }
    }
    if looks_dated(s) {
        assert(s[4] == '-' && s[7] == '-');
        assert(y.len() == 4 || y.len() == 7 || y.len() + 1 + m.len() == 4);
    }
}

/// The first entries alone decide what they give.
proof fn lemma_dates_upto_prefix(
    a: Seq<JsonView>,
    b: Seq<JsonView>,
    n: int,
)
    requires
        0 <= n <= a.len(),
    ensures
        dates_upto(a + b, n) == dates_upto(a, n),
    decreases n,
{
    if n > 0 {
        lemma_dates_upto_prefix(a, b, n - 1);
        assert((a + b)[n - 1] == a[n - 1]);
    }
}

/// What two lists give, one behind the other.
proof fn lemma_dates_upto_add(
    a: Seq<JsonView>,
    b: Seq<JsonView>,
    n: int,
)
    requires
        0 <= n <= b.len(),
    ensures
        dates_upto(a + b, a.len() + n) == dates_upto(a, a.len() as int) + dates_upto(b, n),
    decreases n,
{
    let first = dates_upto(a, a.len() as int);
    if n == 0 {
        lemma_dates_upto_prefix(a, b, a.len() as int);
        assert(first + dates_upto(b, 0) =~= first);
    } else {
        lemma_dates_upto_add(a, b, n - 1);
        assert((a + b)[a.len() + n - 1] == b[n - 1]);
        assert(dates_upto(a + b, a.len() + n) =~= first + dates_upto(b, n));
    }
}

/// The days of an entry, in their order: what names a day gives it with its event, each
/// without blanks around it, and what names none gives nothing.
pub proof fn lemma_entry_dates(a: Seq<JsonView>, b: Seq<JsonView>, x: JsonView, e: JsonView)
    ensures
        dates_upto(a + b, (a + b).len() as int) == dates_upto(a, a.len() as int) + dates_upto(
            b,
            b.len() as int,
        ),
        looks_dated(text::trimmed(x.text_of("fecha"@))) ==> dates_upto(seq![x], 1) == seq![
            FoundDateView {
                date: text::trimmed(x.text_of("fecha"@)),
                event: text::trimmed(x.text_of("evento"@)),
            },
        ],
        !looks_dated(text::trimmed(x.text_of("fecha"@))) ==> dates_upto(seq![x], 1).len() == 0,
        e.get("fechas"@) == Some(JsonView::Array(a)) ==> entry_dates(e) == dates_upto(
            a,
            a.len() as int,
        ),
        e.get("fechas"@) is None ==> entry_dates(e).len() == 0,
{
    lemma_dates_upto_add(a, b, b.len() as int);
    reveal_with_fuel(dates_upto, 2);
}

/// Without entries no announcement has a day, and each further entry adds its days to
/// the announcement with its number, behind those it has, and to no other.
pub proof fn lemma_dates_add_up(count: nat, es: Seq<JsonView>, n: int, k: int)
    requires
        0 <= n < es.len(),
        0 <= k < count,
    ensures
        dates_after(count, es, 0)[k].len() == 0,
        dates_after(count, es, n).len() == count,
        es[n].get_u64("i"@) == Some(k as u64) && k <= u64::MAX ==> dates_after(count, es, n + 1)[k]
            == dates_after(count, es, n)[k] + entry_dates(es[n]),
        !(es[n].get_u64("i"@) matches Some(i) && i == k) ==> dates_after(count, es, n + 1)[k]
            == dates_after(count, es, n)[k],
{
    lemma_dates_len(count, es, n);
}

/// There is a list of days for each announcement.
proof fn lemma_dates_len(count: nat, es: Seq<JsonView>, n: int)
    ensures
        dates_after(count, es, n).len() == count,
    decreases n,
{
    if n > 0 {
        lemma_dates_len(count, es, n - 1);
    }
}

/// What is seen of a result is what it holds, each thing as itself.
pub proof fn lemma_class_result_seen(x: ClassResult)
    ensures
        x@.category == x.category@,
        x@.date == x.date@,
        x@.event == x.event@,
{
}

/// What is seen of a day that was found is what it holds, each thing as itself.
pub proof fn lemma_found_date_seen(x: FoundDate)
    ensures
        x@.date == x.date@,
        x@.event == x.event@,
{
}

/// What is seen of an answer is its text, and of a failure nothing.
pub proof fn lemma_answer_seen(answer: Result<String, String>)
    ensures
        answer matches Ok(s) ==> answer_view(answer) == Some(s@) && lowered_answer(
            answer_view(answer),
        ) == Some(text::lowercase(s@)) && (json::array_in(s@) matches Some(es) ==> entries_in(
            answer_view(answer),
        ) == es) && (json::array_in(s@) is None ==> entries_in(answer_view(answer)).len() == 0),
        answer is Err ==> answer_view(answer) is None && lowered_answer(answer_view(answer)) is None
            && entries_in(answer_view(answer)).len() == 0,
{
}

} // verus!
