//! HTML as plain text.

use vstd::prelude::*;
use vstd::string::*;
use crate::text;

verus! {

/// The characters that stand outside of tags, `in_tag` saying whether the text
/// begins inside of one.
pub open spec fn outside_tags(s: Seq<char>, in_tag: bool) -> Seq<char>
    decreases s.len(),
{
    if s.len() == 0 {
        seq![]
    } else if s[0] == '<' {
        outside_tags(s.skip(1), true)
    } else if s[0] == '>' {
        outside_tags(s.skip(1), false)
    } else if in_tag {
        outside_tags(s.skip(1), true)
    } else {
        seq![s[0]] + outside_tags(s.skip(1), false)
    }
}

/// The characters that stand outside of tags.
fn drop_tags(s: &str) -> (r: String)
    ensures
        r@ == outside_tags(s@, false),
{
    let v = text::chars_of(s);
    let mut out = String::new();
    let mut in_tag = false;
    let mut i: usize = 0;
    assert(s@.skip(0) =~= s@);
    assert(out@ + outside_tags(s@.skip(0), false) =~= outside_tags(s@, false));
    while i < v.len()
        invariant
            v@ == s@,
            i <= v@.len(),
            out@ + outside_tags(s@.skip(i as int), in_tag) == outside_tags(s@, false),
        decreases v.len() - i,
    {
        let c = v[i];
        assert(s@.skip(i as int).skip(1) =~= s@.skip(i + 1));
        if c == '<' {
            in_tag = true;
        } else if c == '>' {
            in_tag = false;
        } else if !in_tag {
            let ghost before = out@;
            out.push(c);
            assert(out@ + outside_tags(s@.skip(i + 1), false) =~= before + outside_tags(
                s@.skip(i as int),
                false,
            ));
        }
        i += 1;
    }
    assert(outside_tags(s@.skip(s@.len() as int), in_tag) =~= seq![]);
    assert(out@ =~= outside_tags(s@, false));
    out
}

/// A text with the character references of every page resolved, one kind after
/// the other.
pub open spec fn common_entities(s: Seq<char>) -> Seq<char> {
    text::replaced(
        text::replaced(
            text::replaced(text::replaced(s, "&amp;"@, "&"@), "&lt;"@, "<"@),
            "&gt;"@,
            ">"@,
        ),
        "&quot;"@,
        "\""@,
    )
}

/// A text with the character references of every page resolved.
fn resolve_common(s: &str) -> (r: String)
    ensures
        r@ == common_entities(s@),
{
    proof {
        reveal_strlit("&amp;");
        reveal_strlit("&lt;");
        reveal_strlit("&gt;");
        reveal_strlit("&quot;");
    }
    let a = text::replace(s, "&amp;", "&");
    let b = text::replace(a.as_str(), "&lt;", "<");
    let c = text::replace(b.as_str(), "&gt;", ">");
    text::replace(c.as_str(), "&quot;", "\"")
}

/// An announcement of Canvas as plain text: without tags, its character
/// references resolved, with single spaces between its words.
pub open spec fn announcement_text(s: Seq<char>) -> Seq<char> {
    text::joined(
        text::words(
            text::replaced(
                text::replaced(common_entities(outside_tags(s, false)), "&#39;"@, "'"@),
                "&nbsp;"@,
                " "@,
            ),
        ),
        " "@,
    )
}

/// An announcement of Canvas as plain text.
pub fn strip_html(s: &str) -> (r: String)
    ensures
        r@ == announcement_text(s@),
{
    proof {
        reveal_strlit("&#39;");
        reveal_strlit("&nbsp;");
    }
    let bare = drop_tags(s);
    let a = resolve_common(bare.as_str());
    let b = text::replace(a.as_str(), "&#39;", "'");
    let c = text::replace(b.as_str(), "&nbsp;", " ");
    let words = text::split_words(c.as_str());
    text::join(&words, " ")
}

/// A piece of a results page as plain text: without tags, its character
/// references resolved, without white space at its ends.
pub open spec fn snippet_text(s: Seq<char>) -> Seq<char> {
    text::trimmed(
        text::replaced(
            text::replaced(
                text::replaced(common_entities(outside_tags(s, false)), "&#x27;"@, "'"@),
                "&#39;"@,
                "'"@,
            ),
            "&nbsp;"@,
            " "@,
        ),
    )
}

/// A piece of a results page as plain text.
pub fn strip_tags(s: &str) -> (r: String)
    ensures
        r@ == snippet_text(s@),
{
    proof {
        reveal_strlit("&#x27;");
        reveal_strlit("&#39;");
        reveal_strlit("&nbsp;");
    }
    let bare = drop_tags(s);
    let a = resolve_common(bare.as_str());
    let b = text::replace(a.as_str(), "&#x27;", "'");
    let c = text::replace(b.as_str(), "&#39;", "'");
    let d = text::replace(c.as_str(), "&nbsp;", " ");
    text::trim(d.as_str())
}

/// No mark of a tag is left outside of tags.
pub proof fn lemma_no_tags_left(s: Seq<char>, in_tag: bool)
    ensures
        !outside_tags(s, in_tag).contains('<'),
        !outside_tags(s, in_tag).contains('>'),
    decreases s.len(),
{
    if s.len() > 0 {
        let rest_in = if s[0] == '<' {
            true
        } else if s[0] == '>' {
            false
        } else {
            in_tag
        };
        lemma_no_tags_left(s.skip(1), rest_in);
        let rest = outside_tags(s.skip(1), rest_in);
        let out = outside_tags(s, in_tag);
        assert forall|i: int| 0 <= i < out.len() implies out[i] != '<' && out[i] != '>' by {
            if out.len() == rest.len() {
                assert(rest.contains(rest[i]));
            } else if i > 0 {
                assert(rest.contains(rest[i - 1]));
            }
        }
    }
}

/// Text without angle brackets stays as it is.
pub proof fn lemma_plain_stays(s: Seq<char>, in_tag: bool)
    requires
        !s.contains('<'),
        !s.contains('>'),
    ensures
        outside_tags(s, false) == s,
        outside_tags(s, true).len() == 0,
    decreases s.len(),
{
    if s.len() > 0 {
        let rest = s.skip(1);
        assert(s[0] != '<' && s[0] != '>') by {
            assert(s.contains(s[0]));
        }
        assert(!rest.contains('<') && !rest.contains('>')) by {
            if rest.contains('<') {
                let i = choose|i: int| 0 <= i < rest.len() && rest[i] == '<';
                assert(s[i + 1] == '<');
            }
            if rest.contains('>') {
                let i = choose|i: int| 0 <= i < rest.len() && rest[i] == '>';
                assert(s[i + 1] == '>');
            }
        }
        lemma_plain_stays(rest, in_tag);
        assert(seq![s[0]] + rest =~= s);
    }
}

/// A tag is left out, and what stands before and behind it stays: a whole tag between
/// two texts leaves what the two leave.
pub proof fn lemma_tag_left_out(a: Seq<char>, tag: Seq<char>, b: Seq<char>)
    requires
        !a.contains('<'),
        !a.contains('>'),
        !tag.contains('<'),
        !tag.contains('>'),
    ensures
        outside_tags(a + seq!['<'] + tag + seq!['>'] + b, false) == a + outside_tags(b, false),
{
    lemma_over_plain(a, seq!['<'] + tag + seq!['>'] + b, false);
    assert(a + (seq!['<'] + tag + seq!['>'] + b) =~= a + seq!['<'] + tag + seq!['>'] + b);
    let s = seq!['<'] + tag + seq!['>'] + b;
    assert(s[0] == '<');
    assert(s.skip(1) =~= tag + (seq!['>'] + b));
    lemma_over_plain(tag, seq!['>'] + b, true);
    assert((seq!['>'] + b)[0] == '>');
    assert((seq!['>'] + b).skip(1) =~= b);
    assert(outside_tags(s, false) == outside_tags(b, false));
}

/// What plain text in front adds.
proof fn lemma_over_plain(a: Seq<char>, s: Seq<char>, in_tag: bool)
    requires
        !a.contains('<'),
        !a.contains('>'),
    ensures
        outside_tags(a + s, false) == a + outside_tags(s, false),
        outside_tags(a + s, true) == outside_tags(s, true),
    decreases a.len(),
{
    if a.len() == 0 {
        assert(a + s =~= s);
        assert(a + outside_tags(s, false) =~= outside_tags(s, false));
    } else {
        let rest = a.skip(1);
        assert(a[0] != '<' && a[0] != '>') by {
            assert(a.contains(a[0]));
        }
        assert(!rest.contains('<') && !rest.contains('>')) by {
            if rest.contains('<') {
                let i = choose|i: int| 0 <= i < rest.len() && rest[i] == '<';
                assert(a[i + 1] == '<');
            }
            if rest.contains('>') {
                let i = choose|i: int| 0 <= i < rest.len() && rest[i] == '>';
                assert(a[i + 1] == '>');
            }
        }
        lemma_over_plain(rest, s, in_tag);
        assert((a + s).skip(1) =~= rest + s);
        assert((a + s)[0] == a[0]);
        assert(outside_tags(a + s, false) =~= a + outside_tags(s, false));
    }
}

/// Where a character stands nowhere, no word that begins with it does.
proof fn lemma_no_word(s: Seq<char>, k: Seq<char>)
    requires
        k.len() > 0,
        !s.contains(k[0]),
    ensures
        !text::contains(s, k),
{
    if text::contains(s, k) {
        let m = choose|m: int| text::occurs_at(s, k, m);
        assert(s.subrange(m, m + k.len())[0] == s[m]);
        assert(s[m] == k[0]);
    }
}

/// A text in which a word's second character does not follow its first does not hold
/// the word.
proof fn lemma_no_pair(a: Seq<char>, c: char, b: Seq<char>, k: Seq<char>)
    requires
        k.len() > 1,
        k[0] == '&',
        k.last() == ';',
        !a.contains('&'),
        !b.contains('&'),
        c != '&' || !b.contains(';'),
    ensures
        !text::contains(a + seq![c] + b, k),
{
    let s = a + seq![c] + b;
    if text::contains(s, k) {
        let m = choose|m: int| text::occurs_at(s, k, m);
        let n = a.len() as int;
        assert(s.subrange(m, m + k.len())[0] == s[m]);
        assert(s.subrange(m, m + k.len())[k.len() - 1] == s[m + k.len() - 1]);
        assert(s[m] == '&');
        assert(s[m + k.len() - 1] == ';');
        if m < n {
            assert(a[m] == '&');
        } else if m > n {
            assert(b[m - n - 1] == '&');
        } else {
            assert(b[m + k.len() - 1 - n - 1] == ';');
        }
    }
}

/// The entities stand for their characters: where one stands alone in a text without
/// angle brackets, it becomes the character and the rest of the text stays.
pub proof fn lemma_entities(a: Seq<char>, b: Seq<char>)
    requires
        !a.contains('&'),
        !b.contains('&'),
        !b.contains(';'),
    ensures
        common_entities(a) == a,
        common_entities(a + "&amp;"@ + b) == a + "&"@ + b,
        common_entities(a + "&lt;"@ + b) == a + "<"@ + b,
        common_entities(a + "&gt;"@ + b) == a + ">"@ + b,
        common_entities(a + "&quot;"@ + b) == a + "\""@ + b,
{
    reveal_strlit("&amp;");
    reveal_strlit("&lt;");
    reveal_strlit("&gt;");
    reveal_strlit("&quot;");
    reveal_strlit("&");
    reveal_strlit("<");
    reveal_strlit(">");
    reveal_strlit("\"");
    let (amp, lt, gt, quot) = ("&amp;"@, "&lt;"@, "&gt;"@, "&quot;"@);
    assert("&"@ =~= seq!['&'] && "<"@ =~= seq!['<'] && ">"@ =~= seq!['>'] && "\""@ =~= seq!['"']);
    lemma_no_word(a, amp);
    lemma_no_word(a, lt);
    lemma_no_word(a, gt);
    lemma_no_word(a, quot);
    lemma_no_word(b, amp);
    lemma_no_word(b, lt);
    lemma_no_word(b, gt);
    lemma_no_word(b, quot);
    text::lemma_replaced(a, amp, b, "&"@);
    text::lemma_replaced(a, lt, b, "<"@);
    text::lemma_replaced(a, gt, b, ">"@);
    text::lemma_replaced(a, quot, b, "\""@);
    // What one step leaves, the others leave too.
    lemma_no_pair(a, '&', b, lt);
    lemma_no_pair(a, '&', b, gt);
    lemma_no_pair(a, '&', b, quot);
    lemma_no_pair(a, '<', b, gt);
    lemma_no_pair(a, '<', b, quot);
    lemma_no_pair(a, '>', b, quot);
    let with_amp = a + "&"@ + b;
    text::lemma_replaced(with_amp, lt, b, "<"@);
    text::lemma_replaced(with_amp, gt, b, ">"@);
    text::lemma_replaced(with_amp, quot, b, "\""@);
    text::lemma_replaced(a + "<"@ + b, gt, b, ">"@);
    text::lemma_replaced(a + "<"@ + b, quot, b, "\""@);
    text::lemma_replaced(a + ">"@ + b, quot, b, "\""@);
    // What one step does not touch.
    lemma_other_entity(a, lt, b, amp);
    lemma_other_entity(a, gt, b, amp);
    lemma_other_entity(a, gt, b, lt);
    lemma_other_entity(a, quot, b, amp);
    lemma_other_entity(a, quot, b, lt);
    lemma_other_entity(a, quot, b, gt);
    text::lemma_replaced(a + lt + b, amp, b, "&"@);
    text::lemma_replaced(a + gt + b, amp, b, "&"@);
    text::lemma_replaced(a + gt + b, lt, b, "<"@);
    text::lemma_replaced(a + quot + b, amp, b, "&"@);
    text::lemma_replaced(a + quot + b, lt, b, "<"@);
    text::lemma_replaced(a + quot + b, gt, b, ">"@);
}

/// Where one entity stands alone, another does not stand.
proof fn lemma_other_entity(a: Seq<char>, here: Seq<char>, b: Seq<char>, k: Seq<char>)
    requires
        k.len() > 1,
        here.len() > 1,
        k[0] == '&',
        here[0] == '&',
        k[1] != here[1],
        !a.contains('&'),
        !b.contains('&'),
        forall|i: int| 0 < i < here.len() ==> #[trigger] here[i] != '&',
    ensures
        !text::contains(a + here + b, k),
{
    let s = a + here + b;
    if text::contains(s, k) {
        let m = choose|m: int| text::occurs_at(s, k, m);
        let n = a.len() as int;
        assert(s.subrange(m, m + k.len())[0] == s[m]);
        assert(s.subrange(m, m + k.len())[1] == s[m + 1]);
        assert(s[m] == '&');
        if m < n {
            assert(a[m] == '&');
        } else if m >= n + here.len() {
            assert(b[m - n - here.len()] == '&');
        } else {
            assert(here[m - n] == '&');
            assert(m == n);
            assert(s[m + 1] == here[1]);
        }
    }
}

/// Plain text, without brackets and entities, loses its superfluous blanks and nothing
/// else.
pub proof fn lemma_plain_text(s: Seq<char>)
    requires
        !s.contains('<'),
        !s.contains('>'),
        !s.contains('&'),
    ensures
        announcement_text(s) == text::joined(text::words(s), " "@),
        snippet_text(s) == text::trimmed(s),
{
    reveal_strlit("&#39;");
    reveal_strlit("&#x27;");
    reveal_strlit("&nbsp;");
    reveal_strlit("&amp;");
    reveal_strlit("&lt;");
    reveal_strlit("&gt;");
    reveal_strlit("&quot;");
    lemma_plain_stays(s, false);
    lemma_no_word(s, "&amp;"@);
    lemma_no_word(s, "&lt;"@);
    lemma_no_word(s, "&gt;"@);
    lemma_no_word(s, "&quot;"@);
    lemma_no_word(s, "&#39;"@);
    lemma_no_word(s, "&#x27;"@);
    lemma_no_word(s, "&nbsp;"@);
    text::lemma_replaced(s, "&amp;"@, s, "&"@);
    text::lemma_replaced(s, "&lt;"@, s, "<"@);
    text::lemma_replaced(s, "&gt;"@, s, ">"@);
    text::lemma_replaced(s, "&quot;"@, s, "\""@);
    text::lemma_replaced(s, "&#39;"@, s, "'"@);
    text::lemma_replaced(s, "&#x27;"@, s, "'"@);
    text::lemma_replaced(s, "&nbsp;"@, s, " "@);
}

/// An apostrophe and a blank written as entities are an apostrophe and a blank.
pub proof fn lemma_apostrophe_and_blank(a: Seq<char>, b: Seq<char>)
    requires
        !a.contains('&') && !a.contains('<') && !a.contains('>'),
        !b.contains('&') && !b.contains('<') && !b.contains('>') && !b.contains(';'),
    ensures
        announcement_text(a + "&#39;"@ + b) == text::joined(text::words(a + "'"@ + b), " "@),
        announcement_text(a + "&nbsp;"@ + b) == text::joined(text::words(a + " "@ + b), " "@),
        snippet_text(a + "&#39;"@ + b) == text::trimmed(a + "'"@ + b),
        snippet_text(a + "&#x27;"@ + b) == text::trimmed(a + "'"@ + b),
        snippet_text(a + "&nbsp;"@ + b) == text::trimmed(a + " "@ + b),
{
    reveal_strlit("&#39;");
    reveal_strlit("&#x27;");
    reveal_strlit("&nbsp;");
    reveal_strlit("'");
    reveal_strlit(" ");
    assert("'"@ =~= seq!['\''] && " "@ =~= seq![' ']);
    lemma_untouched(a, "&#39;"@, b);
    lemma_untouched(a, "&#x27;"@, b);
    lemma_untouched(a, "&nbsp;"@, b);
    lemma_no_word(a, "&#39;"@);
    lemma_no_word(a, "&#x27;"@);
    lemma_no_word(a, "&nbsp;"@);
    lemma_no_word(b, "&#39;"@);
    lemma_no_word(b, "&#x27;"@);
    lemma_no_word(b, "&nbsp;"@);
    text::lemma_replaced(a, "&#39;"@, b, "'"@);
    text::lemma_replaced(a, "&#x27;"@, b, "'"@);
    text::lemma_replaced(a, "&nbsp;"@, b, " "@);
    lemma_no_pair(a, '\'', b, "&#39;"@);
    lemma_no_pair(a, '\'', b, "&nbsp;"@);
    lemma_other_entity(a, "&nbsp;"@, b, "&#39;"@);
    lemma_other_entity(a, "&nbsp;"@, b, "&#x27;"@);
    lemma_third_apart(a, "&#39;"@, b, "&#x27;"@);
    text::lemma_replaced(a + "'"@ + b, "&#39;"@, b, "'"@);
    text::lemma_replaced(a + "'"@ + b, "&nbsp;"@, b, " "@);
    text::lemma_replaced(a + "&nbsp;"@ + b, "&#39;"@, b, "'"@);
    text::lemma_replaced(a + "&nbsp;"@ + b, "&#x27;"@, b, "'"@);
    text::lemma_replaced(a + "&#39;"@ + b, "&#x27;"@, b, "'"@);
}

/// The numbers of two entities keep them apart.
proof fn lemma_third_apart(a: Seq<char>, here: Seq<char>, b: Seq<char>, k: Seq<char>)
    requires
        k.len() > 2,
        here.len() > 2,
        k[0] == '&',
        here[0] == '&',
        k[2] != here[2],
        !a.contains('&'),
        !b.contains('&'),
        forall|i: int| 0 < i < here.len() ==> #[trigger] here[i] != '&',
    ensures
        !text::contains(a + here + b, k),
{
    let s = a + here + b;
    if text::contains(s, k) {
        let m = choose|m: int| text::occurs_at(s, k, m);
        let n = a.len() as int;
        assert(s.subrange(m, m + k.len())[0] == s[m]);
        assert(s.subrange(m, m + k.len())[2] == s[m + 2]);
        assert(s[m] == '&');
        if m < n {
            assert(a[m] == '&');
        } else if m >= n + here.len() {
            assert(b[m - n - here.len()] == '&');
        } else {
            assert(here[m - n] == '&');
            assert(m == n);
            assert(s[m + 2] == here[2]);
        }
    }
}

/// Text around an entity that is none of the common ones stays as it is.
proof fn lemma_untouched(a: Seq<char>, here: Seq<char>, b: Seq<char>)
    requires
        !a.contains('&') && !a.contains('<') && !a.contains('>'),
        !b.contains('&') && !b.contains('<') && !b.contains('>'),
        here.len() > 1,
        here[0] == '&',
        here[1] == '#' || here[1] == 'n',
        forall|i: int| 0 < i < here.len() ==> #[trigger] here[i] != '&',
        !here.contains('<') && !here.contains('>'),
    ensures
        common_entities(outside_tags(a + here + b, false)) == a + here + b,
{
    let s = a + here + b;
    assert(!s.contains('<') && !s.contains('>')) by {
        assert forall|i: int| 0 <= i < s.len() implies s[i] != '<' && s[i] != '>' by {
            let n = a.len() as int;
            if i < n {
                assert(a.contains(s[i])) by {
                    assert(a[i] == s[i]);
                }
            } else if i < n + here.len() {
                assert(here.contains(s[i])) by {
                    assert(here[i - n] == s[i]);
                }
            } else {
                assert(b.contains(s[i])) by {
                    assert(b[i - n - here.len()] == s[i]);
                }
            }
        }
    }
    lemma_plain_stays(s, false);
    reveal_strlit("&amp;");
    reveal_strlit("&lt;");
    reveal_strlit("&gt;");
    reveal_strlit("&quot;");
    lemma_other_entity(a, here, b, "&amp;"@);
    lemma_other_entity(a, here, b, "&lt;"@);
    lemma_other_entity(a, here, b, "&gt;"@);
    lemma_other_entity(a, here, b, "&quot;"@);
    text::lemma_replaced(s, "&amp;"@, s, "&"@);
    text::lemma_replaced(s, "&lt;"@, s, "<"@);
    text::lemma_replaced(s, "&gt;"@, s, ">"@);
    text::lemma_replaced(s, "&quot;"@, s, "\""@);
}

} // verus!
