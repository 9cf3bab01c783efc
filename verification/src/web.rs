//! A search on the web: the address of a query, and what its page of results
//! says.

use vstd::prelude::*;
use vstd::string::*;
use vstd::utf8::*;
use vstd::slice::slice_subrange;
use crate::html::strip_tags;
use crate::html;
use crate::text;

verus! {

/// How many results of a search go into a summary at most.
pub const MAX_RESULTS: usize = 6;

// ---------------------------------------------------------------------------
// The address
// ---------------------------------------------------------------------------

/// Bytes that stand for themselves in a query.
pub open spec fn unreserved(b: u8) -> bool {
    ||| 97 <= b <= 122
    ||| 65 <= b <= 90
    ||| 48 <= b <= 57
    ||| b == 45
    ||| b == 95
    ||| b == 46
    ||| b == 126
}

/// A hexadecimal digit in upper case.
pub open spec fn hex_digit(d: int) -> char {
    if d < 10 {
        (48 + d) as char
    } else {
        (55 + d) as char
    }
}

/// A byte as it stands in a query.
pub open spec fn query_byte(b: u8) -> Seq<char> {
    if unreserved(b) {
        seq![b as char]
    } else if b == 32 {
        seq!['+']
    } else {
        seq!['%', hex_digit(b as int / 16), hex_digit(b as int % 16)]
    }
}

/// Bytes as they stand in a query.
pub open spec fn query_bytes(bs: Seq<u8>) -> Seq<char>
    decreases bs.len(),
{
    if bs.len() == 0 {
        seq![]
    } else {
        query_byte(bs[0]) + query_bytes(bs.skip(1))
    }
}

/// A hexadecimal digit in upper case.
fn hex(d: u8) -> (r: char)
    requires
        d < 16,
    ensures
        r == hex_digit(d as int),
{
    if d < 10 {
        (48 + d) as char
    } else {
        (55 + d) as char
    }
}

/// A text as it stands in a query.
pub fn url_encode(s: &str) -> (r: String)
    ensures
        r@ == query_bytes(encode_utf8(s@)),
{
    let bs = s.as_bytes();
    let mut out = String::new();
    let mut i: usize = 0;
    assert(bs@.skip(0) =~= bs@);
    assert(out@ + query_bytes(bs@.skip(0)) =~= query_bytes(bs@));
    while i < bs.len()
        invariant
            i <= bs@.len(),
            out@ + query_bytes(bs@.skip(i as int)) == query_bytes(bs@),
        decreases bs.len() - i,
    {
        let b: u8 = bs[i];
        let ghost before = out@;
        let plain = (97 <= b && b <= 122) || (65 <= b && b <= 90) || (48 <= b && b <= 57) || b == 45
            || b == 95 || b == 46 || b == 126;
        if plain {
            out.push(b as char);
        } else if b == 32 {
            out.push('+');
        } else {
            out.push('%');
            out.push(hex(b / 16));
            out.push(hex(b % 16));
        }
        proof {
            assert(out@ =~= before + query_byte(b));
            assert(bs@.skip(i as int).skip(1) =~= bs@.skip(i + 1));
            assert(out@ + query_bytes(bs@.skip(i + 1)) =~= before + query_bytes(
                bs@.skip(i as int),
            ));
        }
        i += 1;
    }
    assert(query_bytes(bs@.skip(bs@.len() as int)) =~= seq![]);
    assert(out@ =~= query_bytes(bs@));
    out
}

/// The address of the results of a query.
pub fn search_url(query: &str) -> (r: String)
    ensures
        r@ == "https://html.duckduckgo.com/html/?q="@ + query_bytes(encode_utf8(query@)),
{
    let q = url_encode(query);
    text::concat("https://html.duckduckgo.com/html/?q=", q.as_str())
}

/// Bytes that look alike in a query are the same.
pub proof fn lemma_query_bytes_injective(a: Seq<u8>, b: Seq<u8>)
    requires
        query_bytes(a) == query_bytes(b),
    ensures
        a == b,
    decreases a.len(),
{
    if a.len() == 0 || b.len() == 0 {
        if a.len() > 0 {
            assert(query_bytes(a).len() > 0);
        }
        if b.len() > 0 {
            assert(query_bytes(b).len() > 0);
        }
        assert(a =~= b);
    } else {
        let x = query_byte(a[0]);
        let y = query_byte(b[0]);
        let p = query_bytes(a.skip(1));
        let q = query_bytes(b.skip(1));
        assert((x + p)[0] == x[0]);
        assert((y + q)[0] == y[0]);
        if x.len() == 3 && y.len() == 3 {
            assert((x + p)[1] == x[1] && (x + p)[2] == x[2]);
            assert((y + q)[1] == y[1] && (y + q)[2] == y[2]);
            assert(a[0] as int / 16 == b[0] as int / 16);
            assert(a[0] as int % 16 == b[0] as int % 16);
        }
        assert(a[0] == b[0]);
        assert(p =~= (x + p).skip(x.len() as int));
        assert(q =~= (y + q).skip(y.len() as int));
        lemma_query_bytes_injective(a.skip(1), b.skip(1));
        assert(a =~= seq![a[0]] + a.skip(1));
        assert(b =~= seq![b[0]] + b.skip(1));
    }
}

/// Two different texts never stand alike in a query.
pub proof fn lemma_query_injective(a: Seq<char>, b: Seq<char>)
    requires
        query_bytes(encode_utf8(a)) == query_bytes(encode_utf8(b)),
    ensures
        a == b,
{
    lemma_query_bytes_injective(encode_utf8(a), encode_utf8(b));
    text::lemma_encoding_injective(a, b);
}

// ---------------------------------------------------------------------------
// The results
// ---------------------------------------------------------------------------

/// The text of the link that a piece of the page begins in: what stands between
/// the first `>` and the next `</a>`.
pub open spec fn link_text(piece: Seq<char>) -> Option<Seq<char>> {
    match text::first_index(piece, '>') {
        Some(g) => match text::find(piece.skip(g + 1), "</a>"@) {
            Some(e) => Some(html::snippet_text(piece.skip(g + 1).take(e))),
            None => None,
        },
        None => None,
    }
}

/// The texts of the links in the pieces from the second to the `n`-th.
pub open spec fn link_texts(pieces: Seq<Seq<char>>, n: int) -> Seq<Seq<char>>
    decreases n,
{
    if n <= 1 {
        seq![]
    } else {
        match link_text(pieces[n - 1]) {
            Some(t) => link_texts(pieces, n - 1).push(t),
            None => link_texts(pieces, n - 1),
        }
    }
}

/// The texts of the links that a class marks on a page.
pub open spec fn marked_links(page: Seq<char>, class: Seq<char>) -> Seq<Seq<char>> {
    let pieces = text::split(page, class);
    link_texts(pieces, pieces.len() as int)
}

/// The text of the link that a piece of the page begins in.
fn link_text_in(piece: &str) -> (r: Option<String>)
    ensures
        text::opt_view(r) == link_text(piece@),
{
    let v = text::chars_of(piece);
    let close = text::chars_of("</a>");
    match text::index_of(v.as_slice(), '>') {
        Some(g) => {
            let n: usize = v.len();
            let rest = slice_subrange(v.as_slice(), g + 1, n);
            assert(rest@ =~= piece@.skip(g + 1));
            match text::find_chars(rest, close.as_slice(), 0) {
                Some(e) => {
                    let inner = text::string_of(slice_subrange(rest, 0, e));
                    assert(inner@ =~= piece@.skip(g + 1).take(e as int));
                    Some(strip_tags(inner.as_str()))
                },
                None => None,
            }
        },
        None => None,
    }
}

/// The texts of the links that a class marks on a page.
fn links_marked(page: &str, class: &str) -> (r: Vec<String>)
    requires
        class@.len() > 0,
    ensures
        text::views(r@) == marked_links(page@, class@),
{
    let pieces = text::split_text(page, class);
    let ghost ps = text::views(pieces@);
    let mut out: Vec<String> = Vec::new();
    let mut i: usize = 1;
    assert(text::views(out@) =~= seq![]);
    proof {
        text::lemma_split_some(page@, class@);
        assert(ps.len() == pieces@.len());
    }
    while i < pieces.len()
        invariant
            1 <= i <= pieces@.len(),
            ps == text::views(pieces@),
            text::views(out@) == link_texts(ps, i as int),
        decreases pieces.len() - i,
    {
        assert(ps[i as int] == pieces@[i as int]@);
        match link_text_in(pieces[i].as_str()) {
            Some(t) => {
                proof {
                    text::lemma_views_push(out@, t);
                }
                out.push(t);
            },
            None => {},
        }
        i += 1;
    }
    out
}

/// The line of a result; none where its excerpt is too short to say anything.
pub open spec fn result_line(titles: Seq<Seq<char>>, snippets: Seq<Seq<char>>, i: int) -> Seq<char> {
    let s = snippets[i];
    if encode_utf8(s).len() < 20 {
        seq![]
    } else if i < titles.len() && titles[i].len() > 0 {
        "- "@ + titles[i] + ": "@ + s + "\n"@
    } else {
        "- "@ + s + "\n"@
    }
}

/// The lines of the first `n` results.
pub open spec fn result_lines(
    titles: Seq<Seq<char>>,
    snippets: Seq<Seq<char>>,
    n: int,
) -> Seq<char>
    decreases n,
{
    if n <= 0 {
        seq![]
    } else {
        result_lines(titles, snippets, n - 1) + result_line(titles, snippets, n - 1)
    }
}

/// What a page of results says: title and excerpt of the first results.
pub open spec fn page_digest(page: Seq<char>, max_results: int) -> Seq<char> {
    let titles = marked_links(page, "result__a"@);
    let snippets = marked_links(page, "result__snippet"@);
    result_lines(
        titles,
        snippets,
        if max_results < snippets.len() {
            max_results
        } else {
            snippets.len() as int
        },
    )
}

/// What a page of results says: title and excerpt of the first results.
pub fn web_search(page: &str, max_results: usize) -> (r: String)
    ensures
        r@ == page_digest(page@, max_results as int),
{
    proof {
        reveal_strlit("result__a");
        reveal_strlit("result__snippet");
    }
    let titles = links_marked(page, "result__a");
    let snippets = links_marked(page, "result__snippet");
    let ghost ts = text::views(titles@);
    let ghost ss = text::views(snippets@);
    let n: usize = if max_results < snippets.len() {
        max_results
    } else {
        snippets.len()
    };
    let mut out = String::new();
    let mut i: usize = 0;
    while i < n
        invariant
            i <= n <= snippets@.len(),
            ts == text::views(titles@),
            ss == text::views(snippets@),
            out@ == result_lines(ts, ss, i as int),
        decreases n - i,
    {
        let s = &snippets[i];
        assert(ss[i as int] == s@);
        let mut line = String::new();
        if text::byte_len(s.as_str()) >= 20 {
            line = "- ".to_owned();
            if i < titles.len() {
                assert(ts[i as int] == titles@[i as int]@);
                if !titles[i].as_str().is_empty() {
                    line.append(titles[i].as_str());
                    line.append(": ");
                }
            }
            line.append(s.as_str());
            line.append("\n");
        }
        assert(line@ =~= result_line(ts, ss, i as int));
        out.append(line.as_str());
        i += 1;
    }
    out
}

// ---------------------------------------------------------------------------
// What is asked and found
// ---------------------------------------------------------------------------

/// The value of a digit of base sixteen.
pub open spec fn hex_value(c: char) -> int {
    if '0' <= c <= '9' {
        c as int - '0' as int
    } else {
        c as int - 'A' as int + 10
    }
}

/// A query is encoded byte by byte: letters, digits and `-`, `_`, `.`, `~` stay, a space
/// is a plus sign, and every other byte is a percent sign and its two digits of base
/// sixteen.
pub proof fn lemma_query_by_byte(a: Seq<u8>, b: Seq<u8>, x: u8)
    ensures
        query_bytes(a + b) == query_bytes(a) + query_bytes(b),
        ('a' as u8 <= x <= 'z' as u8 || 'A' as u8 <= x <= 'Z' as u8 || '0' as u8 <= x <= '9' as u8
            || x == '-' as u8 || x == '_' as u8 || x == '.' as u8 || x == '~' as u8) ==> query_bytes(
            seq![x],
        ) == seq![x as char],
        x == ' ' as u8 ==> query_bytes(seq![x]) == seq!['+'],
        !('a' as u8 <= x <= 'z' as u8 || 'A' as u8 <= x <= 'Z' as u8 || '0' as u8 <= x <= '9' as u8
            || x == '-' as u8 || x == '_' as u8 || x == '.' as u8 || x == '~' as u8 || x == ' ' as u8)
            ==> query_bytes(seq![x]).len() == 3 && query_bytes(seq![x])[0] == '%' && hex_value(
            query_bytes(seq![x])[1],
        ) * 16 + hex_value(query_bytes(seq![x])[2]) == x,
    decreases a.len(),
{
    reveal_with_fuel(query_bytes, 3);
    assert(seq![x].skip(1).len() == 0);
    assert(query_bytes(seq![x]) =~= query_byte(x));
    if a.len() == 0 {
        assert(a + b =~= b);
        assert(query_bytes(a) + query_bytes(b) =~= query_bytes(b));
    } else {
        lemma_query_by_byte(a.skip(1), b, x);
        assert((a + b).skip(1) =~= a.skip(1) + b);
        assert(query_bytes(a + b) =~= query_bytes(a) + query_bytes(b));
    }
}

/// The text of a link is what stands between the end of its tag and `</a>`; a piece
/// without them has none.
pub proof fn lemma_link_text(tag: Seq<char>, inner: Seq<char>, rest: Seq<char>)
    requires
        !tag.contains('>'),
        !text::contains(inner, "</a>"@),
    ensures
        link_text(tag + seq!['>'] + inner + "</a>"@ + rest) == Some(html::snippet_text(inner)),
        link_text(tag) is None,
        link_text(tag + seq!['>'] + inner) is None,
{
    reveal_strlit("</a>");
    let k = "</a>"@;
    let piece = tag + seq!['>'] + inner + k + rest;
    let short = tag + seq!['>'] + inner;
    let n = tag.len() as int;
    text::lemma_first_index(piece, '>');
    text::lemma_first_index(short, '>');
    text::lemma_first_index(tag, '>');
    assert(piece[n] == '>' && short[n] == '>');
    assert(text::first_index(piece, '>') == Some(n)) by {
        let p = text::first_index(piece, '>')->0;
        if p < n {
            assert(tag[p] == '>');
        }
    }
    assert(text::first_index(short, '>') == Some(n)) by {
        let p = text::first_index(short, '>')->0;
        if p < n {
            assert(tag[p] == '>');
        }
    }
    if text::first_index(tag, '>') is Some {
        assert(tag.contains('>'));
    }
    assert(piece.skip(n + 1) =~= inner + k + rest);
    assert(short.skip(n + 1) =~= inner);
    text::lemma_find_word(inner, k, rest);
    text::lemma_find_from(inner, k, 0);
    assert((inner + k + rest).take(inner.len() as int) =~= inner);
}

/// The first pieces alone decide what they give.
proof fn lemma_link_texts_prefix(a: Seq<Seq<char>>, b: Seq<Seq<char>>, n: int)
    requires
        0 <= n <= a.len(),
    ensures
        link_texts(a + b, n) == link_texts(a, n),
    decreases n,
{
    if n > 0 {
        lemma_link_texts_prefix(a, b, n - 1);
        assert((a + b)[n - 1] == a[n - 1]);
    }
}

/// The texts of the links on a page, in their order: nothing before the first mark
/// counts, and each piece behind a mark adds the text of its link, where it has one.
pub proof fn lemma_links_in_order(pieces: Seq<Seq<char>>, first: Seq<char>, piece: Seq<char>)
    requires
        pieces.len() > 0,
    ensures
        link_texts(seq![first], 1).len() == 0,
        link_text(piece) matches Some(t) ==> link_texts(
            pieces.push(piece),
            (pieces.len() + 1) as int,
        ) == link_texts(pieces, pieces.len() as int).push(t),
        link_text(piece) is None ==> link_texts(pieces.push(piece), (pieces.len() + 1) as int)
            == link_texts(pieces, pieces.len() as int),
{
    assert(pieces.push(piece) =~= pieces + seq![piece]);
    lemma_link_texts_prefix(pieces, seq![piece], pieces.len() as int);
    assert((pieces + seq![piece])[pieces.len() as int] == piece);
}

/// A result is a line with its title and its text, or with its text alone where it has
/// no title; one whose text takes less than twenty bytes is left out.
pub proof fn lemma_result_line(titles: Seq<Seq<char>>, snippets: Seq<Seq<char>>, n: int)
    requires
        0 <= n < snippets.len(),
    ensures
        result_lines(titles, snippets, 0).len() == 0,
        encode_utf8(snippets[n]).len() >= 20 && n < titles.len() && titles[n].len() > 0
            ==> result_lines(titles, snippets, n + 1) == result_lines(titles, snippets, n) + "- "@
            + titles[n] + ": "@ + snippets[n] + "\n"@,
        encode_utf8(snippets[n]).len() >= 20 && (n >= titles.len() || titles[n].len() == 0)
            ==> result_lines(titles, snippets, n + 1) == result_lines(titles, snippets, n) + "- "@
            + snippets[n] + "\n"@,
        encode_utf8(snippets[n]).len() < 20 ==> result_lines(titles, snippets, n + 1)
            == result_lines(titles, snippets, n),
{
    let before = result_lines(titles, snippets, n);
    if encode_utf8(snippets[n]).len() < 20 {
        assert(before + Seq::<char>::empty() =~= before);
    }
}

/// The digest of a page holds a line for each of its first results: the titles are the
/// links marked `result__a`, the texts those marked `result__snippet`.
pub proof fn lemma_digest(page: Seq<char>, max_results: int)
    requires
        0 <= max_results,
    ensures
        ({
            let titles = marked_links(page, "result__a"@);
            let snippets = marked_links(page, "result__snippet"@);
            &&& snippets.len() <= max_results ==> page_digest(page, max_results) == result_lines(
                titles,
                snippets,
                snippets.len() as int,
            )
            &&& snippets.len() > max_results ==> page_digest(page, max_results) == result_lines(
                titles,
                snippets,
                max_results,
            )
        }),
{
}

} // verus!
