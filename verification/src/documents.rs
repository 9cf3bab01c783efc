//! Documents on disk: which can be read, how much of their text is used, and
//! their pages as pictures.

use vstd::prelude::*;
use vstd::string::*;
use vstd::seq_lib::*;
use crate::paths::extension;
use crate::paths;
use crate::text;

verus! {

// ---------------------------------------------------------------------------
// Text
// ---------------------------------------------------------------------------

/// How the text of a document is read.
#[derive(Clone, Copy, Debug, PartialEq, Eq, Structural)]
pub enum TextSource {
    /// With a reader of PDF.
    Pdf,
    /// As it stands.
    Plain,
    /// Not at all.
    Unreadable,
}

/// The extensions of documents that are text as they stand.
pub const PLAIN_EXTENSIONS: [&'static str; 10] = [
    "txt",
    "md",
    "markdown",
    "csv",
    "tex",
    "json",
    "rs",
    "py",
    "ts",
    "js",
];

/// How the text of a document is read, by its extension in lower case.
pub open spec fn source_for(ext: Seq<char>) -> TextSource {
    if ext == "pdf"@ {
        TextSource::Pdf
    } else if text::is_one_of(ext, PLAIN_EXTENSIONS@) {
        TextSource::Plain
    } else {
        TextSource::Unreadable
    }
}

/// The extension of a path, empty where it has none.
pub open spec fn extension_or_empty(path: Seq<char>) -> Seq<char> {
    match paths::extension_in_path(path) {
        Some(e) => e,
        None => seq![],
    }
}

/// How the text of a document is read, by its extension in lower case.
pub fn source_of_lowered(ext: &str) -> (r: TextSource)
    ensures
        r == source_for(ext@),
{
    if text::same(ext, "pdf") {
        TextSource::Pdf
    } else if text::one_of(ext, PLAIN_EXTENSIONS.as_slice()) {
        TextSource::Plain
    } else {
        TextSource::Unreadable
    }
}

/// How the text of the document at a path is read.
pub fn text_source(path: &str) -> (r: TextSource)
    ensures
        r == source_for(text::lowercase(extension_or_empty(path@))),
{
    let ext = match extension(path) {
        Some(e) => e,
        None => {
            let none = String::new();
            assert(none@ =~= seq![]);
            none
        },
    };
    let lower = ext.as_str().to_lowercase();
    source_of_lowered(lower.as_str())
}

/// The text of a document as it is used: its beginning, without white space at
/// the ends.
pub open spec fn clipped(s: Seq<char>, max_chars: int) -> Seq<char> {
    text::trimmed(text::first_chars(s, max_chars))
}

/// How much of a document is read to classify it, in characters.
pub const CLASSIFY_CHARS: usize = 4000;

/// How much of a document is read to sum it up, in characters.
pub const SUMMARY_CHARS: usize = 30000;

/// The text of a document as it is used: at most `max_chars` characters.
pub fn extract_text(s: &str, max_chars: usize) -> (r: String)
    ensures
        r@ == clipped(s@, max_chars as int),
        r@.len() <= max_chars,
{
    let head = text::take_chars(s, max_chars);
    proof {
        text::lemma_trimmed(head@);
    }
    text::trim(head.as_str())
}

/// The arguments with which `pdftotext` writes the text of the first forty
/// pages of a document to its output.
pub fn pdftotext_args(path: &str) -> (r: Vec<String>)
    ensures
        text::views(r@) == seq!["-q"@, "-l"@, "40"@, path@, "-"@],
{
    let mut v: Vec<String> = Vec::new();
    v.push("-q".to_owned());
    v.push("-l".to_owned());
    v.push("40".to_owned());
    v.push(path.to_owned());
    v.push("-".to_owned());
    assert(text::views(v@) =~= seq!["-q"@, "-l"@, "40"@, path@, "-"@]);
    v
}

/// Whether the output of `pdftotext` is the text of the document: it succeeded
/// and wrote something. Otherwise another reader is tried.
pub fn pdftotext_served(success: bool, output_len: usize) -> (r: bool)
    ensures
        r == (success && output_len > 0),
{
    success && output_len > 0
}

// ---------------------------------------------------------------------------
// Pages
// ---------------------------------------------------------------------------

/// How many pages of a document are sent as pictures at most.
pub const MAX_PDF_IMAGES: usize = 24;

/// Whether a path leads to a PDF.
pub open spec fn leads_to_pdf(path: Seq<char>) -> bool {
    match paths::extension_in_path(path) {
        Some(e) => text::lowercase(e) == "pdf"@,
        None => false,
    }
}

/// Whether a path leads to a PDF.
pub fn is_pdf(path: &str) -> (r: bool)
    ensures
        r == leads_to_pdf(path@),
{
    match extension(path) {
        Some(e) => {
            let lower = e.as_str().to_lowercase();
            text::same(lower.as_str(), "pdf")
        },
        None => false,
    }
}

/// The arguments with which `pdftoppm` draws the first pages of a document to
/// PNG files whose names begin with `prefix`.
pub fn pdftoppm_args(path: &str, prefix: &str, max_pages: usize) -> (r: Vec<String>)
    ensures
        text::views(r@) == seq![
            "-png"@,
            "-r"@,
            "120"@,
            "-scale-to-x"@,
            "1240"@,
            "-scale-to-y"@,
            "-1"@,
            "-f"@,
            "1"@,
            "-l"@,
            text::decimal(max_pages as nat),
            path@,
            prefix@,
        ],
{
    let mut v: Vec<String> = Vec::new();
    v.push("-png".to_owned());
    v.push("-r".to_owned());
    v.push("120".to_owned());
    v.push("-scale-to-x".to_owned());
    v.push("1240".to_owned());
    v.push("-scale-to-y".to_owned());
    v.push("-1".to_owned());
    v.push("-f".to_owned());
    v.push("1".to_owned());
    v.push("-l".to_owned());
    v.push(text::number(max_pages as u64));
    v.push(path.to_owned());
    v.push(prefix.to_owned());
    assert(text::views(v@) =~= seq![
        "-png"@,
        "-r"@,
        "120"@,
        "-scale-to-x"@,
        "1240"@,
        "-scale-to-y"@,
        "-1"@,
        "-f"@,
        "1"@,
        "-l"@,
        text::decimal(max_pages as nat),
        path@,
        prefix@,
    ]);
    v
}

/// Whether a file is a page: its extension is `png`.
pub open spec fn is_page(path: Seq<char>) -> bool {
    paths::extension_in_path(path) == Some("png"@)
}

/// The names stand in ascending order.
pub open spec fn ascending(s: Seq<Seq<char>>) -> bool {
    forall|i: int, j: int|
        0 <= i < j < s.len() ==> !text::precedes(#[trigger] s[j], #[trigger] s[i])
}

/// `all` holds the pages among the files, in ascending order.
pub open spec fn pages_in_order(files: Seq<Seq<char>>, all: Seq<Seq<char>>) -> bool {
    &&& ascending(all)
    &&& all.to_multiset() == files.filter(|p: Seq<char>| is_page(p)).to_multiset()
}

/// Puts a name into its place among names in ascending order.
fn insert_in_order(v: &mut Vec<String>, name: String)
    requires
        ascending(text::views(old(v)@)),
    ensures
        ascending(text::views(final(v)@)),
        text::views(final(v)@).to_multiset() == text::views(old(v)@).to_multiset().insert(name@),
{
    let ghost before = text::views(v@);
    let mut i: usize = v.len();
    while i > 0 && text::before(name.as_str(), v[i - 1].as_str())
        invariant
            i <= v@.len(),
            v@ == old(v)@,
            before == text::views(v@),
            forall|j: int| i <= j < v@.len() ==> text::precedes(name@, #[trigger] before[j]),
        decreases i,
    {
        assert(before[i - 1] == v@[i - 1]@);
        i -= 1;
    }
    let ghost stop = i > 0;
    assert(stop ==> !text::precedes(name@, before[i - 1])) by {
        if stop {
            assert(before[i - 1] == v@[i - 1]@);
        }
    }
    v.insert(i, name);
    proof {
        let after = text::views(v@);
        assert(after =~= before.insert(i as int, name@));
        to_multiset_insert(before, i as int, name@);
        assert forall|a: int, b: int| 0 <= a < b < after.len() implies !text::precedes(
            #[trigger] after[b],
            #[trigger] after[a],
        ) by {
            if a < i && b < i {
                assert(after[a] == before[a] && after[b] == before[b]);
            } else if a > i && b > i {
                assert(after[a] == before[a - 1] && after[b] == before[b - 1]);
            } else if a < i && b > i {
                assert(after[a] == before[a] && after[b] == before[b - 1]);
            } else if b == i {
                // The name behind one that does not come after it.
                assert(after[a] == before[a]);
                if a < i - 1 {
                    text::lemma_precedes_transitive(before[a], before[i - 1], name@);
                }
            } else {
                // The name before one that comes after it.
                assert(after[b] == before[b - 1]);
                text::lemma_precedes_total(name@, before[b - 1]);
            }
        }
    }
}

/// The first pages among the files that were drawn, in ascending order of their
/// names.
pub fn page_files(files: &Vec<String>, max_pages: usize) -> (r: Vec<String>)
    ensures
        exists|all: Seq<Seq<char>>| #[trigger]
            pages_in_order(text::views(files@), all) && text::views(r@) == (if max_pages
                < all.len() {
                all.take(max_pages as int)
            } else {
                all
            }),
{
    let mut v: Vec<String> = Vec::new();
    let ghost fs = text::views(files@);
    let ghost keep = |p: Seq<char>| is_page(p);
    let mut i: usize = 0;
    proof {
        reveal(Seq::filter);
        assert(text::views(v@) =~= fs.take(0).filter(keep));
    }
    while i < files.len()
        invariant
            i <= files@.len(),
            fs == text::views(files@),
            keep == (|p: Seq<char>| is_page(p)),
            ascending(text::views(v@)),
            text::views(v@).to_multiset() == fs.take(i as int).filter(keep).to_multiset(),
        decreases files.len() - i,
    {
        let png = match extension(files[i].as_str()) {
            Some(e) => text::same(e.as_str(), "png"),
            None => false,
        };
        proof {
            reveal(Seq::filter);
            assert(fs.take(i + 1).drop_last() =~= fs.take(i as int));
            assert(fs.take(i + 1).last() == files@[i as int]@);
            to_multiset_build(fs.take(i as int).filter(keep), files@[i as int]@);
        }
        if png {
            insert_in_order(&mut v, files[i].clone());
        }
        i += 1;
    }
    assert(fs.take(fs.len() as int) =~= fs);
    let ghost all = text::views(v@);
    assert(pages_in_order(fs, all));
    if max_pages < v.len() {
        v.truncate(max_pages);
        assert(text::views(v@) =~= all.take(max_pages as int));
    }
    v
}

/// The alphabet of base64.
pub const BASE64_ALPHABET: &'static str = "ABCDEFGHIJKLMNOPQRSTUVWXYZabcdefghijklmnopqrstuvwxyz0123456789+/";

/// Bytes in base64: three bytes in four characters, what is left over filled up
/// with `=`.
pub open spec fn base64_text(b: Seq<u8>) -> Seq<char>
    decreases b.len(),
{
    let a = BASE64_ALPHABET@;
    if b.len() == 0 {
        seq![]
    } else if b.len() == 1 {
        seq![a[b[0] as int / 4], a[b[0] as int % 4 * 16], '=', '=']
    } else if b.len() == 2 {
        seq![
            a[b[0] as int / 4],
            a[b[0] as int % 4 * 16 + b[1] as int / 16],
            a[b[1] as int % 16 * 4],
            '=',
        ]
    } else {
        seq![
            a[b[0] as int / 4],
            a[b[0] as int % 4 * 16 + b[1] as int / 16],
            a[b[1] as int % 16 * 4 + b[2] as int / 64],
            a[b[2] as int % 64],
        ] + base64_text(b.skip(3))
    }
}

/// `base64::Engine::encode` of the engine `STANDARD`: base64 with the standard
/// alphabet and with padding.
#[verifier::external_body]
fn encode_base64(bytes: &[u8]) -> (r: String)
    requires
        bytes@.len() <= isize::MAX,
    ensures
        r@ == base64_text(bytes@),
{
    base64::Engine::encode(&base64::engine::general_purpose::STANDARD, bytes)
}

/// The bytes of a PNG picture as an address that holds the picture itself.
pub fn data_uri(png: &[u8]) -> (r: String)
    requires
        png@.len() <= isize::MAX,
    ensures
        r@ == "data:image/png;base64,"@ + base64_text(png@),
{
    let encoded = encode_base64(png);
    text::concat("data:image/png;base64,", encoded.as_str())
}

/// The pages of a document, drawn as PNG pictures, as addresses that hold the
/// pictures themselves, in their order.
pub fn render_pdf_images(pages: &Vec<Vec<u8>>) -> (r: Vec<String>)
    requires
        forall|i: int| 0 <= i < pages@.len() ==> (#[trigger] pages@[i])@.len() <= isize::MAX,
    ensures
        text::views(r@) == pages@.map_values(
            |p: Vec<u8>| "data:image/png;base64,"@ + base64_text(p@),
        ),
{
    let ghost all = pages@.map_values(|p: Vec<u8>| "data:image/png;base64,"@ + base64_text(p@));
    let mut out: Vec<String> = Vec::new();
    let mut i: usize = 0;
    assert(text::views(out@) =~= all.take(0));
    while i < pages.len()
        invariant
            i <= pages@.len(),
            forall|j: int| 0 <= j < pages@.len() ==> (#[trigger] pages@[j])@.len() <= isize::MAX,
            all == pages@.map_values(
                |p: Vec<u8>| "data:image/png;base64,"@ + base64_text(p@),
            ),
            text::views(out@) == all.take(i as int),
        decreases pages.len() - i,
    {
        let uri = data_uri(pages[i].as_slice());
        proof {
            assert(uri@ == all[i as int]);
            text::lemma_views_push(out@, uri);
            assert(all.take(i + 1) =~= all.take(i as int).push(uri@));
        }
        out.push(uri);
        i += 1;
    }
    assert(all.take(all.len() as int) =~= all);
    out
}

// ---------------------------------------------------------------------------
// What is read, and how much of it
// ---------------------------------------------------------------------------

/// How a document is read: a PDF with a reader of PDF, plain text and source code as
/// they stand, and anything else not at all.
pub proof fn lemma_sources(ext: Seq<char>)
    ensures
        source_for("pdf"@) == TextSource::Pdf,
        ext == "txt"@ || ext == "md"@ || ext == "markdown"@ || ext == "csv"@ || ext == "tex"@
            || ext == "json"@ || ext == "rs"@ || ext == "py"@ || ext == "ts"@ || ext == "js"@
            ==> source_for(ext) == TextSource::Plain,
        ext != "pdf"@ && ext != "txt"@ && ext != "md"@ && ext != "markdown"@ && ext != "csv"@ && ext
            != "tex"@ && ext != "json"@ && ext != "rs"@ && ext != "py"@ && ext != "ts"@ && ext
            != "js"@ ==> source_for(ext) == TextSource::Unreadable,
{
    reveal_strlit("pdf");
    reveal_strlit("txt");
    reveal_strlit("md");
    reveal_strlit("markdown");
    reveal_strlit("csv");
    reveal_strlit("tex");
    reveal_strlit("json");
    reveal_strlit("rs");
    reveal_strlit("py");
    reveal_strlit("ts");
    reveal_strlit("js");
    let p = PLAIN_EXTENSIONS@;
    assert(p[0]@ == "txt"@ && p[1]@ == "md"@ && p[2]@ == "markdown"@ && p[3]@ == "csv"@ && p[4]@
        == "tex"@ && p[5]@ == "json"@ && p[6]@ == "rs"@ && p[7]@ == "py"@ && p[8]@ == "ts"@
        && p[9]@ == "js"@);
    assert("pdf"@.len() == 3 && "pdf"@[0] == 'p');
    assert("txt"@[0] == 't' && "csv"@[0] == 'c' && "tex"@[0] == 't' && "markdown"@.len() == 8
        && "json"@.len() == 4 && "md"@.len() == 2 && "rs"@.len() == 2 && "py"@.len() == 2
        && "ts"@.len() == 2 && "js"@.len() == 2);
}

/// What is kept of a text has no blanks at its ends, stands in the text before the limit
/// and is all of a text that is short enough.
#[verifier::rlimit(40)]
pub proof fn lemma_clipped(s: Seq<char>, n: int)
    requires
        0 <= n,
    ensures
        clipped(s, n).len() <= n,
        clipped(s, n).len() > 0 ==> !text::is_white(clipped(s, n)[0]) && !text::is_white(
            clipped(s, n).last(),
        ),
        s.len() <= n ==> clipped(s, n) == text::trimmed(s),
        s.len() > n && n > 0 && !text::is_white(s[0]) && !text::is_white(s[n - 1]) ==> clipped(s, n)
            == s.take(n),
{
    let head = text::first_chars(s, n);
    assert(clipped(s, n).len() <= n) by {
        text::lemma_trimmed(head);
        let (a, b) = choose|a: int, b: int|
            0 <= a <= b <= head.len() && text::trimmed(head) == #[trigger] head.subrange(a, b);
        assert(head.subrange(a, b).len() == b - a);
    }
    assert(clipped(s, n).len() > 0 ==> !text::is_white(clipped(s, n)[0]) && !text::is_white(
        clipped(s, n).last(),
    )) by {
        text::lemma_trimmed(head);
    }
    if s.len() > n && n > 0 && !text::is_white(s[0]) && !text::is_white(s[n - 1]) {
        assert(head[0] == s[0] && head.last() == s[n - 1]);
        text::lemma_trim_nothing(head);
    }
}

/// Three bytes are four characters; what is left over is filled up.
pub proof fn lemma_base64_len(b: Seq<u8>)
    ensures
        base64_text(b).len() == (b.len() + 2) / 3 * 4,
    decreases b.len(),
{
    if b.len() > 2 {
        lemma_base64_len(b.skip(3));
    }
}

/// A document is what its extension says: a page is a PNG, and a PDF is one however its
/// extension is written.
pub proof fn lemma_document_kinds(dir: Seq<char>, a: Seq<char>, b: Seq<char>)
    requires
        a.len() > 0,
        b.len() > 0,
        !a.contains('/'),
        !b.contains('/'),
        !b.contains('.'),
    ensures
        ({
            let path = dir + seq!['/'] + (a + seq!['.'] + b);
            &&& is_page(path) <==> b == "png"@
            &&& leads_to_pdf(path) <==> text::lowercase(b) == "pdf"@
            &&& extension_or_empty(path) == b
        }),
{
    paths::lemma_extension_in_path(dir, a, b);
}

/// Pages in order are all the pages among the files and no other file, and no page
/// stands behind one that it precedes.
pub proof fn lemma_pages(files: Seq<Seq<char>>, all: Seq<Seq<char>>, p: Seq<char>)
    requires
        pages_in_order(files, all),
    ensures
        all.contains(p) <==> files.contains(p) && paths::extension_in_path(p) == Some("png"@),
        forall|i: int, j: int|
            0 <= i < j < all.len() ==> !text::precedes(#[trigger] all[j], #[trigger] all[i]),
{
    let keep = |p: Seq<char>| is_page(p);
    let pages = files.filter(keep);
    all.to_multiset_ensures();
    pages.to_multiset_ensures();
    assert(all.contains(p) <==> pages.contains(p)) by {
        assert(all.contains(p) <==> all.to_multiset().count(p) > 0);
        assert(pages.contains(p) <==> pages.to_multiset().count(p) > 0);
    }
    if files.contains(p) && is_page(p) {
        let k = choose|k: int| 0 <= k < files.len() && files[k] == p;
        files.lemma_filter_contains(keep, k);
    }
    if pages.contains(p) {
        let k = choose|k: int| 0 <= k < pages.len() && pages[k] == p;
        files.lemma_filter_pred(keep, k);
        files.lemma_filter_contains_rev(keep, p);
    }
}

/// The four groups of six bits of three bytes.
proof fn lemma_groups(x: u8, y: u8, z: u8)
    ensures
        (x as int * 65536 + y as int * 256 + z as int) / 262144 == x as int / 4,
        (x as int * 65536 + y as int * 256 + z as int) / 4096 % 64 == x as int % 4 * 16 + y as int
            / 16,
        (x as int * 65536 + y as int * 256 + z as int) / 64 % 64 == y as int % 16 * 4 + z as int
            / 64,
        (x as int * 65536 + y as int * 256 + z as int) % 64 == z as int % 64,
{
    assert((x * 65536 + y * 256 + z) / 262144 == x / 4) by (bit_vector);
    assert((x * 65536 + y * 256 + z) / 4096 % 64 == x % 4 * 16 + y / 16) by (bit_vector);
    assert((x * 65536 + y * 256 + z) / 64 % 64 == y % 16 * 4 + z / 64) by (bit_vector);
    assert((x * 65536 + y * 256 + z) % 64 == z % 64) by (bit_vector);
}

/// Three bytes are one number of twenty-four bits, and its four groups of six bits choose
/// the characters; bytes that are missing at the end count as zero, and a group without
/// any bit of a byte is an equals sign.
pub proof fn lemma_base64_groups(x: u8, y: u8, z: u8, rest: Seq<u8>)
    ensures
        ({
            let a = "ABCDEFGHIJKLMNOPQRSTUVWXYZabcdefghijklmnopqrstuvwxyz0123456789+/"@;
            let n = x as int * 65536 + y as int * 256 + z as int;
            base64_text(seq![x, y, z] + rest) == seq![
                a[n / 262144],
                a[n / 4096 % 64],
                a[n / 64 % 64],
                a[n % 64],
            ] + base64_text(rest)
        }),
        ({
            let a = "ABCDEFGHIJKLMNOPQRSTUVWXYZabcdefghijklmnopqrstuvwxyz0123456789+/"@;
            let n = x as int * 65536 + y as int * 256;
            base64_text(seq![x, y]) == seq![a[n / 262144], a[n / 4096 % 64], a[n / 64 % 64], '=']
        }),
        ({
            let a = "ABCDEFGHIJKLMNOPQRSTUVWXYZabcdefghijklmnopqrstuvwxyz0123456789+/"@;
            let n = x as int * 65536;
            base64_text(seq![x]) == seq![a[n / 262144], a[n / 4096 % 64], '=', '=']
        }),
        base64_text(Seq::empty()).len() == 0,
{
    let b = seq![x, y, z] + rest;
    assert(b.skip(3) =~= rest);
    assert(b[0] == x && b[1] == y && b[2] == z);
    lemma_groups(x, y, z);
    lemma_groups(x, y, 0);
    lemma_groups(x, 0, 0);
}

} // verus!
