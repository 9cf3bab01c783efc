//! Text as sequences of characters: the searching, cutting and rewriting that
//! the rest of the library is written with.

use vstd::prelude::*;
use vstd::utf8::*;
use vstd::string::*;
use vstd::slice::slice_subrange;

verus! {

// ---------------------------------------------------------------------------
// Characters
// ---------------------------------------------------------------------------

/// The characters with the Unicode property `White_Space`.
pub open spec fn is_white(c: char) -> bool {
    ||| '\u{9}' <= c <= '\u{d}'
    ||| c == ' '
    ||| c == '\u{85}'
    ||| c == '\u{a0}'
    ||| c == '\u{1680}'
    ||| '\u{2000}' <= c <= '\u{200a}'
    ||| c == '\u{2028}'
    ||| c == '\u{2029}'
    ||| c == '\u{202f}'
    ||| c == '\u{205f}'
    ||| c == '\u{3000}'
}

/// The control characters (Unicode general category `Cc`).
pub open spec fn is_ctrl(c: char) -> bool {
    c <= '\u{1f}' || '\u{7f}' <= c <= '\u{9f}'
}

/// The digits `0` to `9`.
pub open spec fn is_digit(c: char) -> bool {
    '0' <= c <= '9'
}

/// Whether a character is a decimal digit.
pub fn is_digit_char(c: char) -> (r: bool)
    ensures
        r == is_digit(c),
{
    '0' <= c && c <= '9'
}

/// The lower-case form of an ASCII letter; every other character as it is.
pub open spec fn ascii_lower(c: char) -> char {
    if 'A' <= c <= 'Z' {
        (c as u32 + 32) as char
    } else {
        c
    }
}

/// A text with its ASCII letters in lower case.
pub open spec fn ascii_lowered(s: Seq<char>) -> Seq<char> {
    s.map_values(|c: char| ascii_lower(c))
}

/// Whether `c` is white space.
pub fn is_white_space(c: char) -> (r: bool)
    ensures
        r == is_white(c),
{
    ('\u{9}' <= c && c <= '\u{d}') || c == ' ' || c == '\u{85}' || c == '\u{a0}' || c == '\u{1680}'
        || ('\u{2000}' <= c && c <= '\u{200a}') || c == '\u{2028}' || c == '\u{2029}' || c
        == '\u{202f}' || c == '\u{205f}' || c == '\u{3000}'
}

/// Whether `c` is a control character.
pub fn is_control(c: char) -> (r: bool)
    ensures
        r == is_ctrl(c),
{
    c <= '\u{1f}' || ('\u{7f}' <= c && c <= '\u{9f}')
}

// ---------------------------------------------------------------------------
// Strings and their characters
// ---------------------------------------------------------------------------

/// The views of the elements of a sequence.
pub open spec fn views<T: View>(s: Seq<T>) -> Seq<T::V> {
    s.map_values(|t: T| t@)
}

/// The view inside an optional value.
pub open spec fn opt_view<T: View>(o: Option<T>) -> Option<T::V> {
    match o {
        Some(t) => Some(t@),
        None => None,
    }
}

/// `String::push` of std: puts one character at the end.
pub assume_specification[ String::push ](s: &mut String, c: char)
    ensures
        final(s)@ == old(s)@.push(c),
;

/// The result of `str::to_lowercase` of std on the text `s`. The mapping is
/// that of the Unicode tables; only its value on ASCII text is stated.
pub uninterp spec fn lowercase(s: Seq<char>) -> Seq<char>;

/// `str::to_lowercase` of std: the result is a function of the text alone, and
/// on ASCII text it maps each letter on its own.
pub assume_specification[ str::to_lowercase ](s: &str) -> (r: String)
    ensures
        r@ == lowercase(s@),
        is_ascii_chars(s@) ==> r@ == ascii_lowered(s@),
;

/// Lowering an ASCII text once more changes nothing.
pub proof fn lemma_lowered_twice(s: Seq<char>)
    ensures
        ascii_lowered(ascii_lowered(s)) == ascii_lowered(s),
{
    assert(ascii_lowered(ascii_lowered(s)) =~= ascii_lowered(s));
}

/// A lowered character is white space where it was before, and a slash where it
/// was one.
proof fn lemma_lower_char(c: char)
    ensures
        is_white(ascii_lower(c)) == is_white(c),
        (ascii_lower(c) == '/') == (c == '/'),
{
}

/// Lowering does not mind whether a text is trimmed before or after.
pub proof fn lemma_lowered_trimmed(s: Seq<char>)
    ensures
        trimmed(ascii_lowered(s)) == ascii_lowered(trimmed(s)),
{
    lemma_lowered_start(s);
    lemma_lowered_end(trim_start(s));
}

/// Lowering does not mind whether a text is trimmed at the front before or after.
proof fn lemma_lowered_start(s: Seq<char>)
    ensures
        trim_start(ascii_lowered(s)) == ascii_lowered(trim_start(s)),
    decreases s.len(),
{
    if s.len() > 0 {
        lemma_lower_char(s[0]);
        if is_white(s[0]) {
            lemma_lowered_start(s.skip(1));
            assert(ascii_lowered(s).skip(1) =~= ascii_lowered(s.skip(1)));
        }
    }
}

/// Lowering does not mind whether a text is trimmed at the back before or after.
proof fn lemma_lowered_end(s: Seq<char>)
    ensures
        trim_end(ascii_lowered(s)) == ascii_lowered(trim_end(s)),
    decreases s.len(),
{
    if s.len() > 0 {
        lemma_lower_char(s.last());
        if is_white(s.last()) {
            lemma_lowered_end(s.drop_last());
            assert(ascii_lowered(s).drop_last() =~= ascii_lowered(s.drop_last()));
        }
    }
}

/// The last slash of a text is where it is in the lowered text.
pub proof fn lemma_lowered_last_slash(s: Seq<char>)
    ensures
        last_index(ascii_lowered(s), '/') == last_index(s, '/'),
    decreases s.len(),
{
    if s.len() > 0 {
        lemma_lower_char(s.last());
        lemma_lowered_last_slash(s.drop_last());
        assert(ascii_lowered(s).drop_last() =~= ascii_lowered(s.drop_last()));
    }
}

/// The characters of a text.
pub fn chars_of(s: &str) -> (r: Vec<char>)
    ensures
        r@ == s@,
{
    let mut v: Vec<char> = Vec::new();
    for c in it: s.chars()
        invariant
            it.seq() == s@,
            v@ == s@.take(it.index() as int),
    {
        v.push(c);
        assert(s@.take(it.index() + 1) =~= s@.take(it.index() as int).push(c));
    }
    assert(s@.take(s@.len() as int) =~= s@);
    v
}

/// The text with the given characters.
pub fn string_of(v: &[char]) -> (r: String)
    ensures
        r@ == v@,
{
    let mut s = String::new();
    let mut i: usize = 0;
    while i < v.len()
        invariant
            i <= v@.len(),
            s@ == v@.take(i as int),
        decreases v.len() - i,
    {
        s.push(v[i]);
        assert(v@.take(i + 1) =~= v@.take(i as int).push(v@[i as int]));
        i += 1;
    }
    assert(v@.take(v@.len() as int) =~= v@);
    s
}

/// The text made of two texts, one after the other.
pub fn concat(a: &str, b: &str) -> (r: String)
    ensures
        r@ == a@ + b@,
{
    let mut s = a.to_owned();
    s.append(b);
    s
}

/// Two texts with the same UTF-8 encoding are the same text.
pub proof fn lemma_encoding_injective(a: Seq<char>, b: Seq<char>)
    requires
        encode_utf8(a) == encode_utf8(b),
    ensures
        a == b,
{
    encode_utf8_decode_utf8(a);
    encode_utf8_decode_utf8(b);
}

/// Whether two texts are equal.
pub fn same(a: &str, b: &str) -> (r: bool)
    ensures
        r == (a@ == b@),
{
    let x = a.as_bytes();
    let y = b.as_bytes();
    if x.len() != y.len() {
        return false;
    }
    let mut i: usize = 0;
    while i < x.len()
        invariant
            i <= x@.len(),
            x@.len() == y@.len(),
            x@ == encode_utf8(a@),
            y@ == encode_utf8(b@),
            forall|j: int| 0 <= j < i ==> x@[j] == y@[j],
        decreases x.len() - i,
    {
        if x[i] != y[i] {
            return false;
        }
        i += 1;
    }
    proof {
        assert(x@ =~= y@);
        lemma_encoding_injective(a@, b@);
    }
    true
}

/// The length of a text in bytes of UTF-8.
pub fn byte_len(s: &str) -> (r: usize)
    ensures
        r == encode_utf8(s@).len(),
{
    s.as_bytes().len()
}

/// A text can be cut in two behind its first `n` bytes: no character straddles
/// that place.
pub open spec fn cuts_at(s: Seq<char>, n: int) -> bool {
    is_char_boundary(encode_utf8(s), n)
}

/// The characters that the first `n` bytes of a text hold.
pub open spec fn byte_prefix(s: Seq<char>, n: int) -> Seq<char> {
    decode_utf8(encode_utf8(s).subrange(0, n))
}

/// Whether a text can be cut in two behind its first `n` bytes.
pub fn can_cut(s: &str, n: usize) -> (r: bool)
    ensures
        r == cuts_at(s@, n as int),
{
    s.is_char_boundary(n)
}

/// The characters that the first `n` bytes of a text hold.
pub fn byte_head(s: &str, n: usize) -> (r: String)
    requires
        cuts_at(s@, n as int),
    ensures
        r@ == byte_prefix(s@, n as int),
{
    let (head, _) = s.split_at(n);
    proof {
        encode_utf8_decode_utf8(head@);
    }
    head.to_owned()
}

/// The first `n` characters of a text, or all of it where it is shorter.
pub open spec fn first_chars(s: Seq<char>, n: int) -> Seq<char> {
    if n < s.len() {
        s.take(n)
    } else {
        s
    }
}

/// The first `n` characters of `s`.
pub fn take_chars(s: &str, n: usize) -> (r: String)
    ensures
        r@ == first_chars(s@, n as int),
{
    let v = chars_of(s);
    if n < v.len() {
        string_of(slice_subrange(v.as_slice(), 0, n))
    } else {
        string_of(v.as_slice())
    }
}

// ---------------------------------------------------------------------------
// Trimming
// ---------------------------------------------------------------------------

/// The text without its leading white space.
pub open spec fn trim_start(s: Seq<char>) -> Seq<char>
    decreases s.len(),
{
    if s.len() > 0 && is_white(s[0]) {
        trim_start(s.skip(1))
    } else {
        s
    }
}

/// The text without its trailing white space.
pub open spec fn trim_end(s: Seq<char>) -> Seq<char>
    decreases s.len(),
{
    if s.len() > 0 && is_white(s.last()) {
        trim_end(s.drop_last())
    } else {
        s
    }
}

/// The text without white space at either end.
pub open spec fn trimmed(s: Seq<char>) -> Seq<char> {
    trim_end(trim_start(s))
}

/// Whether a text is nothing but white space.
pub open spec fn blank(s: Seq<char>) -> bool {
    forall|i: int| 0 <= i < s.len() ==> is_white(#[trigger] s[i])
}

/// The index of the first character of `s` that is not white space.
fn first_ink(s: &[char]) -> (r: usize)
    ensures
        r <= s@.len(),
        trim_start(s@) == s@.skip(r as int),
        forall|j: int| 0 <= j < r ==> is_white(#[trigger] s@[j]),
        r < s@.len() ==> !is_white(s@[r as int]),
{
    let mut i: usize = 0;
    assert(s@.skip(0) =~= s@);
    while i < s.len() && is_white_space(s[i])
        invariant
            i <= s@.len(),
            trim_start(s@) == trim_start(s@.skip(i as int)),
            forall|j: int| 0 <= j < i ==> is_white(#[trigger] s@[j]),
        decreases s.len() - i,
    {
        assert(s@.skip(i as int).skip(1) =~= s@.skip(i + 1));
        i += 1;
    }
    i
}

/// The text without white space at either end.
pub fn trim(s: &str) -> (r: String)
    ensures
        r@ == trimmed(s@),
{
    let v = chars_of(s);
    let a = first_ink(v.as_slice());
    let mut b: usize = v.len();
    assert(v@.skip(a as int) =~= v@.subrange(a as int, b as int));
    while b > a && is_white_space(v[b - 1])
        invariant
            a <= b <= v@.len(),
            trimmed(s@) == trim_end(v@.subrange(a as int, b as int)),
        decreases b,
    {
        assert(v@.subrange(a as int, b as int).drop_last() =~= v@.subrange(a as int, b - 1));
        b -= 1;
    }
    string_of(slice_subrange(v.as_slice(), a, b))
}

/// Trimming at the front leaves a text that starts with ink, or nothing.
pub proof fn lemma_trim_start(s: Seq<char>)
    ensures
        trim_start(s).len() <= s.len(),
        trim_start(s) == s.skip(s.len() - trim_start(s).len()),
        forall|j: int| 0 <= j < s.len() - trim_start(s).len() ==> is_white(#[trigger] s[j]),
        trim_start(s).len() > 0 ==> !is_white(trim_start(s)[0]),
    decreases s.len(),
{
    if s.len() > 0 && is_white(s[0]) {
        lemma_trim_start(s.skip(1));
        let t = trim_start(s);
        assert(s.skip(1).skip(s.len() - 1 - t.len()) =~= s.skip(s.len() - t.len()));
        assert forall|j: int| 0 <= j < s.len() - t.len() implies is_white(#[trigger] s[j]) by {
            if j > 0 {
                assert(s.skip(1)[j - 1] == s[j]);
            }
        }
    } else {
        assert(s.skip(0) =~= s);
    }
}

/// Trimming at the back leaves a text that ends with ink, or nothing.
pub proof fn lemma_trim_end(s: Seq<char>)
    ensures
        trim_end(s).len() <= s.len(),
        trim_end(s) == s.take(trim_end(s).len() as int),
        forall|j: int| trim_end(s).len() <= j < s.len() ==> is_white(#[trigger] s[j]),
        trim_end(s).len() > 0 ==> !is_white(trim_end(s).last()),
    decreases s.len(),
{
    if s.len() > 0 && is_white(s.last()) {
        lemma_trim_end(s.drop_last());
        let t = trim_end(s);
        assert(s.drop_last().take(t.len() as int) =~= s.take(t.len() as int));
        assert forall|j: int| t.len() <= j < s.len() implies is_white(#[trigger] s[j]) by {
            if j < s.len() - 1 {
                assert(s.drop_last()[j] == s[j]);
            }
        }
    } else {
        assert(s.take(s.len() as int) =~= s);
    }
}

/// A trimmed text neither starts nor ends with white space, and is a piece of
/// the text that was trimmed.
pub proof fn lemma_trimmed(s: Seq<char>)
    ensures
        trimmed(s).len() > 0 ==> !is_white(trimmed(s)[0]) && !is_white(trimmed(s).last()),
        exists|a: int, b: int|
            0 <= a <= b <= s.len() && trimmed(s) == #[trigger] s.subrange(a, b),
        trimmed(s).len() == 0 <==> blank(s),
{
    let t = trim_start(s);
    lemma_trim_start(s);
    lemma_trim_end(t);
    let u = trim_end(t);
    let a = s.len() - t.len();
    assert(u =~= s.subrange(a, a + u.len()));
    if u.len() == 0 {
        assert forall|j: int| 0 <= j < s.len() implies is_white(#[trigger] s[j]) by {
            if j >= a {
                assert(t[j - a] == s[j]);
            }
        }
    } else {
        assert(u[0] == s[a]);
    }
}

/// Trimming a text twice is trimming it once.
pub proof fn lemma_trim_idempotent(s: Seq<char>)
    ensures
        trimmed(trimmed(s)) == trimmed(s),
{
    lemma_trimmed(s);
}

/// Whether a text is empty once trimmed.
pub fn is_blank(s: &str) -> (r: bool)
    ensures
        r == blank(s@),
        r == (trimmed(s@).len() == 0),
{
    let v = chars_of(s);
    let a = first_ink(v.as_slice());
    proof {
        lemma_trimmed(s@);
    }
    a == v.len()
}

// ---------------------------------------------------------------------------
// Searching
// ---------------------------------------------------------------------------

/// `k` stands in `h` at position `i`.
pub open spec fn occurs_at(h: Seq<char>, k: Seq<char>, i: int) -> bool {
    0 <= i && i + k.len() <= h.len() && h.subrange(i, i + k.len()) == k
}

/// `k` stands somewhere in `h`.
pub open spec fn contains(h: Seq<char>, k: Seq<char>) -> bool {
    exists|i: int| occurs_at(h, k, i)
}

/// The first position from `i` on at which `k` stands in `h`.
pub open spec fn find_from(h: Seq<char>, k: Seq<char>, i: int) -> Option<int>
    decreases h.len() + 1 - i,
{
    if i < 0 || i + k.len() > h.len() {
        None
    } else if occurs_at(h, k, i) {
        Some(i)
    } else {
        find_from(h, k, i + 1)
    }
}

/// The first position at which `k` stands in `h`.
pub open spec fn find(h: Seq<char>, k: Seq<char>) -> Option<int> {
    find_from(h, k, 0)
}

/// What `find_from` returns is an occurrence, and there is none before it.
pub proof fn lemma_find_from(h: Seq<char>, k: Seq<char>, i: int)
    requires
        0 <= i,
    ensures
        match find_from(h, k, i) {
            Some(j) => i <= j && occurs_at(h, k, j) && forall|m: int|
                i <= m < j ==> !occurs_at(h, k, m),
            None => forall|m: int| i <= m ==> !occurs_at(h, k, m),
        },
    decreases h.len() + 1 - i,
{
    if i + k.len() <= h.len() && !occurs_at(h, k, i) {
        lemma_find_from(h, k, i + 1);
    }
}

/// Searching from `p` on is searching what is left after `p`.
pub proof fn lemma_find_skip(h: Seq<char>, k: Seq<char>, p: int, i: int)
    requires
        0 <= p <= i,
        p <= h.len(),
    ensures
        find_from(h.skip(p), k, i - p) == match find_from(h, k, i) {
            Some(j) => Some(j - p),
            None => None,
        },
    decreases h.len() + 1 - i,
{
    let t = h.skip(p);
    if i + k.len() <= h.len() {
        assert(t.subrange(i - p, i - p + k.len()) =~= h.subrange(i, i + k.len()));
        if !occurs_at(h, k, i) {
            lemma_find_skip(h, k, p, i + 1);
        }
    }
}

/// Whether `k` stands in `h` at position `i`.
fn stands_at(h: &[char], k: &[char], i: usize) -> (r: bool)
    requires
        i + k@.len() <= h@.len(),
    ensures
        r == occurs_at(h@, k@, i as int),
{
    let n: usize = h.len();
    let mut j: usize = 0;
    while j < k.len()
        invariant
            j <= k@.len(),
            i + k@.len() <= n == h@.len(),
            forall|m: int| 0 <= m < j ==> h@[i + m] == k@[m],
        decreases k.len() - j,
    {
        if h[i + j] != k[j] {
            assert(h@.subrange(i as int, i + k@.len())[j as int] != k@[j as int]);
            return false;
        }
        j += 1;
    }
    assert(h@.subrange(i as int, i + k@.len()) =~= k@);
    true
}

/// The first position from `from` on at which `k` stands in `h`.
pub fn find_chars(h: &[char], k: &[char], from: usize) -> (r: Option<usize>)
    ensures
        match r {
            Some(i) => find_from(h@, k@, from as int) == Some(i as int) && from <= i && i + k@.len()
                <= h@.len(),
            None => find_from(h@, k@, from as int) is None,
        },
{
    if k.len() > h.len() {
        return None;
    }
    let last: usize = h.len() - k.len();
    let mut i: usize = from;
    while i <= last
        invariant
            from <= i,
            last + k@.len() == h@.len(),
            find_from(h@, k@, from as int) == find_from(h@, k@, i as int),
        decreases last + 1 - i,
    {
        if stands_at(h, k, i) {
            return Some(i);
        }
        if i == last {
            assert(find_from(h@, k@, i + 1) is None);
            return None;
        }
        i += 1;
    }
    None
}

/// Whether `k` stands in `h`.
pub fn has(h: &str, k: &str) -> (r: bool)
    ensures
        r == contains(h@, k@),
{
    let hv = chars_of(h);
    let kv = chars_of(k);
    let r = find_chars(hv.as_slice(), kv.as_slice(), 0);
    proof {
        lemma_find_from(h@, k@, 0);
    }
    r.is_some()
}

/// The first position of the character `c` in `s`.
pub open spec fn first_index(s: Seq<char>, c: char) -> Option<int>
    decreases s.len(),
{
    if s.len() == 0 {
        None
    } else if s[0] == c {
        Some(0)
    } else {
        match first_index(s.skip(1), c) {
            Some(i) => Some(i + 1),
            None => None,
        }
    }
}

/// The last position of the character `c` in `s`.
pub open spec fn last_index(s: Seq<char>, c: char) -> Option<int>
    decreases s.len(),
{
    if s.len() == 0 {
        None
    } else if s.last() == c {
        Some(s.len() - 1)
    } else {
        last_index(s.drop_last(), c)
    }
}

/// The first position of `c` holds `c`, and none before it does.
pub proof fn lemma_first_index(s: Seq<char>, c: char)
    ensures
        match first_index(s, c) {
            Some(i) => 0 <= i < s.len() && s[i] == c && forall|j: int| 0 <= j < i ==> s[j] != c,
            None => forall|j: int| 0 <= j < s.len() ==> s[j] != c,
        },
    decreases s.len(),
{
    if s.len() > 0 && s[0] != c {
        lemma_first_index(s.skip(1), c);
        assert forall|j: int| 0 < j < s.len() implies s[j] == s.skip(1)[j - 1] by {}
    }
}

/// The last position of `c` holds `c`, and none after it does.
pub proof fn lemma_last_index(s: Seq<char>, c: char)
    ensures
        match last_index(s, c) {
            Some(i) => 0 <= i < s.len() && s[i] == c && forall|j: int|
                i < j < s.len() ==> s[j] != c,
            None => forall|j: int| 0 <= j < s.len() ==> s[j] != c,
        },
    decreases s.len(),
{
    if s.len() > 0 && s.last() != c {
        lemma_last_index(s.drop_last(), c);
        assert forall|j: int| 0 <= j < s.len() - 1 implies s[j] == s.drop_last()[j] by {}
    }
}

/// The first position of `c` from the front.
pub fn index_of(v: &[char], c: char) -> (r: Option<usize>)
    ensures
        match r {
            Some(i) => i < v@.len() && first_index(v@, c) == Some(i as int),
            None => first_index(v@, c) is None,
        },
{
    let mut i: usize = 0;
    while i < v.len()
        invariant
            i <= v@.len(),
            forall|j: int| 0 <= j < i ==> v@[j] != c,
        decreases v.len() - i,
    {
        if v[i] == c {
            proof {
                lemma_first_index(v@, c);
            }
            return Some(i);
        }
        i += 1;
    }
    proof {
        lemma_first_index(v@, c);
    }
    None
}

/// The last position of `c`.
pub fn last_index_of(v: &[char], c: char) -> (r: Option<usize>)
    ensures
        match r {
            Some(i) => i < v@.len() && last_index(v@, c) == Some(i as int),
            None => last_index(v@, c) is None,
        },
{
    let mut i: usize = v.len();
    while i > 0
        invariant
            i <= v@.len(),
            forall|j: int| i <= j < v@.len() ==> v@[j] != c,
        decreases i,
    {
        i -= 1;
        if v[i] == c {
            proof {
                lemma_last_index(v@, c);
            }
            return Some(i);
        }
    }
    proof {
        lemma_last_index(v@, c);
    }
    None
}

/// Some word of `ks` stands in `h`.
pub open spec fn contains_any(h: Seq<char>, ks: Seq<&str>) -> bool {
    exists|i: int| 0 <= i < ks.len() && contains(h, #[trigger] ks[i]@)
}

/// Whether some word of `ks` stands in `h`.
pub fn has_any(h: &str, ks: &[&str]) -> (r: bool)
    ensures
        r == contains_any(h@, ks@),
{
    let mut i: usize = 0;
    while i < ks.len()
        invariant
            i <= ks@.len(),
            forall|j: int| 0 <= j < i ==> !contains(h@, #[trigger] ks@[j]@),
        decreases ks.len() - i,
    {
        if has(h, ks[i]) {
            return true;
        }
        i += 1;
    }
    false
}

/// `s` is one of the words `ks`.
pub open spec fn is_one_of(s: Seq<char>, ks: Seq<&str>) -> bool {
    exists|i: int| 0 <= i < ks.len() && s == #[trigger] ks[i]@
}

/// Whether `s` is one of the words `ks`.
pub fn one_of(s: &str, ks: &[&str]) -> (r: bool)
    ensures
        r == is_one_of(s@, ks@),
{
    let mut i: usize = 0;
    while i < ks.len()
        invariant
            i <= ks@.len(),
            forall|j: int| 0 <= j < i ==> s@ != #[trigger] ks@[j]@,
        decreases ks.len() - i,
    {
        if same(s, ks[i]) {
            return true;
        }
        i += 1;
    }
    false
}

/// Whether `s` starts with `p`.
pub fn starts_with(s: &str, p: &str) -> (r: bool)
    ensures
        r == p@.is_prefix_of(s@),
{
    let sv = chars_of(s);
    let pv = chars_of(p);
    if pv.len() > sv.len() {
        return false;
    }
    let r = stands_at(sv.as_slice(), pv.as_slice(), 0);
    assert(p@.is_prefix_of(s@) == (s@.subrange(0, p@.len() as int) == p@));
    r
}


// ---------------------------------------------------------------------------
// Cutting and joining
// ---------------------------------------------------------------------------

/// The pieces of `s` between the occurrences of `sep`, from left to right.
pub open spec fn split(s: Seq<char>, sep: Seq<char>) -> Seq<Seq<char>>
    decreases s.len(),
{
    match find(s, sep) {
        Some(i) => if sep.len() > 0 && 0 <= i && i + sep.len() <= s.len() {
            seq![s.take(i)] + split(s.skip(i + sep.len()), sep)
        } else {
            seq![s]
        },
        None => seq![s],
    }
}

/// The pieces, one after the other, with `sep` between any two of them.
pub open spec fn joined(parts: Seq<Seq<char>>, sep: Seq<char>) -> Seq<char>
    decreases parts.len(),
{
    if parts.len() == 0 {
        seq![]
    } else if parts.len() == 1 {
        parts[0]
    } else {
        joined(parts.drop_last(), sep) + sep + parts.last()
    }
}

/// `s` with every occurrence of `from`, taken from left to right, replaced by
/// `to`.
pub open spec fn replaced(s: Seq<char>, from: Seq<char>, to: Seq<char>) -> Seq<char> {
    joined(split(s, from), to)
}

/// Cutting a text leaves at least one piece.
pub proof fn lemma_split_some(s: Seq<char>, sep: Seq<char>)
    ensures
        split(s, sep).len() > 0,
    decreases s.len(),
{
    match find(s, sep) {
        Some(i) => {
            if sep.len() > 0 && 0 <= i && i + sep.len() <= s.len() {
                lemma_split_some(s.skip(i + sep.len()), sep);
            }
        },
        None => {},
    }
}

/// The views of a sequence that grows at its end grow at their end.
pub proof fn lemma_views_push<T: View>(s: Seq<T>, x: T)
    ensures
        views(s.push(x)) == views(s).push(x@),
{
    assert(views(s.push(x)) =~= views(s).push(x@));
}

/// The pieces of `s` between the occurrences of `sep`.
pub fn split_text(s: &str, sep: &str) -> (r: Vec<String>)
    requires
        sep@.len() > 0,
    ensures
        views(r@) == split(s@, sep@),
{
    let v = chars_of(s);
    let k = chars_of(sep);
    let mut out: Vec<String> = Vec::new();
    let mut p: usize = 0;
    assert(s@.skip(0) =~= s@);
    assert(views(out@) + split(s@.skip(0), sep@) =~= split(s@, sep@));
    loop
        invariant
            v@ == s@,
            k@ == sep@,
            sep@.len() > 0,
            p <= v@.len(),
            views(out@) + split(s@.skip(p as int), sep@) == split(s@, sep@),
        decreases v@.len() - p,
    {
        proof {
            lemma_find_skip(s@, sep@, p as int, p as int);
        }
        match find_chars(v.as_slice(), k.as_slice(), p) {
            Some(i) => {
                let piece = string_of(slice_subrange(v.as_slice(), p, i));
                proof {
                    let t = s@.skip(p as int);
                    assert(piece@ =~= t.take(i - p));
                    assert(t.skip(i - p + sep@.len()) =~= s@.skip(i + sep@.len()));
                    lemma_views_push(out@, piece);
                    assert(views(out@.push(piece)) + split(s@.skip(i + sep@.len()), sep@)
                        =~= views(out@) + split(t, sep@));
                }
                out.push(piece);
                let n: usize = v.len();
                assert(i + k@.len() <= n);
                p = i + k.len();
            },
            None => {
                let piece = string_of(slice_subrange(v.as_slice(), p, v.len()));
                proof {
                    assert(piece@ =~= s@.skip(p as int));
                    lemma_views_push(out@, piece);
                    assert(views(out@.push(piece)) =~= views(out@) + split(s@.skip(p as int), sep@));
                }
                out.push(piece);
                return out;
            },
        }
    }
}

/// The pieces, one after the other, with `sep` between any two of them.
pub fn join(parts: &Vec<String>, sep: &str) -> (r: String)
    ensures
        r@ == joined(views(parts@), sep@),
{
    let mut out = String::new();
    let mut i: usize = 0;
    let ghost ps = views(parts@);
    while i < parts.len()
        invariant
            ps == views(parts@),
            i <= parts@.len(),
            out@ == joined(ps.take(i as int), sep@),
        decreases parts.len() - i,
    {
        assert(ps.take(i + 1).drop_last() =~= ps.take(i as int));
        assert(ps.take(i + 1).last() == parts@[i as int]@);
        if i > 0 {
            out.append(sep);
        }
        out.append(parts[i].as_str());
        assert(i == 0 ==> seq![] + parts@[0]@ =~= parts@[0]@);
        i += 1;
    }
    assert(ps.take(ps.len() as int) =~= ps);
    out
}

/// `s` with every occurrence of `from` replaced by `to`.
pub fn replace(s: &str, from: &str, to: &str) -> (r: String)
    requires
        from@.len() > 0,
    ensures
        r@ == replaced(s@, from@, to@),
{
    join(&split_text(s, from), to)
}

/// The number of characters before the first white space of `s`.
pub open spec fn word_len(s: Seq<char>) -> int
    decreases s.len(),
{
    if s.len() == 0 || is_white(s[0]) {
        0
    } else {
        1 + word_len(s.skip(1))
    }
}

/// The maximal runs of characters that are not white space.
pub open spec fn words(s: Seq<char>) -> Seq<Seq<char>>
    decreases s.len(),
{
    if s.len() == 0 {
        seq![]
    } else if is_white(s[0]) {
        words(s.skip(1))
    } else {
        let n = word_len(s);
        if 0 < n <= s.len() {
            seq![s.take(n)] + words(s.skip(n))
        } else {
            seq![]
        }
    }
}

/// A run of ink stops at white space or at the end.
pub proof fn lemma_word_len(s: Seq<char>)
    ensures
        0 <= word_len(s) <= s.len(),
        forall|j: int| 0 <= j < word_len(s) ==> !is_white(#[trigger] s[j]),
        word_len(s) < s.len() ==> is_white(s[word_len(s)]),
        s.len() > 0 && !is_white(s[0]) ==> word_len(s) > 0,
    decreases s.len(),
{
    if s.len() > 0 && !is_white(s[0]) {
        lemma_word_len(s.skip(1));
        assert forall|j: int| 0 <= j < word_len(s) implies !is_white(#[trigger] s[j]) by {
            if j > 0 {
                assert(s.skip(1)[j - 1] == s[j]);
            }
        }
    }
}

/// The words of a text: the runs of characters between white space.
pub fn split_words(s: &str) -> (r: Vec<String>)
    ensures
        views(r@) == words(s@),
{
    let v = chars_of(s);
    let mut out: Vec<String> = Vec::new();
    let mut p: usize = 0;
    assert(s@.skip(0) =~= s@);
    assert(views(out@) + words(s@.skip(0)) =~= words(s@));
    while p < v.len()
        invariant
            v@ == s@,
            p <= v@.len(),
            views(out@) + words(s@.skip(p as int)) == words(s@),
        decreases v.len() - p,
    {
        let ghost t = s@.skip(p as int);
        if is_white_space(v[p]) {
            assert(t.skip(1) =~= s@.skip(p + 1));
            p += 1;
        } else {
            let mut q: usize = p;
            assert(t.skip(0) =~= t);
            while q < v.len() && !is_white_space(v[q])
                invariant
                    v@ == s@,
                    t == s@.skip(p as int),
                    p <= q <= v@.len(),
                    word_len(t) == q - p + word_len(t.skip(q - p)),
                decreases v.len() - q,
            {
                assert(t.skip(q - p).skip(1) =~= t.skip(q + 1 - p));
                q += 1;
            }
            let w = string_of(slice_subrange(v.as_slice(), p, q));
            proof {
                lemma_word_len(t);
                assert(w@ =~= t.take(q - p));
                assert(t.skip(q - p) =~= s@.skip(q as int));
                lemma_views_push(out@, w);
                assert(views(out@.push(w)) + words(s@.skip(q as int)) =~= views(out@) + words(t));
            }
            out.push(w);
            p = q;
        }
    }
    assert(views(out@) + words(s@.skip(p as int)) =~= views(out@));
    out
}

/// `s` without the prefix `p`, taken off as often as it stands there.
pub open spec fn without_prefixes(s: Seq<char>, p: Seq<char>) -> Seq<char>
    decreases s.len(),
{
    if 0 < p.len() <= s.len() && occurs_at(s, p, 0) {
        without_prefixes(s.skip(p.len() as int), p)
    } else {
        s
    }
}

/// `s` without the suffix `c`, taken off as often as it stands there.
pub open spec fn without_last(s: Seq<char>, c: char) -> Seq<char>
    decreases s.len(),
{
    if s.len() > 0 && s.last() == c {
        without_last(s.drop_last(), c)
    } else {
        s
    }
}

/// `s` without the prefix `p`, taken off as often as it stands there.
pub fn strip_prefixes(s: &str, p: &str) -> (r: String)
    ensures
        r@ == without_prefixes(s@, p@),
{
    let v = chars_of(s);
    let k = chars_of(p);
    let mut i: usize = 0;
    assert(s@.skip(0) =~= s@);
    while k.len() > 0 && k.len() <= v.len() - i && stands_at(v.as_slice(), k.as_slice(), i)
        invariant
            v@ == s@,
            k@ == p@,
            i <= v@.len(),
            without_prefixes(s@, p@) == without_prefixes(s@.skip(i as int), p@),
        decreases v.len() - i,
    {
        let ghost t = s@.skip(i as int);
        assert(t.subrange(0, p@.len() as int) =~= s@.subrange(i as int, i + p@.len()));
        assert(t.skip(p@.len() as int) =~= s@.skip(i + p@.len()));
        i = i + k.len();
    }
    let r = string_of(slice_subrange(v.as_slice(), i, v.len()));
    assert(r@ =~= s@.skip(i as int));
    assert(0 < p@.len() <= r@.len() ==> r@.subrange(0, p@.len() as int) =~= s@.subrange(
        i as int,
        i + p@.len(),
    ));
    r
}

/// `s` without the suffix `c`, taken off as often as it stands there.
pub fn strip_last(s: &str, c: char) -> (r: String)
    ensures
        r@ == without_last(s@, c),
{
    let v = chars_of(s);
    let mut n: usize = v.len();
    assert(s@.take(n as int) =~= s@);
    while n > 0 && v[n - 1] == c
        invariant
            v@ == s@,
            n <= v@.len(),
            without_last(s@, c) == without_last(s@.take(n as int), c),
        decreases n,
    {
        assert(s@.take(n as int).drop_last() =~= s@.take(n - 1));
        n -= 1;
    }
    let r = string_of(slice_subrange(v.as_slice(), 0, n));
    assert(r@ =~= s@.take(n as int));
    r
}

/// `s` without the characters of `drop`.
pub fn without_chars(s: &str, drop: &[char]) -> (r: String)
    ensures
        r@ == s@.filter(|c: char| !drop@.contains(c)),
{
    let v = chars_of(s);
    let mut out = String::new();
    let mut i: usize = 0;
    let ghost keep = |c: char| !drop@.contains(c);
    assert(v@.take(0).filter(keep) =~= seq![]) by {
        reveal(Seq::filter);
    }
    while i < v.len()
        invariant
            v@ == s@,
            i <= v@.len(),
            keep == (|c: char| !drop@.contains(c)),
            out@ == v@.take(i as int).filter(keep),
        decreases v.len() - i,
    {
        let mut bad = false;
        let mut j: usize = 0;
        while j < drop.len()
            invariant
                i < v@.len(),
                j <= drop@.len(),
                bad == exists|m: int| 0 <= m < j && drop@[m] == v@[i as int],
            decreases drop.len() - j,
        {
            if drop[j] == v[i] {
                bad = true;
            }
            j += 1;
        }
        if !bad {
            out.push(v[i]);
        }
        proof {
            reveal(Seq::filter);
            assert(bad == drop@.contains(v@[i as int]));
            assert(v@.take(i + 1).drop_last() =~= v@.take(i as int));
            assert(v@.take(i + 1).last() == v@[i as int]);
        }
        i += 1;
    }
    assert(v@.take(v@.len() as int) =~= v@);
    out
}

// ---------------------------------------------------------------------------
// Numbers and order
// ---------------------------------------------------------------------------

/// The character of a decimal digit.
pub open spec fn digit(d: int) -> char {
    (48 + d) as char
}

/// A number in decimal notation.
pub open spec fn decimal(n: nat) -> Seq<char>
    decreases n,
{
    if n < 10 {
        seq![digit(n as int)]
    } else {
        decimal(n / 10).push(digit((n % 10) as int))
    }
}

/// A number in decimal notation.
pub fn number(n: u64) -> (r: String)
    ensures
        r@ == decimal(n as nat),
    decreases n,
{
    let d: u8 = (n % 10) as u8;
    let c: char = (48 + d) as char;
    if n < 10 {
        let mut s = String::new();
        s.push(c);
        assert(s@ =~= seq![digit(n as int)]);
        s
    } else {
        let mut s = number(n / 10);
        s.push(c);
        s
    }
}

/// The number that a row of decimal digits stands for.
pub open spec fn decimal_value(s: Seq<char>) -> int
    decreases s.len(),
{
    if s.len() == 0 {
        0
    } else {
        decimal_value(s.drop_last()) * 10 + (s.last() as int - 48)
    }
}

/// Decimal notation is made of digits and can be read back.
pub proof fn lemma_decimal(n: nat)
    ensures
        decimal_value(decimal(n)) == n,
        decimal(n).len() > 0,
        forall|i: int| 0 <= i < decimal(n).len() ==> is_digit(#[trigger] decimal(n)[i]),
    decreases n,
{
    if n < 10 {
        let s = decimal(n);
        assert(s.drop_last() =~= Seq::<char>::empty());
        assert(decimal_value(s.drop_last()) == 0);
    } else {
        lemma_decimal(n / 10);
        assert(decimal(n).drop_last() =~= decimal(n / 10));
    }
}

/// Two numbers with the same decimal notation are equal.
pub proof fn lemma_decimal_injective(a: nat, b: nat)
    requires
        decimal(a) == decimal(b),
    ensures
        a == b,
{
    lemma_decimal(a);
    lemma_decimal(b);
}

/// `a` comes before `b` in the order of their characters.
pub open spec fn precedes(a: Seq<char>, b: Seq<char>) -> bool
    decreases b.len(),
{
    if b.len() == 0 {
        false
    } else if a.len() == 0 {
        true
    } else if a[0] != b[0] {
        a[0] < b[0]
    } else {
        precedes(a.skip(1), b.skip(1))
    }
}

/// Whether `a` comes before `b`.
pub fn before(a: &str, b: &str) -> (r: bool)
    ensures
        r == precedes(a@, b@),
{
    let x = chars_of(a);
    let y = chars_of(b);
    let mut i: usize = 0;
    assert(a@.skip(0) =~= a@);
    assert(b@.skip(0) =~= b@);
    while i < x.len() && i < y.len() && x[i] == y[i]
        invariant
            x@ == a@,
            y@ == b@,
            i <= x@.len(),
            i <= y@.len(),
            precedes(a@, b@) == precedes(a@.skip(i as int), b@.skip(i as int)),
        decreases x.len() - i,
    {
        assert(a@.skip(i as int).skip(1) =~= a@.skip(i + 1));
        assert(b@.skip(i as int).skip(1) =~= b@.skip(i + 1));
        i += 1;
    }
    i < y.len() && (i == x.len() || x[i] < y[i])
}

/// No text comes before itself.
pub proof fn lemma_precedes_irreflexive(a: Seq<char>)
    ensures
        !precedes(a, a),
    decreases a.len(),
{
    if a.len() > 0 {
        lemma_precedes_irreflexive(a.skip(1));
    }
}

/// The order of texts is transitive, also through equal texts.
pub proof fn lemma_precedes_transitive(a: Seq<char>, b: Seq<char>, c: Seq<char>)
    requires
        !precedes(b, a),
        !precedes(c, b),
    ensures
        !precedes(c, a),
    decreases a.len() + b.len() + c.len(),
{
    if a.len() > 0 && b.len() > 0 && c.len() > 0 {
        if a[0] == b[0] && b[0] == c[0] {
            lemma_precedes_transitive(a.skip(1), b.skip(1), c.skip(1));
        }
    }
}

/// Of two texts, one comes before the other or they are equal.
pub proof fn lemma_precedes_total(a: Seq<char>, b: Seq<char>)
    ensures
        precedes(a, b) || precedes(b, a) || a == b,
        !(precedes(a, b) && precedes(b, a)),
    decreases a.len(),
{
    if a.len() > 0 && b.len() > 0 && a[0] == b[0] {
        lemma_precedes_total(a.skip(1), b.skip(1));
        if a.skip(1) == b.skip(1) {
            assert(a =~= b) by {
                assert forall|i: int| 0 <= i < a.len() implies a[i] == b[i] by {
                    if i > 0 {
                        assert(a.skip(1)[i - 1] == b.skip(1)[i - 1]);
                    }
                }
            }
        }
    } else if a.len() == 0 && b.len() == 0 {
        assert(a =~= b);
    }
}

// ---------------------------------------------------------------------------
// Parts of texts
// ---------------------------------------------------------------------------

/// What stands in a part of a text stands in the text.
pub proof fn lemma_contains_in(a: Seq<char>, b: Seq<char>, c: Seq<char>, k: Seq<char>)
    requires
        contains(b, k),
    ensures
        contains(a + b + c, k),
{
    let i = choose|i: int| occurs_at(b, k, i);
    let all = a + b + c;
    assert(all.subrange(a.len() + i, a.len() + i + k.len()) =~= b.subrange(i, i + k.len()));
    assert(occurs_at(all, k, a.len() + i));
}

/// A part of a text stands in it.
pub proof fn lemma_contains_part(a: Seq<char>, b: Seq<char>, c: Seq<char>)
    ensures
        contains(a + b + c, b),
{
    let all = a + b + c;
    assert(all.subrange(a.len() as int, (a.len() + b.len()) as int) =~= b);
    assert(occurs_at(all, b, a.len() as int));
}

/// The parts of a text between separators: put together again with the separator they
/// are the text, and no part holds it.
pub proof fn lemma_split_parts(s: Seq<char>, sep: Seq<char>)
    requires
        sep.len() > 0,
    ensures
        joined(split(s, sep), sep) == s,
        forall|i: int| 0 <= i < split(s, sep).len() ==> !contains(#[trigger] split(s, sep)[i], sep),
    decreases s.len(),
{
    lemma_find_from(s, sep, 0);
    match find(s, sep) {
        Some(i) => {
            let head = s.take(i);
            let rest = s.skip(i + sep.len());
            lemma_split_parts(rest, sep);
            lemma_split_some(rest, sep);
            let parts = split(s, sep);
            assert(parts == seq![head] + split(rest, sep));
            lemma_joined_front(head, split(rest, sep), sep);
            assert(s =~= head + sep + rest);
            assert(!contains(head, sep)) by {
                if contains(head, sep) {
                    let m = choose|m: int| occurs_at(head, sep, m);
                    assert(occurs_at(s, sep, m)) by {
                        assert(s.subrange(m, m + sep.len()) =~= head.subrange(m, m + sep.len()));
                    }
                }
            }
            assert forall|k: int| 0 <= k < parts.len() implies !contains(
                #[trigger] parts[k],
                sep,
            ) by {
                if k > 0 {
                    assert(parts[k] == split(rest, sep)[k - 1]);
                }
            }
        },
        None => {
            assert(split(s, sep) == seq![s]);
            if contains(s, sep) {
                let m = choose|m: int| occurs_at(s, sep, m);
                assert(0 <= m);
            }
        },
    }
}

/// Parts with one more in front.
proof fn lemma_joined_front(a: Seq<char>, parts: Seq<Seq<char>>, sep: Seq<char>)
    requires
        parts.len() > 0,
    ensures
        joined(seq![a] + parts, sep) == a + sep + joined(parts, sep),
    decreases parts.len(),
{
    let all = seq![a] + parts;
    assert(all.last() == parts.last());
    assert(all.drop_last() =~= seq![a] + parts.drop_last());
    if parts.len() == 1 {
        assert(all.drop_last() =~= seq![a]);
        assert(joined(all.drop_last(), sep) == a);
        assert(joined(all, sep) =~= a + sep + joined(parts, sep));
    } else {
        lemma_joined_front(a, parts.drop_last(), sep);
        assert(joined(all, sep) =~= a + sep + joined(parts, sep));
    }
}

/// Where a character is found that stands nowhere before.
proof fn lemma_find_char(a: Seq<char>, sep: char, b: Seq<char>)
    requires
        !a.contains(sep),
    ensures
        find(a + seq![sep] + b, seq![sep]) == Some(a.len() as int),
        find(a, seq![sep]) is None,
{
    let k = seq![sep];
    assert(!contains(a, k)) by {
        if contains(a, k) {
            let m = choose|m: int| occurs_at(a, k, m);
            assert(a.subrange(m, m + 1)[0] == a[m]);
            assert(a[m] == sep);
        }
    }
    lemma_find_word(a, k, b);
    lemma_no_find(a, k);
}

/// A text up to its first separator, and the parts of what follows.
pub proof fn lemma_split_off(a: Seq<char>, sep: char, b: Seq<char>)
    requires
        !a.contains(sep),
    ensures
        split(a + seq![sep] + b, seq![sep]) == seq![a] + split(b, seq![sep]),
        split(a, seq![sep]) == seq![a],
{
    let s = a + seq![sep] + b;
    let k = seq![sep];
    lemma_find_char(a, sep, b);
    assert(s.take(a.len() as int) =~= a);
    assert(s.skip((a.len() + 1) as int) =~= b);
}

/// The first characters of a text are where it begins, no more than asked for, and
/// fewer only where it has no more.
pub proof fn lemma_first_chars(s: Seq<char>, n: int)
    requires
        0 <= n,
    ensures
        first_chars(s, n).is_prefix_of(s),
        first_chars(s, n).len() <= n,
        first_chars(s, n).len() == n || first_chars(s, n) == s,
{
}

/// Taking a character off the end takes off all of it that stand there, and nothing
/// else.
pub proof fn lemma_without_last(s: Seq<char>, c: char)
    ensures
        without_last(s, c).is_prefix_of(s),
        without_last(s, c).len() > 0 ==> without_last(s, c).last() != c,
        forall|i: int| without_last(s, c).len() <= i < s.len() ==> #[trigger] s[i] == c,
    decreases s.len(),
{
    if s.len() > 0 && s.last() == c {
        lemma_without_last(s.drop_last(), c);
        assert forall|i: int| without_last(s, c).len() <= i < s.len() implies #[trigger] s[i]
            == c by {
            if i < s.len() - 1 {
                assert(s.drop_last()[i] == s[i]);
            }
        }
    }
}

/// The words of a text are not empty and hold no blank; a text of words with one blank
/// between them gives its words.
pub proof fn lemma_words(s: Seq<char>)
    ensures
        forall|i: int| 0 <= i < words(s).len() ==> (#[trigger] words(s)[i]).len() > 0,
        forall|i: int, j: int|
            0 <= i < words(s).len() && 0 <= j < words(s)[i].len() ==> !is_white(
                #[trigger] words(s)[i][j],
            ),
        blank(s) <==> words(s).len() == 0,
    decreases s.len(),
{
    if s.len() == 0 {
    } else if is_white(s[0]) {
        lemma_words(s.skip(1));
        assert(blank(s) ==> blank(s.skip(1)));
        if blank(s.skip(1)) {
            assert forall|i: int| 0 <= i < s.len() implies is_white(#[trigger] s[i]) by {
                if i > 0 {
                    assert(s[i] == s.skip(1)[i - 1]);
                }
            }
        }
    } else {
        lemma_word_len(s);
        let n = word_len(s);
        lemma_words(s.skip(n));
        let ws = words(s);
        let rest = words(s.skip(n));
        assert(ws == seq![s.take(n)] + rest);
        assert forall|i: int| 0 <= i < ws.len() implies (#[trigger] ws[i]).len() > 0 by {
            if i > 0 {
                assert(ws[i] == rest[i - 1]);
            }
        }
        assert forall|i: int, j: int| 0 <= i < ws.len() && 0 <= j < ws[i].len() implies !is_white(
            #[trigger] ws[i][j],
        ) by {
            if i > 0 {
                assert(ws[i] == rest[i - 1]);
            } else {
                assert(ws[0][j] == s[j]);
            }
        }
    }
}

/// A word in front of a blank is the first word.
pub proof fn lemma_first_word(w: Seq<char>, c: char, rest: Seq<char>)
    requires
        w.len() > 0,
        forall|i: int| 0 <= i < w.len() ==> !is_white(#[trigger] w[i]),
        is_white(c),
    ensures
        words(w + seq![c] + rest) == seq![w] + words(rest),
        words(w) == seq![w],
        words(seq![c] + rest) == words(rest),
{
    let s = w + seq![c] + rest;
    lemma_word_len(s);
    lemma_word_len(w);
    let n = word_len(s);
    assert(s[0] == w[0]);
    assert(n == w.len()) by {
        if n < w.len() {
            assert(s[n] == w[n]);
        }
        if n > w.len() {
            assert(s[w.len() as int] == c);
        }
    }
    assert(s.take(n) =~= w);
    assert(s.skip(n) =~= seq![c] + rest);
    assert((seq![c] + rest).skip(1) =~= rest);
    assert((seq![c] + rest)[0] == c);
    assert(word_len(w) == w.len());
    assert(w.take(w.len() as int) =~= w);
    let nothing = w.skip(w.len() as int);
    assert(nothing.len() == 0);
    assert(words(nothing) =~= seq![]);
    assert(words(w) == seq![w] + words(nothing));
    assert(words(w) =~= seq![w]);
    assert(words(seq![c] + rest) == words(rest));
    assert(words(s) == seq![w] + words(s.skip(n)));
}

/// Text without blanks at its ends is trimmed to itself.
pub proof fn lemma_trim_nothing(s: Seq<char>)
    requires
        s.len() > 0 ==> !is_white(s[0]) && !is_white(s.last()),
    ensures
        trimmed(s) == s,
{
}

/// Blanks in front and behind are trimmed away.
pub proof fn lemma_trim_blanks(a: Seq<char>, s: Seq<char>, b: Seq<char>)
    requires
        blank(a),
        blank(b),
        s.len() > 0,
        !is_white(s[0]),
        !is_white(s.last()),
    ensures
        trimmed(a + s + b) == s,
    decreases a.len() + b.len(),
{
    let all = a + s + b;
    if a.len() > 0 {
        assert(all[0] == a[0]);
        assert(all.skip(1) =~= a.skip(1) + s + b);
        assert(blank(a.skip(1)));
        lemma_trim_blanks(a.skip(1), s, b);
        assert(trim_start(all) == trim_start(all.skip(1)));
    } else if b.len() > 0 {
        assert(all[0] == s[0]);
        assert(all.last() == b.last());
        assert(all.drop_last() =~= a + s + b.drop_last());
        assert(blank(b.drop_last()));
        lemma_trim_blanks(a, s, b.drop_last());
        assert((a + s + b.drop_last())[0] == s[0]);
        assert(trim_start(all) == all);
        assert(trim_start(all.drop_last()) == all.drop_last());
    } else {
        assert(all =~= s);
    }
}

/// Where a word stands that begins with a character found nowhere else in it and
/// nowhere before it.
pub proof fn lemma_find_word(a: Seq<char>, k: Seq<char>, b: Seq<char>)
    requires
        k.len() > 0,
        !contains(a, k),
        forall|i: int| 0 < i < k.len() ==> #[trigger] k[i] != k[0],
    ensures
        find(a + k + b, k) == Some(a.len() as int),
{
    let s = a + k + b;
    let n = a.len() as int;
    lemma_find_from(s, k, 0);
    assert(occurs_at(s, k, n)) by {
        assert(s.subrange(n, n + k.len()) =~= k);
    }
    assert forall|m: int| 0 <= m < n implies !occurs_at(s, k, m) by {
        if occurs_at(s, k, m) {
            if m + k.len() <= n {
                assert(a.subrange(m, m + k.len()) =~= s.subrange(m, m + k.len()));
                assert(occurs_at(a, k, m));
            } else {
                assert(s[n] == k[0]);
                assert(s.subrange(m, m + k.len())[n - m] == s[n]);
                assert(k[n - m] != k[0]);
            }
        }
    }
}

/// A text without the word keeps as it is when the word is replaced; and one in which
/// it stands once gets the other in its place.
pub proof fn lemma_replaced(a: Seq<char>, k: Seq<char>, b: Seq<char>, to: Seq<char>)
    requires
        k.len() > 0,
        !contains(a, k),
        !contains(b, k),
        forall|i: int| 0 < i < k.len() ==> #[trigger] k[i] != k[0],
    ensures
        replaced(a, k, to) == a,
        replaced(a + k + b, k, to) == a + to + b,
{
    let s = a + k + b;
    lemma_no_find(a, k);
    lemma_no_find(b, k);
    lemma_find_word(a, k, b);
    assert(split(a, k) == seq![a]);
    assert(split(b, k) == seq![b]);
    assert(s.take(a.len() as int) =~= a);
    assert(s.skip((a.len() + k.len()) as int) =~= b);
    let parts = seq![a] + seq![b];
    assert(split(s, k) == parts);
    assert(parts.last() == b);
    assert(parts.drop_last() =~= seq![a]);
    assert(joined(seq![a], to) == a);
    assert(joined(parts, to) == a + to + b);
}

/// What is not there is not found.
proof fn lemma_no_find(s: Seq<char>, k: Seq<char>)
    requires
        !contains(s, k),
    ensures
        find(s, k) is None,
{
    lemma_find_from(s, k, 0);
}

/// What is seen of a list is each of its elements, in its place; and what is seen of
/// something that may be missing is it, or that it is missing.
pub proof fn lemma_views<T: View>(s: Seq<T>, o: Option<T>)
    ensures
        views(s).len() == s.len(),
        forall|i: int| 0 <= i < s.len() ==> #[trigger] views(s)[i] == s[i]@,
        o is None <==> opt_view(o) is None,
        o matches Some(x) ==> opt_view(o) == Some(x@),
{
}

/// The parts of a text and what stands behind its last separator.
pub proof fn lemma_split_last(a: Seq<char>, sep: char, b: Seq<char>)
    requires
        !b.contains(sep),
    ensures
        split(a + seq![sep] + b, seq![sep]) == split(a, seq![sep]).push(b),
    decreases a.len(),
{
    lemma_split_off(b, sep, Seq::empty());
    if !a.contains(sep) {
        lemma_split_off(a, sep, b);
        assert(seq![a] + seq![b] =~= seq![a].push(b));
    } else {
        lemma_first_index(a, sep);
        let i = first_index(a, sep)->0;
        let a1 = a.take(i);
        let a2 = a.skip(i + 1);
        assert(a =~= a1 + seq![sep] + a2);
        assert(!a1.contains(sep)) by {
            if a1.contains(sep) {
                let k = choose|k: int| 0 <= k < a1.len() && a1[k] == sep;
                assert(a[k] == sep);
            }
        }
        lemma_split_last(a2, sep, b);
        lemma_split_off(a1, sep, a2);
        lemma_split_off(a1, sep, a2 + seq![sep] + b);
        assert(a + seq![sep] + b =~= a1 + seq![sep] + (a2 + seq![sep] + b));
        assert(seq![a1] + split(a2, seq![sep]).push(b) =~= (seq![a1] + split(
            a2,
            seq![sep],
        )).push(b));
    }
}

/// A prefix is taken off as often as it stands there, and then it stands there no more.
pub proof fn lemma_without_prefixes(s: Seq<char>, p: Seq<char>)
    requires
        p.len() > 0,
    ensures
        without_prefixes(p + s, p) == without_prefixes(s, p),
        !p.is_prefix_of(s) ==> without_prefixes(s, p) == s,
        !p.is_prefix_of(without_prefixes(s, p)),
    decreases s.len(),
{
    let n = p.len() as int;
    assert((p + s).subrange(0, n) =~= p);
    assert((p + s).skip(n) =~= s);
    if n <= s.len() && occurs_at(s, p, 0) {
        lemma_without_prefixes(s.skip(n), p);
        assert(s.subrange(0, n) == p);
        assert(p.is_prefix_of(s)) by {
            assert(s.subrange(0, n) =~= p);
        }
    } else if p.is_prefix_of(s) {
        assert(s.subrange(0, n) =~= p);
    }
}

/// A letter of ASCII has its small letter, and anything else stays.
pub proof fn lemma_ascii_lower(s: Seq<char>, i: int)
    requires
        0 <= i < s.len(),
    ensures
        ascii_lowered(s).len() == s.len(),
        'A' <= s[i] <= 'Z' ==> ascii_lowered(s)[i] as int == s[i] as int + ('a' as int - 'A' as int),
        !('A' <= s[i] <= 'Z') ==> ascii_lowered(s)[i] == s[i],
{
}

/// The blanks are those of Unicode, by their numbers; the control characters are the
/// first thirty-two and those from the 127th to the 159th.
pub proof fn lemma_blanks(c: char)
    ensures
        ({
            let n = c as u32;
            &&& is_white(c) <==> 9 <= n <= 13 || n == 32 || n == 133 || n == 160 || n == 5760 || 8192
                <= n <= 8202 || n == 8232 || n == 8233 || n == 8239 || n == 8287 || n == 12288
            &&& is_ctrl(c) <==> n <= 31 || 127 <= n <= 159
            &&& is_digit(c) <==> 48 <= n <= 57
        }),
{
}

} // verus!
