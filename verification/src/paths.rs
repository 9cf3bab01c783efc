//! Paths as texts, with `/` between their components.

use vstd::prelude::*;
use vstd::string::*;
use vstd::slice::slice_subrange;
use crate::text;

verus! {

/// The path `base` with `p` put behind it: a path that starts with `/` takes
/// the place of `base`, any other follows it after one `/`.
pub open spec fn path_push(base: Seq<char>, p: Seq<char>) -> Seq<char> {
    if p.len() > 0 && p[0] == '/' {
        p
    } else if base.len() == 0 || base.last() == '/' {
        base + p
    } else {
        base.push('/') + p
    }
}

/// The path `base` with `p` put behind it.
pub fn join_path(base: &str, p: &str) -> (r: String)
    ensures
        r@ == path_push(base@, p@),
{
    let b = text::chars_of(base);
    let v = text::chars_of(p);
    if v.len() > 0 && v[0] == '/' {
        return p.to_owned();
    }
    let mut out = base.to_owned();
    if b.len() > 0 && b[b.len() - 1] != '/' {
        out.push('/');
    }
    out.append(p);
    out
}

/// The last component of a path that is neither empty nor `.`.
pub open spec fn last_component(segs: Seq<Seq<char>>) -> Option<Seq<char>>
    decreases segs.len(),
{
    if segs.len() == 0 {
        None
    } else if segs.last().len() == 0 || segs.last() == "."@ {
        last_component(segs.drop_last())
    } else {
        Some(segs.last())
    }
}

/// The name of the file that a path leads to; none where the path ends in `..`
/// or names nothing.
pub open spec fn name_in_path(path: Seq<char>) -> Option<Seq<char>> {
    match last_component(text::split(path, "/"@)) {
        Some(c) => if c == ".."@ {
            None
        } else {
            Some(c)
        },
        None => None,
    }
}

/// A file name without its extension: what stands before its last `.`, or all
/// of it where the only `.` stands in front.
pub open spec fn stem_of_name(name: Seq<char>) -> Seq<char> {
    match text::last_index(name, '.') {
        Some(i) => if i > 0 {
            name.take(i)
        } else {
            name
        },
        None => name,
    }
}

/// The extension of a file name: what stands behind its last `.`.
pub open spec fn extension_of_name(name: Seq<char>) -> Option<Seq<char>> {
    match text::last_index(name, '.') {
        Some(i) => if i > 0 {
            Some(name.skip(i + 1))
        } else {
            None
        },
        None => None,
    }
}

/// The name of the file that a path leads to.
pub fn file_name(path: &str) -> (r: Option<String>)
    ensures
        text::opt_view(r) == name_in_path(path@),
{
    proof {
        reveal_strlit("/");
    }
    let segs = text::split_text(path, "/");
    let ghost all = text::views(segs@);
    let mut n: usize = segs.len();
    assert(all.take(n as int) =~= all);
    while n > 0
        invariant
            all == text::views(segs@),
            all == text::split(path@, "/"@),
            n <= segs@.len(),
            last_component(all) == last_component(all.take(n as int)),
        decreases n,
    {
        let seg = &segs[n - 1];
        assert(all.take(n as int).last() == seg@);
        assert(all.take(n as int).drop_last() =~= all.take(n - 1));
        if !seg.as_str().is_empty() && !text::same(seg.as_str(), ".") {
            return if text::same(seg.as_str(), "..") {
                None
            } else {
                Some(seg.clone())
            };
        }
        n -= 1;
    }
    None
}

/// A path's file name without its extension.
pub open spec fn stem_in_path(path: Seq<char>) -> Option<Seq<char>> {
    match name_in_path(path) {
        Some(name) => Some(stem_of_name(name)),
        None => None,
    }
}

/// The extension of a path's file name.
pub open spec fn extension_in_path(path: Seq<char>) -> Option<Seq<char>> {
    match name_in_path(path) {
        Some(name) => extension_of_name(name),
        None => None,
    }
}

/// A path's file name without its extension.
pub fn file_stem(path: &str) -> (r: Option<String>)
    ensures
        text::opt_view(r) == stem_in_path(path@),
{
    match file_name(path) {
        Some(name) => {
            let v = text::chars_of(name.as_str());
            match text::last_index_of(v.as_slice(), '.') {
                Some(i) => if i > 0 {
                    let r = text::string_of(slice_subrange(v.as_slice(), 0, i));
                    assert(r@ =~= name@.take(i as int));
                    Some(r)
                } else {
                    Some(name)
                },
                None => Some(name),
            }
        },
        None => None,
    }
}

/// The extension of a path's file name.
pub fn extension(path: &str) -> (r: Option<String>)
    ensures
        text::opt_view(r) == extension_in_path(path@),
{
    match file_name(path) {
        Some(name) => {
            let v = text::chars_of(name.as_str());
            match text::last_index_of(v.as_slice(), '.') {
                Some(i) => if i > 0 {
                    let n: usize = v.len();
                    let r = text::string_of(slice_subrange(v.as_slice(), i + 1, n));
                    assert(r@ =~= name@.skip(i + 1));
                    Some(r)
                } else {
                    None
                },
                None => None,
            }
        },
        None => None,
    }
}

// ---------------------------------------------------------------------------
// Names that a file system takes
// ---------------------------------------------------------------------------

/// The characters that no file or folder is named with.
pub open spec fn forbidden(c: char) -> bool {
    ||| c == '/'
    ||| c == '\\'
    ||| c == ':'
    ||| c == '*'
    ||| c == '?'
    ||| c == '"'
    ||| c == '<'
    ||| c == '>'
    ||| c == '|'
    ||| text::is_ctrl(c)
}

/// A character as it may stand in a name.
pub open spec fn tame(c: char) -> char {
    if forbidden(c) {
        '_'
    } else {
        c
    }
}

/// A text as the name of a file or folder: `_` for what no name holds, and no
/// white space at the ends.
pub open spec fn sane_name(s: Seq<char>) -> Seq<char> {
    text::trimmed(s.map_values(|c: char| tame(c)))
}

/// A text as the name of a file or folder.
pub fn sane(s: &str) -> (r: String)
    ensures
        r@ == sane_name(s@),
{
    let v = text::chars_of(s);
    let mut out = String::new();
    let mut i: usize = 0;
    let ghost all = s@.map_values(|c: char| tame(c));
    while i < v.len()
        invariant
            v@ == s@,
            i <= v@.len(),
            all == s@.map_values(|c: char| tame(c)),
            out@ == all.take(i as int),
        decreases v.len() - i,
    {
        let c = v[i];
        let bad = c == '/' || c == '\\' || c == ':' || c == '*' || c == '?' || c == '"' || c == '<'
            || c == '>' || c == '|' || text::is_control(c);
        out.push(if bad { '_' } else { c });
        assert(all.take(i + 1) =~= all.take(i as int).push(tame(c)));
        i += 1;
    }
    assert(all.take(all.len() as int) =~= all);
    text::trim(out.as_str())
}

/// A sane name holds no forbidden character, and making it sane again changes
/// nothing.
pub proof fn lemma_sane(s: Seq<char>)
    ensures
        forall|i: int| 0 <= i < sane_name(s).len() ==> !forbidden(#[trigger] sane_name(s)[i]),
        sane_name(sane_name(s)) == sane_name(s),
{
    let m = s.map_values(|c: char| tame(c));
    let n = sane_name(s);
    text::lemma_trimmed(m);
    let (a, b) = choose|a: int, b: int| 0 <= a <= b <= m.len() && n == #[trigger] m.subrange(a, b);
    assert forall|i: int| 0 <= i < n.len() implies !forbidden(#[trigger] n[i]) by {
        assert(n[i] == tame(s[a + i]));
    }
    assert(n.map_values(|c: char| tame(c)) =~= n);
    text::lemma_trim_idempotent(m);
}

// ---------------------------------------------------------------------------
// Below a folder
// ---------------------------------------------------------------------------

/// A name leads to something in a folder: it is a single segment and not the one
/// that leads up.
pub open spec fn leads_down(name: Seq<char>) -> bool {
    !name.contains('/') && name != ".."@
}

/// The path `base` with the names put behind it, one after the other.
pub open spec fn pushed(base: Seq<char>, names: Seq<Seq<char>>) -> Seq<char>
    decreases names.len(),
{
    if names.len() == 0 {
        base
    } else {
        path_push(pushed(base, names.drop_last()), names.last())
    }
}

/// `path` is reached from `base` by names that lead down.
pub open spec fn lies_below(base: Seq<char>, path: Seq<char>) -> bool {
    exists|names: Seq<Seq<char>>| #[trigger]
        pushed(base, names) == path && forall|i: int|
            0 <= i < names.len() ==> leads_down(#[trigger] names[i])
}

/// A path is reached from itself by no names.
pub proof fn lemma_below_itself(base: Seq<char>)
    ensures
        lies_below(base, base),
{
    assert(pushed(base, seq![]) == base);
}

/// One more name that leads down leads further below.
pub proof fn lemma_below_further(base: Seq<char>, path: Seq<char>, name: Seq<char>)
    requires
        lies_below(base, path),
        leads_down(name),
    ensures
        lies_below(base, path_push(path, name)),
{
    let names = choose|names: Seq<Seq<char>>| #[trigger]
        pushed(base, names) == path && forall|i: int|
            0 <= i < names.len() ==> leads_down(#[trigger] names[i]);
    let more = names.push(name);
    assert(more.drop_last() =~= names);
    assert(pushed(base, more) == path_push(path, name));
}

/// A sane name leads down, unless it is the one that leads up.
pub proof fn lemma_sane_leads_down(s: Seq<char>)
    requires
        sane_name(s) != ".."@,
    ensures
        leads_down(sane_name(s)),
{
    lemma_sane(s);
    let n = sane_name(s);
    if n.contains('/') {
        let i = choose|i: int| 0 <= i < n.len() && n[i] == '/';
        assert(!forbidden(n[i]));
    }
}

/// A name without a dot is not made one that leads up.
pub proof fn lemma_no_dot_leads_down(s: Seq<char>)
    requires
        !s.contains('.'),
    ensures
        leads_down(sane_name(s)),
{
    reveal_strlit("..");
    let m = s.map_values(|c: char| tame(c));
    let n = sane_name(s);
    text::lemma_trimmed(m);
    let (a, b) = choose|a: int, b: int| 0 <= a <= b <= m.len() && n == #[trigger] m.subrange(a, b);
    if n == ".."@ {
        assert(n[0] == tame(s[a]));
        assert(s[a] == '.');
    }
    lemma_sane_leads_down(s);
}

/// A path put behind another follows it after exactly one `/`, unless it starts at
/// the root.
pub proof fn lemma_push(base: Seq<char>, p: Seq<char>)
    requires
        p.len() == 0 || p[0] != '/',
    ensures
        base.is_prefix_of(path_push(base, p)),
        path_push(base, p).skip(path_push(base, p).len() - p.len()) == p,
        base.len() > 0 && base.last() != '/' ==> path_push(base, p).len() == base.len() + 1
            + p.len() && path_push(base, p)[base.len() as int] == '/',
        base.len() > 0 && base.last() == '/' ==> path_push(base, p).len() == base.len() + p.len(),
{
    let r = path_push(base, p);
    assert(r.take(base.len() as int) =~= base);
    assert(r.skip(r.len() - p.len()) =~= p);
}

/// A name of ink without forbidden characters is sane as it is; a forbidden one gives
/// way to `_`.
pub proof fn lemma_sane_keeps(s: Seq<char>)
    ensures
        (forall|i: int|
            0 <= i < s.len() ==> !seq!['/', '\\', ':', '*', '?', '"', '<', '>', '|'].contains(
                #[trigger] s[i],
            ) && !text::is_ctrl(s[i]) && !text::is_white(s[i])) ==> sane_name(s) == s,
        sane_name(seq!['/']) == seq!['_'],
        sane_name(seq!['\\']) == seq!['_'],
        sane_name(seq![':']) == seq!['_'],
        sane_name(seq!['*']) == seq!['_'],
        sane_name(seq!['?']) == seq!['_'],
        sane_name(seq!['"']) == seq!['_'],
        sane_name(seq!['<']) == seq!['_'],
        sane_name(seq!['>']) == seq!['_'],
        sane_name(seq!['|']) == seq!['_'],
{
    let bad = seq!['/', '\\', ':', '*', '?', '"', '<', '>', '|'];
    assert(bad[0] == '/' && bad[1] == '\\' && bad[2] == ':' && bad[3] == '*' && bad[4] == '?'
        && bad[5] == '"' && bad[6] == '<' && bad[7] == '>' && bad[8] == '|');
    if forall|i: int|
        0 <= i < s.len() ==> !bad.contains(#[trigger] s[i]) && !text::is_ctrl(s[i])
            && !text::is_white(s[i]) {
        assert forall|i: int| 0 <= i < s.len() implies tame(#[trigger] s[i]) == s[i] by {
            assert(!bad.contains(s[i]));
            assert forall|k: int| 0 <= k < 9 implies bad[k] != s[i] by {
                if bad[k] == s[i] {
                    assert(bad.contains(s[i]));
                }
            }
            assert(bad[0] != s[i] && bad[1] != s[i] && bad[2] != s[i] && bad[3] != s[i] && bad[4]
                != s[i] && bad[5] != s[i] && bad[6] != s[i] && bad[7] != s[i] && bad[8] != s[i]);
        }
        assert(s.map_values(|c: char| tame(c)) =~= s);
        if s.len() > 0 {
            assert(!text::is_white(s[0]));
            assert(!text::is_white(s[s.len() - 1]));
        }
    }
    let us = seq!['_'];
    assert(seq!['/'].map_values(|c: char| tame(c)) =~= us);
    assert(seq!['\\'].map_values(|c: char| tame(c)) =~= us);
    assert(seq![':'].map_values(|c: char| tame(c)) =~= us);
    assert(seq!['*'].map_values(|c: char| tame(c)) =~= us);
    assert(seq!['?'].map_values(|c: char| tame(c)) =~= us);
    assert(seq!['"'].map_values(|c: char| tame(c)) =~= us);
    assert(seq!['<'].map_values(|c: char| tame(c)) =~= us);
    assert(seq!['>'].map_values(|c: char| tame(c)) =~= us);
    assert(seq!['|'].map_values(|c: char| tame(c)) =~= us);
}

/// A name `a.b` has the stem `a` and the extension `b`; a name without a dot, or with
/// one in front alone, is all stem.
pub proof fn lemma_stem_and_extension(a: Seq<char>, b: Seq<char>)
    requires
        a.len() > 0,
        !b.contains('.'),
    ensures
        stem_of_name(a + seq!['.'] + b) == a,
        extension_of_name(a + seq!['.'] + b) == Some(b),
        stem_of_name(b) == b,
        extension_of_name(b) is None,
        extension_of_name(seq!['.'] + b) is None,
        stem_of_name(seq!['.'] + b) == seq!['.'] + b,
{
    let name = a + seq!['.'] + b;
    text::lemma_last_index(name, '.');
    text::lemma_last_index(b, '.');
    text::lemma_last_index(seq!['.'] + b, '.');
    assert(name[a.len() as int] == '.');
    let i = text::last_index(name, '.')->0;
    if i > a.len() {
        assert(name[i] == b[i - a.len() - 1]);
        assert(b.contains(name[i]));
    }
    assert(name.take(a.len() as int) =~= a);
    assert(name.skip((a.len() + 1) as int) =~= b);
    match text::last_index(b, '.') {
        Some(k) => {
            assert(b.contains(b[k]));
        },
        None => {},
    }
    let hidden = seq!['.'] + b;
    assert(hidden[0] == '.');
    let k = text::last_index(hidden, '.')->0;
    if k > 0 {
        assert(hidden[k] == b[k - 1]);
        assert(b.contains(hidden[k]));
    }
}

/// The name in a path is what stands behind its last slash, where that is a name; a
/// slash at the end does not count.
pub proof fn lemma_name_in_path(dir: Seq<char>, name: Seq<char>)
    requires
        name.len() > 0,
        name != "."@,
        name != ".."@,
        !name.contains('/'),
    ensures
        name_in_path(name) == Some(name),
        name_in_path(dir + seq!['/'] + name) == Some(name),
        name_in_path(dir + seq!['/'] + name + seq!['/']) == Some(name),
{
    reveal_strlit("/");
    assert("/"@ =~= seq!['/']);
    text::lemma_split_off(name, '/', Seq::empty());
    text::lemma_split_last(dir, '/', name);
    let path = dir + seq!['/'] + name;
    let nothing = Seq::<char>::empty();
    text::lemma_split_last(path, '/', nothing);
    assert(path + seq!['/'] + nothing =~= path + seq!['/']);
    let parts = text::split(path, "/"@);
    assert(parts.last() == name);
    assert(seq![name].last() == name);
    let more = parts.push(nothing);
    assert(more.last() == nothing);
    assert(more.drop_last() =~= parts);
    assert(last_component(parts) == Some(name));
    assert(last_component(more) == last_component(parts));
}

/// The extension of the file that a path leads to.
pub proof fn lemma_extension_in_path(dir: Seq<char>, a: Seq<char>, b: Seq<char>)
    requires
        a.len() > 0,
        b.len() > 0,
        !a.contains('/'),
        !b.contains('/'),
        !b.contains('.'),
    ensures
        extension_in_path(dir + seq!['/'] + (a + seq!['.'] + b)) == Some(b),
        stem_in_path(dir + seq!['/'] + (a + seq!['.'] + b)) == Some(a),
{
    reveal_strlit(".");
    reveal_strlit("..");
    let name = a + seq!['.'] + b;
    assert(name.len() >= 3 && "."@.len() == 1 && ".."@.len() == 2);
    assert(!name.contains('/')) by {
        if name.contains('/') {
            let i = choose|i: int| 0 <= i < name.len() && name[i] == '/';
            if i < a.len() {
                assert(a[i] == '/');
            } else if i > a.len() {
                assert(b[i - a.len() - 1] == '/');
            }
        }
    }
    lemma_name_in_path(dir, name);
    lemma_stem_and_extension(a, b);
}

/// Names are put behind a path one after the other.
pub proof fn lemma_pushed(base: Seq<char>, names: Seq<Seq<char>>, name: Seq<char>)
    ensures
        pushed(base, Seq::empty()) == base,
        pushed(base, names.push(name)) == path_push(pushed(base, names), name),
{
    assert(names.push(name).drop_last() =~= names);
}

} // verus!
