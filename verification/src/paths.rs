//! File paths as text, with `/` between their components.

use vstd::prelude::*;
use vstd::slice::slice_subrange;

use crate::text;
use crate::text::{after_last_of, chars_of, copy_chars, is, push_chars, push_str, string_of};

verus! {

/// The path without separators, and components `.` after one, at its end.
pub open spec fn trimmed_path(s: Seq<char>) -> Seq<char>
    decreases s.len(),
{
    if s.len() > 0 && s.last() == '/' {
        trimmed_path(s.drop_last())
    } else if s.len() > 1 && s.last() == '.' && s[s.len() - 2] == '/' {
        trimmed_path(s.drop_last())
    } else {
        s
    }
}

/// The last component of a path.
pub open spec fn last_component(s: Seq<char>) -> Seq<char> {
    text::after_last(trimmed_path(s), "/"@)
}

/// The name of the file that a path leads to: its last component, unless that is
/// missing or is `.` or `..`.
pub open spec fn file_name(s: Seq<char>) -> Option<Seq<char>> {
    let name = last_component(s);
    if name.len() == 0 || name == "."@ || name == ".."@ {
        None
    } else {
        Some(name)
    }
}

/// The position of the point that separates a name's stem from its extension; a
/// point at the beginning does not count.
pub open spec fn extension_point(name: Seq<char>) -> Option<int> {
    let p = text::last_of(name, "."@, name.len() as int);
    if p > 0 {
        Some(p)
    } else {
        None
    }
}

/// A name without its extension.
pub open spec fn stem_of(name: Seq<char>) -> Seq<char> {
    match extension_point(name) {
        Some(p) => name.take(p),
        None => name,
    }
}

/// A name's extension, without the point.
pub open spec fn extension_of(name: Seq<char>) -> Option<Seq<char>> {
    match extension_point(name) {
        Some(p) => Some(name.skip(p + 1)),
        None => None,
    }
}

/// The extension of a path's file name.
pub open spec fn extension(s: Seq<char>) -> Option<Seq<char>> {
    match file_name(s) {
        Some(n) => extension_of(n),
        None => None,
    }
}

/// The stem of a path's file name.
pub open spec fn file_stem(s: Seq<char>) -> Option<Seq<char>> {
    match file_name(s) {
        Some(n) => Some(stem_of(n)),
        None => None,
    }
}

/// The path with the extension of its file name replaced; unchanged where it has
/// no file name.
pub open spec fn with_extension(s: Seq<char>, ext: Seq<char>) -> Seq<char> {
    match file_name(s) {
        None => s,
        Some(name) => {
            let start = trimmed_path(s).len() - name.len();
            let kept = s.take(start + stem_of(name).len());
            if ext.len() > 0 {
                kept + "."@ + ext
            } else {
                kept
            }
        },
    }
}

/// The path without its last component; none for the root and the empty path.
pub open spec fn parent(s: Seq<char>) -> Option<Seq<char>> {
    let t = trimmed_path(s);
    if t.len() == 0 {
        None
    } else {
        let before = t.take(t.len() - last_component(s).len());
        let p = trimmed_path(before);
        if p.len() == 0 && before.len() > 0 {
            Some("/"@)
        } else {
            Some(p)
        }
    }
}

/// `b` inside the directory `a`; `b` itself where it begins at the root.
pub open spec fn join(a: Seq<char>, b: Seq<char>) -> Seq<char> {
    if b.len() > 0 && b[0] == '/' {
        b
    } else if a.len() > 0 && a.last() != '/' {
        a + "/"@ + b
    } else {
        a + b
    }
}

/// The length of the path without what is trimmed from its end.
fn trimmed_len(s: &[char]) -> (r: usize)
    ensures
        r <= s.len(),
        s@.take(r as int) == trimmed_path(s@),
{
    let mut n: usize = s.len();
    assert(s@.take(n as int) =~= s@);
    loop
        invariant
            n <= s.len(),
            trimmed_path(s@) == trimmed_path(s@.take(n as int)),
        decreases n,
    {
        let ghost t = s@.take(n as int);
        assert(n > 0 ==> t.drop_last() =~= s@.take(n - 1));
        if n > 0 && s[n - 1] == '/' {
            n -= 1;
        } else if n > 1 && s[n - 1] == '.' && s[n - 2] == '/' {
            n -= 1;
        } else {
            return n;
        }
    }
}

proof fn lemma_last_component(s: Seq<char>)
    ensures
        last_component(s).len() <= trimmed_path(s).len(),
        trimmed_path(s).len() <= s.len(),
{
    let t = trimmed_path(s);
    text::lemma_last_of(t, "/"@, t.len() as int);
    lemma_trimmed_len(s);
}

proof fn lemma_trimmed_len(s: Seq<char>)
    ensures
        trimmed_path(s).len() <= s.len(),
    decreases s.len(),
{
    if s.len() > 0 && (s.last() == '/' || (s.len() > 1 && s.last() == '.' && s[s.len() - 2]
        == '/')) {
        lemma_trimmed_len(s.drop_last());
    }
}

/// Where the file name of a path begins and ends.
fn name_range(s: &[char]) -> (r: Option<(usize, usize)>)
    ensures
        match r {
            Some((a, b)) => {
                &&& a <= b <= s.len()
                &&& b == trimmed_path(s@).len()
                &&& file_name(s@) == Some(s@.subrange(a as int, b as int))
            },
            None => file_name(s@) is None,
        },
{
    let n: usize = trimmed_len(s);
    let t = slice_subrange(s, 0, n);
    assert(t@ =~= s@.take(n as int));
    let a: usize = after_last_of(t, "/");
    let name = slice_subrange(s, a, n);
    assert(name@ =~= last_component(s@));
    if name.len() == 0 || is(name, ".") || is(name, "..") {
        None
    } else {
        Some((a, n))
    }
}

/// The length of a name's stem, where it has an extension.
fn stem_len(name: &[char]) -> (r: Option<usize>)
    ensures
        match r {
            Some(p) => extension_point(name@) == Some(p as int) && p < name.len(),
            None => extension_point(name@) is None,
        },
{
    let p: usize = after_last_of(name, ".");
    if p > 1 {
        Some(p - 1)
    } else {
        None
    }
}

pub fn get_file_name(s: &str) -> (r: Option<String>)
    ensures
        text::opt(r) == file_name(s@),
{
    let cs = chars_of(s);
    match name_range(cs.as_slice()) {
        Some((a, b)) => Some(string_of(slice_subrange(cs.as_slice(), a, b))),
        None => None,
    }
}

pub fn get_extension(s: &str) -> (r: Option<String>)
    ensures
        text::opt(r) == extension(s@),
{
    let cs = chars_of(s);
    match name_range(cs.as_slice()) {
        Some((a, b)) => {
            let name = slice_subrange(cs.as_slice(), a, b);
            match stem_len(name) {
                Some(p) => {
                    let e = slice_subrange(name, p + 1, name.len());
                    assert(e@ =~= name@.skip(p + 1));
                    Some(string_of(e))
                },
                None => None,
            }
        },
        None => None,
    }
}

pub fn get_file_stem(s: &str) -> (r: Option<String>)
    ensures
        text::opt(r) == file_stem(s@),
{
    let cs = chars_of(s);
    match name_range(cs.as_slice()) {
        Some((a, b)) => {
            let name = slice_subrange(cs.as_slice(), a, b);
            match stem_len(name) {
                Some(p) => {
                    let e = slice_subrange(name, 0, p);
                    assert(e@ =~= name@.take(p as int));
                    Some(string_of(e))
                },
                None => Some(string_of(name)),
            }
        },
        None => None,
    }
}

pub fn change_extension(s: &str, ext: &str) -> (r: String)
    ensures
        r@ == with_extension(s@, ext@),
{
    let cs = chars_of(s);
    match name_range(cs.as_slice()) {
        Some((a, b)) => {
            let name = slice_subrange(cs.as_slice(), a, b);
            let keep: usize = match stem_len(name) {
                Some(p) => a + p,
                None => b,
            };
            let mut out = copy_chars(slice_subrange(cs.as_slice(), 0, keep));
            assert(out@ =~= s@.take(keep as int));
            let es = chars_of(ext);
            if es.len() > 0 {
                push_str(&mut out, ".");
                push_chars(&mut out, es.as_slice());
            }
            string_of(out.as_slice())
        },
        None => string_of(cs.as_slice()),
    }
}

pub fn get_parent(s: &str) -> (r: Option<String>)
    ensures
        text::opt(r) == parent(s@),
{
    let cs = chars_of(s);
    let n: usize = trimmed_len(cs.as_slice());
    if n == 0 {
        return None;
    }
    let t = slice_subrange(cs.as_slice(), 0, n);
    assert(t@ =~= trimmed_path(s@));
    let a: usize = after_last_of(t, "/");
    let before = slice_subrange(t, 0, a);
    proof {
        text::lemma_last_of(t@, "/"@, t@.len() as int);
        assert(before@ =~= t@.take(t@.len() - last_component(s@).len()));
    }
    let m: usize = trimmed_len(before);
    if m == 0 && before.len() > 0 {
        Some("/".to_string())
    } else {
        let p = slice_subrange(before, 0, m);
        assert(p@ =~= trimmed_path(before@));
        Some(string_of(p))
    }
}

pub fn join_path(a: &str, b: &str) -> (r: String)
    ensures
        r@ == join(a@, b@),
{
    let x = chars_of(a);
    let y = chars_of(b);
    if y.len() > 0 && y[0] == '/' {
        return b.to_string();
    }
    let mut out = copy_chars(x.as_slice());
    if x.len() > 0 && x[x.len() - 1] != '/' {
        push_str(&mut out, "/");
    }
    push_chars(&mut out, y.as_slice());
    string_of(out.as_slice())
}

// ---------------------------------------------------------------------------
// Laws
// ---------------------------------------------------------------------------

/// Whether a text is a plain file name: no separator in it, and neither empty
/// nor `.` nor `..`.
pub open spec fn plain_name(s: Seq<char>) -> bool {
    s.len() > 0 && !s.contains('/') && s != "."@ && s != ".."@
}

/// The one character of `"/"`.
proof fn lemma_slash()
    ensures
        "/"@ == seq!['/'],
        forall|c: char| "/"@.contains(c) <==> c == '/',
{
    reveal_strlit("/");
    assert("/"@ =~= seq!['/']);
    assert("/"@[0] == '/');
}

proof fn lemma_joined_ends(dir: Seq<char>, name: Seq<char>)
    requires
        plain_name(name),
    ensures
        join(dir, name).len() >= name.len(),
        join(dir, name).skip(join(dir, name).len() - name.len()) == name,
        join(dir, name).take(join(dir, name).len() - name.len()) == join(dir, Seq::empty()),
        join(dir, Seq::empty()).len() > 0 ==> join(dir, Seq::empty()).last() == '/',
{
    lemma_slash();
    let j = join(dir, name);
    assert(name.contains(name[0]));
    let n = j.len() - name.len();
    assert(j.skip(n) =~= name);
    assert(j.take(n) =~= join(dir, Seq::empty()));
}

proof fn lemma_joined_trimmed(dir: Seq<char>, name: Seq<char>)
    requires
        plain_name(name),
    ensures
        trimmed_path(join(dir, name)) == join(dir, name),
{
    reveal_strlit(".");
    lemma_joined_ends(dir, name);
    let j = join(dir, name);
    let n = j.len() - name.len();
    assert(j.last() == j.skip(n).last());
    assert(name.contains(name.last()));
    if j.len() > 1 && j.last() == '.' && j[j.len() - 2] == '/' {
        if name.len() == 1 {
            assert(name =~= "."@);
        } else {
            assert(j[j.len() - 2] == j.skip(n)[name.len() - 2]);
            assert(name.contains(name[name.len() - 2]));
        }
    }
}

proof fn lemma_joined_name(dir: Seq<char>, name: Seq<char>)
    requires
        plain_name(name),
    ensures
        trimmed_path(join(dir, name)) == join(dir, name),
        last_component(join(dir, name)) == name,
        join(dir, name).take(join(dir, name).len() - name.len()) == join(dir, Seq::empty()),
{
    lemma_slash();
    lemma_joined_ends(dir, name);
    lemma_joined_trimmed(dir, name);
    let j = join(dir, name);
    let n = j.len() - name.len();
    text::lemma_last_of(j, "/"@, j.len() as int);
    let p = text::last_of(j, "/"@, j.len() as int);
    if p >= n {
        assert(j[p] == j.skip(n)[p - n]);
        assert(name.contains(name[p - n]));
        assert(false);
    }
    if n > 0 {
        assert(j[n - 1] == j.take(n).last());
    }
    assert(p == n - 1);
}

/// A plain name joined to a directory is the file name of the whole path.
pub proof fn joining_keeps_the_name(dir: Seq<char>, name: Seq<char>)
    requires
        plain_name(name),
    ensures
        file_name(join(dir, name)) == Some(name),
        extension(join(dir, name)) == extension_of(name),
        file_stem(join(dir, name)) == Some(stem_of(name)),
{
    lemma_joined_name(dir, name);
}

/// Two paths into one directory are the same only where their names are.
pub proof fn joined_names_differ(dir: Seq<char>, a: Seq<char>, b: Seq<char>)
    requires
        plain_name(a),
        plain_name(b),
        a != b,
    ensures
        join(dir, a) != join(dir, b),
{
    lemma_joined_name(dir, a);
    lemma_joined_name(dir, b);
}

/// A name with an extension put on has that extension and keeps its stem.
pub proof fn extension_is_replaced(s: Seq<char>, ext: Seq<char>)
    requires
        file_name(s) is Some,
        plain_name(ext),
        !ext.contains('.'),
    ensures
        extension(with_extension(s, ext)) == Some(ext),
        file_stem(with_extension(s, ext)) == file_stem(s),
{
    reveal_strlit("/");
    reveal_strlit(".");
    reveal_strlit("..");
    lemma_last_component(s);
    let t = trimmed_path(s);
    let name = file_name(s)->0;
    let start = t.len() - name.len();
    text::lemma_last_of(t, "/"@, t.len() as int);
    lemma_trimmed_prefix(s);
    text::lemma_last_of(name, "."@, name.len() as int);
    let stem = stem_of(name);
    assert(stem.len() > 0);
    let w = with_extension(s, ext);
    let new_name = stem + "."@ + ext;
    assert(w.skip(start) =~= new_name) by {
        assert(t.skip(start) =~= name);
    }
    assert(w.last() == ext.last());
    assert(ext.contains(ext.last()));
    assert(trimmed_path(w) == w);
    assert("/"@.contains('/')) by {
        assert("/"@[0] == '/');
    }
    assert("."@.contains('.')) by {
        assert("."@[0] == '.');
    }
    text::lemma_last_of(w, "/"@, w.len() as int);
    let p = text::last_of(w, "/"@, w.len() as int);
    if p >= start {
        assert(w[p] == '/');
        let i = p - start;
        assert(new_name[i] == w[p]);
        if i < stem.len() {
            assert(stem[i] == name[i]);
            assert(name[i] == t[start + i]);
            assert("/"@.contains(t[start + i]));
        } else if i > stem.len() {
            assert(new_name[i] == ext[i - stem.len() - 1]);
            assert(ext.contains(ext[i - stem.len() - 1]));
        }
        assert(false);
    }
    if start > 0 {
        assert(w[start - 1] == t[start - 1]);
    }
    assert(p == start - 1);
    assert(last_component(w) =~= new_name);
    text::lemma_last_of(new_name, "."@, new_name.len() as int);
    let q = text::last_of(new_name, "."@, new_name.len() as int);
    assert(new_name[stem.len() as int] == '.');
    if q > stem.len() {
        assert(new_name[q] == ext[q - stem.len() - 1]);
        assert(ext.contains(ext[q - stem.len() - 1]));
        assert(false);
    }
    assert(q == stem.len());
    assert(new_name.skip(q + 1) =~= ext);
    assert(new_name.take(q) =~= stem);
    assert(new_name.len() >= 3);
}

proof fn lemma_trimmed_prefix(s: Seq<char>)
    ensures
        trimmed_path(s).len() <= s.len(),
        trimmed_path(s) == s.take(trimmed_path(s).len() as int),
        trimmed_path(s).len() > 0 ==> trimmed_path(s).last() != '/',
    decreases s.len(),
{
    if s.len() > 0 && (s.last() == '/' || (s.len() > 1 && s.last() == '.' && s[s.len() - 2]
        == '/')) {
        lemma_trimmed_prefix(s.drop_last());
        let n = trimmed_path(s).len() as int;
        assert(s.drop_last().take(n) =~= s.take(n));
    } else {
        assert(s.take(s.len() as int) =~= s);
    }
}

} // verus!
