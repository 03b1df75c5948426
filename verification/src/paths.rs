//! Paths as text. A path is a sequence of characters with `/` between its
//! components; the rules here are those of POSIX paths.

use vstd::prelude::*;
use crate::text::{chars_of, copy_range, is_str, push_all, push_str, string_of};

verus! {

/// `base` extended by `rel`: an absolute `rel` stands alone, and a slash is
/// put between the two where `base` has none at its end.
pub open spec fn joined(base: Seq<char>, rel: Seq<char>) -> Seq<char> {
    if rel.len() > 0 && rel[0] == '/' {
        rel
    } else if base.len() == 0 {
        rel
    } else if base.last() == '/' {
        base + rel
    } else {
        base + "/"@ + rel
    }
}

/// `s` without what stands at its end and names nothing: slashes, and
/// dots that are a component of their own behind a slash.
pub open spec fn trimmed_end(s: Seq<char>) -> Seq<char>
    decreases s.len(),
{
    if s.len() > 0 && s.last() == '/' {
        trimmed_end(s.drop_last())
    } else if s.len() > 1 && s.last() == '.' && s[s.len() - 2] == '/' {
        trimmed_end(s.drop_last())
    } else {
        s
    }
}

/// The index of the last `c` in `s`, or `-1` where there is none.
pub open spec fn last_index_of(s: Seq<char>, c: char) -> int
    decreases s.len(),
{
    if s.len() == 0 {
        -1
    } else if s.last() == c {
        s.len() - 1
    } else {
        last_index_of(s.drop_last(), c)
    }
}

/// The last component of a path, as it is written.
pub open spec fn last_component(path: Seq<char>) -> Seq<char> {
    let t = trimmed_end(path);
    t.subrange(last_index_of(t, '/') + 1, t.len() as int)
}

/// The name of the file or directory that a path leads to; none for the
/// root, the empty path, and a path that ends in `.` or `..`.
pub open spec fn file_name_of(path: Seq<char>) -> Option<Seq<char>> {
    let name = last_component(path);
    if name.len() == 0 || name == "."@ || name == ".."@ {
        None
    } else {
        Some(name)
    }
}

/// The directory that holds what a path leads to; none for the root and
/// for the empty path, and the empty path for a single relative component.
pub open spec fn parent_of(path: Seq<char>) -> Option<Seq<char>> {
    let t = trimmed_end(path);
    let k = last_index_of(t, '/');
    if t.len() == 0 {
        None
    } else if k < 0 {
        Some(Seq::empty())
    } else {
        let dir = trimmed_end(t.subrange(0, k));
        if dir.len() == 0 {
            Some("/"@)
        } else {
            Some(dir)
        }
    }
}

/// How many characters of a file name come before its extension: all of
/// them where the only dot is the first character or there is none.
pub open spec fn stem_len(name: Seq<char>) -> int {
    let dot = last_index_of(name, '.');
    if dot <= 0 {
        name.len() as int
    } else {
        dot
    }
}

/// A file name without its extension.
pub open spec fn stem_of(name: Seq<char>) -> Seq<char> {
    name.subrange(0, stem_len(name))
}

/// The path with an extension put behind the stem of its file name: what
/// follows the stem is dropped, and a dot and `ext` are added unless `ext`
/// is empty. A path that names no file stays as it is.
pub open spec fn set_extension_of(path: Seq<char>, ext: Seq<char>) -> Seq<char> {
    let t = trimmed_end(path);
    let start = last_index_of(t, '/') + 1;
    match file_name_of(path) {
        None => path,
        Some(name) => if ext.len() == 0 {
            t.subrange(0, start + stem_len(name))
        } else {
            t.subrange(0, start + stem_len(name)) + "."@ + ext
        },
    }
}

/// How many characters the extension of a file name has; none for a name
/// without an extension.
pub open spec fn extension_len(name: Seq<char>) -> Option<int> {
    if last_index_of(name, '.') <= 0 {
        None
    } else {
        Some(name.len() - last_index_of(name, '.') - 1)
    }
}

/// The path shortened at its end by as many characters as the extension
/// of its file name has.
pub open spec fn chopped(path: Seq<char>) -> Seq<char> {
    match file_name_of(path) {
        None => path,
        Some(name) => match extension_len(name) {
            None => path,
            Some(n) => path.subrange(0, path.len() - n),
        },
    }
}

/// The path with the extension of its file name replaced by `ext`: the
/// path is shortened by the length of the extension it has, and `ext` is
/// put behind the stem of what is left.
pub open spec fn with_extension_of(path: Seq<char>, ext: Seq<char>) -> Seq<char> {
    set_extension_of(chopped(path), ext)
}

/// How many characters of `s` are left once the slashes at its end, and
/// the dots that are a component of their own, are dropped.
pub fn trimmed_len(s: &[char]) -> (n: usize)
    ensures
        n <= s.len(),
        s@.subrange(0, n as int) == trimmed_end(s@),
{
    let mut n: usize = s.len();
    assert(s@.subrange(0, n as int) =~= s@);
    while n > 0 && (s[n - 1] == '/' || (n > 1 && s[n - 1] == '.' && s[n - 2] == '/'))
        invariant
            n <= s.len(),
            trimmed_end(s@) == trimmed_end(s@.subrange(0, n as int)),
        decreases n,
    {
        assert(s@.subrange(0, n as int).drop_last() =~= s@.subrange(0, n - 1));
        n -= 1;
    }
    n
}

/// The place after the last `c` among the first `n` characters of `s`, or
/// 0 where there is none.
pub fn after_last(s: &[char], n: usize, c: char) -> (k: usize)
    requires
        n <= s.len(),
    ensures
        k == last_index_of(s@.subrange(0, n as int), c) + 1,
        k <= n,
{
    let mut k: usize = n;
    assert(s@.subrange(0, n as int).subrange(0, k as int) =~= s@.subrange(0, n as int));
    while k > 0 && s[k - 1] != c
        invariant
            k <= n,
            n <= s.len(),
            last_index_of(s@.subrange(0, n as int), c) == last_index_of(
                s@.subrange(0, k as int),
                c,
            ),
        decreases k,
    {
        assert(s@.subrange(0, k as int).drop_last() =~= s@.subrange(0, k - 1));
        k -= 1;
    }
    k
}

/// `base` extended by `rel`.
pub fn join_path(base: &str, rel: &str) -> (out: String)
    ensures
        out@ == joined(base@, rel@),
{
    let b = chars_of(base);
    let r = chars_of(rel);
    let mut text: Vec<char> = Vec::new();
    if r.len() > 0 && r[0] == '/' {
        push_all(&mut text, r.as_slice());
    } else if b.len() == 0 {
        push_all(&mut text, r.as_slice());
    } else if b[b.len() - 1] == '/' {
        push_all(&mut text, b.as_slice());
        push_all(&mut text, r.as_slice());
    } else {
        push_all(&mut text, b.as_slice());
        push_str(&mut text, "/");
        push_all(&mut text, r.as_slice());
    }
    assert(text@ =~= joined(base@, rel@));
    string_of(text.as_slice())
}

/// The bounds of the last component of `p`: where it starts and where it
/// ends.
fn component_bounds(p: &[char]) -> (r: (usize, usize))
    ensures
        r.0 <= r.1 <= p.len(),
        p@.subrange(0, r.1 as int) == trimmed_end(p@),
        r.0 == last_index_of(trimmed_end(p@), '/') + 1,
        p@.subrange(r.0 as int, r.1 as int) == last_component(p@),
{
    let end = trimmed_len(p);
    let start = after_last(p, end, '/');
    assert(p@.subrange(0, end as int).subrange(start as int, end as int) =~= p@.subrange(
        start as int,
        end as int,
    ));
    (start, end)
}

/// The name of the file or directory that `path` leads to.
pub fn file_name(path: &str) -> (out: Option<String>)
    ensures
        match out {
            Some(name) => file_name_of(path@) == Some(name@),
            None => file_name_of(path@) is None,
        },
{
    let p = chars_of(path);
    let (start, end) = component_bounds(p.as_slice());
    let name = copy_range(p.as_slice(), start, end);
    if name.len() == 0 || is_str(name.as_slice(), ".") || is_str(name.as_slice(), "..") {
        None
    } else {
        Some(string_of(name.as_slice()))
    }
}

/// The directory that holds what `path` leads to.
pub fn parent_path(path: &str) -> (out: Option<String>)
    ensures
        match out {
            Some(dir) => parent_of(path@) == Some(dir@),
            None => parent_of(path@) is None,
        },
{
    let p = chars_of(path);
    let (start, end) = component_bounds(p.as_slice());
    if end == 0 {
        return None;
    }
    if start == 0 {
        return Some(String::new());
    }
    let ghost t = trimmed_end(p@);
    let head = copy_range(p.as_slice(), 0, start - 1);
    assert(head@ =~= t.subrange(0, start - 1));
    let n = trimmed_len(head.as_slice());
    if n == 0 {
        let mut root: Vec<char> = Vec::new();
        push_str(&mut root, "/");
        assert(root@ =~= "/"@);
        Some(string_of(root.as_slice()))
    } else {
        let dir = copy_range(head.as_slice(), 0, n);
        Some(string_of(dir.as_slice()))
    }
}

/// The file name of `path` without its extension.
pub fn file_stem(path: &str) -> (out: Option<String>)
    ensures
        match out {
            Some(stem) => file_name_of(path@) is Some && stem@ == stem_of(
                file_name_of(path@).unwrap(),
            ),
            None => file_name_of(path@) is None,
        },
{
    match file_name(path) {
        None => None,
        Some(name) => {
            let n = chars_of(name.as_str());
            let dot = after_last(n.as_slice(), n.len(), '.');
            assert(n@.subrange(0, n.len() as int) =~= n@);
            let len: usize = if dot <= 1 {
                n.len()
            } else {
                (dot - 1) as usize
            };
            let stem = copy_range(n.as_slice(), 0, len);
            Some(string_of(stem.as_slice()))
        },
    }
}

/// `path` with `ext` put behind the stem of its file name.
pub fn set_extension(path: &str, ext: &str) -> (out: String)
    ensures
        out@ == set_extension_of(path@, ext@),
{
    let p = chars_of(path);
    let (start, end) = component_bounds(p.as_slice());
    let name = copy_range(p.as_slice(), start, end);
    if name.len() == 0 || is_str(name.as_slice(), ".") || is_str(name.as_slice(), "..") {
        return string_of(p.as_slice());
    }
    let dot = after_last(name.as_slice(), name.len(), '.');
    assert(name@.subrange(0, name.len() as int) =~= name@);
    let len: usize = if dot <= 1 {
        name.len()
    } else {
        (dot - 1) as usize
    };
    let mut text = copy_range(p.as_slice(), 0, start + len);
    assert(text@ =~= trimmed_end(p@).subrange(0, start + len));
    let e = chars_of(ext);
    if e.len() > 0 {
        push_str(&mut text, ".");
        push_all(&mut text, e.as_slice());
    }
    string_of(text.as_slice())
}

/// `path` with the extension of its file name replaced by `ext`.
pub fn with_extension(path: &str, ext: &str) -> (out: String)
    ensures
        out@ == with_extension_of(path@, ext@),
{
    let p = chars_of(path);
    let (start, end) = component_bounds(p.as_slice());
    let name = copy_range(p.as_slice(), start, end);
    if name.len() == 0 || is_str(name.as_slice(), ".") || is_str(name.as_slice(), "..") {
        return set_extension(path, ext);
    }
    let dot = after_last(name.as_slice(), name.len(), '.');
    assert(name@.subrange(0, name.len() as int) =~= name@);
    if dot <= 1 {
        return set_extension(path, ext);
    }
    let cut: usize = name.len() - dot;
    let kept = copy_range(p.as_slice(), 0, p.len() - cut);
    let shorter = string_of(kept.as_slice());
    set_extension(shorter.as_str(), ext)
}

} // verus!
