//! Looks files up by shell patterns. The patterns are those of the `glob`
//! crate, which compiles and applies them; which of the given paths are
//! kept, and in what order, is decided here.

use vstd::prelude::*;
use crate::order::{sort_strings, sorted};
use crate::text::{chars_of, is_portable, string_of, views};

verus! {

/// The error that the `glob` crate gives for a pattern it cannot compile.
#[verifier::external_type_specification]
#[verifier::external_body]
pub struct ExPatternError(glob::PatternError);

/// Whether `glob` compiles the pattern, on text without backslashes.
pub uninterp spec fn glob_compiles(pattern: Seq<char>) -> bool;

/// Whether the pattern, once compiled, matches the whole of `text`, on
/// text without backslashes.
pub uninterp spec fn glob_accepts(pattern: Seq<char>, text: Seq<char>) -> bool;

/// A pattern that could not be compiled.
#[derive(Debug, Clone)]
pub struct InvalidPattern {
    /// Roughly the index of the character at which compiling stopped.
    pub pos: usize,
    /// What is wrong with the pattern.
    pub message: String,
}

/// Compiles a pattern with `glob::Pattern::new` and applies it with
/// `glob::Pattern::matches`, under the default options. Whether the
/// pattern compiles depends on its text alone, and the answer on pattern
/// and text alone, as long as they hold no backslash: only there does
/// `glob` follow the platform. Neither call panics.
#[verifier::external_body]
fn glob_match(pattern: &str, text: &str) -> (r: Result<bool, glob::PatternError>)
    ensures
        is_portable(pattern@) ==> (r is Ok <==> glob_compiles(pattern@)),
        r matches Ok(hit) ==> (is_portable(pattern@) && is_portable(text@) ==> hit
            == glob_accepts(pattern@, text@)),
{
    Ok(glob::Pattern::new(pattern)?.matches(text))
}

/// Hands out the two public fields of `glob::PatternError`.
#[verifier::external_body]
fn describe(error: glob::PatternError) -> (out: InvalidPattern) {
    InvalidPattern { pos: error.pos, message: error.msg.to_string() }
}

/// The test for a text that `pattern` accepts.
pub open spec fn accept_test(pattern: Seq<char>) -> spec_fn(Seq<char>) -> bool {
    |text: Seq<char>| glob_accepts(pattern, text)
}

/// All of `texts` are portable.
pub open spec fn all_portable(texts: Seq<Seq<char>>) -> bool {
    forall|i: int| 0 <= i < texts.len() ==> is_portable(#[trigger] texts[i])
}

/// `marks` tells of each of `texts` whether `pattern` accepts it, as far
/// as pattern and text are portable.
pub open spec fn marks_follow(
    marks: Seq<bool>,
    pattern: Seq<char>,
    texts: Seq<Seq<char>>,
) -> bool {
    &&& marks.len() == texts.len()
    &&& forall|i: int|
        0 <= i < texts.len() && is_portable(pattern) && is_portable(#[trigger] texts[i])
            ==> marks[i] == glob_accepts(pattern, texts[i])
}

/// Those of `texts` whose mark is set, in order; none where there is not
/// one mark for each text.
pub open spec fn marked(texts: Seq<Seq<char>>, marks: Seq<bool>) -> Seq<Seq<char>>
    recommends
        marks.len() == texts.len(),
    decreases texts.len(),
{
    if texts.len() == 0 || marks.len() != texts.len() {
        Seq::empty()
    } else if marks.last() {
        marked(texts.drop_last(), marks.drop_last()).push(texts.last())
    } else {
        marked(texts.drop_last(), marks.drop_last())
    }
}

/// Where all marks follow a test, the marked texts are the filtered ones.
pub proof fn lemma_marked_is_filter(
    texts: Seq<Seq<char>>,
    marks: Seq<bool>,
    test: spec_fn(Seq<char>) -> bool,
)
    requires
        marks.len() == texts.len(),
        forall|i: int| 0 <= i < texts.len() ==> marks[i] == test(#[trigger] texts[i]),
    ensures
        marked(texts, marks) == texts.filter(test),
    decreases texts.len(),
{
    reveal(Seq::filter);
    if texts.len() > 0 {
        lemma_marked_is_filter(texts.drop_last(), marks.drop_last(), test);
    }
}

/// For each of `texts`, whether the pattern matches it. An error where
/// the pattern does not compile.
pub fn match_marks(texts: &Vec<String>, pattern: &str) -> (r: Result<Vec<bool>, InvalidPattern>)
    ensures
        is_portable(pattern@) ==> (r is Ok <==> glob_compiles(pattern@)),
        r matches Ok(marks) ==> marks_follow(marks@, pattern@, views(texts@)),
{
    match glob_match(pattern, "") {
        Err(e) => {
            return Err(describe(e));
        },
        Ok(_) => {},
    }
    let mut marks: Vec<bool> = Vec::new();
    let mut i: usize = 0;
    while i < texts.len()
        invariant
            i <= texts.len(),
            is_portable(pattern@) ==> glob_compiles(pattern@),
            marks_follow(marks@, pattern@, views(texts@).take(i as int)),
        decreases texts.len() - i,
    {
        match glob_match(pattern, texts[i].as_str()) {
            Err(e) => {
                return Err(describe(e));
            },
            Ok(hit) => {
                marks.push(hit);
            },
        }
        i += 1;
    }
    assert(views(texts@).take(texts.len() as int) =~= views(texts@));
    Ok(marks)
}

/// Those of `texts` whose mark is set, in order; none where there is not
/// one mark for each text.
pub fn select_marked(texts: &Vec<String>, marks: &Vec<bool>) -> (out: Vec<String>)
    ensures
        views(out@) == marked(views(texts@), marks@),
{
    let mut out: Vec<String> = Vec::new();
    if marks.len() != texts.len() {
        assert(views(out@) =~= Seq::<Seq<char>>::empty());
        return out;
    }
    let mut i: usize = 0;
    assert(views(out@) =~= marked(views(texts@).take(0), marks@.take(0)));
    while i < texts.len()
        invariant
            i <= texts.len(),
            marks.len() == texts.len(),
            views(out@) == marked(views(texts@).take(i as int), marks@.take(i as int)),
        decreases texts.len() - i,
    {
        proof {
            assert(views(texts@).take(i + 1).drop_last() =~= views(texts@).take(i as int));
            assert(marks@.take(i + 1).drop_last() =~= marks@.take(i as int));
            assert(views(texts@).take(i + 1).last() == texts[i as int]@);
        }
        if marks[i] {
            let ghost before = views(out@);
            out.push(texts[i].clone());
            assert(views(out@) =~= before.push(texts[i as int]@));
        }
        i += 1;
    }
    assert(views(texts@).take(texts.len() as int) =~= views(texts@));
    assert(marks@.take(marks.len() as int) =~= marks@);
    out
}

/// The paths, relative to the base directory, that the pattern matches,
/// in the order in which the tree was walked. An error where the pattern
/// does not compile. On portable input the result is the given paths
/// filtered by the pattern; on any input it is a selection of them.
pub fn match_files(rel_paths: &Vec<String>, pattern_str: &str) -> (r: Result<
    Vec<String>,
    InvalidPattern,
>)
    ensures
        is_portable(pattern_str@) ==> (r is Ok <==> glob_compiles(pattern_str@)),
        r matches Ok(found) ==> exists|marks: Seq<bool>|
            marks_follow(marks, pattern_str@, views(rel_paths@)) && views(found@) == marked(
                views(rel_paths@),
                marks,
            ),
        r matches Ok(found) ==> (is_portable(pattern_str@) && all_portable(views(rel_paths@))
            ==> views(found@) == views(rel_paths@).filter(accept_test(pattern_str@))),
{
    match match_marks(rel_paths, pattern_str) {
        Err(e) => Err(e),
        Ok(marks) => {
            let found = select_marked(rel_paths, &marks);
            proof {
                if is_portable(pattern_str@) && all_portable(views(rel_paths@)) {
                    lemma_marked_is_filter(views(rel_paths@), marks@, accept_test(pattern_str@));
                }
            }
            Ok(found)
        },
    }
}

/// What an entry of a directory tree is.
#[derive(Debug, Clone, Copy, PartialEq, Eq, Structural)]
pub enum EntryKind {
    File,
    Symlink,
    Directory,
    Other,
}

/// One entry met while a directory tree is walked.
#[derive(Debug)]
pub struct TreeEntry {
    /// Path relative to the directory that is walked.
    pub path: String,
    /// The last component of the path.
    pub name: String,
    /// What stands there; links are not followed.
    pub kind: EntryKind,
}

/// The path with a slash for every backslash.
pub open spec fn slashed(path: Seq<char>) -> Seq<char> {
    Seq::new(
        path.len(),
        |i: int|
            if path[i] == '\\' {
                '/'
            } else {
                path[i]
            },
    )
}

/// An entry is listed if it is a link, or a file whose name the pattern
/// accepts.
pub open spec fn is_listed(kind: EntryKind, hit: bool) -> bool {
    kind is Symlink || (kind is File && hit)
}

/// The paths of the entries that are listed, given for each entry whether
/// the pattern accepts its name; in the order of the entries.
pub open spec fn listing(entries: Seq<TreeEntry>, hits: Seq<bool>) -> Seq<Seq<char>>
    recommends
        hits.len() == entries.len(),
    decreases entries.len(),
{
    if entries.len() == 0 || hits.len() != entries.len() {
        Seq::empty()
    } else if is_listed(entries.last().kind, hits.last()) {
        listing(entries.drop_last(), hits.drop_last()).push(slashed(entries.last().path@))
    } else {
        listing(entries.drop_last(), hits.drop_last())
    }
}

/// For each entry, whether the pattern compiles and accepts its name.
pub open spec fn hits_of(entries: Seq<TreeEntry>, pattern: Seq<char>) -> Seq<bool> {
    Seq::new(
        entries.len(),
        |i: int| glob_compiles(pattern) && glob_accepts(pattern, entries[i].name@),
    )
}

/// The names of all entries are portable.
pub open spec fn names_portable(entries: Seq<TreeEntry>) -> bool {
    forall|i: int| 0 <= i < entries.len() ==> is_portable((#[trigger] entries[i]).name@)
}

/// The pattern that is meant where none is given.
pub open spec fn pattern_or_any(pattern: Option<&str>) -> Seq<char> {
    match pattern {
        Some(p) => p@,
        None => "*"@,
    }
}

/// The path with a slash for every backslash.
pub fn to_slashes(path: &str) -> (out: String)
    ensures
        out@ == slashed(path@),
{
    let p = chars_of(path);
    let mut text: Vec<char> = Vec::new();
    let mut i: usize = 0;
    while i < p.len()
        invariant
            i <= p.len(),
            text.len() == i,
            forall|j: int| 0 <= j < i ==> text@[j] == slashed(p@)[j],
        decreases p.len() - i,
    {
        text.push(
            if p[i] == '\\' {
                '/'
            } else {
                p[i]
            },
        );
        i += 1;
    }
    assert(text@ =~= slashed(path@));
    string_of(text.as_slice())
}

/// The files and links of a directory tree, as sorted relative paths with
/// forward slashes. Links are always listed; a file is listed if the
/// pattern, or `*` where none is given, accepts its name; a pattern that
/// does not compile accepts none. On portable input the result holds
/// exactly the listed paths.
pub fn find_files(entries: &Vec<TreeEntry>, pattern: Option<&str>) -> (out: Vec<String>)
    ensures
        sorted(views(out@)),
        is_portable(pattern_or_any(pattern)) && names_portable(entries@) ==> views(
            out@,
        ).to_multiset() == listing(entries@, hits_of(entries@, pattern_or_any(pattern))).to_multiset(),
{
    let pattern_str = match pattern {
        Some(p) => p,
        None => "*",
    };
    let ghost portable = is_portable(pattern_or_any(pattern)) && names_portable(entries@);
    let ghost hits = hits_of(entries@, pattern_or_any(pattern));
    let mut found: Vec<String> = Vec::new();
    let mut i: usize = 0;
    assert(entries@.take(0) =~= Seq::<TreeEntry>::empty());
    assert(views(found@) =~= Seq::<Seq<char>>::empty());
    while i < entries.len()
        invariant
            i <= entries.len(),
            pattern_str@ == pattern_or_any(pattern),
            portable == (is_portable(pattern_or_any(pattern)) && names_portable(entries@)),
            hits == hits_of(entries@, pattern_or_any(pattern)),
            portable ==> views(found@) == listing(entries@.take(i as int), hits.take(i as int)),
        decreases entries.len() - i,
    {
        proof {
            assert(entries@.take(i + 1).drop_last() =~= entries@.take(i as int));
            assert(hits.take(i + 1).drop_last() =~= hits.take(i as int));
            assert(entries@.take(i + 1).last() == entries@[i as int]);
            assert(hits.take(i + 1).last() == hits[i as int]);
        }
        let entry = &entries[i];
        let listed = match entry.kind {
            EntryKind::Symlink => true,
            EntryKind::File => match glob_match(pattern_str, entry.name.as_str()) {
                Ok(hit) => hit,
                Err(_) => false,
            },
            _ => false,
        };
        proof {
            if portable {
                assert(is_portable(entries@[i as int].name@));
                assert(listed == is_listed(entry.kind, hits[i as int]));
            }
        }
        if listed {
            let ghost before = views(found@);
            found.push(to_slashes(entry.path.as_str()));
            assert(views(found@) =~= before.push(slashed(entry.path@)));
        }
        i += 1;
    }
    assert(entries@.take(entries.len() as int) =~= entries@);
    assert(hits.take(entries.len() as int) =~= hits);
    sort_strings(&found)
}

} // verus!
