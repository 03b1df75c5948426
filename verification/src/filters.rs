//! Path filters: which files belong to the manager itself, which are
//! operating-system litter, and which files of a tree go into an archive.

use vstd::prelude::*;
use crate::text::{
    char_views, chars_of, contains, contains_seq, contains_string, has_infix, has_prefix,
    has_suffix, lemma_filter_holds, lemma_filter_none, lemma_filter_step, lemma_split_nonempty,
    push_str, split, split_chars, views,
};

verus! {

/// The path lies in a subtree that the manager keeps for itself.
pub open spec fn is_cbp_path(path: Seq<char>) -> bool {
    ||| "bin/cbp"@.is_prefix_of(path)
    ||| "bin/zig-"@.is_prefix_of(path)
    ||| "records/"@.is_prefix_of(path)
    ||| "cache/"@.is_prefix_of(path)
    ||| "triplets/"@.is_prefix_of(path)
}

/// The path lies under a directory named `dir`, wherever in the path the
/// directory stands: `dir` holds the name with a slash behind it.
pub open spec fn is_under(path: Seq<char>, dir: Seq<char>) -> bool {
    dir.is_prefix_of(path) || contains_seq(path, "/"@ + dir)
}

/// The path names a file that an operating system or an editor leaves
/// behind.
pub open spec fn is_system_path(path: Seq<char>) -> bool {
    ||| ".DS_Store"@.is_suffix_of(path)
    ||| is_under(path, "__MACOSX/"@)
    ||| ".AppleDouble"@.is_suffix_of(path)
    ||| "._"@.is_prefix_of(split(path, '/').last())
    ||| "Thumbs.db"@.is_suffix_of(path)
    ||| "desktop.ini"@.is_suffix_of(path)
    ||| "~"@.is_suffix_of(path)
    ||| ".swp"@.is_suffix_of(path)
    ||| ".lnk"@.is_suffix_of(path)
    ||| is_under(path, "System Volume Information/"@)
}

/// The path lies in one of the documentation subtrees.
pub open spec fn is_doc_path(path: Seq<char>) -> bool {
    ||| "share/info/"@.is_prefix_of(path)
    ||| "share/man/"@.is_prefix_of(path)
    ||| "share/doc/"@.is_prefix_of(path)
    ||| "share/locale/"@.is_prefix_of(path)
}

/// The path goes into an archive: it is no litter and, with `cleanup`, no
/// documentation.
pub open spec fn is_member_path(path: Seq<char>, cleanup: bool) -> bool {
    !is_system_path(path) && !(cleanup && is_doc_path(path))
}

/// The test of [`is_member_path`] for a fixed `cleanup`.
pub open spec fn member_test(cleanup: bool) -> spec_fn(Seq<char>) -> bool {
    |path: Seq<char>| is_member_path(path, cleanup)
}

/// The path is owned by no package: it is not the manager's, no litter, and
/// not among `known`.
pub open spec fn is_unmanaged_path(path: Seq<char>, known: Seq<Seq<char>>) -> bool {
    !is_cbp_path(path) && !is_system_path(path) && !known.contains(path)
}

/// The test of [`is_unmanaged_path`] for a fixed `known`.
pub open spec fn unmanaged_test(known: Seq<Seq<char>>) -> spec_fn(Seq<char>) -> bool {
    |path: Seq<char>| is_unmanaged_path(path, known)
}

/// Some pattern of `patterns` occurs in `line`.
pub open spec fn is_ignored(line: Seq<char>, patterns: Seq<Seq<char>>) -> bool {
    exists|i: int| 0 <= i < patterns.len() && contains_seq(line, #[trigger] patterns[i])
}

/// Whether the file belongs to the manager itself.
pub fn is_cbp_file(path: &str) -> (r: bool)
    ensures
        r == is_cbp_path(path@),
{
    let p = chars_of(path);
    has_prefix(p.as_slice(), "bin/cbp") || has_prefix(p.as_slice(), "bin/zig-") || has_prefix(
        p.as_slice(),
        "records/",
    ) || has_prefix(p.as_slice(), "cache/") || has_prefix(p.as_slice(), "triplets/")
}

/// Whether the path lies under a directory of the given name, which is
/// written with a slash behind it.
pub fn lies_under(path: &[char], dir: &str) -> (r: bool)
    ensures
        r == is_under(path@, dir@),
{
    if has_prefix(path, dir) {
        return true;
    }
    let mut inner: Vec<char> = Vec::new();
    push_str(&mut inner, "/");
    push_str(&mut inner, dir);
    contains(path, inner.as_slice())
}

/// Whether the file is operating-system litter.
pub fn is_system_file(path: &str) -> (r: bool)
    ensures
        r == is_system_path(path@),
{
    let p = chars_of(path);
    let parts = split_chars(p.as_slice(), '/');
    proof {
        lemma_split_nonempty(p@, '/');
    }
    let name = &parts[parts.len() - 1];
    assert(name@ == char_views(parts@).last());
    has_suffix(p.as_slice(), ".DS_Store") || lies_under(p.as_slice(), "__MACOSX/") || has_suffix(
        p.as_slice(),
        ".AppleDouble",
    ) || has_prefix(name.as_slice(), "._") || has_suffix(p.as_slice(), "Thumbs.db") || has_suffix(
        p.as_slice(),
        "desktop.ini",
    ) || has_suffix(p.as_slice(), "~") || has_suffix(p.as_slice(), ".swp") || has_suffix(
        p.as_slice(),
        ".lnk",
    ) || lies_under(p.as_slice(), "System Volume Information/")
}

/// Whether the file lies in a documentation subtree.
pub fn is_doc_file(path: &str) -> (r: bool)
    ensures
        r == is_doc_path(path@),
{
    let p = chars_of(path);
    has_prefix(p.as_slice(), "share/info/") || has_prefix(p.as_slice(), "share/man/")
        || has_prefix(p.as_slice(), "share/doc/") || has_prefix(p.as_slice(), "share/locale/")
}

/// Whether a file of a tree goes into the archive of the tree.
pub fn is_member_file(path: &str, cleanup: bool) -> (r: bool)
    ensures
        r == is_member_path(path@, cleanup),
{
    !is_system_file(path) && !(cleanup && is_doc_file(path))
}

/// The files of a tree that go into its archive, in the order given: all
/// but litter and, with `cleanup`, documentation.
pub fn archive_members(files: &Vec<String>, cleanup: bool) -> (out: Vec<String>)
    ensures
        views(out@) == views(files@).filter(member_test(cleanup)),
{
    let mut out: Vec<String> = Vec::new();
    let mut i: usize = 0;
    proof {
        lemma_filter_none(views(files@), member_test(cleanup));
    }
    while i < files.len()
        invariant
            i <= files.len(),
            views(out@) == views(files@).take(i as int).filter(member_test(cleanup)),
        decreases files.len() - i,
    {
        proof {
            lemma_filter_step(views(files@), i as int, member_test(cleanup));
        }
        let path = &files[i];
        if !is_system_file(path.as_str()) && !(cleanup && is_doc_file(path.as_str())) {
            let ghost before = views(out@);
            out.push(path.clone());
            assert(views(out@) =~= before.push(path@));
        }
        i += 1;
    }
    assert(views(files@).take(files.len() as int) =~= views(files@));
    out
}

/// The files under the installation root that no package owns, in the
/// order given.
pub fn unmanaged_files(all_files: &Vec<String>, known_files: &Vec<String>) -> (out: Vec<String>)
    ensures
        views(out@) == views(all_files@).filter(unmanaged_test(views(known_files@))),
{
    let mut out: Vec<String> = Vec::new();
    let mut i: usize = 0;
    let ghost test = unmanaged_test(views(known_files@));
    proof {
        lemma_filter_none(views(all_files@), test);
    }
    while i < all_files.len()
        invariant
            i <= all_files.len(),
            test == unmanaged_test(views(known_files@)),
            views(out@) == views(all_files@).take(i as int).filter(test),
        decreases all_files.len() - i,
    {
        proof {
            lemma_filter_step(views(all_files@), i as int, test);
        }
        let path = &all_files[i];
        if !is_cbp_file(path.as_str()) && !is_system_file(path.as_str()) && !contains_string(
            known_files,
            path.as_str(),
        ) {
            let ghost before = views(out@);
            out.push(path.clone());
            assert(views(out@) =~= before.push(path@));
        }
        i += 1;
    }
    assert(views(all_files@).take(all_files.len() as int) =~= views(all_files@));
    out
}

/// Whether a line of a file list is dropped because one of the ignore
/// patterns occurs in it.
pub fn should_skip_file(line: &str, ignore_patterns: &Vec<String>) -> (r: bool)
    ensures
        r == is_ignored(line@, views(ignore_patterns@)),
{
    let l = chars_of(line);
    let mut i: usize = 0;
    while i < ignore_patterns.len()
        invariant
            i <= ignore_patterns.len(),
            l@ == line@,
            forall|j: int| 0 <= j < i ==> !contains_seq(line@, #[trigger] views(ignore_patterns@)[j]),
        decreases ignore_patterns.len() - i,
    {
        if has_infix(l.as_slice(), ignore_patterns[i].as_str()) {
            assert(contains_seq(line@, views(ignore_patterns@)[i as int]));
            return true;
        }
        i += 1;
    }
    false
}

/// What goes into an archive is the tree up to its filters: a path is
/// among the members exactly if it is among the files of the tree, is no
/// litter and, with `cleanup`, no documentation; and the members stand in
/// the order of the files.
pub proof fn law_members_are_the_filtered_tree(files: Seq<Seq<char>>, cleanup: bool)
    ensures
        forall|path: Seq<char>|
            #[trigger] files.filter(member_test(cleanup)).contains(path) <==> files.contains(path)
                && is_member_path(path, cleanup),
        files.filter(member_test(cleanup)).len() <= files.len(),
{
    lemma_filter_holds(files, member_test(cleanup));
    files.lemma_filter_len(member_test(cleanup));
}

} // verus!
