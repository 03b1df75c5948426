//! The manifest of an installed package: the list of the paths it owns,
//! one per line, kept under `records/` as `<package>.files`.

use vstd::prelude::*;
use crate::filters::{is_system_file, is_system_path};
use crate::text::{
    char_views, chars_of, copy_range, has_suffix, lemma_filter_none, lemma_filter_step, lines,
    lines_chars, push_str, string_of, strings_of, views,
};

verus! {

/// Ending of the name of a manifest file.
pub const RECORD_SUFFIX: &'static str = ".files";

/// The text of a manifest: each path followed by a line feed.
pub open spec fn manifest_of(paths: Seq<Seq<char>>) -> Seq<char>
    decreases paths.len(),
{
    if paths.len() == 0 {
        Seq::empty()
    } else {
        manifest_of(paths.drop_last()) + paths.last() + "\n"@
    }
}

/// The test for a line that names something.
pub open spec fn named() -> spec_fn(Seq<char>) -> bool {
    |line: Seq<char>| line.len() > 0
}

/// The paths that a manifest lists: its lines that are not empty.
pub open spec fn entries_of(text: Seq<char>) -> Seq<Seq<char>> {
    lines(text).filter(named())
}

/// The name of the manifest file of a package.
pub open spec fn record_name_of(package: Seq<char>) -> Seq<char> {
    package + RECORD_SUFFIX@
}

/// The file is the manifest of a package: it ends in `.files` and is no
/// operating-system litter.
pub open spec fn is_record(file: Seq<char>) -> bool {
    !is_system_path(file) && RECORD_SUFFIX@.is_suffix_of(file)
}

/// The test of [`is_record`].
pub open spec fn record_test() -> spec_fn(Seq<char>) -> bool {
    |file: Seq<char>| is_record(file)
}

/// The name of a manifest file without its ending.
pub open spec fn record_stem() -> spec_fn(Seq<char>) -> Seq<char> {
    |file: Seq<char>| file.subrange(0, file.len() - RECORD_SUFFIX@.len())
}

/// The packages whose manifests are among `files`, in the order given.
pub open spec fn packages_of(files: Seq<Seq<char>>) -> Seq<Seq<char>> {
    files.filter(record_test()).map_values(record_stem())
}

/// All lines of all of `texts`, in order.
pub open spec fn declared_in(texts: Seq<Seq<char>>) -> Seq<Seq<char>>
    decreases texts.len(),
{
    if texts.len() == 0 {
        Seq::empty()
    } else {
        declared_in(texts.drop_last()) + lines(texts.last())
    }
}

/// The text of the manifest that lists `paths`.
pub fn manifest_text(paths: &Vec<String>) -> (out: String)
    ensures
        out@ == manifest_of(views(paths@)),
{
    let mut text: Vec<char> = Vec::new();
    let mut i: usize = 0;
    assert(views(paths@).take(0) =~= Seq::<Seq<char>>::empty());
    while i < paths.len()
        invariant
            i <= paths.len(),
            text@ == manifest_of(views(paths@).take(i as int)),
        decreases paths.len() - i,
    {
        proof {
            assert(views(paths@).take(i + 1).drop_last() =~= views(paths@).take(i as int));
            assert(views(paths@).take(i + 1).last() == paths[i as int]@);
        }
        push_str(&mut text, paths[i].as_str());
        push_str(&mut text, "\n");
        i += 1;
    }
    assert(views(paths@).take(paths.len() as int) =~= views(paths@));
    string_of(text.as_slice())
}

/// The paths that the manifest `text` lists, in order.
pub fn manifest_entries(text: &str) -> (out: Vec<String>)
    ensures
        views(out@) == entries_of(text@),
{
    let chars = chars_of(text);
    let all = lines_chars(chars.as_slice());
    let mut kept: Vec<Vec<char>> = Vec::new();
    let mut i: usize = 0;
    proof {
        lemma_filter_none(char_views(all@), named());
    }
    assert(char_views(kept@) =~= Seq::<Seq<char>>::empty());
    while i < all.len()
        invariant
            i <= all.len(),
            char_views(kept@) == char_views(all@).take(i as int).filter(named()),
        decreases all.len() - i,
    {
        proof {
            lemma_filter_step(char_views(all@), i as int, named());
        }
        if all[i].len() > 0 {
            let ghost before = char_views(kept@);
            let line = copy_range(all[i].as_slice(), 0, all[i].len());
            assert(line@ =~= all[i as int]@);
            kept.push(line);
            assert(char_views(kept@) =~= before.push(all[i as int]@));
        }
        i += 1;
    }
    assert(char_views(all@).take(all.len() as int) =~= char_views(all@));
    strings_of(&kept)
}

/// The name of the manifest file of `package`.
pub fn record_name(package: &str) -> (out: String)
    ensures
        out@ == record_name_of(package@),
{
    let mut text: Vec<char> = Vec::new();
    push_str(&mut text, package);
    push_str(&mut text, RECORD_SUFFIX);
    assert(text@ =~= record_name_of(package@));
    string_of(text.as_slice())
}

/// The packages whose manifests are among the files of the records
/// directory, in the order given.
pub fn installed_packages(files: &Vec<String>) -> (out: Vec<String>)
    ensures
        views(out@) == packages_of(views(files@)),
{
    let suffix = chars_of(RECORD_SUFFIX);
    let mut out: Vec<String> = Vec::new();
    let mut i: usize = 0;
    proof {
        lemma_filter_none(views(files@), record_test());
    }
    assert(views(out@) =~= Seq::<Seq<char>>::empty().map_values(record_stem()));
    while i < files.len()
        invariant
            i <= files.len(),
            suffix@ == RECORD_SUFFIX@,
            views(out@) == views(files@).take(i as int).filter(record_test()).map_values(
                record_stem(),
            ),
        decreases files.len() - i,
    {
        proof {
            lemma_filter_step(views(files@), i as int, record_test());
        }
        let file = chars_of(files[i].as_str());
        if !is_system_file(files[i].as_str()) && has_suffix(file.as_slice(), RECORD_SUFFIX) {
            let ghost before = views(out@);
            let ghost records = views(files@).take(i as int).filter(record_test());
            let stem = copy_range(file.as_slice(), 0, file.len() - suffix.len());
            out.push(string_of(stem.as_slice()));
            assert(views(out@) =~= before.push(stem@));
            assert(records.push(file@).map_values(record_stem()) =~= records.map_values(
                record_stem(),
            ).push(stem@));
        }
        i += 1;
    }
    assert(views(files@).take(files.len() as int) =~= views(files@));
    out
}

/// All lines of all manifests `texts`: the files that some package owns.
pub fn declared_files(texts: &Vec<String>) -> (out: Vec<String>)
    ensures
        views(out@) == declared_in(views(texts@)),
{
    let mut out: Vec<String> = Vec::new();
    let mut i: usize = 0;
    assert(views(texts@).take(0) =~= Seq::<Seq<char>>::empty());
    assert(views(out@) =~= Seq::<Seq<char>>::empty());
    while i < texts.len()
        invariant
            i <= texts.len(),
            views(out@) == declared_in(views(texts@).take(i as int)),
        decreases texts.len() - i,
    {
        proof {
            assert(views(texts@).take(i + 1).drop_last() =~= views(texts@).take(i as int));
            assert(views(texts@).take(i + 1).last() == texts[i as int]@);
        }
        let chars = chars_of(texts[i].as_str());
        let found = lines_chars(chars.as_slice());
        let mut more = strings_of(&found);
        let ghost before = views(out@);
        let ghost added = views(more@);
        out.append(&mut more);
        assert(views(out@) =~= before + added);
        i += 1;
    }
    assert(views(texts@).take(texts.len() as int) =~= views(texts@));
    out
}

} // verus!
