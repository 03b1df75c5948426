//! Where a collected file goes inside the archive, under which further
//! names it is copied, and how the archive is named.

use vstd::prelude::*;
use crate::filters::{is_ignored, should_skip_file};
use crate::paths::{
    file_name, file_name_of, file_stem, join_path, joined, parent_of, parent_path, stem_of,
    with_extension, with_extension_of,
};
use crate::text::{
    char_views, chars_of, is_str, join, join_chars, lemma_filter_none, lemma_filter_step,
    lemma_split_nonempty, push_all, push_str, same_chars, split, split_chars, string_of, views,
};

verus! {

/// Ending of every archive that the manager builds.
pub const ARCHIVE_SUFFIX: &'static str = ".tar.gz";

/// The components of a line of a file list; a list in the style of vcpkg
/// names the triplet first, which is dropped. None where nothing is left.
pub open spec fn parts_of(line: Seq<char>, is_vcpkg: bool) -> Option<Seq<Seq<char>>> {
    let all = split(line, '/');
    let parts = if is_vcpkg {
        all.skip(1)
    } else {
        all
    };
    if parts.len() == 0 {
        None
    } else {
        Some(parts)
    }
}

/// The file belongs to the tools of its package: its first component is
/// `tools` or `bin`.
pub open spec fn is_tool(parts: Seq<Seq<char>>) -> bool {
    parts.len() > 0 && (parts[0] == "tools"@ || parts[0] == "bin"@)
}

/// The path of a file inside the archive: a file under `tools` goes to
/// `bin/` under its own name, and so does every file in mode `bin`; in
/// mode `font` every file goes to `share/fonts/`; any other file keeps its
/// path. Without components there is no path.
pub open spec fn relative_path_of(parts: Seq<Seq<char>>, mode: Seq<char>) -> Seq<char> {
    if parts.len() == 0 {
        Seq::empty()
    } else if parts[0] == "tools"@ {
        "bin/"@ + parts.last()
    } else if mode == "bin"@ {
        "bin/"@ + parts.last()
    } else if mode == "font"@ {
        "share/fonts/"@ + parts.last()
    } else {
        join(parts, "/"@)
    }
}

/// Where a collected file goes and whether it is one of the tools.
#[derive(Debug)]
pub struct Placement {
    /// Path inside the archive.
    pub dest: String,
    /// The file is made executable, and renamed if it is a Windows program.
    pub tool: bool,
}

/// The components of a line of a file list.
pub fn get_path_parts(line: &str, is_vcpkg: bool) -> (out: Option<Vec<String>>)
    ensures
        match out {
            Some(parts) => parts_of(line@, is_vcpkg) == Some(views(parts@)),
            None => parts_of(line@, is_vcpkg) is None,
        },
{
    let l = chars_of(line);
    let all = split_chars(l.as_slice(), '/');
    let first: usize = if is_vcpkg {
        1
    } else {
        0
    };
    proof {
        lemma_split_nonempty(line@, '/');
    }
    let mut parts: Vec<String> = Vec::new();
    let mut i: usize = first;
    while i < all.len()
        invariant
            first <= i <= all.len(),
            views(parts@) == char_views(all@).subrange(first as int, i as int),
        decreases all.len() - i,
    {
        let ghost before = views(parts@);
        parts.push(string_of(all[i].as_slice()));
        i += 1;
        assert(views(parts@) =~= before.push(all[i - 1]@));
        assert(char_views(all@).subrange(first as int, i as int) =~= char_views(all@).subrange(
            first as int,
            i - 1,
        ).push(all[i - 1]@));
    }
    assert(char_views(all@).subrange(0, all.len() as int) =~= char_views(all@));
    if parts.len() == 0 {
        None
    } else {
        Some(parts)
    }
}

/// The path of a collected file inside the archive.
pub fn get_relative_path(parts: &Vec<String>, mode: &str) -> (out: String)
    ensures
        out@ == relative_path_of(views(parts@), mode@),
{
    if parts.len() == 0 {
        return String::new();
    }
    let first = chars_of(parts[0].as_str());
    let last = chars_of(parts[parts.len() - 1].as_str());
    let m = chars_of(mode);
    let mut text: Vec<char> = Vec::new();
    assert(views(parts@)[0] == first@);
    assert(views(parts@).last() == last@);
    if is_str(first.as_slice(), "tools") || is_str(m.as_slice(), "bin") {
        push_str(&mut text, "bin/");
        push_all(&mut text, last.as_slice());
        assert(text@ =~= "bin/"@ + last@);
    } else if is_str(m.as_slice(), "font") {
        push_str(&mut text, "share/fonts/");
        push_all(&mut text, last.as_slice());
        assert(text@ =~= "share/fonts/"@ + last@);
    } else {
        let mut pieces: Vec<Vec<char>> = Vec::new();
        let mut i: usize = 0;
        while i < parts.len()
            invariant
                i <= parts.len(),
                char_views(pieces@) == views(parts@).take(i as int),
            decreases parts.len() - i,
        {
            let ghost before = char_views(pieces@);
            pieces.push(chars_of(parts[i].as_str()));
            i += 1;
            assert(char_views(pieces@) =~= before.push(parts[i - 1]@));
            assert(views(parts@).take(i as int) =~= views(parts@).take(i - 1).push(
                parts[i - 1]@,
            ));
        }
        assert(views(parts@).take(parts.len() as int) =~= views(parts@));
        let slash = chars_of("/");
        text = join_chars(&pieces, slash.as_slice());
    }
    string_of(text.as_slice())
}

/// Whether a file with these components is one of the tools.
pub fn is_tool_file(parts: &Vec<String>) -> (r: bool)
    ensures
        r == is_tool(views(parts@)),
{
    if parts.len() == 0 {
        return false;
    }
    let first = chars_of(parts[0].as_str());
    assert(views(parts@)[0] == first@);
    is_str(first.as_slice(), "tools") || is_str(first.as_slice(), "bin")
}

/// Where the file named on a line of the file list goes. None for a line
/// that an ignore pattern drops and for a line without components.
pub fn place_file(line: &str, mode: &str, is_vcpkg: bool, ignore_patterns: &Vec<String>) -> (out:
    Option<Placement>)
    ensures
        match out {
            Some(p) => {
                &&& !is_ignored(line@, views(ignore_patterns@))
                &&& parts_of(line@, is_vcpkg) is Some
                &&& p.dest@ == relative_path_of(parts_of(line@, is_vcpkg).unwrap(), mode@)
                &&& p.tool == is_tool(parts_of(line@, is_vcpkg).unwrap())
            },
            None => is_ignored(line@, views(ignore_patterns@)) || parts_of(line@, is_vcpkg)
                is None,
        },
{
    if should_skip_file(line, ignore_patterns) {
        return None;
    }
    match get_path_parts(line, is_vcpkg) {
        None => None,
        Some(parts) => {
            let dest = get_relative_path(&parts, mode);
            let tool = is_tool_file(&parts);
            Some(Placement { dest, tool })
        },
    }
}

/// The name that a Windows program gets: its path with the extension
/// `exe`. None where the path has that form already.
pub fn exe_destination(dest: &str) -> (out: Option<String>)
    ensures
        match out {
            Some(path) => path@ == with_extension_of(dest@, "exe"@) && path@ != dest@,
            None => with_extension_of(dest@, "exe"@) == dest@,
        },
{
    let renamed = with_extension(dest, "exe");
    let a = chars_of(renamed.as_str());
    let b = chars_of(dest);
    if same_chars(a.as_slice(), b.as_slice()) {
        None
    } else {
        Some(renamed)
    }
}

/// The alias that the pair `source=alias` gives to the file `name`, if it
/// speaks of that file.
pub open spec fn alias_of(pair: Seq<char>, name: Seq<char>) -> Option<Seq<char>> {
    let sides = split(pair, '=');
    if sides.len() == 2 && sides[0] == name {
        Some(sides[1])
    } else {
        None
    }
}

/// The test for a pair that gives `name` an alias.
pub open spec fn alias_test(name: Seq<char>) -> spec_fn(Seq<char>) -> bool {
    |pair: Seq<char>| alias_of(pair, name) is Some
}

/// The alias that a pair gives to `name`.
pub open spec fn alias_pick(name: Seq<char>) -> spec_fn(Seq<char>) -> Seq<char> {
    |pair: Seq<char>| alias_of(pair, name).unwrap()
}

/// The aliases that `pairs` give to the file `name`, in order.
pub open spec fn aliases_of(pairs: Seq<Seq<char>>, name: Seq<char>) -> Seq<Seq<char>> {
    pairs.filter(alias_test(name)).map_values(alias_pick(name))
}

/// The path of a name in the directory `dir`.
pub open spec fn in_dir(dir: Seq<char>) -> spec_fn(Seq<char>) -> Seq<char> {
    |name: Seq<char>| joined(dir, name)
}

/// The paths under which a placed file is copied once more: its aliases,
/// each in the directory of the file. None for a path without a file name.
pub open spec fn alias_paths_of(dest: Seq<char>, pairs: Seq<Seq<char>>) -> Seq<Seq<char>> {
    match (file_name_of(dest), parent_of(dest)) {
        (Some(name), Some(dir)) => aliases_of(pairs, name).map_values(in_dir(dir)),
        _ => Seq::empty(),
    }
}

/// The further names of the file `name` that the pairs `source=alias`
/// ask for, in the order of the pairs.
pub fn alias_names(name: &str, pairs: &Vec<String>) -> (out: Vec<String>)
    ensures
        views(out@) == aliases_of(views(pairs@), name@),
{
    let wanted = chars_of(name);
    let mut out: Vec<String> = Vec::new();
    let mut i: usize = 0;
    proof {
        lemma_filter_none(views(pairs@), alias_test(name@));
    }
    assert(views(out@) =~= Seq::<Seq<char>>::empty().map_values(alias_pick(name@)));
    while i < pairs.len()
        invariant
            i <= pairs.len(),
            wanted@ == name@,
            views(out@) == views(pairs@).take(i as int).filter(alias_test(name@)).map_values(
                alias_pick(name@),
            ),
        decreases pairs.len() - i,
    {
        proof {
            lemma_filter_step(views(pairs@), i as int, alias_test(name@));
        }
        let pair = chars_of(pairs[i].as_str());
        let sides = split_chars(pair.as_slice(), '=');
        if sides.len() == 2 && same_chars(sides[0].as_slice(), wanted.as_slice()) {
            let ghost before = views(out@);
            let ghost kept = views(pairs@).take(i as int).filter(alias_test(name@));
            out.push(string_of(sides[1].as_slice()));
            assert(char_views(sides@)[0] == sides[0]@);
            assert(char_views(sides@)[1] == sides[1]@);
            assert(views(out@) =~= before.push(sides[1]@));
            assert(kept.push(pair@).map_values(alias_pick(name@)) =~= kept.map_values(
                alias_pick(name@),
            ).push(sides[1]@));
        } else {
            assert(char_views(sides@).len() == sides.len());
            if sides.len() == 2 {
                assert(char_views(sides@)[0] == sides[0]@);
            }
        }
        i += 1;
    }
    assert(views(pairs@).take(pairs.len() as int) =~= views(pairs@));
    out
}

/// The paths under which the file placed at `dest` is copied once more.
pub fn process_file_aliases(dest: &str, pairs: &Vec<String>) -> (out: Vec<String>)
    ensures
        views(out@) == alias_paths_of(dest@, views(pairs@)),
{
    let mut out: Vec<String> = Vec::new();
    match file_name(dest) {
        None => {
            assert(views(out@) =~= Seq::<Seq<char>>::empty());
        },
        Some(name) => match parent_path(dest) {
            None => {
                assert(views(out@) =~= Seq::<Seq<char>>::empty());
            },
            Some(dir) => {
                let names = alias_names(name.as_str(), pairs);
                let mut i: usize = 0;
                assert(views(out@) =~= views(names@).take(0).map_values(in_dir(dir@)));
                while i < names.len()
                    invariant
                        i <= names.len(),
                        views(out@) == views(names@).take(i as int).map_values(in_dir(dir@)),
                    decreases names.len() - i,
                {
                    let ghost before = views(out@);
                    let path = join_path(dir.as_str(), names[i].as_str());
                    out.push(path);
                    i += 1;
                    assert(views(out@) =~= before.push(joined(dir@, names[i - 1]@)));
                    assert(views(names@).take(i as int).map_values(in_dir(dir@)) =~= views(
                        names@,
                    ).take(i - 1).map_values(in_dir(dir@)).push(joined(dir@, names[i - 1]@)));
                }
                assert(views(names@).take(names.len() as int) =~= views(names@));
            },
        },
    }
    out
}

/// The name of the archive of a directory: the name of the directory, or
/// `archive` where it has none, with the ending of archives.
pub open spec fn archive_name_of(dir: Seq<char>) -> Seq<char> {
    match file_name_of(dir) {
        Some(name) => name + ARCHIVE_SUFFIX@,
        None => "archive"@ + ARCHIVE_SUFFIX@,
    }
}

/// The name of the archive that is made of a directory when none is
/// given.
pub fn archive_name(dir: &str) -> (out: String)
    ensures
        out@ == archive_name_of(dir@),
{
    let mut text: Vec<char> = Vec::new();
    match file_name(dir) {
        Some(name) => {
            push_str(&mut text, name.as_str());
            assert(text@ =~= name@);
        },
        None => {
            push_str(&mut text, "archive");
            assert(text@ =~= "archive"@);
        },
    }
    push_str(&mut text, ARCHIVE_SUFFIX);
    string_of(text.as_slice())
}

/// The platform in the name of a list of vcpkg, `<package>_<version>_
/// <triplet>`: the second part of the triplet, and nothing where the name
/// has no triplet or the triplet no second part.
pub open spec fn list_platform(stem: Seq<char>) -> Seq<char> {
    let parts = split(stem, '_');
    if parts.len() > 2 && split(parts[2], '-').len() > 1 {
        split(parts[2], '-')[1]
    } else {
        Seq::empty()
    }
}

/// The name of the archive that is collected when none is given. For a
/// list of vcpkg it is made of the package and the platform in the list's
/// name; otherwise of the first source without its extension, or of
/// `output` where the source has no name. None for a list of vcpkg
/// without a name.
pub open spec fn output_name_of(first_source: Seq<char>, is_vcpkg: bool) -> Option<Seq<char>> {
    match file_name_of(first_source) {
        Some(name) => if is_vcpkg {
            Some(
                split(stem_of(name), '_')[0] + "."@ + list_platform(stem_of(name))
                    + ARCHIVE_SUFFIX@,
            )
        } else {
            Some(stem_of(name) + ARCHIVE_SUFFIX@)
        },
        None => if is_vcpkg {
            None
        } else {
            Some("output"@ + ARCHIVE_SUFFIX@)
        },
    }
}

/// The name of the archive that is collected when none is given.
pub fn default_output_name(first_source: &str, is_vcpkg: bool) -> (out: Option<String>)
    ensures
        match out {
            Some(name) => output_name_of(first_source@, is_vcpkg) == Some(name@),
            None => output_name_of(first_source@, is_vcpkg) is None,
        },
{
    let mut text: Vec<char> = Vec::new();
    match file_stem(first_source) {
        None => {
            if is_vcpkg {
                return None;
            }
            push_str(&mut text, "output");
            assert(text@ =~= "output"@);
        },
        Some(stem) => {
            let s = chars_of(stem.as_str());
            if is_vcpkg {
                let parts = split_chars(s.as_slice(), '_');
                proof {
                    lemma_split_nonempty(s@, '_');
                }
                assert(char_views(parts@)[0] == parts[0]@);
                push_all(&mut text, parts[0].as_slice());
                push_str(&mut text, ".");
                if parts.len() > 2 {
                    assert(char_views(parts@)[2] == parts[2]@);
                    let triplet = split_chars(parts[2].as_slice(), '-');
                    if triplet.len() > 1 {
                        assert(char_views(triplet@)[1] == triplet[1]@);
                        push_all(&mut text, triplet[1].as_slice());
                    }
                }
                assert(text@ =~= split(s@, '_')[0] + "."@ + list_platform(s@));
            } else {
                push_all(&mut text, s.as_slice());
                assert(text@ =~= s@);
            }
        },
    }
    push_str(&mut text, ARCHIVE_SUFFIX);
    Some(string_of(text.as_slice()))
}

/// The directory that the lines of a file list are relative to: the one
/// that holds the list, and for a list of vcpkg the one three levels
/// above the list. None where the path of the list has no such directory.
pub open spec fn list_base_of(list_file: Seq<char>, is_vcpkg: bool) -> Option<Seq<char>> {
    if !is_vcpkg {
        parent_of(list_file)
    } else {
        match parent_of(list_file) {
            None => None,
            Some(a) => match parent_of(a) {
                None => None,
                Some(b) => parent_of(b),
            },
        }
    }
}

/// The directory that the lines of a file list are relative to.
pub fn list_base_dir(list_file: &str, is_vcpkg: bool) -> (out: Option<String>)
    ensures
        match out {
            Some(dir) => list_base_of(list_file@, is_vcpkg) == Some(dir@),
            None => list_base_of(list_file@, is_vcpkg) is None,
        },
{
    if !is_vcpkg {
        return parent_path(list_file);
    }
    match parent_path(list_file) {
        None => None,
        Some(a) => match parent_path(a.as_str()) {
            None => None,
            Some(b) => parent_path(b.as_str()),
        },
    }
}

} // verus!
