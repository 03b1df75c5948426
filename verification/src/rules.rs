//! The rules that turn a download into the tree of a package, in their
//! fixed order: extract, rename, link, wrapper, clean, and then the
//! discovery of the files that are packaged. Each rule says what is to be
//! done; the caller does it.

use vstd::prelude::*;
use crate::descriptor::{DownloadSpec, DownloadView};
use crate::json::pair_views;
use crate::matcher::{accept_test, all_portable, glob_compiles, match_files, InvalidPattern};
use crate::paths::{join_path, joined, parent_of, parent_path};
use crate::text::{
    char_views, chars_of, has_suffix, is_portable, lemma_filter_holds, lemma_filter_none,
    lemma_filter_step, push_all, push_str, same_chars, starts_with, string_of, text_view, views,
    words, words_of,
};

verus! {

/// One step of the work on a download.
#[derive(Debug, Clone, Copy, PartialEq, Eq, Structural)]
pub enum Step {
    /// Unpack the download into the working directory.
    Extract,
    /// Move what the rename rule matches to its target.
    Rename,
    /// Make the links under `bin/`, or the scripts that stand for them.
    Link,
    /// Write the wrapper scripts under `bin/`.
    Wrapper,
    /// Delete what the clean patterns match.
    Clean,
    /// Delete the download itself.
    DropDownload,
    /// The download is the program: move it to its name.
    PlaceBinary,
}

/// The download is an archive by its name: it ends in `.zip`, `.tar.gz`,
/// `.tar.xz` or `.tar.bz2`.
pub open spec fn is_archive_url(url: Seq<char>) -> bool {
    ||| ".zip"@.is_suffix_of(url)
    ||| ".tar.gz"@.is_suffix_of(url)
    ||| ".tar.xz"@.is_suffix_of(url)
    ||| ".tar.bz2"@.is_suffix_of(url)
}

/// The download is unpacked rather than taken as a single program: it is
/// an archive by its name, or the rules give a command to unpack it.
pub open spec fn is_extracted(spec: DownloadView) -> bool {
    is_archive_url(spec.url) || spec.extract is Some
}

/// The steps for a download, in order.
pub open spec fn steps_of(spec: DownloadView) -> Seq<Step> {
    if is_extracted(spec) {
        seq![
            Step::Extract,
            Step::Rename,
            Step::Link,
            Step::Wrapper,
            Step::Clean,
            Step::DropDownload,
        ]
    } else {
        seq![Step::PlaceBinary]
    }
}

/// Whether the download is unpacked.
pub fn needs_extract(spec: &DownloadSpec) -> (r: bool)
    ensures
        r == is_extracted(spec@),
{
    let url = chars_of(spec.url.as_str());
    has_suffix(url.as_slice(), ".zip") || has_suffix(url.as_slice(), ".tar.gz") || has_suffix(
        url.as_slice(),
        ".tar.xz",
    ) || has_suffix(url.as_slice(), ".tar.bz2") || spec.extract.is_some()
}

/// The steps of the work on a download, in the order in which they are
/// taken: exactly one of unpacking and placing a single program applies.
pub fn build_steps(spec: &DownloadSpec) -> (steps: Vec<Step>)
    ensures
        steps@ == steps_of(spec@),
{
    let mut steps: Vec<Step> = Vec::new();
    if needs_extract(spec) {
        steps.push(Step::Extract);
        steps.push(Step::Rename);
        steps.push(Step::Link);
        steps.push(Step::Wrapper);
        steps.push(Step::Clean);
        steps.push(Step::DropDownload);
    } else {
        steps.push(Step::PlaceBinary);
    }
    assert(steps@ =~= steps_of(spec@));
    steps
}

/// A program and the arguments it is started with.
#[derive(Debug)]
pub struct Invocation {
    pub program: String,
    pub args: Vec<String>,
}

/// The words of the command that unpacks: those of the rule, or the
/// system's tar with `xf`, which is `gtar` on macOS.
pub open spec fn extract_words(extract: Option<Seq<char>>, macos: bool) -> Seq<Seq<char>> {
    match extract {
        Some(command) => words(command),
        None => seq![
            if macos {
                "gtar"@
            } else {
                "tar"@
            },
            "xf"@,
        ],
    }
}

/// The command that unpacks the download at `blob`, with its words.
pub open spec fn argv_of(extract: Option<Seq<char>>, blob: Seq<char>, macos: bool) -> Seq<
    Seq<char>,
> {
    extract_words(extract, macos).push(blob)
}

/// The command that unpacks the download at `blob`: the program is the
/// first word of the rule and the download is the last argument. None
/// where the rule holds no word.
pub fn extract_command(spec: &DownloadSpec, blob: &str, macos: bool) -> (out: Option<Invocation>)
    ensures
        match out {
            Some(call) => {
                &&& extract_words(spec@.extract, macos).len() > 0
                &&& call.program@ == argv_of(spec@.extract, blob@, macos)[0]
                &&& views(call.args@) == argv_of(spec@.extract, blob@, macos).skip(1)
            },
            None => extract_words(spec@.extract, macos).len() == 0,
        },
{
    let mut argv: Vec<Vec<char>> = match &spec.extract {
        Some(command) => {
            let c = chars_of(command.as_str());
            words_of(c.as_slice())
        },
        None => {
            let mut v: Vec<Vec<char>> = Vec::new();
            v.push(
                chars_of(
                    if macos {
                        "gtar"
                    } else {
                        "tar"
                    },
                ),
            );
            v.push(chars_of("xf"));
            assert(char_views(v@) =~= extract_words(spec@.extract, macos));
            v
        },
    };
    if argv.len() == 0 {
        return None;
    }
    let ghost before = char_views(argv@);
    argv.push(chars_of(blob));
    assert(char_views(argv@) =~= before.push(blob@));
    let program = string_of(argv[0].as_slice());
    let mut args: Vec<String> = Vec::new();
    let mut i: usize = 1;
    while i < argv.len()
        invariant
            1 <= i <= argv.len(),
            views(args@) == char_views(argv@).subrange(1, i as int),
        decreases argv.len() - i,
    {
        let ghost so_far = views(args@);
        args.push(string_of(argv[i].as_slice()));
        i += 1;
        assert(views(args@) =~= so_far.push(argv[i - 1]@));
        assert(char_views(argv@).subrange(1, i as int) =~= char_views(argv@).subrange(
            1,
            i - 1,
        ).push(argv[i - 1]@));
    }
    assert(char_views(argv@).subrange(1, argv.len() as int) =~= char_views(argv@).skip(1));
    Some(Invocation { program, args })
}

/// The move that the rename rule asks for: the first match goes to the
/// target, unless it is there already. None without a rule or a match.
pub open spec fn move_of(
    rule: Option<(Seq<char>, Seq<char>)>,
    first_match: Option<Seq<char>>,
) -> Option<(Seq<char>, Seq<char>)> {
    match (rule, first_match) {
        (Some(r), Some(m)) => if m == r.1 {
            None
        } else {
            Some((m, r.1))
        },
        _ => None,
    }
}

/// The move that the rename rule asks for, given the first path that its
/// pattern matches: from that path to the rule's target.
pub fn rename_move(spec: &DownloadSpec, first_match: Option<&str>) -> (out: Option<
    (String, String),
>)
    ensures
        match out {
            Some(m) => move_of(spec@.rename, text_view(first_match)) == Some((m.0@, m.1@)),
            None => move_of(spec@.rename, text_view(first_match)) is None,
        },
{
    match (&spec.rename, first_match) {
        (Some(rule), Some(found)) => {
            let a = chars_of(found);
            let b = chars_of(rule.1.as_str());
            if same_chars(a.as_slice(), b.as_slice()) {
                None
            } else {
                Some((string_of(a.as_slice()), rule.1.clone()))
            }
        },
        _ => None,
    }
}

/// The directory that must exist before the rename: the one that holds
/// the target. None without a rule or for a target without a directory.
pub fn rename_parent(spec: &DownloadSpec) -> (out: Option<String>)
    ensures
        match out {
            Some(dir) => spec@.rename is Some && parent_of(spec@.rename.unwrap().1) == Some(
                dir@,
            ),
            None => spec@.rename is None || parent_of(spec@.rename.unwrap().1) is None,
        },
{
    match &spec.rename {
        None => None,
        Some(rule) => parent_path(rule.1.as_str()),
    }
}

/// The root of the tree that was unpacked: the target of the rename where
/// the rule matched; otherwise the first directory at the top, and the
/// name of the package where there is none.
pub open spec fn root_of(
    renamed_to: Option<Seq<char>>,
    top_dirs: Seq<Seq<char>>,
    package: Seq<char>,
) -> Seq<char> {
    match renamed_to {
        Some(target) => target,
        None => if top_dirs.len() > 0 {
            top_dirs[0]
        } else {
            package
        },
    }
}

/// The root of the tree that was unpacked.
pub fn tree_root(renamed_to: Option<&str>, top_dirs: &Vec<String>, package: &str) -> (out: String)
    ensures
        out@ == root_of(text_view(renamed_to), views(top_dirs@), package@),
{
    match renamed_to {
        Some(target) => target.to_owned(),
        None => if top_dirs.len() > 0 {
            assert(views(top_dirs@)[0] == top_dirs[0]@);
            top_dirs[0].clone()
        } else {
            package.to_owned()
        },
    }
}

/// The symbolic links of the rules: each link under `bin/` with its
/// target.
pub open spec fn links_of(symlink: Seq<(Seq<char>, Seq<char>)>) -> Seq<(Seq<char>, Seq<char>)> {
    Seq::new(symlink.len(), |i: int| (joined("bin"@, symlink[i].0), symlink[i].1))
}

/// The script that stands for a link where links cannot be made: it hands
/// its arguments on to the target beside it.
pub open spec fn shim_of(target: Seq<char>) -> Seq<char> {
    "& \"$PSScriptRoot\\"@ + target + "\" @args\n"@
}

/// The scripts that stand for the links of the rules: each under `bin/`
/// with the ending `.ps1`.
pub open spec fn shims_of(symlink: Seq<(Seq<char>, Seq<char>)>) -> Seq<(Seq<char>, Seq<char>)> {
    Seq::new(
        symlink.len(),
        |i: int| (joined("bin"@, symlink[i].0 + ".ps1"@), shim_of(symlink[i].1)),
    )
}

/// The scripts of the rules: each under `bin/` with its content.
pub open spec fn wrappers_of(wrapper: Seq<(Seq<char>, Seq<char>)>) -> Seq<
    (Seq<char>, Seq<char>),
> {
    Seq::new(wrapper.len(), |i: int| (joined("bin"@, wrapper[i].0), wrapper[i].1))
}

/// The symbolic links to make, as path of the link and target. The target
/// of each is made executable first.
pub fn symlink_plan(spec: &DownloadSpec) -> (out: Vec<(String, String)>)
    ensures
        pair_views(out@) == links_of(spec@.symlink),
{
    let mut out: Vec<(String, String)> = Vec::new();
    let mut i: usize = 0;
    while i < spec.symlink.len()
        invariant
            i <= spec.symlink.len(),
            out.len() == i,
            forall|j: int|
                0 <= j < i ==> (#[trigger] out@[j]).0@ == joined("bin"@, spec.symlink@[j].0@)
                    && out@[j].1@ == spec.symlink@[j].1@,
        decreases spec.symlink.len() - i,
    {
        let link = join_path("bin", spec.symlink[i].0.as_str());
        out.push((link, spec.symlink[i].1.clone()));
        i += 1;
    }
    assert(pair_views(out@) =~= links_of(spec@.symlink));
    out
}

/// The scripts to write on Windows in place of links, as path and
/// content.
pub fn shim_plan(spec: &DownloadSpec) -> (out: Vec<(String, String)>)
    ensures
        pair_views(out@) == shims_of(spec@.symlink),
{
    let mut out: Vec<(String, String)> = Vec::new();
    let mut i: usize = 0;
    while i < spec.symlink.len()
        invariant
            i <= spec.symlink.len(),
            out.len() == i,
            forall|j: int|
                0 <= j < i ==> (#[trigger] out@[j]).0@ == joined(
                    "bin"@,
                    spec.symlink@[j].0@ + ".ps1"@,
                ) && out@[j].1@ == shim_of(spec.symlink@[j].1@),
        decreases spec.symlink.len() - i,
    {
        let mut name: Vec<char> = Vec::new();
        push_str(&mut name, spec.symlink[i].0.as_str());
        push_str(&mut name, ".ps1");
        assert(name@ =~= spec.symlink@[i as int].0@ + ".ps1"@);
        let name = string_of(name.as_slice());
        let mut content: Vec<char> = Vec::new();
        push_str(&mut content, "& \"$PSScriptRoot\\");
        push_str(&mut content, spec.symlink[i].1.as_str());
        push_str(&mut content, "\" @args\n");
        assert(content@ =~= shim_of(spec.symlink@[i as int].1@));
        out.push((join_path("bin", name.as_str()), string_of(content.as_slice())));
        i += 1;
    }
    assert(pair_views(out@) =~= shims_of(spec@.symlink));
    out
}

/// The wrapper scripts to write, as path and content. Each is made
/// executable.
pub fn wrapper_plan(spec: &DownloadSpec) -> (out: Vec<(String, String)>)
    ensures
        pair_views(out@) == wrappers_of(spec@.wrapper),
{
    let mut out: Vec<(String, String)> = Vec::new();
    let mut i: usize = 0;
    while i < spec.wrapper.len()
        invariant
            i <= spec.wrapper.len(),
            out.len() == i,
            forall|j: int|
                0 <= j < i ==> (#[trigger] out@[j]).0@ == joined("bin"@, spec.wrapper@[j].0@)
                    && out@[j].1@ == spec.wrapper@[j].1@,
        decreases spec.wrapper.len() - i,
    {
        let path = join_path("bin", spec.wrapper[i].0.as_str());
        out.push((path, spec.wrapper[i].1.clone()));
        i += 1;
    }
    assert(pair_views(out@) =~= wrappers_of(spec@.wrapper));
    out
}

/// Why the files of a package could not be found.
#[derive(Debug)]
pub enum DiscoveryError {
    /// A pattern does not compile.
    BadPattern(InvalidPattern),
    /// The patterns match nothing.
    NoBinaryFound,
}

/// What all of `patterns` match among `paths`: for each pattern in turn,
/// the paths it accepts, in the order of `paths`.
pub open spec fn found_by(paths: Seq<Seq<char>>, patterns: Seq<Seq<char>>) -> Seq<Seq<char>>
    decreases patterns.len(),
{
    if patterns.len() == 0 {
        Seq::empty()
    } else {
        found_by(paths, patterns.drop_last()) + paths.filter(accept_test(patterns.last()))
    }
}

/// All of `patterns` compile.
pub open spec fn all_compile(patterns: Seq<Seq<char>>) -> bool {
    forall|i: int| 0 <= i < patterns.len() ==> glob_compiles(#[trigger] patterns[i])
}

/// The files that make up the package: what the patterns match among the
/// paths of the tree. It is an error if they match nothing. On portable
/// input the files are those that the patterns accept, pattern by pattern.
pub fn find_binary_files(rel_paths: &Vec<String>, patterns: &Vec<String>) -> (r: Result<
    Vec<String>,
    DiscoveryError,
>)
    ensures
        r matches Ok(found) ==> found.len() > 0,
        all_portable(views(patterns@)) && all_portable(views(rel_paths@)) ==> match r {
            Ok(found) => all_compile(views(patterns@)) && views(found@) == found_by(
                views(rel_paths@),
                views(patterns@),
            ),
            Err(DiscoveryError::NoBinaryFound) => all_compile(views(patterns@)) && found_by(
                views(rel_paths@),
                views(patterns@),
            ).len() == 0,
            Err(DiscoveryError::BadPattern(_)) => !all_compile(views(patterns@)),
        },
{
    let ghost portable = all_portable(views(patterns@)) && all_portable(views(rel_paths@));
    let mut found: Vec<String> = Vec::new();
    let mut i: usize = 0;
    assert(views(patterns@).take(0) =~= Seq::<Seq<char>>::empty());
    assert(views(found@) =~= Seq::<Seq<char>>::empty());
    while i < patterns.len()
        invariant
            i <= patterns.len(),
            portable == (all_portable(views(patterns@)) && all_portable(views(rel_paths@))),
            portable ==> all_compile(views(patterns@).take(i as int)),
            portable ==> views(found@) == found_by(
                views(rel_paths@),
                views(patterns@).take(i as int),
            ),
        decreases patterns.len() - i,
    {
        let ghost pattern = views(patterns@)[i as int];
        proof {
            assert(views(patterns@).take(i + 1).drop_last() =~= views(patterns@).take(i as int));
            assert(views(patterns@).take(i + 1).last() == pattern);
            assert(pattern == patterns[i as int]@);
        }
        match match_files(rel_paths, patterns[i].as_str()) {
            Err(e) => {
                proof {
                    if portable {
                        assert(is_portable(pattern));
                        assert(!glob_compiles(views(patterns@)[i as int]));
                    }
                }
                return Err(DiscoveryError::BadPattern(e));
            },
            Ok(mut more) => {
                let ghost before = views(found@);
                let ghost added = views(more@);
                found.append(&mut more);
                assert(views(found@) =~= before + added);
                proof {
                    if portable {
                        assert(is_portable(pattern));
                        assert forall|j: int| 0 <= j < i + 1 implies glob_compiles(
                            #[trigger] views(patterns@).take(i + 1)[j],
                        ) by {
                            if j < i {
                                assert(views(patterns@).take(i as int)[j] == views(
                                    patterns@,
                                ).take(i + 1)[j]);
                            }
                        }
                    }
                }
            },
        }
        i += 1;
    }
    assert(views(patterns@).take(patterns.len() as int) =~= views(patterns@));
    if found.len() == 0 {
        Err(DiscoveryError::NoBinaryFound)
    } else {
        Ok(found)
    }
}

/// The extractor ended with a failure.
#[derive(Debug, Clone, Copy, PartialEq, Eq, Structural)]
pub struct ExtractFailed {
    /// The exit status of the extractor, where it has one.
    pub code: Option<i32>,
}

/// What follows from the way the extractor ended: a status that is not
/// success fails the package, and the failure carries the status.
pub fn extraction_outcome(exit_ok: bool, code: Option<i32>) -> (r: Result<(), ExtractFailed>)
    ensures
        r is Ok <==> exit_ok,
        r matches Err(e) ==> e.code == code,
{
    if exit_ok {
        Ok(())
    } else {
        Err(ExtractFailed { code })
    }
}

/// `path` lies below the directory `dir`, and is not `dir` itself. The
/// empty path is the root of the tree, below which everything lies.
pub open spec fn is_below(path: Seq<char>, dir: Seq<char>) -> bool {
    if dir.len() == 0 {
        path.len() > 0
    } else {
        (dir + "/"@).is_prefix_of(path)
    }
}

/// Some directory among `matched` holds `path` below it.
pub open spec fn is_covered(path: Seq<char>, matched: Seq<(Seq<char>, bool)>) -> bool {
    exists|j: int|
        0 <= j < matched.len() && (#[trigger] matched[j]).1 && is_below(path, matched[j].0)
}

/// The test for a match that no matched directory holds below it.
pub open spec fn topmost_test(matched: Seq<(Seq<char>, bool)>) -> spec_fn(
    (Seq<char>, bool),
) -> bool {
    |m: (Seq<char>, bool)| !is_covered(m.0, matched)
}

/// What is deleted for the matches of a clean pattern: each match that
/// lies below no matched directory, in the order given. What lies below a
/// matched directory goes with the directory.
pub open spec fn clean_targets(matched: Seq<(Seq<char>, bool)>) -> Seq<(Seq<char>, bool)> {
    matched.filter(topmost_test(matched))
}

/// The views of matches: path, and whether it is a directory.
pub open spec fn match_views(matched: Seq<(String, bool)>) -> Seq<(Seq<char>, bool)> {
    Seq::new(matched.len(), |i: int| (matched[i].0@, matched[i].1))
}

/// Whether `path` lies below the directory `dir`.
pub fn lies_below(path: &[char], dir: &[char]) -> (r: bool)
    ensures
        r == is_below(path@, dir@),
{
    if dir.len() == 0 {
        return path.len() > 0;
    }
    let mut prefix: Vec<char> = Vec::new();
    push_all(&mut prefix, dir);
    push_str(&mut prefix, "/");
    starts_with(path, prefix.as_slice())
}

/// Whether some directory among `matched` holds `path` below it.
fn covered(path: &[char], matched: &Vec<(String, bool)>) -> (r: bool)
    ensures
        r == is_covered(path@, match_views(matched@)),
{
    let mut j: usize = 0;
    while j < matched.len()
        invariant
            j <= matched.len(),
            forall|k: int|
                0 <= k < j ==> !((#[trigger] match_views(matched@)[k]).1 && is_below(
                    path@,
                    match_views(matched@)[k].0,
                )),
        decreases matched.len() - j,
    {
        if matched[j].1 {
            let dir = chars_of(matched[j].0.as_str());
            if lies_below(path, dir.as_slice()) {
                assert(match_views(matched@)[j as int].1 && is_below(
                    path@,
                    match_views(matched@)[j as int].0,
                ));
                return true;
            }
        }
        j += 1;
    }
    false
}

/// The plan of a clean step: of the matches of a pattern, given as path
/// and whether the path is a directory, those that are deleted, top-most
/// only and in the order given. A directory is deleted with all below it,
/// so that no match is looked for after it is gone.
pub fn clean_plan(matched: &Vec<(String, bool)>) -> (out: Vec<(String, bool)>)
    ensures
        match_views(out@) == clean_targets(match_views(matched@)),
{
    let ghost all = match_views(matched@);
    let ghost test = topmost_test(all);
    let mut out: Vec<(String, bool)> = Vec::new();
    let mut i: usize = 0;
    proof {
        lemma_filter_none(all, test);
    }
    assert(match_views(out@) =~= Seq::<(Seq<char>, bool)>::empty());
    while i < matched.len()
        invariant
            i <= matched.len(),
            all == match_views(matched@),
            test == topmost_test(all),
            match_views(out@) == all.take(i as int).filter(test),
        decreases matched.len() - i,
    {
        proof {
            lemma_filter_step(all, i as int, test);
        }
        let path = chars_of(matched[i].0.as_str());
        assert(all[i as int].0 == path@);
        if !covered(path.as_slice(), matched) {
            let ghost before = match_views(out@);
            out.push((matched[i].0.clone(), matched[i].1));
            assert(match_views(out@) =~= before.push(all[i as int]));
        }
        i += 1;
    }
    assert(all.take(matched.len() as int) =~= all);
    out
}

/// Nothing that is deleted lies below something else that is deleted, and
/// every match is deleted itself or lies below a match that is.
pub proof fn law_clean_plan_is_topmost(matched: Seq<(Seq<char>, bool)>)
    ensures
        forall|m: (Seq<char>, bool)| #[trigger]
            clean_targets(matched).contains(m) <==> matched.contains(m) && !is_covered(
                m.0,
                matched,
            ),
{
    lemma_filter_holds(matched, topmost_test(matched));
}

} // verus!
