//! Installing and removing a package, one decision at a time, and a model
//! of the installation root on which the decisions are shown to keep the
//! root and its manifests consistent.
//!
//! The caller looks at the disk and performs what is decided; the rules
//! themselves touch nothing.

use vstd::prelude::*;
use crate::manifest::{entries_of, manifest_of, manifest_text, named};
use crate::paths::{file_name, file_name_of, join_path, joined, parent_of, parent_path};
use crate::text::{lemma_split_nonempty, lines, push_str, split, string_of, views};

verus! {

/// What becomes of one line of a manifest when its package is removed.
#[derive(Debug, Clone, Copy, PartialEq, Eq, Structural)]
pub enum RemovalStep {
    /// The line is empty and names nothing.
    Blank,
    /// Nothing is at the path: a warning, and the removal goes on.
    ReportMissing,
    /// A directory, or something that is neither file nor link: it stays.
    Leave,
    /// A file or a symbolic link: it is deleted.
    Delete,
}

/// The decision for a manifest line from what is seen at its path:
/// whether anything exists there (links followed), whether that is a
/// regular file, and whether the path itself is a symbolic link.
pub open spec fn removal_of(
    line: Seq<char>,
    exists: bool,
    is_file: bool,
    is_symlink: bool,
) -> RemovalStep {
    if line.len() == 0 {
        RemovalStep::Blank
    } else if !exists && !is_symlink {
        RemovalStep::ReportMissing
    } else if !is_file && !is_symlink {
        RemovalStep::Leave
    } else {
        RemovalStep::Delete
    }
}

/// Decides what to do with one line of the manifest of a package that is
/// being removed.
pub fn removal_step(line: &str, exists: bool, is_file: bool, is_symlink: bool) -> (step:
    RemovalStep)
    ensures
        step == removal_of(line@, exists, is_file, is_symlink),
{
    if line.is_empty() {
        RemovalStep::Blank
    } else if !exists && !is_symlink {
        RemovalStep::ReportMissing
    } else if !is_file && !is_symlink {
        RemovalStep::Leave
    } else {
        RemovalStep::Delete
    }
}

/// The resource-fork sibling of a path: in the same directory, the file
/// name with `._` before it; none for a path without a file name.
pub open spec fn fork_of(path: Seq<char>) -> Option<Seq<char>> {
    match (file_name_of(path), parent_of(path)) {
        (Some(name), Some(dir)) => Some(joined(dir, "._"@ + name)),
        _ => None,
    }
}

/// The path of the resource fork that may accompany the file at `path`.
pub fn resource_fork(path: &str) -> (out: Option<String>)
    ensures
        match out {
            Some(fork) => fork_of(path@) == Some(fork@),
            None => fork_of(path@) is None,
        },
{
    match file_name(path) {
        None => None,
        Some(name) => match parent_path(path) {
            None => None,
            Some(dir) => {
                let mut fork: Vec<char> = Vec::new();
                push_str(&mut fork, "._");
                push_str(&mut fork, name.as_str());
                assert(fork@ =~= "._"@ + name@);
                let fork_name = string_of(fork.as_slice());
                Some(join_path(dir.as_str(), fork_name.as_str()))
            },
        },
    }
}

/// How the installation of a package starts.
#[derive(Debug, Clone)]
pub enum InstallStart {
    /// A manifest is there: the package is installed and nothing is done.
    AlreadyInstalled,
    /// The manifest to write before anything is extracted.
    Record { manifest: String },
}

/// Starts an installation: with a manifest in place nothing is to be done;
/// otherwise the table of contents of the archive becomes the manifest,
/// which is written before the archive is extracted.
pub fn begin_install(has_manifest: bool, contents: &Vec<String>) -> (start: InstallStart)
    ensures
        match start {
            InstallStart::AlreadyInstalled => has_manifest,
            InstallStart::Record { manifest } => !has_manifest && manifest@ == manifest_of(
                views(contents@),
            ),
        },
{
    if has_manifest {
        InstallStart::AlreadyInstalled
    } else {
        InstallStart::Record { manifest: manifest_text(contents) }
    }
}

/// How an installation ends once the archive was or was not extracted.
#[derive(Debug, Clone, Copy, PartialEq, Eq, Structural)]
pub enum InstallEnd {
    /// Files and manifest are both in place.
    Installed,
    /// Extraction failed: the manifest just written is deleted again.
    RolledBack,
}

/// Ends an installation: a failed extraction takes the manifest back.
pub fn finish_install(extracted: bool) -> (end: InstallEnd)
    ensures
        end == if extracted {
            InstallEnd::Installed
        } else {
            InstallEnd::RolledBack
        },
{
    if extracted {
        InstallEnd::Installed
    } else {
        InstallEnd::RolledBack
    }
}

/// What stands at a path of the installation root.
pub enum Node {
    File,
    Symlink,
    Directory,
}

/// An installation root: what stands at each path below it, and the
/// manifest text of each installed package.
pub struct Root {
    pub nodes: Map<Seq<char>, Node>,
    pub records: Map<Seq<char>, Seq<char>>,
}

/// One member of an archive: its path and what it is.
pub struct Member {
    pub path: Seq<char>,
    pub node: Node,
}

/// The paths of the members of an archive: its table of contents.
pub open spec fn contents_of(members: Seq<Member>) -> Seq<Seq<char>> {
    Seq::new(members.len(), |i: int| members[i].path)
}

/// The decision for `line` on the root whose paths are `nodes`.
pub open spec fn step_on(nodes: Map<Seq<char>, Node>, line: Seq<char>) -> RemovalStep {
    removal_of(
        line,
        nodes.contains_key(line),
        nodes.contains_key(line) && nodes[line] is File,
        nodes.contains_key(line) && nodes[line] is Symlink,
    )
}

/// `nodes` without `path`, unless a directory stands there.
pub open spec fn without_file(nodes: Map<Seq<char>, Node>, path: Seq<char>) -> Map<
    Seq<char>,
    Node,
> {
    if nodes.contains_key(path) && !(nodes[path] is Directory) {
        nodes.remove(path)
    } else {
        nodes
    }
}

/// The paths after one manifest line is handled: a file or link goes, and
/// with it its resource fork.
pub open spec fn after_line(nodes: Map<Seq<char>, Node>, line: Seq<char>) -> Map<
    Seq<char>,
    Node,
> {
    if step_on(nodes, line) == RemovalStep::Delete {
        match fork_of(line) {
            Some(fork) => without_file(nodes.remove(line), fork),
            None => nodes.remove(line),
        }
    } else {
        nodes
    }
}

/// The paths after all of `lines` are handled in order.
pub open spec fn after_lines(nodes: Map<Seq<char>, Node>, lines: Seq<Seq<char>>) -> Map<
    Seq<char>,
    Node,
>
    decreases lines.len(),
{
    if lines.len() == 0 {
        nodes
    } else {
        after_line(after_lines(nodes, lines.drop_last()), lines.last())
    }
}

/// The root after `package` is removed: without a manifest nothing
/// changes; otherwise every line of the manifest is handled and the
/// manifest goes last.
pub open spec fn removed(root: Root, package: Seq<char>) -> Root {
    if root.records.contains_key(package) {
        Root {
            nodes: after_lines(root.nodes, lines(root.records[package])),
            records: root.records.remove(package),
        }
    } else {
        root
    }
}

/// The paths after the members of an archive are extracted in order.
pub open spec fn extracted(nodes: Map<Seq<char>, Node>, members: Seq<Member>) -> Map<
    Seq<char>,
    Node,
>
    decreases members.len(),
{
    if members.len() == 0 {
        nodes
    } else {
        extracted(nodes, members.drop_last()).insert(members.last().path, members.last().node)
    }
}

/// The root after an archive is installed as `package`: with a manifest in
/// place nothing changes; otherwise the table of contents becomes the
/// manifest and the members are extracted.
pub open spec fn installed(root: Root, package: Seq<char>, members: Seq<Member>) -> Root {
    if root.records.contains_key(package) {
        root
    } else {
        Root {
            nodes: extracted(root.nodes, members),
            records: root.records.insert(package, manifest_of(contents_of(members))),
        }
    }
}

/// The path can stand on a line of a manifest and be read back: it is not
/// empty, holds no line feed and does not end in a carriage return.
pub open spec fn is_line(path: Seq<char>) -> bool {
    path.len() > 0 && !path.contains('\n') && path.last() != '\r'
}

/// Some line of `lines` is `path`, or has `path` as its resource fork.
pub open spec fn is_touched(lines: Seq<Seq<char>>, path: Seq<char>) -> bool {
    exists|i: int|
        0 <= i < lines.len() && (#[trigger] lines[i] == path || fork_of(lines[i]) == Some(path))
}

/// Text without the separator, added to the end, lengthens the last piece.
proof fn lemma_split_append(s: Seq<char>, t: Seq<char>, sep: char)
    requires
        !t.contains(sep),
    ensures
        split(s + t, sep) == split(s, sep).drop_last().push(split(s, sep).last() + t),
    decreases t.len(),
{
    lemma_split_nonempty(s, sep);
    let a = split(s, sep).drop_last();
    let b = split(s, sep).last();
    if t.len() == 0 {
        assert(s + t =~= s);
        assert(b + t =~= b);
        assert(a.push(b) =~= split(s, sep));
    } else {
        let t1 = t.drop_last();
        assert((s + t).drop_last() =~= s + t1);
        assert((s + t).last() == t[t.len() - 1]);
        assert(t.contains(t[t.len() - 1]));
        assert(!t1.contains(sep)) by {
            if t1.contains(sep) {
                let i = choose|i: int| 0 <= i < t1.len() && t1[i] == sep;
                assert(t[i] == sep);
            }
        }
        lemma_split_append(s, t1, sep);
        assert((b + t1).push(t.last()) =~= b + t);
        assert(a.push(b + t1).drop_last() =~= a);
    }
}

/// The pieces of a manifest are its paths and an empty piece at the end.
proof fn lemma_manifest_split(paths: Seq<Seq<char>>)
    requires
        forall|i: int| 0 <= i < paths.len() ==> !(#[trigger] paths[i]).contains('\n'),
    ensures
        split(manifest_of(paths), '\n') == paths.push(Seq::<char>::empty()),
    decreases paths.len(),
{
    if paths.len() == 0 {
        assert(split(manifest_of(paths), '\n') =~= paths.push(Seq::<char>::empty()));
    } else {
        let rest = paths.drop_last();
        let p = paths.last();
        lemma_manifest_split(rest);
        let m = manifest_of(rest);
        lemma_split_append(m, p, '\n');
        reveal_strlit("\n");
        let mp = m + p;
        assert(manifest_of(paths) =~= mp.push('\n'));
        assert(mp.push('\n').drop_last() =~= mp);
        assert(rest.push(Seq::<char>::empty()).drop_last() =~= rest);
        assert(Seq::<char>::empty() + p =~= p);
        assert(rest.push(p) =~= paths);
    }
}

/// A filter that every element passes changes nothing.
proof fn lemma_filter_all<A>(s: Seq<A>, pred: spec_fn(A) -> bool)
    requires
        forall|i: int| 0 <= i < s.len() ==> pred(#[trigger] s[i]),
    ensures
        s.filter(pred) == s,
    decreases s.len(),
{
    reveal(Seq::filter);
    if s.len() > 0 {
        lemma_filter_all(s.drop_last(), pred);
        assert(s.drop_last().push(s.last()) =~= s);
    }
}

/// A manifest reads back as the paths it was written from, provided each
/// can stand on a line.
pub proof fn lemma_manifest_reads_back(paths: Seq<Seq<char>>)
    requires
        forall|i: int| 0 <= i < paths.len() ==> is_line(#[trigger] paths[i]),
    ensures
        lines(manifest_of(paths)) == paths,
        entries_of(manifest_of(paths)) == paths,
{
    lemma_manifest_split(paths);
    let parts = split(manifest_of(paths), '\n');
    assert(parts.drop_last() =~= paths);
    assert(lines(manifest_of(paths)) =~= paths);
    lemma_filter_all(paths, named());
}

/// Handling a line takes paths away and changes none that stays.
proof fn lemma_line_shrinks(nodes: Map<Seq<char>, Node>, line: Seq<char>)
    ensures
        forall|p: Seq<char>| #[trigger]
            after_line(nodes, line).contains_key(p) ==> nodes.contains_key(p) && after_line(
                nodes,
                line,
            )[p] == nodes[p],
        forall|p: Seq<char>|
            p != line && fork_of(line) != Some(p) ==> (#[trigger] after_line(
                nodes,
                line,
            ).contains_key(p) <==> nodes.contains_key(p)),
        forall|p: Seq<char>|
            nodes.contains_key(p) && nodes[p] is Directory ==> #[trigger] after_line(
                nodes,
                line,
            ).contains_key(p),
        line.len() > 0 ==> !(after_line(nodes, line).contains_key(line) && !(after_line(
            nodes,
            line,
        )[line] is Directory)),
{
}

/// What holds of the paths once a sequence of manifest lines is handled.
proof fn lemma_lines_handled(nodes: Map<Seq<char>, Node>, lines: Seq<Seq<char>>)
    ensures
        forall|p: Seq<char>| #[trigger]
            after_lines(nodes, lines).contains_key(p) ==> nodes.contains_key(p) && after_lines(
                nodes,
                lines,
            )[p] == nodes[p],
        forall|p: Seq<char>|
            !is_touched(lines, p) ==> (#[trigger] after_lines(nodes, lines).contains_key(p)
                <==> nodes.contains_key(p)),
        forall|p: Seq<char>|
            nodes.contains_key(p) && nodes[p] is Directory ==> #[trigger] after_lines(
                nodes,
                lines,
            ).contains_key(p),
        forall|i: int|
            0 <= i < lines.len() && (#[trigger] lines[i]).len() > 0 ==> !(after_lines(
                nodes,
                lines,
            ).contains_key(lines[i]) && !(after_lines(nodes, lines)[lines[i]] is Directory)),
    decreases lines.len(),
{
    if lines.len() > 0 {
        let rest = lines.drop_last();
        let before = after_lines(nodes, rest);
        lemma_lines_handled(nodes, rest);
        lemma_line_shrinks(before, lines.last());
        let after = after_lines(nodes, lines);
        assert forall|p: Seq<char>| !is_touched(lines, p) implies (#[trigger] after.contains_key(
            p,
        ) <==> nodes.contains_key(p)) by {
            assert(!is_touched(rest, p)) by {
                if is_touched(rest, p) {
                    let i = choose|i: int|
                        0 <= i < rest.len() && (#[trigger] rest[i] == p || fork_of(rest[i])
                            == Some(p));
                    assert(lines[i] == p || fork_of(lines[i]) == Some(p));
                }
            }
            assert(lines[lines.len() - 1] == lines.last());
        }
        assert forall|i: int| 0 <= i < lines.len() && (#[trigger] lines[i]).len() > 0 implies !(
        after.contains_key(lines[i]) && !(after[lines[i]] is Directory)) by {
            if i < lines.len() - 1 {
                assert(rest[i] == lines[i]);
            }
        }
    }
}

/// Removal leaves no orphans. Once a package is removed, its manifest is
/// gone; no file or link named on a line of the manifest is left; every
/// directory is still there; the manifests of all other packages are as
/// they were; and every path that is neither named in the manifest nor the
/// resource fork of one that is stands as before.
pub proof fn law_remove_leaves_no_orphans(root: Root, package: Seq<char>)
    requires
        root.records.contains_key(package),
    ensures
        !removed(root, package).records.contains_key(package),
        forall|i: int|
            0 <= i < lines(root.records[package]).len() && (#[trigger] lines(
                root.records[package],
            )[i]).len() > 0 ==> !(removed(root, package).nodes.contains_key(
                lines(root.records[package])[i],
            ) && !(removed(root, package).nodes[lines(root.records[package])[i]] is Directory)),
        forall|p: Seq<char>|
            root.nodes.contains_key(p) && root.nodes[p] is Directory ==> #[trigger] removed(
                root,
                package,
            ).nodes.contains_key(p),
        forall|other: Seq<char>|
            other != package ==> (#[trigger] removed(root, package).records.contains_key(other)
                <==> root.records.contains_key(other)) && removed(root, package).records[other]
                == root.records[other],
        forall|p: Seq<char>|
            !is_touched(lines(root.records[package]), p) ==> (#[trigger] removed(
                root,
                package,
            ).nodes.contains_key(p) <==> root.nodes.contains_key(p)),
        forall|p: Seq<char>| #[trigger]
            removed(root, package).nodes.contains_key(p) ==> root.nodes.contains_key(p)
                && removed(root, package).nodes[p] == root.nodes[p],
{
    lemma_lines_handled(root.nodes, lines(root.records[package]));
}

/// Removing a package that is not installed changes nothing.
pub proof fn law_remove_absent(root: Root, package: Seq<char>)
    requires
        !root.records.contains_key(package),
    ensures
        removed(root, package) == root,
{
}

/// The install guard. Installing a package that is installed changes
/// nothing, so a second installation without a removal in between leaves
/// the root as the first one made it.
pub proof fn law_install_is_guarded(
    root: Root,
    package: Seq<char>,
    first: Seq<Member>,
    second: Seq<Member>,
)
    ensures
        installed(root, package, first).records.contains_key(package),
        installed(installed(root, package, first), package, second) == installed(
            root,
            package,
            first,
        ),
{
}

/// Every member of an archive is at its path once the archive is
/// extracted.
proof fn lemma_extracted_members(nodes: Map<Seq<char>, Node>, members: Seq<Member>)
    ensures
        forall|i: int|
            0 <= i < members.len() ==> extracted(nodes, members).contains_key(
                (#[trigger] members[i]).path,
            ),
    decreases members.len(),
{
    if members.len() > 0 {
        lemma_extracted_members(nodes, members.drop_last());
        assert forall|i: int| 0 <= i < members.len() implies extracted(
            nodes,
            members,
        ).contains_key((#[trigger] members[i]).path) by {
            if i < members.len() - 1 {
                assert(members.drop_last()[i] == members[i]);
            }
        }
    }
}

/// Manifest completeness. After a package is installed from an archive
/// whose paths can each stand on a line, the manifest lists exactly the
/// paths of the archive's members, in order; every path that the manifest
/// lists exists under the root; and every member that was placed appears
/// in the manifest.
pub proof fn law_manifest_is_complete(root: Root, package: Seq<char>, members: Seq<Member>)
    requires
        !root.records.contains_key(package),
        forall|i: int| 0 <= i < members.len() ==> is_line((#[trigger] members[i]).path),
    ensures
        installed(root, package, members).records.contains_key(package),
        entries_of(installed(root, package, members).records[package]) == contents_of(members),
        forall|k: int|
            0 <= k < entries_of(installed(root, package, members).records[package]).len()
                ==> installed(root, package, members).nodes.contains_key(
                #[trigger] entries_of(installed(root, package, members).records[package])[k],
            ),
        forall|i: int|
            0 <= i < members.len() ==> entries_of(
                installed(root, package, members).records[package],
            ).contains((#[trigger] members[i]).path),
{
    let paths = contents_of(members);
    assert forall|i: int| 0 <= i < paths.len() implies is_line(#[trigger] paths[i]) by {
        assert(paths[i] == members[i].path);
    }
    lemma_manifest_reads_back(paths);
    lemma_extracted_members(root.nodes, members);
    let listed = entries_of(installed(root, package, members).records[package]);
    assert(listed == paths);
    assert forall|k: int| 0 <= k < listed.len() implies installed(
        root,
        package,
        members,
    ).nodes.contains_key(#[trigger] listed[k]) by {
        assert(listed[k] == members[k].path);
    }
    assert forall|i: int| 0 <= i < members.len() implies listed.contains(
        (#[trigger] members[i]).path,
    ) by {
        assert(listed[i] == members[i].path);
    }
}

} // verus!
