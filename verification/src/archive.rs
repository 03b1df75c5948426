//! Builds and reads gzip-compressed tar archives in memory. The `tar` and
//! `flate2` crates write and read the bytes; which members go in, in what
//! order and with what metadata, is decided here, so that the same members
//! always give the same archive.

use vstd::prelude::*;
use vstd::string::StringSliceAdditionalSpecFns;
use vstd::utf8::{decode_utf8, valid_utf8};
use crate::filters::{is_member_file, is_member_path};
use crate::manifest::{manifest_of, manifest_text};
use crate::order::{
    le_chars, lemma_insert_holds, lemma_le_antisymmetric, lemma_le_reflexive, lemma_le_total,
    lemma_le_transitive, lex_le,
};
use crate::text::{
    chars_of, is_portable, lemma_filter_counts, lemma_filter_holds, lemma_filter_none,
    lemma_filter_step, split, text_of, views,
};

verus! {

/// Modification time of every member and of the archive itself:
/// 2024-01-01 00:00:00 UTC.
pub const FIXED_MTIME: u32 = 1704067200;

/// The error type of `std::io`.
#[verifier::external_type_specification]
#[verifier::external_body]
pub struct ExIoError(std::io::Error);

/// An archive that is being written: the writer of the `tar` crate over
/// the gzip compressor of the `flate2` crate, which fills a vector.
#[verifier::external_body]
pub struct ArchiveWriter {
    inner: tar::Builder<flate2::write::GzEncoder<Vec<u8>>>,
}

/// What a member of an archive is.
#[derive(Debug, Clone)]
pub enum MemberKind {
    /// A regular file with its permission bits and its bytes.
    File { mode: u32, content: Vec<u8> },
    /// A symbolic link with its target, stored as a link and never as a
    /// copy of what it points to.
    Symlink { target: String },
}

/// One member of an archive.
#[derive(Debug, Clone)]
pub struct Member {
    /// Path inside the archive, relative and with forward slashes.
    pub path: String,
    /// File or link.
    pub kind: MemberKind,
}

/// A member as plain values: for a file, its permission bits and content;
/// for a link, its target.
pub struct MemberView {
    pub path: Seq<char>,
    pub target: Option<Seq<char>>,
    pub mode: u32,
    pub content: Seq<u8>,
}

impl View for Member {
    type V = MemberView;

    open spec fn view(&self) -> MemberView {
        match self.kind {
            MemberKind::File { mode, content } => MemberView {
                path: self.path@,
                target: None,
                mode: mode,
                content: content@,
            },
            MemberKind::Symlink { target } => MemberView {
                path: self.path@,
                target: Some(target@),
                mode: 0,
                content: Seq::empty(),
            },
        }
    }
}

/// What is written for one member: the member and the metadata that goes
/// into its header.
pub struct Entry {
    pub member: MemberView,
    /// Numeric owner and group.
    pub owner: u64,
    /// Modification time in seconds.
    pub mtime: u64,
}

/// The entries that were appended to a writer, in order.
pub uninterp spec fn written(writer: ArchiveWriter) -> Seq<Entry>;

/// The modification time that a writer was started with.
pub uninterp spec fn stamp(writer: ArchiveWriter) -> u32;

/// The bytes of the finished archive that was started with the stamp and
/// holds these entries.
pub uninterp spec fn packed(stamp: u32, entries: Seq<Entry>) -> Seq<u8>;

/// The path can be written into an archive on every platform: it is not
/// empty, starts at no root, has no component `..`, and holds no NUL, no
/// backslash and no colon.
pub open spec fn is_plain(path: Seq<char>) -> bool {
    &&& path.len() > 0
    &&& path[0] != '/'
    &&& !split(path, '/').contains(".."@)
    &&& !path.contains('\0')
    &&& !path.contains('\\')
    &&& !path.contains(':')
}

/// The target can be written into an archive on every platform: it is not
/// empty and holds no NUL, no backslash and no colon.
pub open spec fn is_plain_target(target: Seq<char>) -> bool {
    &&& target.len() > 0
    &&& !target.contains('\0')
    &&& !target.contains('\\')
    &&& !target.contains(':')
}

/// Starts an archive in memory: `tar::Builder::new` over the gzip encoder
/// that `flate2::GzBuilder` makes with the given modification time and
/// default compression. Nothing is written yet.
#[verifier::external_body]
fn start_archive(mtime: u32) -> (writer: ArchiveWriter)
    ensures
        written(writer) == Seq::<Entry>::empty(),
        stamp(writer) == mtime,
{
    let gz = flate2::GzBuilder::new().mtime(mtime);
    ArchiveWriter { inner: tar::Builder::new(gz.write(Vec::new(), flate2::Compression::default())) }
}

/// Appends a regular file with `tar::Builder::append_data`, under a GNU
/// header with the given permission bits, owner, group and modification
/// time. Where the call succeeds the writer holds one entry more. The
/// call fails only where the path cannot be put into a header: it writes
/// into memory, and a plain path always fits, a long one by way of the GNU
/// extension. A path with a backslash is written differently from
/// platform to platform, so nothing is said of it.
#[verifier::external_body]
fn append_file(
    writer: &mut ArchiveWriter,
    path: &str,
    mode: u32,
    owner: u64,
    mtime: u64,
    content: &[u8],
) -> (r: Result<(), std::io::Error>)
    ensures
        stamp(*final(writer)) == stamp(*old(writer)),
        is_plain(path@) ==> r is Ok,
        r is Ok && is_portable(path@) ==> written(*final(writer)) == written(*old(writer)).push(
            Entry {
                member: MemberView { path: path@, target: None, mode: mode, content: content@ },
                owner: owner,
                mtime: mtime,
            },
        ),
{
    let mut header = tar::Header::new_gnu();
    header.set_size(content.len() as u64);
    header.set_mode(mode);
    header.set_uid(owner);
    header.set_gid(owner);
    header.set_mtime(mtime);
    header.set_entry_type(tar::EntryType::Regular);
    writer.inner.append_data(&mut header, path, content)
}

/// Appends a symbolic link with `tar::Builder::append_link`: an entry
/// without data that records the target, with the given permission bits,
/// owner, group and modification time. Where the call succeeds the writer
/// holds one entry more. The call fails only where path or target cannot
/// be put into a header; a plain path and a plain target always can, long
/// ones by way of the GNU extensions. Nothing is said of a path or target
/// with a backslash.
#[verifier::external_body]
fn append_symlink(
    writer: &mut ArchiveWriter,
    path: &str,
    target: &str,
    mode: u32,
    owner: u64,
    mtime: u64,
) -> (r: Result<(), std::io::Error>)
    ensures
        stamp(*final(writer)) == stamp(*old(writer)),
        is_plain(path@) && is_plain_target(target@) ==> r is Ok,
        r is Ok && is_portable(path@) && is_portable(target@) ==> written(*final(writer))
            == written(*old(writer)).push(
            Entry {
                member: MemberView {
                    path: path@,
                    target: Some(target@),
                    mode: mode,
                    content: Seq::empty(),
                },
                owner: owner,
                mtime: mtime,
            },
        ),
{
    let mut header = tar::Header::new_gnu();
    header.set_size(0);
    header.set_mode(mode);
    header.set_uid(owner);
    header.set_gid(owner);
    header.set_mtime(mtime);
    header.set_entry_type(tar::EntryType::Symlink);
    writer.inner.append_link(&mut header, path, target)
}

/// Ends the archive with `tar::Builder::into_inner` and the compressed
/// stream with `flate2::write::GzEncoder::finish`. Both only pass on the
/// errors of what they write to, and a vector takes every write, so the
/// call succeeds; the bytes that come out depend on the stamp, on the
/// entries written and on nothing else.
#[verifier::external_body]
fn finish_archive(writer: ArchiveWriter) -> (r: Result<Vec<u8>, std::io::Error>)
    ensures
        r is Ok,
        r matches Ok(bytes) ==> bytes@ == packed(stamp(writer), written(writer)),
{
    writer.inner.into_inner()?.finish()
}

/// Why an archive could not be written or read.
#[derive(Debug, Clone)]
pub enum ArchiveError {
    /// The archive format refused a member, or the bytes are no archive.
    Format { message: String },
    /// No member of the archive has the path asked for.
    NotFound { path: String },
    /// The member asked for is no UTF-8 text.
    NotText { path: String },
}

/// Puts an I/O error into words with its `Display` form.
#[verifier::external_body]
fn describe(error: std::io::Error) -> (out: ArchiveError)
    ensures
        out is Format,
{
    ArchiveError::Format { message: error.to_string() }
}

/// The permission bits have a form that reads the same wherever the option
/// `a+rX,u+w,go-w` was applied: everybody may read, the owner may write,
/// nobody else may, and either everybody or nobody may execute.
pub open spec fn normalized_mode(mode: u32) -> u32 {
    if mode & 0o111 != 0 {
        (mode & 0o7000) | 0o755
    } else {
        (mode & 0o7000) | 0o644
    }
}

/// The permission bits of a file as they go into an archive.
pub fn normalize_mode(mode: u32) -> (out: u32)
    ensures
        out == normalized_mode(mode),
{
    if mode & 0o111 != 0 {
        (mode & 0o7000) | 0o755
    } else {
        (mode & 0o7000) | 0o644
    }
}

/// Normalising permission bits is what the option `a+rX,u+w,go-w` does to
/// a file: read for all is added, execute for all where anybody had it,
/// write for the owner is added and write for group and others taken
/// away; bits above the permissions stay.
pub proof fn lemma_mode_is_option(mode: u32)
    requires
        mode <= 0o7777,
    ensures
        normalized_mode(mode) == ((mode | 0o444 | (if mode & 0o111 != 0 {
            0o111u32
        } else {
            0u32
        }) | 0o200) & !0o022u32),
        normalized_mode(normalized_mode(mode)) == normalized_mode(mode),
{
    assert(mode <= 0o7777 ==> ((mode & 0o7000) | 0o755) == ((mode | 0o444 | 0o111 | 0o200)
        & !0o022u32) || mode & 0o111 == 0) by (bit_vector);
    assert(mode <= 0o7777 && mode & 0o111 == 0 ==> ((mode & 0o7000) | 0o644) == ((mode | 0o444 | 0
        | 0o200) & !0o022u32)) by (bit_vector);
    assert((((mode & 0o7000) | 0o755) & 0o111) != 0) by (bit_vector);
    assert((((mode & 0o7000) | 0o644) & 0o111) == 0) by (bit_vector);
    assert(((((mode & 0o7000) | 0o755) & 0o7000) | 0o755) == ((mode & 0o7000) | 0o755))
        by (bit_vector);
    assert(((((mode & 0o7000) | 0o644) & 0o7000) | 0o644) == ((mode & 0o7000) | 0o644))
        by (bit_vector);
}

/// The permission bits of every link.
pub const LINK_MODE: u32 = 0o777;

/// The entry that is written for a member: a file with normalised
/// permission bits, a link with those of links, both owned by 0/0 and
/// dated with the fixed time.
pub open spec fn entry_of(member: MemberView) -> Entry {
    Entry {
        member: MemberView {
            path: member.path,
            target: member.target,
            mode: if member.target is Some {
                LINK_MODE
            } else {
                normalized_mode(member.mode)
            },
            content: member.content,
        },
        owner: 0,
        mtime: FIXED_MTIME as u64,
    }
}

/// The views of a sequence of members.
pub open spec fn member_views(members: Seq<Member>) -> Seq<MemberView> {
    Seq::new(members.len(), |i: int| members[i]@)
}

/// The entries that are written for the members, in order.
pub open spec fn entries_of(members: Seq<MemberView>) -> Seq<Entry> {
    Seq::new(members.len(), |i: int| entry_of(members[i]))
}

/// The place of a path among members that stand in the order of their
/// paths: behind all those at the front whose path comes before it or is
/// the same.
pub open spec fn place_of(members: Seq<MemberView>, path: Seq<char>) -> int
    decreases members.len(),
{
    if members.len() == 0 {
        0
    } else if lex_le(members[0].path, path) {
        1 + place_of(members.drop_first(), path)
    } else {
        0
    }
}

/// The members in the order of their paths; members of the same path keep
/// their order.
pub open spec fn by_path(members: Seq<MemberView>) -> Seq<MemberView>
    decreases members.len(),
{
    if members.len() == 0 {
        members
    } else {
        let rest = by_path(members.drop_last());
        rest.insert(place_of(rest, members.last().path), members.last())
    }
}

/// The bytes of the archive of the members: the stream that is started
/// with the fixed time and holds their entries in the order of their
/// paths.
pub open spec fn archive_of(members: Seq<MemberView>) -> Seq<u8> {
    packed(FIXED_MTIME, entries_of(by_path(members)))
}

/// The path of every member, and the target of every link, is portable.
pub open spec fn members_portable(members: Seq<MemberView>) -> bool {
    forall|i: int|
        0 <= i < members.len() ==> is_portable((#[trigger] members[i]).path) && (
        members[i].target matches Some(target) ==> is_portable(target))
}

/// Every member can be written on every platform: its path is plain, and
/// so is the target of every link.
pub open spec fn members_plain(members: Seq<MemberView>) -> bool {
    forall|i: int|
        0 <= i < members.len() ==> is_plain((#[trigger] members[i]).path) && (
        members[i].target matches Some(target) ==> is_plain_target(target))
}

/// Plain members are portable.
pub proof fn lemma_plain_is_portable(members: Seq<MemberView>)
    requires
        members_plain(members),
    ensures
        members_portable(members),
{
    assert forall|i: int| 0 <= i < members.len() implies is_portable(
        (#[trigger] members[i]).path,
    ) && (members[i].target matches Some(target) ==> is_portable(target)) by {
        assert(is_plain(members[i].path));
    }
}

/// The members at the given places, in the order of the places.
pub open spec fn arranged(members: Seq<MemberView>, order: Seq<usize>) -> Seq<MemberView> {
    Seq::new(order.len(), |j: int| members[order[j] as int])
}

/// The place of a path is a place.
proof fn lemma_place_bounds(members: Seq<MemberView>, path: Seq<char>)
    ensures
        0 <= place_of(members, path) <= members.len(),
    decreases members.len(),
{
    if members.len() > 0 && lex_le(members[0].path, path) {
        lemma_place_bounds(members.drop_first(), path);
    }
}

/// The places of the members in the order of their paths.
fn path_order(members: &Vec<Member>) -> (order: Vec<usize>)
    ensures
        order.len() == members.len(),
        forall|j: int| 0 <= j < order.len() ==> (#[trigger] order@[j]) < members.len(),
        arranged(member_views(members@), order@) == by_path(member_views(members@)),
{
    let ghost all = member_views(members@);
    let mut keys: Vec<Vec<char>> = Vec::new();
    let mut order: Vec<usize> = Vec::new();
    let mut i: usize = 0;
    assert(all.take(0) =~= Seq::<MemberView>::empty());
    assert(arranged(all, order@) =~= by_path(all.take(0)));
    while i < members.len()
        invariant
            i <= members.len(),
            all == member_views(members@),
            keys.len() == order.len(),
            order.len() == i,
            forall|j: int| 0 <= j < order.len() ==> (#[trigger] order@[j]) < i,
            forall|j: int|
                0 <= j < order.len() ==> (#[trigger] keys@[j])@ == all[order@[j] as int].path,
            arranged(all, order@) == by_path(all.take(i as int)),
        decreases members.len() - i,
    {
        let ghost current = arranged(all, order@);
        let key = chars_of(members[i].path.as_str());
        assert(key@ == all[i as int].path);
        let mut p: usize = 0;
        assert(current.skip(0) =~= current);
        while p < keys.len() && le_chars(keys[p].as_slice(), key.as_slice())
            invariant
                p <= keys.len(),
                keys.len() == order.len(),
                current == arranged(all, order@),
                forall|j: int|
                    0 <= j < order.len() ==> (#[trigger] keys@[j])@ == all[order@[j] as int].path,
                place_of(current, key@) == p + place_of(current.skip(p as int), key@),
            decreases keys.len() - p,
        {
            assert(current.skip(p as int)[0] == current[p as int]);
            assert(current[p as int].path == keys@[p as int]@);
            assert(current.skip(p as int).drop_first() =~= current.skip(p + 1));
            p += 1;
        }
        proof {
            if p < keys.len() {
                assert(current.skip(p as int)[0] == current[p as int]);
                assert(current[p as int].path == keys@[p as int]@);
            }
            assert(place_of(current, key@) == p);
            assert(all.take(i + 1).drop_last() =~= all.take(i as int));
            assert(all.take(i + 1).last() == all[i as int]);
        }
        keys.insert(p, key);
        order.insert(p, i);
        assert(arranged(all, order@) =~= current.insert(p as int, all[i as int]));
        i += 1;
    }
    assert(all.take(members.len() as int) =~= all);
    order
}

/// The archive that holds `members`: gzip-compressed tar, the members in
/// the order of their paths, every member owned by 0/0 and dated alike,
/// files with normalised permission bits, links as links. Plain members
/// are always archived; an error comes only where the format refuses a
/// path or a target. With portable paths the bytes depend on the members
/// alone.
pub fn create_archive(members: &Vec<Member>) -> (r: Result<Vec<u8>, ArchiveError>)
    ensures
        members_plain(member_views(members@)) ==> r is Ok,
        r matches Ok(bytes) ==> (members_portable(member_views(members@)) ==> bytes@
            == archive_of(member_views(members@))),
        r matches Err(e) ==> e is Format,
{
    let order = path_order(members);
    let mut writer = start_archive(FIXED_MTIME);
    let mut k: usize = 0;
    let ghost portable = members_portable(member_views(members@));
    let ghost plain = members_plain(member_views(members@));
    let ghost sorted = by_path(member_views(members@));
    let ghost all = entries_of(sorted);
    assert(written(writer) =~= all.take(0));
    while k < order.len()
        invariant
            k <= order.len(),
            order.len() == members.len(),
            forall|j: int| 0 <= j < order.len() ==> (#[trigger] order@[j]) < members.len(),
            stamp(writer) == FIXED_MTIME,
            sorted == by_path(member_views(members@)),
            sorted == arranged(member_views(members@), order@),
            all == entries_of(sorted),
            portable == members_portable(member_views(members@)),
            plain == members_plain(member_views(members@)),
            portable ==> written(writer) == all.take(k as int),
        decreases order.len() - k,
    {
        let at: usize = order[k];
        let member = &members[at];
        proof {
            assert(sorted[k as int] == member_views(members@)[at as int]);
            if portable {
                assert(is_portable(member_views(members@)[at as int].path));
            }
            if plain {
                assert(is_plain(member_views(members@)[at as int].path));
            }
        }
        let appended = match &member.kind {
            MemberKind::File { mode, content } => append_file(
                &mut writer,
                member.path.as_str(),
                normalize_mode(*mode),
                0,
                FIXED_MTIME as u64,
                content.as_slice(),
            ),
            MemberKind::Symlink { target } => append_symlink(
                &mut writer,
                member.path.as_str(),
                target.as_str(),
                LINK_MODE,
                0,
                FIXED_MTIME as u64,
            ),
        };
        match appended {
            Err(e) => {
                return Err(describe(e));
            },
            Ok(_) => {},
        }
        assert(all.take(k + 1) =~= all.take(k as int).push(all[k as int]));
        k += 1;
    }
    assert(all.take(order.len() as int) =~= all);
    match finish_archive(writer) {
        Err(e) => Err(describe(e)),
        Ok(bytes) => Ok(bytes),
    }
}

/// The test for a member that goes into the archive of a tree: its path
/// is no litter and, with `cleanup`, no documentation.
pub open spec fn kept_test(cleanup: bool) -> spec_fn(MemberView) -> bool {
    |member: MemberView| is_member_path(member.path, cleanup)
}

/// The members of the archive of a tree: the files and links of the tree
/// that are no litter and, with `cleanup`, no documentation.
pub open spec fn kept_of(files: Seq<MemberView>, cleanup: bool) -> Seq<MemberView> {
    files.filter(kept_test(cleanup))
}

/// The archive of a tree, given every file and link of the tree: litter
/// is left out and, with `cleanup`, documentation; what is left is
/// archived in the order of its paths, with fixed owner, time and
/// normalised permission bits. Members that are plain are always
/// archived.
pub fn archive_tree(files: Vec<Member>, cleanup: bool) -> (r: Result<Vec<u8>, ArchiveError>)
    ensures
        members_plain(kept_of(member_views(files@), cleanup)) ==> r is Ok,
        r matches Ok(bytes) ==> (members_portable(kept_of(member_views(files@), cleanup))
            ==> bytes@ == archive_of(kept_of(member_views(files@), cleanup))),
        r matches Err(e) ==> e is Format,
{
    let ghost all = member_views(files@);
    let ghost test = kept_test(cleanup);
    let mut rest = files;
    let n: usize = rest.len();
    let mut kept: Vec<Member> = Vec::new();
    let mut i: usize = 0;
    proof {
        lemma_filter_none(all, test);
    }
    assert(member_views(kept@) =~= Seq::<MemberView>::empty());
    while i < n
        invariant
            i <= n,
            n == rest.len(),
            n == all.len(),
            test == kept_test(cleanup),
            forall|j: int| i <= j < n ==> (#[trigger] rest@[j])@ == all[j],
            member_views(kept@) == all.take(i as int).filter(test),
        decreases n - i,
    {
        proof {
            lemma_filter_step(all, i as int, test);
        }
        if is_member_file(rest[i].path.as_str(), cleanup) {
            let mut member = Member {
                path: String::new(),
                kind: MemberKind::File { mode: 0, content: Vec::new() },
            };
            std::mem::swap(&mut member, &mut rest[i]);
            assert(member@ == all[i as int]);
            let ghost before = member_views(kept@);
            kept.push(member);
            assert(member_views(kept@) =~= before.push(all[i as int]));
        }
        i += 1;
    }
    assert(all.take(n as int) =~= all);
    create_archive(&kept)
}

/// The members stand in the order of their paths.
pub open spec fn sorted_by_path(members: Seq<MemberView>) -> bool {
    forall|i: int, j: int|
        0 <= i <= j < members.len() ==> lex_le(members[i].path, members[j].path)
}

/// No two members have the same path.
pub open spec fn distinct_paths(members: Seq<MemberView>) -> bool {
    forall|i: int, j: int|
        0 <= i < j < members.len() ==> members[i].path != members[j].path
}

/// Among sorted members, those before the place of a path come before the
/// path or have it, and the path comes before those from its place on.
proof fn lemma_place_splits(members: Seq<MemberView>, path: Seq<char>)
    requires
        sorted_by_path(members),
    ensures
        0 <= place_of(members, path) <= members.len(),
        forall|j: int| 0 <= j < place_of(members, path) ==> lex_le(
            (#[trigger] members[j]).path,
            path,
        ),
        forall|j: int|
            place_of(members, path) <= j < members.len() ==> lex_le(
                path,
                (#[trigger] members[j]).path,
            ),
    decreases members.len(),
{
    if members.len() > 0 {
        let rest = members.drop_first();
        assert forall|i: int, j: int| 0 <= i <= j < rest.len() implies lex_le(
            rest[i].path,
            rest[j].path,
        ) by {
            assert(rest[i] == members[i + 1]);
            assert(rest[j] == members[j + 1]);
        }
        if lex_le(members[0].path, path) {
            lemma_place_splits(rest, path);
            let p = place_of(members, path);
            assert forall|j: int| 0 <= j < p implies lex_le((#[trigger] members[j]).path, path) by {
                if j > 0 {
                    assert(members[j] == rest[j - 1]);
                }
            }
            assert forall|j: int| p <= j < members.len() implies lex_le(
                path,
                (#[trigger] members[j]).path,
            ) by {
                assert(members[j] == rest[j - 1]);
            }
        } else {
            lemma_le_total(members[0].path, path);
            assert forall|j: int| 0 <= j < members.len() implies lex_le(
                path,
                (#[trigger] members[j]).path,
            ) by {
                lemma_le_transitive(path, members[0].path, members[j].path);
            }
        }
    }
}

/// Ordering by path arranges the members anew: what comes out stands in
/// the order of the paths and holds the same members, each as often.
pub proof fn lemma_by_path_arranges(members: Seq<MemberView>)
    ensures
        sorted_by_path(by_path(members)),
        by_path(members).to_multiset() == members.to_multiset(),
        by_path(members).len() == members.len(),
    decreases members.len(),
{
    if members.len() > 0 {
        let init = members.drop_last();
        let x = members.last();
        let rest = by_path(init);
        lemma_by_path_arranges(init);
        lemma_place_splits(rest, x.path);
        let p = place_of(rest, x.path);
        let out = rest.insert(p, x);
        lemma_le_reflexive(x.path);
        assert forall|i: int, j: int| 0 <= i <= j < out.len() implies lex_le(
            out[i].path,
            out[j].path,
        ) by {
            if i < p {
                assert(out[i] == rest[i]);
            } else if i > p {
                assert(out[i] == rest[i - 1]);
            }
            if j < p {
                assert(out[j] == rest[j]);
            } else if j > p {
                assert(out[j] == rest[j - 1]);
            }
        }
        lemma_insert_holds(rest, p, x);
        vstd::seq_lib::to_multiset_build(init, x);
        assert(init.push(x) =~= members);
    }
}

/// Members that stand in the order of their paths, hold the same members
/// and have no path twice are the same sequence.
proof fn lemma_sorted_agree(x: Seq<MemberView>, y: Seq<MemberView>)
    requires
        sorted_by_path(x),
        sorted_by_path(y),
        distinct_paths(x),
        x.to_multiset() == y.to_multiset(),
    ensures
        x == y,
    decreases x.len(),
{
    broadcast use vstd::multiset::group_multiset_axioms;

    x.to_multiset_ensures();
    y.to_multiset_ensures();
    assert(x.len() == y.len());
    if x.len() == 0 {
        assert(x =~= y);
    } else {
        assert(y.contains(y[0]));
        assert(x.to_multiset().count(y[0]) > 0);
        assert(x.contains(y[0]));
        let i = choose|i: int| 0 <= i < x.len() && x[i] == y[0];
        assert(x.contains(x[0]));
        assert(y.to_multiset().count(x[0]) > 0);
        assert(y.contains(x[0]));
        let j = choose|j: int| 0 <= j < y.len() && y[j] == x[0];
        assert(lex_le(x[0].path, x[i].path));
        assert(lex_le(y[0].path, y[j].path));
        lemma_le_antisymmetric(x[0].path, x[i].path);
        assert(i == 0);
        assert(x[0] == y[0]);
        let xs = x.drop_first();
        let ys = y.drop_first();
        assert(xs =~= x.remove(0));
        assert(ys =~= y.remove(0));
        vstd::seq_lib::to_multiset_remove(x, 0);
        vstd::seq_lib::to_multiset_remove(y, 0);
        assert forall|a: int, b: int| 0 <= a <= b < xs.len() implies lex_le(
            xs[a].path,
            xs[b].path,
        ) by {
            assert(xs[a] == x[a + 1]);
            assert(xs[b] == x[b + 1]);
        }
        assert forall|a: int, b: int| 0 <= a <= b < ys.len() implies lex_le(
            ys[a].path,
            ys[b].path,
        ) by {
            assert(ys[a] == y[a + 1]);
            assert(ys[b] == y[b + 1]);
        }
        assert forall|a: int, b: int| 0 <= a < b < xs.len() implies xs[a].path
            != xs[b].path by {
            assert(xs[a] == x[a + 1]);
            assert(xs[b] == x[b + 1]);
        }
        lemma_sorted_agree(xs, ys);
        assert(x =~= seq![x[0]] + xs);
        assert(y =~= seq![y[0]] + ys);
    }
}

/// A rearrangement of members without a path twice has no path twice.
proof fn lemma_distinct_carries(x: Seq<MemberView>, y: Seq<MemberView>)
    requires
        distinct_paths(x),
        x.to_multiset() == y.to_multiset(),
    ensures
        distinct_paths(y),
{
    broadcast use vstd::multiset::group_multiset_axioms;

    x.to_multiset_ensures();
    y.to_multiset_ensures();
    assert forall|a: int, b: int| 0 <= a < b < y.len() implies y[a].path != y[b].path by {
        if y[a].path == y[b].path {
            assert(y.contains(y[a]));
            assert(y.contains(y[b]));
            assert(x.to_multiset().count(y[a]) > 0);
            assert(x.to_multiset().count(y[b]) > 0);
            assert(x.contains(y[a]));
            assert(x.contains(y[b]));
            let i = choose|i: int| 0 <= i < x.len() && x[i] == y[a];
            let j = choose|j: int| 0 <= j < x.len() && x[j] == y[b];
            assert(i == j);
            assert(y[a] == y[b]);
            let once = y.remove(b);
            vstd::seq_lib::to_multiset_remove(y, b);
            once.to_multiset_ensures();
            assert(once[a] == y[a]);
            assert(once.contains(y[a]));
            assert(once.to_multiset().count(y[a]) > 0);
            assert(y.to_multiset().count(y[b]) > 0);
            assert(y.to_multiset().count(y[a]) >= 2);
            let rest = x.remove(i);
            vstd::seq_lib::to_multiset_remove(x, i);
            rest.to_multiset_ensures();
            assert(x.to_multiset().count(x[i]) >= 2);
            assert(rest.to_multiset().count(x[i]) >= 1);
            assert(rest.contains(x[i]));
            let k = choose|k: int| 0 <= k < rest.len() && rest[k] == x[i];
            if k < i {
                assert(x[k] == x[i]);
            } else {
                assert(x[k + 1] == x[i]);
            }
        }
    }
}

/// Archives are reproducible. The archive of a tree depends on what the
/// tree holds and not on the order in which it was walked: members that
/// are the same as plain values, each path once, give archives that are
/// the same byte for byte, in whatever order they are handed over.
pub proof fn law_archive_is_reproducible(first: Seq<MemberView>, second: Seq<MemberView>)
    requires
        distinct_paths(first),
        first.to_multiset() == second.to_multiset(),
    ensures
        by_path(first) == by_path(second),
        archive_of(first) == archive_of(second),
{
    lemma_by_path_arranges(first);
    lemma_by_path_arranges(second);
    lemma_distinct_carries(first, by_path(first));
    lemma_sorted_agree(by_path(first), by_path(second));
}

/// Leaving members out leaves no path twice where none was twice.
proof fn lemma_kept_distinct(files: Seq<MemberView>, cleanup: bool)
    requires
        distinct_paths(files),
    ensures
        distinct_paths(kept_of(files, cleanup)),
    decreases files.len(),
{
    reveal(Seq::filter);
    let test = kept_test(cleanup);
    let kept = files.filter(test);
    if files.len() > 0 {
        let rest = files.drop_last();
        let last = files.last();
        assert forall|i: int, j: int| 0 <= i < j < rest.len() implies rest[i].path
            != rest[j].path by {
            assert(rest[i] == files[i]);
            assert(rest[j] == files[j]);
        }
        lemma_kept_distinct(rest, cleanup);
        lemma_filter_holds(rest, test);
        let before = rest.filter(test);
        assert(kept == if test(last) {
            before.push(last)
        } else {
            before
        });
        assert forall|i: int, j: int| 0 <= i < j < kept.len() implies kept[i].path
            != kept[j].path by {
            if j < before.len() {
                assert(kept[i] == before[i]);
                assert(kept[j] == before[j]);
            } else {
                assert(kept[j] == last);
                assert(kept[i] == before[i]);
                assert(before.contains(before[i]));
                assert(rest.contains(before[i]));
                let k = choose|k: int| 0 <= k < rest.len() && rest[k] == before[i];
                assert(files[k] == before[i]);
                assert(files[files.len() - 1] == last);
            }
        }
    }
}

/// The archive of a tree is reproducible. It depends on the files and
/// links of the tree and on `cleanup`, not on the order in which the tree
/// was walked: trees that hold the same members, each path once, give
/// archives that are the same byte for byte.
pub proof fn law_tree_archive_is_reproducible(
    first: Seq<MemberView>,
    second: Seq<MemberView>,
    cleanup: bool,
)
    requires
        distinct_paths(first),
        first.to_multiset() == second.to_multiset(),
    ensures
        archive_of(kept_of(first, cleanup)) == archive_of(kept_of(second, cleanup)),
{
    let test = kept_test(cleanup);
    lemma_filter_counts(first, test);
    lemma_filter_counts(second, test);
    assert(first.filter(test).to_multiset() =~= second.filter(test).to_multiset());
    lemma_kept_distinct(first, cleanup);
    law_archive_is_reproducible(kept_of(first, cleanup), kept_of(second, cleanup));
}

/// Archives do not tell permission bits apart that normalise alike: only
/// whether somebody may execute a file, and the bits above the
/// permissions, go into the archive.
pub proof fn law_archive_normalises_modes(first: Seq<MemberView>, second: Seq<MemberView>)
    requires
        first.len() == second.len(),
        forall|i: int|
            0 <= i < first.len() ==> {
                &&& (#[trigger] first[i]).path == second[i].path
                &&& first[i].target == second[i].target
                &&& first[i].content == second[i].content
                &&& first[i].target is None ==> normalized_mode(first[i].mode) == normalized_mode(
                    second[i].mode,
                )
            },
    ensures
        entries_of(first) == entries_of(second),
{
    assert(entries_of(first) =~= entries_of(second));
}

/// The views of a sequence of byte vectors.
pub open spec fn byte_views(v: Seq<Vec<u8>>) -> Seq<Seq<u8>> {
    Seq::new(v.len(), |i: int| v[i]@)
}

/// The views of a sequence of pairs of byte vectors.
pub open spec fn pair_views(v: Seq<(Vec<u8>, Vec<u8>)>) -> Seq<(Seq<u8>, Seq<u8>)> {
    Seq::new(v.len(), |i: int| (v[i].0@, v[i].1@))
}

/// The paths of the members of an archive, as bytes and in order; none
/// where the bytes are no gzip-compressed tar archive.
pub uninterp spec fn listed(archive: Seq<u8>) -> Option<Seq<Seq<u8>>>;

/// The members of an archive, each as its path and its content, in order;
/// none where the bytes are no gzip-compressed tar archive.
pub uninterp spec fn unpacked(archive: Seq<u8>) -> Option<Seq<(Seq<u8>, Seq<u8>)>>;

/// Reads the table of contents: walks `tar::Archive::entries` over
/// `flate2::read::GzDecoder` and takes `path_bytes` of each entry. What
/// comes out depends on the bytes of the archive alone.
#[verifier::external_body]
fn read_paths(archive: &[u8]) -> (r: Result<Vec<Vec<u8>>, std::io::Error>)
    ensures
        match r {
            Ok(paths) => listed(archive@) == Some(byte_views(paths@)),
            Err(_) => listed(archive@) is None,
        },
{
    let mut reader = tar::Archive::new(flate2::read::GzDecoder::new(archive));
    let mut paths = Vec::new();
    for entry in reader.entries()? {
        paths.push(entry?.path_bytes().into_owned());
    }
    Ok(paths)
}

/// Reads every member: walks `tar::Archive::entries` over
/// `flate2::read::GzDecoder` and takes `path_bytes` and the data of each
/// entry. What comes out depends on the bytes of the archive alone.
#[verifier::external_body]
fn read_members(archive: &[u8]) -> (r: Result<Vec<(Vec<u8>, Vec<u8>)>, std::io::Error>)
    ensures
        match r {
            Ok(members) => unpacked(archive@) == Some(pair_views(members@)),
            Err(_) => unpacked(archive@) is None,
        },
{
    let mut reader = tar::Archive::new(flate2::read::GzDecoder::new(archive));
    let mut members = Vec::new();
    for entry in reader.entries()? {
        let mut entry = entry?;
        let mut content = Vec::new();
        std::io::Read::read_to_end(&mut entry, &mut content)?;
        members.push((entry.path_bytes().into_owned(), content));
    }
    Ok(members)
}

/// The test for bytes that are text.
pub open spec fn text_test() -> spec_fn(Seq<u8>) -> bool {
    |bytes: Seq<u8>| valid_utf8(bytes)
}

/// The text that bytes encode.
pub open spec fn decoded() -> spec_fn(Seq<u8>) -> Seq<char> {
    |bytes: Seq<u8>| decode_utf8(bytes)
}

/// The paths that can be written down: those that are valid UTF-8, as
/// text and in order.
pub open spec fn readable(paths: Seq<Seq<u8>>) -> Seq<Seq<char>> {
    paths.filter(text_test()).map_values(decoded())
}

/// The paths among `paths` that are text, in order.
pub fn readable_paths(paths: Vec<Vec<u8>>) -> (out: Vec<String>)
    ensures
        views(out@) == readable(byte_views(paths@)),
{
    let ghost all = byte_views(paths@);
    let mut paths = paths;
    let n: usize = paths.len();
    let mut out: Vec<String> = Vec::new();
    let mut i: usize = 0;
    proof {
        lemma_filter_none(all, text_test());
    }
    assert(views(out@) =~= Seq::<Seq<u8>>::empty().map_values(decoded()));
    while i < n
        invariant
            i <= n,
            n == paths.len(),
            n == all.len(),
            forall|j: int| i <= j < n ==> paths[j]@ == all[j],
            views(out@) == all.take(i as int).filter(text_test()).map_values(decoded()),
        decreases n - i,
    {
        proof {
            lemma_filter_step(all, i as int, text_test());
        }
        let mut bytes: Vec<u8> = Vec::new();
        std::mem::swap(&mut bytes, &mut paths[i]);
        let ghost kept = all.take(i as int).filter(text_test());
        match text_of(bytes) {
            None => {},
            Some(text) => {
                let ghost before = views(out@);
                out.push(text);
                assert(views(out@) =~= before.push(decode_utf8(all[i as int])));
                assert(kept.push(all[i as int]).map_values(decoded()) =~= kept.map_values(
                    decoded(),
                ).push(decode_utf8(all[i as int])));
            },
        }
        i += 1;
    }
    assert(all.take(n as int) =~= all);
    out
}

/// The table of contents of an archive: the paths of its members that are
/// text, in order. An error exactly where the bytes are no archive.
pub fn archive_contents(archive: &[u8]) -> (r: Result<Vec<String>, ArchiveError>)
    ensures
        match r {
            Ok(paths) => listed(archive@) is Some && views(paths@) == readable(
                listed(archive@).unwrap(),
            ),
            Err(e) => listed(archive@) is None && e is Format,
        },
{
    match read_paths(archive) {
        Err(e) => Err(describe(e)),
        Ok(paths) => Ok(readable_paths(paths)),
    }
}

/// The table of contents of an archive as the text of a manifest: one
/// path per line. An error exactly where the bytes are no archive.
pub fn list_archive_files(archive: &[u8]) -> (r: Result<String, ArchiveError>)
    ensures
        match r {
            Ok(text) => listed(archive@) is Some && text@ == manifest_of(
                readable(listed(archive@).unwrap()),
            ),
            Err(e) => listed(archive@) is None && e is Format,
        },
{
    match archive_contents(archive) {
        Err(e) => Err(e),
        Ok(paths) => Ok(manifest_text(&paths)),
    }
}

/// The index of the first member whose path is `path`, or the number of
/// members where there is none.
pub open spec fn position_of(members: Seq<(Seq<u8>, Seq<u8>)>, path: Seq<u8>) -> int
    decreases members.len(),
{
    if members.len() == 0 {
        0
    } else if members[0].0 == path {
        0
    } else {
        1 + position_of(members.drop_first(), path)
    }
}

/// What reading one member as text gives.
pub enum Lookup {
    /// The content of the member.
    Text(Seq<char>),
    /// No member has the path.
    Missing,
    /// The first member with the path is no text.
    Binary,
}

/// The content of the first member of `members` whose path is `path`.
pub open spec fn lookup(members: Seq<(Seq<u8>, Seq<u8>)>, path: Seq<u8>) -> Lookup {
    let at = position_of(members, path);
    if at >= members.len() {
        Lookup::Missing
    } else if valid_utf8(members[at].1) {
        Lookup::Text(decode_utf8(members[at].1))
    } else {
        Lookup::Binary
    }
}

/// Whether two byte strings are the same.
fn same_bytes(a: &[u8], b: &[u8]) -> (r: bool)
    ensures
        r == (a@ == b@),
{
    if a.len() != b.len() {
        return false;
    }
    let mut i: usize = 0;
    while i < a.len()
        invariant
            i <= a.len(),
            a.len() == b.len(),
            forall|j: int| 0 <= j < i ==> a[j] == b[j],
        decreases a.len() - i,
    {
        if a[i] != b[i] {
            return false;
        }
        i += 1;
    }
    assert(a@ =~= b@);
    true
}

/// The content of the first of `members` whose path is `file_path`, as
/// text.
pub fn find_member(members: Vec<(Vec<u8>, Vec<u8>)>, file_path: &str) -> (r: Result<
    String,
    ArchiveError,
>)
    ensures
        match r {
            Ok(text) => lookup(pair_views(members@), file_path.spec_bytes()) == Lookup::Text(
                text@,
            ),
            Err(ArchiveError::NotFound { path }) => lookup(
                pair_views(members@),
                file_path.spec_bytes(),
            ) == Lookup::Missing && path@ == file_path@,
            Err(ArchiveError::NotText { path }) => lookup(
                pair_views(members@),
                file_path.spec_bytes(),
            ) == Lookup::Binary && path@ == file_path@,
            Err(ArchiveError::Format { .. }) => false,
        },
{
    let ghost all = pair_views(members@);
    let wanted = file_path.as_bytes();
    let mut rest = members;
    let n: usize = rest.len();
    let mut i: usize = 0;
    assert(all.skip(0) =~= all);
    while i < n
        invariant
            i <= n,
            n == rest.len(),
            all == pair_views(members@),
            all == pair_views(rest@),
            wanted@ == file_path.spec_bytes(),
            position_of(all, wanted@) == i + position_of(all.skip(i as int), wanted@),
        decreases n - i,
    {
        assert(all.skip(i as int)[0] == all[i as int]);
        assert(all.skip(i as int).drop_first() =~= all.skip(i + 1));
        assert(all[i as int] == (rest[i as int].0@, rest[i as int].1@));
        if same_bytes(rest[i].0.as_slice(), wanted) {
            assert(position_of(all.skip(i as int), wanted@) == 0);
            let member = rest.swap_remove(i);
            assert(member.1@ == all[i as int].1);
            return match text_of(member.1) {
                Some(text) => Ok(text),
                None => Err(ArchiveError::NotText { path: file_path.to_owned() }),
            };
        }
        i += 1;
    }
    Err(ArchiveError::NotFound { path: file_path.to_owned() })
}

/// The content of the member of an archive at `file_path`, as text. An
/// error where the bytes are no archive, where no member has the path and
/// where the member is no text.
pub fn read_file_from_archive(archive: &[u8], file_path: &str) -> (r: Result<
    String,
    ArchiveError,
>)
    ensures
        match r {
            Ok(text) => unpacked(archive@) is Some && lookup(
                unpacked(archive@).unwrap(),
                file_path.spec_bytes(),
            ) == Lookup::Text(text@),
            Err(ArchiveError::Format { .. }) => unpacked(archive@) is None,
            Err(ArchiveError::NotFound { path }) => unpacked(archive@) is Some && lookup(
                unpacked(archive@).unwrap(),
                file_path.spec_bytes(),
            ) == Lookup::Missing && path@ == file_path@,
            Err(ArchiveError::NotText { path }) => unpacked(archive@) is Some && lookup(
                unpacked(archive@).unwrap(),
                file_path.spec_bytes(),
            ) == Lookup::Binary && path@ == file_path@,
        },
{
    match read_members(archive) {
        Err(e) => Err(describe(e)),
        Ok(members) => find_member(members, file_path),
    }
}

} // verus!
