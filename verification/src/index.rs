//! The index of the archives that a release holds: for each its name, its
//! checksum, the day it was made and where it was uploaded from. The index
//! decides which files are uploaded again and is printed into the notes of
//! the release.

use md5::Digest;
use vstd::prelude::*;
use crate::order::{
    le_chars, lemma_insert_holds, lemma_le_reflexive, lemma_le_total, lemma_le_transitive, lex_le,
};
use crate::text::{
    char_views, chars_of, join, join_chars, lines, lines_chars, push_all, push_str, same_chars,
    string_of,
};

verus! {

/// One archive of a release.
#[derive(Debug)]
pub struct Package {
    /// File name of the archive.
    pub name: String,
    /// MD5 checksum of the archive, in hexadecimal digits.
    pub md5: String,
    /// The day the archive was made.
    pub created_at: String,
    /// The path the archive was uploaded from.
    pub path: String,
}

/// An entry of the index as plain values.
pub struct PackageView {
    pub name: Seq<char>,
    pub md5: Seq<char>,
    pub created_at: Seq<char>,
    pub path: Seq<char>,
}

impl View for Package {
    type V = PackageView;

    open spec fn view(&self) -> PackageView {
        PackageView {
            name: self.name@,
            md5: self.md5@,
            created_at: self.created_at@,
            path: self.path@,
        }
    }
}

/// The views of the entries of an index.
pub open spec fn package_views(packages: Seq<Package>) -> Seq<PackageView> {
    Seq::new(packages.len(), |i: int| packages[i]@)
}

/// The MD5 checksum of a content, in lower-case hexadecimal digits.
pub uninterp spec fn md5_of(content: Seq<u8>) -> Seq<char>;

/// Computes the MD5 checksum with `Digest::digest` of the `md-5` crate and
/// prints it in lower-case hexadecimal digits. The checksum depends on the
/// content alone.
#[verifier::external_body]
fn digest_hex(content: &[u8]) -> (out: String)
    ensures
        out@ == md5_of(content@),
{
    format!("{:x}", md5::Md5::digest(content))
}

/// The MD5 checksum of a file with this content.
pub fn checksum(content: &[u8]) -> (out: String)
    ensures
        out@ == md5_of(content@),
{
    digest_hex(content)
}

/// The place of the first entry named `name`, or the number of entries
/// where there is none.
pub open spec fn position_of(packages: Seq<PackageView>, name: Seq<char>) -> int
    decreases packages.len(),
{
    if packages.len() == 0 {
        0
    } else if packages[0].name == name {
        0
    } else {
        1 + position_of(packages.drop_first(), name)
    }
}

/// The index after a file is recorded: a new name gets an entry at the
/// end; a known name with another checksum gets the new checksum, day and
/// path; a known name with the same checksum changes nothing.
pub open spec fn recorded(packages: Seq<PackageView>, file: PackageView) -> Seq<PackageView> {
    let at = position_of(packages, file.name);
    if at >= packages.len() {
        packages.push(file)
    } else if packages[at].md5 != file.md5 {
        packages.update(at, file)
    } else {
        packages
    }
}

/// Whether a file is uploaded: unless the index knows its name with the
/// same checksum.
pub open spec fn is_changed(packages: Seq<PackageView>, file: PackageView) -> bool {
    let at = position_of(packages, file.name);
    at >= packages.len() || packages[at].md5 != file.md5
}

/// Records a file in the index and says whether it has to be uploaded.
pub fn record_package(packages: &mut Vec<Package>, file: Package) -> (upload: bool)
    ensures
        package_views(final(packages)@) == recorded(package_views(old(packages)@), file@),
        upload == is_changed(package_views(old(packages)@), file@),
{
    let ghost all = package_views(packages@);
    let name = chars_of(file.name.as_str());
    let hash = chars_of(file.md5.as_str());
    let mut i: usize = 0;
    assert(all.skip(0) =~= all);
    while i < packages.len()
        invariant
            i <= packages.len(),
            packages == old(packages),
            all == package_views(packages@),
            name@ == file.name@,
            hash@ == file.md5@,
            position_of(all, file.name@) == i + position_of(all.skip(i as int), file.name@),
        decreases packages.len() - i,
    {
        assert(all.skip(i as int)[0] == all[i as int]);
        assert(all.skip(i as int).drop_first() =~= all.skip(i + 1));
        assert(all[i as int] == packages[i as int]@);
        let have = chars_of(packages[i].name.as_str());
        if same_chars(have.as_slice(), name.as_slice()) {
            let known = chars_of(packages[i].md5.as_str());
            if same_chars(known.as_slice(), hash.as_slice()) {
                assert(package_views(packages@) =~= recorded(all, file@));
                return false;
            }
            let ghost entry = file@;
            packages.set(i, file);
            assert(package_views(packages@) =~= all.update(i as int, entry));
            return true;
        }
        i += 1;
    }
    let ghost entry = file@;
    packages.push(file);
    assert(package_views(packages@) =~= all.push(entry));
    true
}

/// The entries stand in the order of their names.
pub open spec fn sorted_by_name(packages: Seq<PackageView>) -> bool {
    forall|i: int, j: int|
        0 <= i <= j < packages.len() ==> lex_le(packages[i].name, packages[j].name)
}

/// The index in the order of the names of its entries; entries of the
/// same name keep their order.
pub fn sort_by_name(packages: &Vec<Package>) -> (out: Vec<Package>)
    ensures
        sorted_by_name(package_views(out@)),
        package_views(out@).to_multiset() == package_views(packages@).to_multiset(),
{
    let ghost all = package_views(packages@);
    let mut keys: Vec<Vec<char>> = Vec::new();
    let mut out: Vec<Package> = Vec::new();
    let mut i: usize = 0;
    assert(all.take(0) =~= Seq::<PackageView>::empty());
    assert(package_views(out@) =~= Seq::<PackageView>::empty());
    while i < packages.len()
        invariant
            i <= packages.len(),
            all == package_views(packages@),
            keys.len() == out.len(),
            forall|j: int| 0 <= j < out.len() ==> (#[trigger] keys@[j])@ == out@[j].name@,
            sorted_by_name(package_views(out@)),
            package_views(out@).to_multiset() == all.take(i as int).to_multiset(),
        decreases packages.len() - i,
    {
        let source = &packages[i];
        let key = chars_of(source.name.as_str());
        let mut p: usize = 0;
        while p < keys.len() && le_chars(keys[p].as_slice(), key.as_slice())
            invariant
                p <= keys.len(),
                keys.len() == out.len(),
                key@ == source.name@,
                forall|j: int| 0 <= j < out.len() ==> (#[trigger] keys@[j])@ == out@[j].name@,
                forall|j: int| 0 <= j < p ==> lex_le(#[trigger] out@[j].name@, key@),
            decreases keys.len() - p,
        {
            p += 1;
        }
        let entry = Package {
            name: source.name.clone(),
            md5: source.md5.clone(),
            created_at: source.created_at.clone(),
            path: source.path.clone(),
        };
        assert(entry@ == all[i as int]);
        let ghost before = package_views(out@);
        proof {
            lemma_le_reflexive(key@);
            if p < keys.len() {
                lemma_le_total(out@[p as int].name@, key@);
                assert forall|j: int| p <= j < out.len() implies lex_le(
                    key@,
                    #[trigger] out@[j].name@,
                ) by {
                    assert(lex_le(before[p as int].name, before[j].name));
                    lemma_le_transitive(key@, out@[p as int].name@, out@[j].name@);
                }
            }
            lemma_insert_holds(before, p as int, entry@);
            vstd::seq_lib::to_multiset_build(all.take(i as int), entry@);
            assert(all.take(i + 1) =~= all.take(i as int).push(entry@));
        }
        keys.insert(p, key);
        out.insert(p, entry);
        proof {
            let after = package_views(out@);
            assert(after =~= before.insert(p as int, all[i as int]));
            assert forall|a: int, b: int| 0 <= a <= b < after.len() implies lex_le(
                after[a].name,
                after[b].name,
            ) by {
                if a < p {
                    assert(after[a] == before[a]);
                } else if a > p {
                    assert(after[a] == before[a - 1]);
                }
                if b < p {
                    assert(after[b] == before[b]);
                } else if b > p {
                    assert(after[b] == before[b - 1]);
                }
            }
        }
        i += 1;
    }
    assert(all.take(packages.len() as int) =~= all);
    out
}

/// One line of the table of checksums: checksum, tabulator, name.
pub open spec fn table_line(package: PackageView) -> Seq<char> {
    package.md5 + "\t"@ + package.name
}

/// The table of checksums: a heading and one line for each entry.
pub open spec fn table_of(packages: Seq<PackageView>) -> Seq<char> {
    "md5\tname\n"@ + join(Seq::new(packages.len(), |i: int| table_line(packages[i])), "\n"@)
}

/// The table of the checksums of the index.
pub fn checksum_table(packages: &Vec<Package>) -> (out: String)
    ensures
        out@ == table_of(package_views(packages@)),
{
    let mut rows: Vec<Vec<char>> = Vec::new();
    let mut i: usize = 0;
    while i < packages.len()
        invariant
            i <= packages.len(),
            rows.len() == i,
            forall|j: int| 0 <= j < i ==> (#[trigger] rows@[j])@ == table_line(packages@[j]@),
        decreases packages.len() - i,
    {
        let mut row: Vec<char> = Vec::new();
        push_str(&mut row, packages[i].md5.as_str());
        push_str(&mut row, "\t");
        push_str(&mut row, packages[i].name.as_str());
        assert(row@ =~= table_line(packages@[i as int]@));
        rows.push(row);
        i += 1;
    }
    assert(char_views(rows@) =~= Seq::new(
        packages.len() as nat,
        |i: int| table_line(package_views(packages@)[i]),
    ));
    let newline = chars_of("\n");
    let body = join_chars(&rows, newline.as_slice());
    let mut text: Vec<char> = Vec::new();
    push_str(&mut text, "md5\tname\n");
    push_all(&mut text, body.as_slice());
    string_of(text.as_slice())
}

/// The lines but for the first.
pub open spec fn after_first(lines: Seq<Seq<char>>) -> Seq<Seq<char>> {
    if lines.len() == 0 {
        lines
    } else {
        lines.skip(1)
    }
}

/// The notes of a release: the document without its first line, and the
/// table of checksums in a block of its own.
pub open spec fn notes_of(document: Seq<char>, table: Seq<char>) -> Seq<char> {
    join(after_first(lines(document)), "\n"@) + "\n\n### MD5 Checksums\n\n```text\n"@ + table
        + "\n```"@
}

/// The notes of a release.
pub fn release_notes(document: &str, table: &str) -> (out: String)
    ensures
        out@ == notes_of(document@, table@),
{
    let doc = chars_of(document);
    let all = lines_chars(doc.as_slice());
    let mut rest: Vec<Vec<char>> = Vec::new();
    let mut i: usize = 1;
    assert(all.len() > 0 ==> char_views(rest@) =~= char_views(all@).subrange(1, 1));
    while i < all.len()
        invariant
            1 <= i,
            i <= all.len() || all.len() == 0,
            all.len() == 0 ==> rest.len() == 0,
            all.len() > 0 ==> char_views(rest@) == char_views(all@).subrange(1, i as int),
        decreases all.len() - i,
    {
        let ghost before = char_views(rest@);
        let mut line: Vec<char> = Vec::new();
        push_all(&mut line, all[i].as_slice());
        assert(line@ =~= all[i as int]@);
        rest.push(line);
        i += 1;
        assert(char_views(rest@) =~= before.push(all[i - 1]@));
        assert(char_views(all@).subrange(1, i as int) =~= char_views(all@).subrange(
            1,
            i - 1,
        ).push(all[i - 1]@));
    }
    proof {
        if all.len() > 0 {
            assert(char_views(all@).subrange(1, all.len() as int) =~= char_views(all@).skip(1));
        } else {
            assert(char_views(rest@) =~= char_views(all@));
        }
    }
    let newline = chars_of("\n");
    let mut text = join_chars(&rest, newline.as_slice());
    push_str(&mut text, "\n\n### MD5 Checksums\n\n```text\n");
    push_str(&mut text, table);
    push_str(&mut text, "\n```");
    string_of(text.as_slice())
}

} // verus!
