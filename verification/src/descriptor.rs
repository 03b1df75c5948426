//! The descriptor of a package: its name and, for each platform, where
//! the upstream download comes from and by which rules it is turned into
//! an installable tree. A descriptor is read once from its JSON document;
//! a document of another shape is refused with the reason.

use vstd::prelude::*;
use crate::json::{
    all_text, all_text_valued, pair_views, parsed, strict_pairs, strict_texts, text_at,
    text_pairs, texts_in, texts_of, Json,
};
use crate::text::{
    char_views, chars_of, join, join_chars, push_all, same_chars, string_of, views,
};

verus! {

/// Why a document is no descriptor of the package asked for.
#[derive(Debug, Clone, Copy, PartialEq, Eq, Structural)]
pub enum DescriptorError {
    /// The text is no JSON.
    Malformed,
    /// There is no member `name` that is a text.
    NameMissing,
    /// The name in the document is not the package asked for.
    NameMismatch,
    /// The member `downloads` is no object.
    DownloadsNotObject,
    /// The rules of a platform are no object.
    DownloadNotObject,
    /// A platform has no `url` that is a text.
    UrlMissing,
    /// `extract` is no text.
    ExtractNotText,
    /// `rename` is no object.
    RenameNotObject,
    /// The target of the first `rename` rule is no text.
    RenameTargetNotText,
    /// `symlink` is no object.
    SymlinkNotObject,
    /// The target of a `symlink` rule is no text.
    SymlinkTargetNotText,
    /// The content of a `wrapper` is neither a text nor an array.
    WrapperContentInvalid,
    /// `clean` is no array.
    CleanNotArray,
    /// A pattern under `clean` is no text.
    CleanPathNotText,
    /// `binary` is neither a text nor an array.
    BinaryInvalid,
}

/// The rules of one platform.
#[derive(Debug)]
pub struct DownloadSpec {
    /// Where the download comes from.
    pub url: String,
    /// The command line that unpacks the download; the system's tar where
    /// there is none.
    pub extract: Option<String>,
    /// The rename rule that is honoured, as pattern and target: the first
    /// of the document's.
    pub rename: Option<(String, String)>,
    /// Patterns of the paths that are deleted after unpacking.
    pub clean: Vec<String>,
    /// Links to make under `bin/`, as link name and target.
    pub symlink: Vec<(String, String)>,
    /// Scripts to write under `bin/`, as script name and content.
    pub wrapper: Vec<(String, String)>,
    /// Patterns of the files that make up the package; none where
    /// everything is packaged.
    pub binary: Option<Vec<String>>,
    /// Whether interpreter lines are made portable.
    pub shebang: bool,
    /// The file name under which the download is kept.
    pub download_name: Option<String>,
}

/// The rules of one platform as plain values.
pub struct DownloadView {
    pub url: Seq<char>,
    pub extract: Option<Seq<char>>,
    pub rename: Option<(Seq<char>, Seq<char>)>,
    pub clean: Seq<Seq<char>>,
    pub symlink: Seq<(Seq<char>, Seq<char>)>,
    pub wrapper: Seq<(Seq<char>, Seq<char>)>,
    pub binary: Option<Seq<Seq<char>>>,
    pub shebang: bool,
    pub download_name: Option<Seq<char>>,
}

impl View for DownloadSpec {
    type V = DownloadView;

    open spec fn view(&self) -> DownloadView {
        DownloadView {
            url: self.url@,
            extract: match self.extract {
                Some(s) => Some(s@),
                None => None,
            },
            rename: match self.rename {
                Some(p) => Some((p.0@, p.1@)),
                None => None,
            },
            clean: views(self.clean@),
            symlink: pair_views(self.symlink@),
            wrapper: pair_views(self.wrapper@),
            binary: match self.binary {
                Some(b) => Some(views(b@)),
                None => None,
            },
            shebang: self.shebang,
            download_name: match self.download_name {
                Some(s) => Some(s@),
                None => None,
            },
        }
    }
}

/// The descriptor of a package.
#[derive(Debug)]
pub struct PackageDescriptor {
    /// The name of the package.
    pub name: String,
    /// The member `type` of the document, where it is a text.
    pub kind: Option<String>,
    /// The rules of each platform, under the platform's key.
    pub downloads: Vec<(String, DownloadSpec)>,
}

/// A descriptor as plain values.
pub struct DescriptorView {
    pub name: Seq<char>,
    pub kind: Option<Seq<char>>,
    pub downloads: Seq<(Seq<char>, DownloadView)>,
}

/// The views of the rules of each platform.
pub open spec fn download_views(downloads: Seq<(String, DownloadSpec)>) -> Seq<
    (Seq<char>, DownloadView),
> {
    Seq::new(downloads.len(), |i: int| (downloads[i].0@, downloads[i].1@))
}

impl View for PackageDescriptor {
    type V = DescriptorView;

    open spec fn view(&self) -> DescriptorView {
        DescriptorView {
            name: self.name@,
            kind: match self.kind {
                Some(s) => Some(s@),
                None => None,
            },
            downloads: download_views(self.downloads@),
        }
    }
}

/// `url`: a text that must be there.
pub open spec fn url_of(obj: Json) -> Result<Seq<char>, DescriptorError> {
    match text_at(obj, "url"@) {
        Some(t) => Ok(t),
        None => Err(DescriptorError::UrlMissing),
    }
}

/// `extract`: a text, if it is there.
pub open spec fn extract_of(obj: Json) -> Result<Option<Seq<char>>, DescriptorError> {
    match obj.field("extract"@) {
        None => Ok(None),
        Some(v) => match v.text() {
            Some(t) => Ok(Some(t)),
            None => Err(DescriptorError::ExtractNotText),
        },
    }
}

/// `rename`: an object, of which the first member counts; its value is the
/// target and must be a text.
pub open spec fn rename_of(obj: Json) -> Result<
    Option<(Seq<char>, Seq<char>)>,
    DescriptorError,
> {
    match obj.field("rename"@) {
        None => Ok(None),
        Some(v) => match v.members() {
            None => Err(DescriptorError::RenameNotObject),
            Some(m) => if m.len() == 0 {
                Ok(None)
            } else {
                match m[0].1.text() {
                    Some(t) => Ok(Some((m[0].0@, t))),
                    None => Err(DescriptorError::RenameTargetNotText),
                }
            },
        },
    }
}

/// `symlink`: an object whose values are texts.
pub open spec fn symlink_of(obj: Json) -> Result<Seq<(Seq<char>, Seq<char>)>, DescriptorError> {
    match obj.field("symlink"@) {
        None => Ok(Seq::empty()),
        Some(v) => match v.members() {
            None => Err(DescriptorError::SymlinkNotObject),
            Some(m) => if all_text_valued(m) {
                Ok(text_pairs(m))
            } else {
                Err(DescriptorError::SymlinkTargetNotText)
            },
        },
    }
}

/// The content of a script: a text as it is, or the texts of an array,
/// one per line and each line ended.
pub open spec fn script_of(value: Json) -> Option<Seq<char>> {
    match value {
        Json::Text(s) => Some(s@),
        Json::Array(a) => Some(join(texts_in(a@), "\n"@) + "\n"@),
        _ => None,
    }
}

/// The scripts that the members of a `wrapper` object describe.
pub open spec fn scripts_of(members: Seq<(String, Json)>) -> Result<
    Seq<(Seq<char>, Seq<char>)>,
    DescriptorError,
>
    decreases members.len(),
{
    if members.len() == 0 {
        Ok(Seq::empty())
    } else {
        match scripts_of(members.drop_last()) {
            Err(e) => Err(e),
            Ok(scripts) => match script_of(members.last().1) {
                None => Err(DescriptorError::WrapperContentInvalid),
                Some(content) => Ok(scripts.push((members.last().0@, content))),
            },
        }
    }
}

/// `wrapper`: an object of scripts; anything but an object counts as no
/// wrapper at all.
pub open spec fn wrapper_of(obj: Json) -> Result<Seq<(Seq<char>, Seq<char>)>, DescriptorError> {
    match obj.field("wrapper"@) {
        Some(Json::Object(m)) => scripts_of(m@),
        _ => Ok(Seq::empty()),
    }
}

/// `clean`: an array of texts.
pub open spec fn clean_of(obj: Json) -> Result<Seq<Seq<char>>, DescriptorError> {
    match obj.field("clean"@) {
        None => Ok(Seq::empty()),
        Some(v) => match v.items() {
            None => Err(DescriptorError::CleanNotArray),
            Some(a) => if all_text(a) {
                Ok(texts_in(a))
            } else {
                Err(DescriptorError::CleanPathNotText)
            },
        },
    }
}

/// `binary`: one pattern, or an array of which the texts count.
pub open spec fn binary_of(obj: Json) -> Result<Option<Seq<Seq<char>>>, DescriptorError> {
    match obj.field("binary"@) {
        None => Ok(None),
        Some(Json::Text(s)) => Ok(Some(seq![s@])),
        Some(Json::Array(a)) => Ok(Some(texts_in(a@))),
        Some(_) => Err(DescriptorError::BinaryInvalid),
    }
}

/// `shebang`: set only by the value `true`.
pub open spec fn shebang_of(obj: Json) -> bool {
    obj.field("shebang"@) matches Some(Json::Bool(b)) && b
}

/// The rules that an object of the document describes, or the first
/// reason, in the order url, extract, rename, symlink, wrapper, clean and
/// binary, why it describes none.
pub open spec fn download_of(obj: Json) -> Result<DownloadView, DescriptorError> {
    if !(obj is Object) {
        Err(DescriptorError::DownloadNotObject)
    } else if url_of(obj) is Err {
        Err(url_of(obj)->Err_0)
    } else if extract_of(obj) is Err {
        Err(extract_of(obj)->Err_0)
    } else if rename_of(obj) is Err {
        Err(rename_of(obj)->Err_0)
    } else if symlink_of(obj) is Err {
        Err(symlink_of(obj)->Err_0)
    } else if wrapper_of(obj) is Err {
        Err(wrapper_of(obj)->Err_0)
    } else if clean_of(obj) is Err {
        Err(clean_of(obj)->Err_0)
    } else if binary_of(obj) is Err {
        Err(binary_of(obj)->Err_0)
    } else {
        Ok(
            DownloadView {
                url: url_of(obj)->Ok_0,
                extract: extract_of(obj)->Ok_0,
                rename: rename_of(obj)->Ok_0,
                clean: clean_of(obj)->Ok_0,
                symlink: symlink_of(obj)->Ok_0,
                wrapper: wrapper_of(obj)->Ok_0,
                binary: binary_of(obj)->Ok_0,
                shebang: shebang_of(obj),
                download_name: text_at(obj, "download_name"@),
            },
        )
    }
}

/// The rules of all platforms, or the reason why the first platform that
/// has none has none.
pub open spec fn downloads_of(members: Seq<(String, Json)>) -> Result<
    Seq<(Seq<char>, DownloadView)>,
    DescriptorError,
>
    decreases members.len(),
{
    if members.len() == 0 {
        Ok(Seq::empty())
    } else {
        match downloads_of(members.drop_last()) {
            Err(e) => Err(e),
            Ok(all) => match download_of(members.last().1) {
                Err(e) => Err(e),
                Ok(d) => Ok(all.push((members.last().0@, d))),
            },
        }
    }
}

/// The descriptor of `package` that a JSON value holds: its name must be
/// there and be the package's; `downloads`, where it is there, must be an
/// object of rules.
pub open spec fn descriptor_of(json: Json, package: Seq<char>) -> Result<
    DescriptorView,
    DescriptorError,
> {
    match text_at(json, "name"@) {
        None => Err(DescriptorError::NameMissing),
        Some(name) => if name != package {
            Err(DescriptorError::NameMismatch)
        } else {
            match json.field("downloads"@) {
                None => Ok(
                    DescriptorView {
                        name: name,
                        kind: text_at(json, "type"@),
                        downloads: Seq::empty(),
                    },
                ),
                Some(v) => match v.members() {
                    None => Err(DescriptorError::DownloadsNotObject),
                    Some(m) => match downloads_of(m) {
                        Err(e) => Err(e),
                        Ok(all) => Ok(
                            DescriptorView {
                                name: name,
                                kind: text_at(json, "type"@),
                                downloads: all,
                            },
                        ),
                    },
                },
            }
        },
    }
}

/// The descriptor of `package` that a document holds.
pub open spec fn document_of(text: Seq<char>, package: Seq<char>) -> Result<
    DescriptorView,
    DescriptorError,
> {
    match parsed(text) {
        None => Err(DescriptorError::Malformed),
        Some(json) => descriptor_of(json, package),
    }
}

/// A copy of a text of the document.
fn copy_text(value: Option<&String>) -> (out: Option<String>)
    ensures
        match out {
            Some(s) => value is Some && s@ == value.unwrap()@,
            None => value is None,
        },
{
    match value {
        Some(s) => Some(s.clone()),
        None => None,
    }
}

/// Reads `url`.
fn read_url(obj: &Json) -> (r: Result<String, DescriptorError>)
    ensures
        match r {
            Ok(url) => url_of(*obj) == Ok::<Seq<char>, DescriptorError>(url@),
            Err(e) => url_of(*obj) == Err::<Seq<char>, DescriptorError>(e),
        },
{
    match obj.get_text("url") {
        Some(url) => Ok(url.clone()),
        None => Err(DescriptorError::UrlMissing),
    }
}

/// Reads `extract`.
fn read_extract(obj: &Json) -> (r: Result<Option<String>, DescriptorError>)
    ensures
        match r {
            Ok(Some(s)) => extract_of(*obj) == Ok::<Option<Seq<char>>, DescriptorError>(
                Some(s@),
            ),
            Ok(None) => extract_of(*obj) == Ok::<Option<Seq<char>>, DescriptorError>(None),
            Err(e) => extract_of(*obj) == Err::<Option<Seq<char>>, DescriptorError>(e),
        },
{
    match obj.get("extract") {
        None => Ok(None),
        Some(value) => match value.as_text() {
            Some(s) => Ok(Some(s.clone())),
            None => Err(DescriptorError::ExtractNotText),
        },
    }
}

/// Reads the rename rule that is honoured.
fn read_rename(obj: &Json) -> (r: Result<Option<(String, String)>, DescriptorError>)
    ensures
        match r {
            Ok(Some(p)) => rename_of(*obj) == Ok::<
                Option<(Seq<char>, Seq<char>)>,
                DescriptorError,
            >(Some((p.0@, p.1@))),
            Ok(None) => rename_of(*obj) == Ok::<Option<(Seq<char>, Seq<char>)>, DescriptorError>(
                None,
            ),
            Err(e) => rename_of(*obj) == Err::<Option<(Seq<char>, Seq<char>)>, DescriptorError>(
                e,
            ),
        },
{
    match obj.get("rename") {
        None => Ok(None),
        Some(value) => match value {
            Json::Object(members) => {
                if members.len() == 0 {
                    Ok(None)
                } else {
                    match members[0].1.as_text() {
                        Some(target) => Ok(Some((members[0].0.clone(), target.clone()))),
                        None => Err(DescriptorError::RenameTargetNotText),
                    }
                }
            },
            _ => Err(DescriptorError::RenameNotObject),
        },
    }
}

/// Reads `symlink`.
fn read_symlink(obj: &Json) -> (r: Result<Vec<(String, String)>, DescriptorError>)
    ensures
        match r {
            Ok(links) => symlink_of(*obj) == Ok::<Seq<(Seq<char>, Seq<char>)>, DescriptorError>(
                pair_views(links@),
            ),
            Err(e) => symlink_of(*obj) == Err::<Seq<(Seq<char>, Seq<char>)>, DescriptorError>(e),
        },
{
    match obj.get("symlink") {
        None => {
            let links: Vec<(String, String)> = Vec::new();
            assert(pair_views(links@) =~= Seq::<(Seq<char>, Seq<char>)>::empty());
            Ok(links)
        },
        Some(value) => match value {
            Json::Object(members) => match strict_pairs(members) {
                Some(links) => Ok(links),
                None => Err(DescriptorError::SymlinkTargetNotText),
            },
            _ => Err(DescriptorError::SymlinkNotObject),
        },
    }
}

/// The content of the script that a value of a `wrapper` object gives.
fn read_script(value: &Json) -> (out: Option<String>)
    ensures
        match out {
            Some(content) => script_of(*value) == Some(content@),
            None => script_of(*value) is None,
        },
{
    match value {
        Json::Text(s) => Some(s.clone()),
        Json::Array(items) => {
            let texts = texts_of(items);
            let mut pieces: Vec<Vec<char>> = Vec::new();
            let mut i: usize = 0;
            while i < texts.len()
                invariant
                    i <= texts.len(),
                    char_views(pieces@) == views(texts@).take(i as int),
                decreases texts.len() - i,
            {
                let ghost before = char_views(pieces@);
                pieces.push(chars_of(texts[i].as_str()));
                i += 1;
                assert(char_views(pieces@) =~= before.push(texts[i - 1]@));
                assert(views(texts@).take(i as int) =~= views(texts@).take(i - 1).push(
                    texts[i - 1]@,
                ));
            }
            assert(views(texts@).take(texts.len() as int) =~= views(texts@));
            let newline = chars_of("\n");
            let mut content = join_chars(&pieces, newline.as_slice());
            push_all(&mut content, newline.as_slice());
            Some(string_of(content.as_slice()))
        },
        _ => None,
    }
}

/// Reads `wrapper`.
fn read_wrapper(obj: &Json) -> (r: Result<Vec<(String, String)>, DescriptorError>)
    ensures
        match r {
            Ok(scripts) => wrapper_of(*obj) == Ok::<Seq<(Seq<char>, Seq<char>)>, DescriptorError>(
                pair_views(scripts@),
            ),
            Err(e) => wrapper_of(*obj) == Err::<Seq<(Seq<char>, Seq<char>)>, DescriptorError>(e),
        },
{
    let mut scripts: Vec<(String, String)> = Vec::new();
    assert(pair_views(scripts@) =~= Seq::<(Seq<char>, Seq<char>)>::empty());
    match obj.get("wrapper") {
        Some(Json::Object(members)) => {
            let mut i: usize = 0;
            assert(members@.take(0) =~= Seq::<(String, Json)>::empty());
            while i < members.len()
                invariant
                    i <= members.len(),
                    scripts_of(members@.take(i as int)) == Ok::<
                        Seq<(Seq<char>, Seq<char>)>,
                        DescriptorError,
                    >(pair_views(scripts@)),
                    wrapper_of(*obj) == scripts_of(members@),
                decreases members.len() - i,
            {
                assert(members@.take(i + 1).drop_last() =~= members@.take(i as int));
                assert(members@.take(i + 1).last() == members@[i as int]);
                match read_script(&members[i].1) {
                    None => {
                        proof {
                            lemma_scripts_fail(members@, i + 1);
                        }
                        return Err(DescriptorError::WrapperContentInvalid);
                    },
                    Some(content) => {
                        let ghost before = pair_views(scripts@);
                        scripts.push((members[i].0.clone(), content));
                        assert(pair_views(scripts@) =~= before.push(
                            (members@[i as int].0@, content@),
                        ));
                    },
                }
                i += 1;
            }
            assert(members@.take(members.len() as int) =~= members@);
            Ok(scripts)
        },
        _ => Ok(scripts),
    }
}

/// A script that is none stays none when more members follow.
proof fn lemma_scripts_fail(members: Seq<(String, Json)>, n: int)
    requires
        0 <= n <= members.len(),
        scripts_of(members.take(n)) is Err,
    ensures
        scripts_of(members) == scripts_of(members.take(n)),
    decreases members.len() - n,
{
    if n < members.len() {
        assert(members.take(n + 1).drop_last() =~= members.take(n));
        lemma_scripts_fail(members, n + 1);
    } else {
        assert(members.take(n) =~= members);
    }
}

/// Reads `clean`.
fn read_clean(obj: &Json) -> (r: Result<Vec<String>, DescriptorError>)
    ensures
        match r {
            Ok(patterns) => clean_of(*obj) == Ok::<Seq<Seq<char>>, DescriptorError>(
                views(patterns@),
            ),
            Err(e) => clean_of(*obj) == Err::<Seq<Seq<char>>, DescriptorError>(e),
        },
{
    match obj.get("clean") {
        None => {
            let patterns: Vec<String> = Vec::new();
            assert(views(patterns@) =~= Seq::<Seq<char>>::empty());
            Ok(patterns)
        },
        Some(value) => match value {
            Json::Array(items) => match strict_texts(items) {
                Some(patterns) => Ok(patterns),
                None => Err(DescriptorError::CleanPathNotText),
            },
            _ => Err(DescriptorError::CleanNotArray),
        },
    }
}

/// Reads `binary`.
fn read_binary(obj: &Json) -> (r: Result<Option<Vec<String>>, DescriptorError>)
    ensures
        match r {
            Ok(Some(patterns)) => binary_of(*obj) == Ok::<
                Option<Seq<Seq<char>>>,
                DescriptorError,
            >(Some(views(patterns@))),
            Ok(None) => binary_of(*obj) == Ok::<Option<Seq<Seq<char>>>, DescriptorError>(None),
            Err(e) => binary_of(*obj) == Err::<Option<Seq<Seq<char>>>, DescriptorError>(e),
        },
{
    match obj.get("binary") {
        None => Ok(None),
        Some(value) => match value {
            Json::Text(s) => {
                let mut patterns: Vec<String> = Vec::new();
                patterns.push(s.clone());
                assert(views(patterns@) =~= seq![s@]);
                Ok(Some(patterns))
            },
            Json::Array(items) => Ok(Some(texts_of(items))),
            _ => Err(DescriptorError::BinaryInvalid),
        },
    }
}

/// Reads `shebang`.
fn read_shebang(obj: &Json) -> (r: bool)
    ensures
        r == shebang_of(*obj),
{
    match obj.get("shebang") {
        Some(Json::Bool(b)) => *b,
        _ => false,
    }
}

/// The rules that one object under `downloads` describes.
pub fn read_download(obj: &Json) -> (r: Result<DownloadSpec, DescriptorError>)
    ensures
        match r {
            Ok(spec) => download_of(*obj) == Ok::<DownloadView, DescriptorError>(spec@),
            Err(e) => download_of(*obj) == Err::<DownloadView, DescriptorError>(e),
        },
{
    match obj {
        Json::Object(_) => {},
        _ => {
            return Err(DescriptorError::DownloadNotObject);
        },
    }
    let url = match read_url(obj) {
        Ok(v) => v,
        Err(e) => {
            return Err(e);
        },
    };
    let extract = match read_extract(obj) {
        Ok(v) => v,
        Err(e) => {
            return Err(e);
        },
    };
    let rename = match read_rename(obj) {
        Ok(v) => v,
        Err(e) => {
            return Err(e);
        },
    };
    let symlink = match read_symlink(obj) {
        Ok(v) => v,
        Err(e) => {
            return Err(e);
        },
    };
    let wrapper = match read_wrapper(obj) {
        Ok(v) => v,
        Err(e) => {
            return Err(e);
        },
    };
    let clean = match read_clean(obj) {
        Ok(v) => v,
        Err(e) => {
            return Err(e);
        },
    };
    let binary = match read_binary(obj) {
        Ok(v) => v,
        Err(e) => {
            return Err(e);
        },
    };
    let shebang = read_shebang(obj);
    let download_name = copy_text(obj.get_text("download_name"));
    let spec = DownloadSpec {
        url,
        extract,
        rename,
        clean,
        symlink,
        wrapper,
        binary,
        shebang,
        download_name,
    };
    assert(download_of(*obj) == Ok::<DownloadView, DescriptorError>(spec@));
    Ok(spec)
}

/// Rules that are none stay none when more platforms follow.
proof fn lemma_downloads_fail(members: Seq<(String, Json)>, n: int)
    requires
        0 <= n <= members.len(),
        downloads_of(members.take(n)) is Err,
    ensures
        downloads_of(members) == downloads_of(members.take(n)),
    decreases members.len() - n,
{
    if n < members.len() {
        assert(members.take(n + 1).drop_last() =~= members.take(n));
        lemma_downloads_fail(members, n + 1);
    } else {
        assert(members.take(n) =~= members);
    }
}

/// The rules of all platforms under `downloads`.
fn read_downloads(members: &Vec<(String, Json)>) -> (r: Result<
    Vec<(String, DownloadSpec)>,
    DescriptorError,
>)
    ensures
        match r {
            Ok(all) => downloads_of(members@) == Ok::<
                Seq<(Seq<char>, DownloadView)>,
                DescriptorError,
            >(download_views(all@)),
            Err(e) => downloads_of(members@) == Err::<
                Seq<(Seq<char>, DownloadView)>,
                DescriptorError,
            >(e),
        },
{
    let mut all: Vec<(String, DownloadSpec)> = Vec::new();
    let mut i: usize = 0;
    assert(members@.take(0) =~= Seq::<(String, Json)>::empty());
    assert(download_views(all@) =~= Seq::<(Seq<char>, DownloadView)>::empty());
    while i < members.len()
        invariant
            i <= members.len(),
            downloads_of(members@.take(i as int)) == Ok::<
                Seq<(Seq<char>, DownloadView)>,
                DescriptorError,
            >(download_views(all@)),
        decreases members.len() - i,
    {
        assert(members@.take(i + 1).drop_last() =~= members@.take(i as int));
        assert(members@.take(i + 1).last() == members@[i as int]);
        match read_download(&members[i].1) {
            Err(e) => {
                proof {
                    lemma_downloads_fail(members@, i + 1);
                }
                return Err(e);
            },
            Ok(spec) => {
                let ghost before = download_views(all@);
                let ghost added = (members@[i as int].0@, spec@);
                all.push((members[i].0.clone(), spec));
                assert(download_views(all@) =~= before.push(added));
            },
        }
        i += 1;
    }
    assert(members@.take(members.len() as int) =~= members@);
    Ok(all)
}

/// The descriptor of `package` that a JSON value holds.
pub fn read_descriptor(json: &Json, package: &str) -> (r: Result<
    PackageDescriptor,
    DescriptorError,
>)
    ensures
        match r {
            Ok(d) => descriptor_of(*json, package@) == Ok::<DescriptorView, DescriptorError>(d@),
            Err(e) => descriptor_of(*json, package@) == Err::<DescriptorView, DescriptorError>(e),
        },
{
    let name = match json.get_text("name") {
        None => {
            return Err(DescriptorError::NameMissing);
        },
        Some(name) => name.clone(),
    };
    let have = chars_of(name.as_str());
    let want = chars_of(package);
    if !same_chars(have.as_slice(), want.as_slice()) {
        return Err(DescriptorError::NameMismatch);
    }
    let kind = copy_text(json.get_text("type"));
    let downloads = match json.get("downloads") {
        None => {
            let none: Vec<(String, DownloadSpec)> = Vec::new();
            assert(download_views(none@) =~= Seq::<(Seq<char>, DownloadView)>::empty());
            none
        },
        Some(value) => match value {
            Json::Object(members) => match read_downloads(members) {
                Ok(all) => all,
                Err(e) => {
                    return Err(e);
                },
            },
            _ => {
                return Err(DescriptorError::DownloadsNotObject);
            },
        },
    };
    Ok(PackageDescriptor { name, kind, downloads })
}

/// Reads the descriptor of `package` from the text of its document. An
/// error where the text is no JSON, where the name is missing or another
/// package's, and where the rules of a platform have another shape than
/// the format allows.
pub fn read_package_json(text: &str, package: &str) -> (r: Result<
    PackageDescriptor,
    DescriptorError,
>)
    ensures
        match r {
            Ok(d) => document_of(text@, package@) == Ok::<DescriptorView, DescriptorError>(d@),
            Err(e) => document_of(text@, package@) == Err::<DescriptorView, DescriptorError>(e),
        },
{
    match Json::from_text(text) {
        Err(_) => Err(DescriptorError::Malformed),
        Ok(json) => read_descriptor(&json, package),
    }
}

impl DescriptorError {
    /// The sentence that describes the error.
    pub open spec fn sentence(self) -> Seq<char> {
        match self {
            DescriptorError::Malformed => "Package file is no JSON"@,
            DescriptorError::NameMissing => "Field 'name' not found"@,
            DescriptorError::NameMismatch =>
                "Package name in JSON does not match requested package"@,
            DescriptorError::DownloadsNotObject => "Downloads configuration not found"@,
            DescriptorError::DownloadNotObject => "Download configuration not found"@,
            DescriptorError::UrlMissing => "URL not found"@,
            DescriptorError::ExtractNotText => "Extract command must be a string"@,
            DescriptorError::RenameNotObject => "Rename must be an object"@,
            DescriptorError::RenameTargetNotText => "Rename target must be a string"@,
            DescriptorError::SymlinkNotObject => "Symlink must be an object"@,
            DescriptorError::SymlinkTargetNotText => "Symlink target must be a string"@,
            DescriptorError::WrapperContentInvalid =>
                "Wrapper content must be a string or array"@,
            DescriptorError::CleanNotArray => "Clean must be an array"@,
            DescriptorError::CleanPathNotText => "Clean path must be a string"@,
            DescriptorError::BinaryInvalid => "Invalid binary format"@,
        }
    }

    /// The sentence that describes the error.
    pub fn message(&self) -> (out: String)
        ensures
            out@ == self.sentence(),
    {
        match self {
            DescriptorError::Malformed => "Package file is no JSON".to_owned(),
            DescriptorError::NameMissing => "Field 'name' not found".to_owned(),
            DescriptorError::NameMismatch => {
                "Package name in JSON does not match requested package".to_owned()
            },
            DescriptorError::DownloadsNotObject => "Downloads configuration not found".to_owned(),
            DescriptorError::DownloadNotObject => "Download configuration not found".to_owned(),
            DescriptorError::UrlMissing => "URL not found".to_owned(),
            DescriptorError::ExtractNotText => "Extract command must be a string".to_owned(),
            DescriptorError::RenameNotObject => "Rename must be an object".to_owned(),
            DescriptorError::RenameTargetNotText => "Rename target must be a string".to_owned(),
            DescriptorError::SymlinkNotObject => "Symlink must be an object".to_owned(),
            DescriptorError::SymlinkTargetNotText => "Symlink target must be a string".to_owned(),
            DescriptorError::WrapperContentInvalid => {
                "Wrapper content must be a string or array".to_owned()
            },
            DescriptorError::CleanNotArray => "Clean must be an array".to_owned(),
            DescriptorError::CleanPathNotText => "Clean path must be a string".to_owned(),
            DescriptorError::BinaryInvalid => "Invalid binary format".to_owned(),
        }
    }
}

/// What is reported of a document that breaks its schema: every
/// violation, one per line, each further line opened like an item of a
/// list. None where nothing is broken.
pub open spec fn report_of(violations: Seq<Seq<char>>) -> Option<Seq<char>> {
    if violations.len() == 0 {
        None
    } else {
        Some(join(violations, "\n  - "@))
    }
}

/// Puts the violations of a schema, as the validator found them, into one
/// report.
pub fn violation_report(violations: &Vec<String>) -> (out: Option<String>)
    ensures
        match out {
            Some(text) => report_of(views(violations@)) == Some(text@),
            None => report_of(views(violations@)) is None,
        },
{
    if violations.len() == 0 {
        return None;
    }
    let mut pieces: Vec<Vec<char>> = Vec::new();
    let mut i: usize = 0;
    while i < violations.len()
        invariant
            i <= violations.len(),
            char_views(pieces@) == views(violations@).take(i as int),
        decreases violations.len() - i,
    {
        let ghost before = char_views(pieces@);
        pieces.push(chars_of(violations[i].as_str()));
        i += 1;
        assert(char_views(pieces@) =~= before.push(violations[i - 1]@));
        assert(views(violations@).take(i as int) =~= views(violations@).take(i - 1).push(
            violations[i - 1]@,
        ));
    }
    assert(views(violations@).take(violations.len() as int) =~= views(violations@));
    let sep = chars_of("\n  - ");
    let text = join_chars(&pieces, sep.as_slice());
    Some(string_of(text.as_slice()))
}

} // verus!
