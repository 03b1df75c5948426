//! What a release offers: the packages among the assets of a release, and
//! the names and addresses under which archives are kept.

use vstd::prelude::*;
use crate::order::{sort_unique, strictly_sorted};
use crate::search::{
    describe, regex_compiles, regex_finds, regex_swap, replace_first, search, BadRegex,
};
use crate::paths::{join_path, joined};
use crate::text::{
    chars_of, has_prefix, lemma_filter_none, lemma_filter_step, push_str, replace_all, replaced,
    string_of, text_view, views,
};

verus! {

/// The expression for the names of all archives of packages.
pub const ANY_PLATFORM: &'static str = "\\.(linux|macos|windows|font)\\.tar\\.gz$";

/// The expression that the names of the archives of a platform match: the
/// ending `.<platform>.tar.gz`, or that of any platform where none is
/// given.
pub open spec fn asset_pattern_of(platform: Option<Seq<char>>) -> Seq<char> {
    match platform {
        Some(p) => "\\."@ + p + "\\.tar\\.gz$"@,
        None => ANY_PLATFORM@,
    }
}

/// The test for a name that the expression finds.
pub open spec fn find_test(pattern: Seq<char>) -> spec_fn(Seq<char>) -> bool {
    |name: Seq<char>| regex_finds(pattern, name)
}

/// A name without the first match of the expression.
pub open spec fn cut(pattern: Seq<char>) -> spec_fn(Seq<char>) -> Seq<char> {
    |name: Seq<char>| regex_swap(pattern, name, Seq::empty())
}

/// The packages among the assets: each asset that the expression finds,
/// without its ending.
pub open spec fn packages_among(names: Seq<Seq<char>>, pattern: Seq<char>) -> Seq<Seq<char>> {
    names.filter(find_test(pattern)).map_values(cut(pattern))
}

/// The expression that the names of the archives of a platform match.
pub fn asset_pattern(platform: Option<&str>) -> (out: String)
    ensures
        out@ == asset_pattern_of(text_view(platform)),
{
    let mut text: Vec<char> = Vec::new();
    match platform {
        Some(p) => {
            push_str(&mut text, "\\.");
            push_str(&mut text, p);
            push_str(&mut text, "\\.tar\\.gz$");
            assert(text@ =~= "\\."@ + p@ + "\\.tar\\.gz$"@);
        },
        None => {
            push_str(&mut text, ANY_PLATFORM);
            assert(text@ =~= ANY_PLATFORM@);
        },
    }
    string_of(text.as_slice())
}

/// The packages that a release offers for a platform, or for any: the
/// names of the assets that are archives of packages, without the ending,
/// sorted and each once. An error exactly where the platform makes an
/// expression that does not compile.
pub fn available_packages(asset_names: &Vec<String>, platform: Option<&str>) -> (r: Result<
    Vec<String>,
    BadRegex,
>)
    ensures
        match r {
            Ok(packages) => {
                &&& regex_compiles(asset_pattern_of(text_view(platform)))
                &&& strictly_sorted(views(packages@))
                &&& views(packages@).to_set() == packages_among(
                    views(asset_names@),
                    asset_pattern_of(text_view(platform)),
                ).to_set()
            },
            Err(_) => !regex_compiles(asset_pattern_of(text_view(platform))),
        },
{
    let pattern = asset_pattern(platform);
    let ghost p = asset_pattern_of(text_view(platform));
    match search(pattern.as_str(), "") {
        Err(e) => {
            return Err(describe(e));
        },
        Ok(_) => {},
    }
    let mut found: Vec<String> = Vec::new();
    let mut i: usize = 0;
    proof {
        lemma_filter_none(views(asset_names@), find_test(p));
    }
    assert(views(found@) =~= Seq::<Seq<char>>::empty().map_values(cut(p)));
    while i < asset_names.len()
        invariant
            i <= asset_names.len(),
            pattern@ == p,
            regex_compiles(p),
            views(found@) == views(asset_names@).take(i as int).filter(find_test(p)).map_values(
                cut(p),
            ),
        decreases asset_names.len() - i,
    {
        proof {
            lemma_filter_step(views(asset_names@), i as int, find_test(p));
        }
        let name = asset_names[i].as_str();
        let hit = match search(pattern.as_str(), name) {
            Err(e) => {
                return Err(describe(e));
            },
            Ok(hit) => hit,
        };
        if hit {
            let ghost before = views(found@);
            let ghost kept = views(asset_names@).take(i as int).filter(find_test(p));
            let stem = match replace_first(pattern.as_str(), name, "") {
                Err(e) => {
                    return Err(describe(e));
                },
                Ok(stem) => stem,
            };
            proof {
                reveal_strlit("");
                assert(""@ =~= Seq::<char>::empty());
            }
            found.push(stem);
            assert(views(found@) =~= before.push(regex_swap(p, name@, Seq::empty())));
            assert(kept.push(name@).map_values(cut(p)) =~= kept.map_values(cut(p)).push(
                regex_swap(p, name@, Seq::empty()),
            ));
        }
        i += 1;
    }
    assert(views(asset_names@).take(asset_names.len() as int) =~= views(asset_names@));
    Ok(sort_unique(&found))
}

/// The host that releases come from where no other is set.
pub const GITHUB: &'static str = "https://github.com";

/// The host of the release API where no other is set.
pub const GITHUB_API: &'static str = "https://api.github.com";

/// The host of raw files where no other is set.
pub const GITHUB_RAW: &'static str = "https://raw.githubusercontent.com";

/// The name of the archive of a package for a platform.
pub open spec fn archive_name_of(package: Seq<char>, platform: Seq<char>) -> Seq<char> {
    package + "."@ + platform + ".tar.gz"@
}

/// The host to use: the one that is set, or `fallback`.
pub open spec fn host_of(set: Option<Seq<char>>, fallback: Seq<char>) -> Seq<char> {
    match set {
        Some(host) => host,
        None => fallback,
    }
}

/// The address of an archive among the released binaries.
pub open spec fn release_url_of(host: Option<Seq<char>>, file: Seq<char>) -> Seq<char> {
    host_of(host, GITHUB@) + "/wang-q/cbp/releases/download/Binaries/"@ + file
}

/// The address of the descriptor of a package.
pub open spec fn info_url_of(host: Option<Seq<char>>, package: Seq<char>) -> Seq<char> {
    host_of(host, GITHUB_RAW@) + "/wang-q/cbp/master/packages/"@ + package + ".json"@
}

/// The address that lists the assets of the release of binaries.
pub open spec fn assets_url_of(host: Option<Seq<char>>) -> Seq<char> {
    host_of(host, GITHUB_API@) + "/repos/wang-q/cbp/releases/tags/Binaries"@
}

/// The path of the descriptor of a package below a base directory.
pub open spec fn descriptor_path_of(base_dir: Seq<char>, package: Seq<char>) -> Seq<char> {
    joined(joined(base_dir, "packages"@), package + ".json"@)
}

/// The name of the archive of a package for a platform:
/// `<package>.<platform>.tar.gz`.
pub fn package_file_name(package: &str, platform: &str) -> (out: String)
    ensures
        out@ == archive_name_of(package@, platform@),
{
    let mut text: Vec<char> = Vec::new();
    push_str(&mut text, package);
    push_str(&mut text, ".");
    push_str(&mut text, platform);
    push_str(&mut text, ".tar.gz");
    assert(text@ =~= archive_name_of(package@, platform@));
    string_of(text.as_slice())
}

/// The name under which a download is kept until it is complete.
pub fn incomplete_name(file: &str) -> (out: String)
    ensures
        out@ == file@ + ".incomplete"@,
{
    let mut text: Vec<char> = Vec::new();
    push_str(&mut text, file);
    push_str(&mut text, ".incomplete");
    string_of(text.as_slice())
}

/// Starts a text with the host that is set, or with `fallback`.
fn host_text(host: Option<&str>, fallback: &str) -> (text: Vec<char>)
    ensures
        text@ == host_of(text_view(host), fallback@),
{
    let mut text: Vec<char> = Vec::new();
    match host {
        Some(h) => {
            push_str(&mut text, h);
            assert(text@ =~= h@);
        },
        None => {
            push_str(&mut text, fallback);
            assert(text@ =~= fallback@);
        },
    }
    text
}

/// The address from which the archive `file` is downloaded; `host`
/// stands in for GitHub where it is set.
pub fn release_url(host: Option<&str>, file: &str) -> (out: String)
    ensures
        out@ == release_url_of(text_view(host), file@),
{
    let mut text = host_text(host, GITHUB);
    push_str(&mut text, "/wang-q/cbp/releases/download/Binaries/");
    push_str(&mut text, file);
    string_of(text.as_slice())
}

/// The address of the descriptor of a package.
pub fn info_url(host: Option<&str>, package: &str) -> (out: String)
    ensures
        out@ == info_url_of(text_view(host), package@),
{
    let mut text = host_text(host, GITHUB_RAW);
    push_str(&mut text, "/wang-q/cbp/master/packages/");
    push_str(&mut text, package);
    push_str(&mut text, ".json");
    string_of(text.as_slice())
}

/// The address that lists the assets of the release of binaries.
pub fn assets_url(host: Option<&str>) -> (out: String)
    ensures
        out@ == assets_url_of(text_view(host)),
{
    let mut text = host_text(host, GITHUB_API);
    push_str(&mut text, "/repos/wang-q/cbp/releases/tags/Binaries");
    string_of(text.as_slice())
}

/// The path of the descriptor of a package: `packages/<name>.json` below
/// the base directory.
pub fn descriptor_path(base_dir: &str, package: &str) -> (out: String)
    ensures
        out@ == descriptor_path_of(base_dir@, package@),
{
    let dir = join_path(base_dir, "packages");
    let mut name: Vec<char> = Vec::new();
    push_str(&mut name, package);
    push_str(&mut name, ".json");
    assert(name@ =~= package@ + ".json"@);
    let name = string_of(name.as_slice());
    join_path(dir.as_str(), name.as_str())
}

/// The address of a source: an address at GitHub moves to the host that
/// is set in its place; every other address stays.
pub open spec fn source_url_of(url: Seq<char>, host: Option<Seq<char>>) -> Seq<char> {
    match host {
        Some(h) => if GITHUB@.is_prefix_of(url) {
            replaced(url, GITHUB@, h)
        } else {
            url
        },
        None => url,
    }
}

/// The address from which a source is downloaded.
pub fn get_source_url(url: &str, host: Option<&str>) -> (out: String)
    ensures
        out@ == source_url_of(url@, text_view(host)),
{
    match host {
        None => url.to_owned(),
        Some(h) => {
            let u = chars_of(url);
            if has_prefix(u.as_slice(), GITHUB) {
                replace_all(url, GITHUB, h)
            } else {
                string_of(u.as_slice())
            }
        },
    }
}

/// The first of the candidates that is set.
pub open spec fn first_set(candidates: Seq<Option<Seq<char>>>) -> Option<Seq<char>>
    decreases candidates.len(),
{
    if candidates.len() == 0 {
        None
    } else if candidates[0] is Some {
        candidates[0]
    } else {
        first_set(candidates.drop_first())
    }
}

/// The proxy to use: the first that is set, with `socks5://` for
/// `socks5h://`.
pub open spec fn proxy_of(candidates: Seq<Option<Seq<char>>>) -> Option<Seq<char>> {
    match first_set(candidates) {
        Some(url) => Some(replaced(url, "socks5h://"@, "socks5://"@)),
        None => None,
    }
}

/// The views of a sequence of texts that may be there.
pub open spec fn option_views(v: Seq<Option<String>>) -> Seq<Option<Seq<char>>> {
    Seq::new(
        v.len(),
        |i: int|
            match v[i] {
                Some(s) => Some(s@),
                None => None,
            },
    )
}

/// The proxy to use, from the candidates in the order of their rank: the
/// one given on the command line first, then those of the environment.
pub fn choose_proxy(candidates: &Vec<Option<String>>) -> (out: Option<String>)
    ensures
        match out {
            Some(url) => proxy_of(option_views(candidates@)) == Some(url@),
            None => proxy_of(option_views(candidates@)) is None,
        },
{
    let ghost all = option_views(candidates@);
    let mut i: usize = 0;
    assert(all.skip(0) =~= all);
    while i < candidates.len()
        invariant
            i <= candidates.len(),
            all == option_views(candidates@),
            first_set(all) == first_set(all.skip(i as int)),
        decreases candidates.len() - i,
    {
        assert(all.skip(i as int)[0] == all[i as int]);
        assert(all.skip(i as int).drop_first() =~= all.skip(i + 1));
        match &candidates[i] {
            Some(url) => {
                return Some(replace_all(url.as_str(), "socks5h://", "socks5://"));
            },
            None => {},
        }
        i += 1;
    }
    None
}

/// Where the archive of a package is taken from.
#[derive(Debug, Clone, Copy, PartialEq, Eq, Structural)]
pub enum ArchiveSource {
    /// The directory of locally built archives.
    Local,
    /// The cache of downloads.
    Cache,
}

/// Chooses the archive to install: a locally built one before a cached
/// one; none where neither exists.
pub fn choose_archive(local_exists: bool, cache_exists: bool) -> (out: Option<ArchiveSource>)
    ensures
        out == if local_exists {
            Some(ArchiveSource::Local)
        } else if cache_exists {
            Some(ArchiveSource::Cache)
        } else {
            None
        },
{
    if local_exists {
        Some(ArchiveSource::Local)
    } else if cache_exists {
        Some(ArchiveSource::Cache)
    } else {
        None
    }
}

} // verus!
