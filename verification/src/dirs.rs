//! The layout of an installation root: the home directory and the three
//! directories that the manager keeps under it.

use vstd::prelude::*;
use crate::manifest::{record_name, record_name_of};
use crate::paths::{join_path, joined, parent_of, parent_path};
use crate::text::{chars_of, is_str, string_of, text_view};

verus! {

/// Why a directory layout could not be made.
#[derive(Debug, Clone, Copy, PartialEq, Eq, Structural)]
pub enum DirsError {
    /// The user's home directory is not known.
    NoHomeDirectory,
    /// The executable's path has no directory.
    NoExecutableDirectory,
    /// The executable's directory has no directory above it.
    NoInstallationHome,
}

impl DirsError {
    /// The sentence that describes the error.
    pub fn message(&self) -> (out: String)
        ensures
            out@ == match *self {
                DirsError::NoHomeDirectory => "Could not determine home directory"@,
                DirsError::NoExecutableDirectory => "Cannot get executable directory"@,
                DirsError::NoInstallationHome => "Cannot get CBP home directory"@,
            },
    {
        match self {
            DirsError::NoHomeDirectory => "Could not determine home directory".to_owned(),
            DirsError::NoExecutableDirectory => "Cannot get executable directory".to_owned(),
            DirsError::NoInstallationHome => "Cannot get CBP home directory".to_owned(),
        }
    }
}

/// Why an operating system is not served.
#[derive(Debug, Clone, PartialEq, Eq)]
pub struct UnsupportedOs {
    /// The name of the system.
    pub os: String,
}

/// The system is one of those that packages are built for.
pub open spec fn is_supported_os(os: Seq<char>) -> bool {
    os == "macos"@ || os == "linux"@ || os == "windows"@
}

/// The package type of the operating system named `os`: the name itself
/// for the three systems served, an error for any other.
pub fn get_os_type(os: &str) -> (r: Result<String, UnsupportedOs>)
    ensures
        match r {
            Ok(name) => is_supported_os(os@) && name@ == os@,
            Err(e) => !is_supported_os(os@) && e.os@ == os@,
        },
{
    let o = chars_of(os);
    if is_str(o.as_slice(), "macos") || is_str(o.as_slice(), "linux") || is_str(
        o.as_slice(),
        "windows",
    ) {
        Ok(string_of(o.as_slice()))
    } else {
        Err(UnsupportedOs { os: string_of(o.as_slice()) })
    }
}

/// The directories of an installation.
#[derive(Debug, Clone)]
pub struct CbpDirs {
    /// Installation directory.
    pub home: String,
    /// Directory of executables, `<home>/bin`.
    pub bin: String,
    /// Directory of downloaded archives, `<home>/cache`.
    pub cache: String,
    /// Directory of manifests, `<home>/records`.
    pub records: String,
}

impl CbpDirs {
    /// The three directories lie under the home directory, each under its
    /// name.
    pub open spec fn well_formed(&self) -> bool {
        &&& self.bin@ == joined(self.home@, "bin"@)
        &&& self.cache@ == joined(self.home@, "cache"@)
        &&& self.records@ == joined(self.home@, "records"@)
    }

    /// The layout under `.cbp` in the user's home directory; an error
    /// where that directory is not known.
    pub fn new(user_home: Option<&str>) -> (r: Result<CbpDirs, DirsError>)
        ensures
            match r {
                Ok(dirs) => user_home is Some && dirs.well_formed() && dirs.home@ == joined(
                    user_home.unwrap()@,
                    ".cbp"@,
                ),
                Err(e) => user_home is None && e == DirsError::NoHomeDirectory,
            },
    {
        match user_home {
            None => Err(DirsError::NoHomeDirectory),
            Some(dir) => {
                let home = join_path(dir, ".cbp");
                Ok(CbpDirs::from(home.as_str()))
            },
        }
    }

    /// The layout under `home`.
    pub fn from(home: &str) -> (dirs: CbpDirs)
        ensures
            dirs.well_formed(),
            dirs.home@ == home@,
    {
        CbpDirs {
            bin: join_path(home, "bin"),
            cache: join_path(home, "cache"),
            records: join_path(home, "records"),
            home: home.to_owned(),
        }
    }

    /// The layout whose `bin` holds the executable at `exe_path`: its home
    /// is the directory above the executable's directory.
    pub fn from_exe_path(exe_path: &str) -> (r: Result<CbpDirs, DirsError>)
        ensures
            match r {
                Ok(dirs) => {
                    &&& parent_of(exe_path@) is Some
                    &&& parent_of(parent_of(exe_path@).unwrap()) == Some(dirs.home@)
                    &&& dirs.well_formed()
                },
                Err(e) => if parent_of(exe_path@) is None {
                    e == DirsError::NoExecutableDirectory
                } else {
                    parent_of(parent_of(exe_path@).unwrap()) is None && e
                        == DirsError::NoInstallationHome
                },
            },
    {
        match parent_path(exe_path) {
            None => Err(DirsError::NoExecutableDirectory),
            Some(bin) => match parent_path(bin.as_str()) {
                None => Err(DirsError::NoInstallationHome),
                Some(home) => Ok(CbpDirs::from(home.as_str())),
            },
        }
    }

    /// The home directory.
    pub fn get_home(&self) -> (out: String)
        ensures
            out@ == self.home@,
    {
        self.home.clone()
    }

    /// The directories that must exist before the installation is used:
    /// home, `bin`, `cache` and `records`, in this order.
    pub fn required_dirs(&self) -> (out: Vec<String>)
        ensures
            out@.len() == 4,
            out[0]@ == self.home@,
            out[1]@ == self.bin@,
            out[2]@ == self.cache@,
            out[3]@ == self.records@,
    {
        let mut out: Vec<String> = Vec::new();
        out.push(self.home.clone());
        out.push(self.bin.clone());
        out.push(self.cache.clone());
        out.push(self.records.clone());
        out
    }

    /// The path of the manifest of `package`.
    pub fn record_file(&self, package: &str) -> (out: String)
        ensures
            out@ == joined(self.records@, record_name_of(package@)),
    {
        let name = record_name(package);
        join_path(self.records.as_str(), name.as_str())
    }
}

/// The path as an absolute one: itself where it is absolute, otherwise
/// below the current directory.
pub open spec fn absolute_of(path: Seq<char>, is_absolute: bool, current_dir: Seq<char>) -> Seq<
    char,
> {
    if is_absolute {
        path
    } else {
        joined(current_dir, path)
    }
}

/// Asks `std::path::Path::is_absolute` whether a path is absolute. The
/// answer follows the platform: a path that starts at the root is absolute
/// on one and, without a drive, not on another.
#[verifier::external_body]
fn is_absolute(path: &str) -> (r: bool) {
    std::path::Path::new(path).is_absolute()
}

/// Makes a path absolute, given whether the platform takes it for
/// absolute.
pub fn absolute_path(path: &str, is_absolute: bool, current_dir: &str) -> (out: String)
    ensures
        out@ == absolute_of(path@, is_absolute, current_dir@),
{
    if is_absolute {
        path.to_owned()
    } else {
        join_path(current_dir, path)
    }
}

/// Makes a path absolute with the help of the current directory: a path
/// that the platform takes for absolute comes back as it is, any other
/// below the current directory.
pub fn to_absolute_path(path: &str, current_dir: &str) -> (out: String)
    ensures
        out@ == path@ || out@ == joined(current_dir@, path@),
{
    let absolute = is_absolute(path);
    absolute_path(path, absolute, current_dir)
}

/// The directory of an installation that goes by a short name: `bin`,
/// `cache`, `records`, `include` or `lib`; the home directory where no
/// name is given; none for any other name.
pub open spec fn prefix_of(dirs: CbpDirs, which: Option<Seq<char>>) -> Option<Seq<char>> {
    match which {
        None => Some(dirs.home@),
        Some(name) => if name == "bin"@ {
            Some(dirs.bin@)
        } else if name == "cache"@ {
            Some(dirs.cache@)
        } else if name == "records"@ {
            Some(dirs.records@)
        } else if name == "include"@ {
            Some(joined(dirs.home@, "include"@))
        } else if name == "lib"@ {
            Some(joined(dirs.home@, "lib"@))
        } else {
            None
        },
    }
}

/// The directory of the installation that goes by the name `which`.
pub fn prefix_dir(dirs: &CbpDirs, which: Option<&str>) -> (out: Option<String>)
    ensures
        match out {
            Some(dir) => prefix_of(*dirs, text_view(which)) == Some(dir@),
            None => prefix_of(*dirs, text_view(which)) is None,
        },
{
    match which {
        None => Some(dirs.home.clone()),
        Some(name) => {
            let n = chars_of(name);
            if is_str(n.as_slice(), "bin") {
                Some(dirs.bin.clone())
            } else if is_str(n.as_slice(), "cache") {
                Some(dirs.cache.clone())
            } else if is_str(n.as_slice(), "records") {
                Some(dirs.records.clone())
            } else if is_str(n.as_slice(), "include") {
                Some(join_path(dirs.home.as_str(), "include"))
            } else if is_str(n.as_slice(), "lib") {
                Some(join_path(dirs.home.as_str(), "lib"))
            } else {
                None
            }
        },
    }
}

/// The views of a sequence of pairs of strings.
pub open spec fn pair_views(pairs: Seq<(String, String)>) -> Seq<(Seq<char>, Seq<char>)> {
    Seq::new(pairs.len(), |i: int| (pairs[i].0@, pairs[i].1@))
}

/// The compiler shims that the manager installs for itself, as file name
/// and content: scripts that hand their arguments to `zig`.
pub open spec fn shims_for(windows: bool) -> Seq<(Seq<char>, Seq<char>)> {
    if windows {
        seq![
            ("zig-cc.cmd"@, "@echo off\nzig cc %*"@),
            ("zig-c++.cmd"@, "@echo off\nzig c++ %*"@),
            ("zig-ar.cmd"@, "@echo off\nzig ar %*"@),
            ("zig-ranlib.cmd"@, "@echo off\nzig ranlib %*"@),
        ]
    } else {
        seq![
            ("zig-cc"@, "#!/bin/bash\nexec zig cc \"$@\""@),
            ("zig-c++"@, "#!/bin/bash\nexec zig c++ \"$@\""@),
            ("zig-ar"@, "#!/bin/bash\nexec zig ar \"$@\""@),
            ("zig-ranlib"@, "#!/bin/bash\nexec zig ranlib \"$@\""@),
        ]
    }
}

/// The compiler shims to write into `bin`, as file name and content.
pub fn create_compiler_shims(windows: bool) -> (out: Vec<(String, String)>)
    ensures
        pair_views(out@) == shims_for(windows),
{
    let mut out: Vec<(String, String)> = Vec::new();
    if windows {
        out.push(("zig-cc.cmd".to_owned(), "@echo off\nzig cc %*".to_owned()));
        out.push(("zig-c++.cmd".to_owned(), "@echo off\nzig c++ %*".to_owned()));
        out.push(("zig-ar.cmd".to_owned(), "@echo off\nzig ar %*".to_owned()));
        out.push(("zig-ranlib.cmd".to_owned(), "@echo off\nzig ranlib %*".to_owned()));
    } else {
        out.push(("zig-cc".to_owned(), "#!/bin/bash\nexec zig cc \"$@\"".to_owned()));
        out.push(("zig-c++".to_owned(), "#!/bin/bash\nexec zig c++ \"$@\"".to_owned()));
        out.push(("zig-ar".to_owned(), "#!/bin/bash\nexec zig ar \"$@\"".to_owned()));
        out.push(("zig-ranlib".to_owned(), "#!/bin/bash\nexec zig ranlib \"$@\"".to_owned()));
    }
    assert(pair_views(out@) =~= shims_for(windows));
    out
}

} // verus!
