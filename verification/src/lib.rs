//! Core logic of a cross-platform binary package manager: path filters,
//! archive layout rules, executable sniffing, descriptors, archives and
//! manifests, each stated as a contract over sequences of characters or
//! bytes.

pub mod archive;
pub mod classify;
pub mod descriptor;
pub mod dirs;
pub mod filters;
pub mod format;
pub mod index;
pub mod json;
pub mod layout;
pub mod manifest;
pub mod matcher;
pub mod order;
pub mod paths;
pub mod release;
pub mod rules;
pub mod search;
pub mod shebang;
pub mod store;
pub mod testing;
pub mod text;

pub use crate::archive::{list_archive_files, read_file_from_archive};
pub use crate::classify::is_windows_executable;
pub use crate::descriptor::read_package_json;
pub use crate::dirs::{get_os_type, to_absolute_path, CbpDirs};
pub use crate::filters::{is_cbp_file, is_system_file};
pub use crate::format::{
    font_install_instructions, format_packages, generate_path_configs, update_shell_rc,
};
pub use crate::matcher::{find_files, match_files};
pub use crate::rules::find_binary_files;
pub use crate::shebang::fix_shebang;
