//! Where the shell looks for a configuration file, in the order the
//! settings layers are merged.
use vstd::prelude::*;
use crate::text::join_text;

verus! {

/// The checkout's asset path of `file_name`, relative to a crate's
/// directory.
pub open spec fn dev_asset_relative_of(file_name: Seq<char>) -> Seq<char> {
    "../../../assets/"@ + file_name
}

/// The user's copy of `file_name`, relative to the home directory.
pub open spec fn home_config_relative_of(file_name: Seq<char>) -> Seq<char> {
    ".config/mechanix/launcher/assets/"@ + file_name
}

/// The system-wide shared copy of `file_name`.
pub open spec fn shared_path_of(file_name: Seq<char>) -> Seq<char> {
    "/usr/share/mechanix/launcher/assets/"@ + file_name
}

/// The administrator's copy of `file_name`.
pub open spec fn etc_path_of(file_name: Seq<char>) -> Seq<char> {
    "/etc/mechanix/launcher/assets/"@ + file_name
}

/// An optional path as a list of zero or one path.
pub open spec fn optional_path(p: Option<String>) -> Seq<Seq<char>> {
    match p {
        Some(s) => seq![s@],
        None => Seq::empty(),
    }
}

/// The search order: the checkout's copy when there is one, the shared
/// copy, the administrator's copy, then the user's copy when there is a
/// home directory.
pub open spec fn search_order(
    file_name: Seq<char>,
    dev_asset: Option<String>,
    home_config: Option<String>,
) -> Seq<Seq<char>> {
    optional_path(dev_asset) + seq![shared_path_of(file_name), etc_path_of(file_name)]
        + optional_path(home_config)
}

/// The path of `file_name` in the checkout's asset directory, relative to a
/// crate's directory.
pub fn dev_asset_relative(file_name: &str) -> (r: String)
    ensures
        r@ == dev_asset_relative_of(file_name@),
{
    join_text("../../../assets/", file_name)
}

/// The path of the user's copy of `file_name`, relative to the home
/// directory.
pub fn home_config_relative(file_name: &str) -> (r: String)
    ensures
        r@ == home_config_relative_of(file_name@),
{
    join_text(".config/mechanix/launcher/assets/", file_name)
}

/// The paths searched for `file_name`, in merge order: `dev_asset` (the
/// checkout's copy, when it exists), the shared and the administrator's
/// copies, then `home_config` (the user's copy, when there is a home
/// directory). Later files override earlier ones.
pub fn config_search_paths(
    file_name: &str,
    dev_asset: Option<String>,
    home_config: Option<String>,
) -> (r: Vec<String>)
    ensures
        r@.map_values(|p: String| p@) == search_order(file_name@, dev_asset, home_config),
{
    let ghost dev = dev_asset;
    let ghost home = home_config;
    let mut paths: Vec<String> = Vec::new();
    match dev_asset {
        Some(p) => paths.push(p),
        None => {},
    }
    paths.push(join_text("/usr/share/mechanix/launcher/assets/", file_name));
    paths.push(join_text("/etc/mechanix/launcher/assets/", file_name));
    match home_config {
        Some(p) => paths.push(p),
        None => {},
    }
    assert(paths@.map_values(|p: String| p@) =~= search_order(file_name@, dev, home));
    paths
}

} // verus!
