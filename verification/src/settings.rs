//! The configuration file: its default contents and where it lies.

use vstd::prelude::*;
use vstd::string::StringExecFns;

verus! {

/// The contents of a new configuration file.
pub const DEFAULT_CONFIG_TOML: &'static str = "\n[downloads]\ndownload_dir = \"$HOME/Downloads/\"\n";

/// Where the configuration file lies: at `override_path` when that is given;
/// else under `config_home` when that is given; else under `.config` in
/// `home_dir`. An empty string stands for what is not given.
pub open spec fn config_path_of(
    override_path: Seq<char>,
    config_home: Seq<char>,
    home_dir: Seq<char>,
) -> Seq<char> {
    if override_path.len() > 0 {
        override_path
    } else if config_home.len() > 0 {
        config_home + "/armstrong/config.toml"@
    } else {
        home_dir + "/.config"@ + "/armstrong/config.toml"@
    }
}

/// Computes the path of the configuration file.
pub fn config_path(override_path: &str, config_home: &str, home_dir: &str) -> (path: String)
    ensures
        path@ == config_path_of(override_path@, config_home@, home_dir@),
{
    if !override_path.is_empty() {
        return override_path.to_owned();
    }
    let mut path = if !config_home.is_empty() {
        config_home.to_owned()
    } else {
        let mut dir = home_dir.to_owned();
        dir.append("/.config");
        dir
    };
    path.append("/armstrong/config.toml");
    path
}

} // verus!
