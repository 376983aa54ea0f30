//! The place of the stored target list.

use crate::text::optional_text;
use crate::text::texts;
use vstd::prelude::*;

verus! {

/// The directory below the home directory that holds configurations where
/// no other is named.
pub const HOME_CONFIG_DIR: &'static str = ".config";

/// The directory of this program below the configuration directory.
pub const APP_DIR: &'static str = "umwtool";

/// The file that holds the target list.
pub const TARGETS_FILE: &'static str = "targets.txt";

/// Why the place of the stored target list is not known.
#[derive(Clone, Copy, Debug, PartialEq, Eq, Structural)]
pub enum ConfigError {
    /// Neither a configuration directory nor a home directory is named.
    NoHome,
}

/// The place of the stored target list, as the parts of its path: below the
/// configuration directory where one is named, else below `.config` in the
/// home directory.
pub open spec fn config_path(
    xdg_config_home: Option<Seq<char>>,
    home: Option<Seq<char>>,
) -> Option<Seq<Seq<char>>> {
    match xdg_config_home {
        Some(base) => Some(seq![base, APP_DIR@, TARGETS_FILE@]),
        None => match home {
            Some(base) => Some(seq![base, HOME_CONFIG_DIR@, APP_DIR@, TARGETS_FILE@]),
            None => None,
        },
    }
}

/// Finds the place of the stored target list from the two environment
/// variables that decide it, and gives it as the parts of its path, to be
/// joined in order.
pub fn config_file(xdg_config_home: Option<&str>, home: Option<&str>) -> (path: Result<
    Vec<String>,
    ConfigError,
>)
    ensures
        match config_path(optional_text(xdg_config_home), optional_text(home)) {
            Some(expected) => path is Ok && texts(path->Ok_0@) == expected,
            None => path == Err::<Vec<String>, ConfigError>(ConfigError::NoHome),
        },
{
    let mut path: Vec<String> = Vec::new();
    match xdg_config_home {
        Some(base) => {
            path.push(base.to_owned());
        },
        None => match home {
            Some(base) => {
                path.push(base.to_owned());
                path.push(HOME_CONFIG_DIR.to_owned());
            },
            None => {
                return Err(ConfigError::NoHome);
            },
        },
    }
    path.push(APP_DIR.to_owned());
    path.push(TARGETS_FILE.to_owned());
    assert(texts(path@) =~= config_path(optional_text(xdg_config_home), optional_text(home))->Some_0);
    Ok(path)
}

} // verus!
