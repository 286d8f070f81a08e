//! What the service is configured with.

use crate::run::Runner;
use vstd::prelude::*;
use vstd::string::StringExecFns;

verus! {

/// The name of the configuration file, as it follows the user's home directory.
pub const CONFIG_FILE: &'static str = "/.spellbook.json";

/// The configuration: the runners to install, in order.
#[derive(Debug, Clone, PartialEq, Eq)]
pub struct ConfigFile {
    pub runners: Vec<Runner>,
}

/// Where the configuration of the user whose home directory is `home` is kept.
pub fn config_path(home: &str) -> (path: String)
    ensures
        path@ == home@ + CONFIG_FILE@,
{
    let mut path = home.to_owned();
    path.append(CONFIG_FILE);
    path
}

} // verus!
