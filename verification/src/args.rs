//! The command line: an optional override for the configuration path, with
//! the user's `.ssh/config` as the default.

use vstd::prelude::*;
use vstd::string::*;

verus! {

/// The command-line arguments: an optional configuration path.
pub struct Args {
    pub config_path: Option<String>,
}

/// Relies on home::home_dir: the user's home directory, as the environment
/// names it; nothing is promised of the value.
#[verifier::external_body]
fn home_directory() -> (r: Option<String>) {
    match home::home_dir() {
        Some(p) => Some(p.to_string_lossy().to_string()),
        None => None,
    }
}

impl Args {
    /// The configuration path to read: the override, if one was given, else
    /// `.ssh/config` under the home directory, if the environment names one.
    pub fn get_config_path(&self) -> (r: Option<String>)
        ensures
            self.config_path matches Some(p) ==> r matches Some(s) && s@ == p@,
            self.config_path is None ==> (r matches Some(s) ==> exists|h: Seq<char>|
                s@ == h + "/.ssh/config"@),
    {
        match &self.config_path {
            Some(p) => Some(p.clone()),
            None => {
                match home_directory() {
                    Some(h) => {
                        let ghost hv = h@;
                        let joined = h.concat("/.ssh/config");
                        proof {
                            assert(joined@ == hv + "/.ssh/config"@);
                        }
                        Some(joined)
                    },
                    None => None,
                }
            },
        }
    }
}

} // verus!
