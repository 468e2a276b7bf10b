use vstd::prelude::*;
use crate::chars::{str_to_chars, chars_eq};

verus! {

/// The resolved configuration the engine runs with: the source trees, the
/// destination tree, and the two catalog files (raw inventory and final).
/// Loading and persisting it is the caller's business; the engine takes the
/// paths as plain values.
pub struct Config {
    pub dir_root: String,
    pub dir_mods: String,
    pub dir_mymods: String,
    pub dir_mods_raw: String,
    pub path_zipmod_info: String,
    pub path_zipmod_info_raw: String,
}

impl Config {
    /// The configuration after setting the named field.  Only `dir_root` and
    /// `dir_mymods` can be changed this way; any other name leaves the
    /// configuration as it was.
    pub fn updated(self, name: &str, value: String) -> (r: Config)
        ensures
            name@ == "dir_root"@ ==> r == (Config { dir_root: value, ..self }),
            name@ == "dir_mymods"@ ==> r == (Config { dir_mymods: value, ..self }),
            name@ != "dir_root"@ && name@ != "dir_mymods"@ ==> r == self,
    {
        proof {
            reveal_strlit("dir_root");
            reveal_strlit("dir_mymods");
        }
        let name_chars = str_to_chars(name);
        let root_key = str_to_chars("dir_root");
        let mymods_key = str_to_chars("dir_mymods");
        if chars_eq(&name_chars, &root_key) {
            proof {
                assert("dir_root"@.len() != "dir_mymods"@.len());
            }
            Config { dir_root: value, ..self }
        } else if chars_eq(&name_chars, &mymods_key) {
            Config { dir_mymods: value, ..self }
        } else {
            self
        }
    }
}

} // verus!
