//! The pure parts of process initialisation: path bookkeeping and the
//! credential decision. Directory creation and environment reads are
//! I/O and live outside the library; they hand their findings in as
//! plain values.

use vstd::prelude::*;
use vstd::string::StringExecFns;
use crate::utils::strings::views_of;

verus! {

/// Path bookkeeping under one root directory.
#[derive(Debug, Clone)]
pub struct InitManager {
    root_dir: String,
}

impl InitManager {
    /// The root directory.
    pub closed spec fn spec_root(self) -> Seq<char> {
        self.root_dir@
    }

    /// A manager rooted at `root_dir`.
    pub fn new(root_dir: &str) -> (r: InitManager)
        ensures
            r.spec_root() == root_dir@,
    {
        InitManager { root_dir: root_dir.to_owned() }
    }

    /// The path of `subpath` under the root directory.
    pub fn get_path(&self, subpath: &str) -> (r: String)
        ensures
            r@ == self.spec_root() + "/"@ + subpath@,
    {
        self.root_dir.clone().concat("/").concat(subpath)
    }
}

/// The directories a fresh working tree is bootstrapped with, relative
/// to the root directory.
pub fn required_directories() -> (r: Vec<String>)
    ensures
        views_of(r@) =~= seq![
            "output"@,
            "research_dir"@,
            "research_dir/src"@,
            "research_dir/tex"@,
            "state_saves"@,
            "logs"@,
            "experiments"@,
            "temp"@,
        ],
{
    let mut dirs: Vec<String> = Vec::new();
    dirs.push("output".to_owned());
    dirs.push("research_dir".to_owned());
    dirs.push("research_dir/src".to_owned());
    dirs.push("research_dir/tex".to_owned());
    dirs.push("state_saves".to_owned());
    dirs.push("logs".to_owned());
    dirs.push("experiments".to_owned());
    dirs.push("temp".to_owned());
    proof {
        assert(views_of(dirs@) =~= seq![
            "output"@,
            "research_dir"@,
            "research_dir/src"@,
            "research_dir/tex"@,
            "state_saves"@,
            "logs"@,
            "experiments"@,
            "temp"@,
        ]);
    }
    dirs
}

/// Whether a key value taken from the environment counts as a usable
/// credential: it was set, and not to the empty string.
pub open spec fn spec_key_usable(key: Option<Seq<char>>) -> bool {
    key matches Some(k) && k.len() > 0
}

/// Decide the credential check from what the environment held for the
/// two recognised key names: valid exactly when either key is set and
/// non-empty — the first usable one wins.
pub fn credentials_present(deepseek_key: &Option<String>, anthropic_key: &Option<String>) -> (r:
    bool)
    ensures
        r == (spec_key_usable(view_opt(deepseek_key)) || spec_key_usable(view_opt(anthropic_key))),
{
    let d = match deepseek_key {
        Some(k) => !k.as_str().is_empty(),
        None => false,
    };
    if d {
        return true;
    }
    match anthropic_key {
        Some(k) => !k.as_str().is_empty(),
        None => false,
    }
}

/// The character sequence of an optional string.
pub open spec fn view_opt(s: &Option<String>) -> Option<Seq<char>> {
    match s {
        Some(k) => Some(k@),
        None => None,
    }
}

} // verus!
