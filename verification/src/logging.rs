//! Where the log file lives.
use vstd::prelude::*;

use crate::config::str_opt;
use crate::paths::{path_join, path_joined};

verus! {

/// The state directory: `$XDG_STATE_HOME/termconnect`, else
/// `$HOME/.local/state/termconnect`; an error when neither is set.
pub open spec fn state_dir_spec(xdg: Option<Seq<char>>, home: Option<Seq<char>>) -> Result<Seq<char>, Seq<char>> {
    match xdg {
        Some(x) => Ok(path_joined(x, "termconnect"@)),
        None => match home {
            Some(h) => Ok(path_joined(path_joined(path_joined(h, ".local"@), "state"@), "termconnect"@)),
            None => Err("HOME environment variable is not set"@),
        },
    }
}

/// The state directory, from the values of `XDG_STATE_HOME` and `HOME`.
pub fn state_dir(xdg: Option<&str>, home: Option<&str>) -> (r: Result<String, String>)
    ensures
        match r {
            Ok(d) => state_dir_spec(str_opt(xdg), str_opt(home)) == Ok::<Seq<char>, Seq<char>>(d@),
            Err(e) => state_dir_spec(str_opt(xdg), str_opt(home)) == Err::<Seq<char>, Seq<char>>(e@),
        },
{
    match xdg {
        Some(x) => Ok(path_join(x, "termconnect")),
        None => match home {
            Some(h) => {
                let local: String = path_join(h, ".local");
                let state: String = path_join(local.as_str(), "state");
                Ok(path_join(state.as_str(), "termconnect"))
            },
            None => Err("HOME environment variable is not set".to_owned()),
        },
    }
}

/// The log file in the state directory.
pub fn log_path(state_dir: &str) -> (r: String)
    ensures
        r@ == path_joined(state_dir@, "termconnect.log"@),
{
    path_join(state_dir, "termconnect.log")
}

} // verus!
