//! Where the program keeps its configuration: `~/.lpm/...`.

use vstd::prelude::*;
use crate::text::{owned, push_str};

verus! {

/// `base` joined with the relative component `comp`, as `PathBuf::push` does on Unix:
/// a separator is added unless `base` is empty or already ends with one.
pub open spec fn join_path(base: Seq<char>, comp: Seq<char>) -> Seq<char> {
    if base.len() == 0 {
        comp
    } else if base[base.len() - 1] == '/' {
        base + comp
    } else {
        base + seq!['/'] + comp
    }
}

/// `base` joined with `comp` (a relative component).
pub fn join(base: &str, comp: &str) -> (res: String)
    ensures
        res@ == join_path(base@, comp@),
{
    let b = crate::text::chars_of(base);
    let mut res = owned(base);
    if b.len() == 0 {
        return owned(comp);
    }
    if b[b.len() - 1] != '/' {
        push_str(&mut res, "/");
        proof {
            assert("/"@ == seq!['/']) by {
                reveal_strlit("/");
            }
        }
    }
    push_str(&mut res, comp);
    res
}

/// The user's home directory (`dirs::home_dir`), as a string. What it gives
/// depends on the environment (`$HOME`, the password database), so nothing
/// is stated of it.
#[verifier::external_body]
pub(crate) fn home_dir() -> Option<String> {
    dirs::home_dir().map(|p| p.to_string_lossy().into_owned())
}

/// The program's configuration directory below a home directory:
/// `home/.lpm`, or `.` when there is no home directory.
pub open spec fn config_dir(home: Option<Seq<char>>) -> Seq<char> {
    match home {
        Some(h) => join_path(h, ".lpm"@),
        None => "."@,
    }
}

pub fn config_dir_for(home: Option<String>) -> (res: String)
    ensures
        res@ == config_dir(match home {
            Some(h) => Some(h@),
            None => None::<Seq<char>>,
        }),
{
    match home {
        Some(h) => join(h.as_str(), ".lpm"),
        None => owned("."),
    }
}

/// The path of a configuration file in the program's configuration directory.
pub fn config_file(home: Option<String>, name: &str) -> (res: String)
    ensures
        res@ == join_path(
            config_dir(match home {
                Some(h) => Some(h@),
                None => None::<Seq<char>>,
            }),
            name@,
        ),
{
    let dir = config_dir_for(home);
    join(dir.as_str(), name)
}

} // verus!
