//! Where zPad keeps its files: the data directory, the configuration file
//! and the autostart entry, chosen from the XDG variables and `HOME`.
//! Paths are Unix paths held as strings and joined as `Path::join` joins.

use vstd::prelude::*;
use crate::text::{chars_of, push_char};

verus! {

/// A Unix path is absolute when it starts at the root.
pub open spec fn is_absolute(p: Seq<char>) -> bool {
    p.len() > 0 && p[0] == '/'
}

/// `Path::join` on Unix: an absolute `rel` replaces `base`; otherwise a
/// `/` separates the two unless `base` is empty or already ends in one.
pub open spec fn path_join(base: Seq<char>, rel: Seq<char>) -> Seq<char> {
    if is_absolute(rel) {
        rel
    } else if base.len() == 0 || base.last() == '/' {
        base + rel
    } else {
        base.push('/') + rel
    }
}

pub fn path_is_absolute(p: &str) -> (r: bool)
    ensures
        r == is_absolute(p@),
{
    let v = chars_of(p);
    v.len() > 0 && v[0] == '/'
}

/// Joins `rel` onto `base` as `Path::join` does.
pub fn join_path(base: &str, rel: &str) -> (p: String)
    ensures
        p@ == path_join(base@, rel@),
{
    if path_is_absolute(rel) {
        return String::from_str(rel);
    }
    let b = chars_of(base);
    let mut p = String::from_str(base);
    if b.len() > 0 && b[b.len() - 1] != '/' {
        push_char(&mut p, '/');
    }
    p.append(rel);
    p
}

/// Why there is no data directory.
#[derive(Debug, Clone, Copy, PartialEq, Eq)]
pub enum DataDirError {
    /// `XDG_DATA_HOME` is set to a relative path.
    RelativeDataHome,
    /// `XDG_DATA_HOME` is unset or empty and `HOME` is not set.
    HomeNotSet,
}

/// `~/.local/share/zpad`, or `$XDG_DATA_HOME/zpad` when that variable is
/// set and not empty; a relative `XDG_DATA_HOME` is an error.
pub open spec fn data_dir_spec(xdg_data_home: Option<Seq<char>>, home: Option<Seq<char>>) -> Result<
    Seq<char>,
    DataDirError,
> {
    let from_home = match home {
        Some(h) => Ok(path_join(path_join(path_join(h, ".local"@), "share"@), "zpad"@)),
        None => Err(DataDirError::HomeNotSet),
    };
    match xdg_data_home {
        Some(v) => if v.len() == 0 {
            from_home
        } else if is_absolute(v) {
            Ok(path_join(v, "zpad"@))
        } else {
            Err(DataDirError::RelativeDataHome)
        },
        None => from_home,
    }
}

pub open spec fn opt_view(o: Option<&str>) -> Option<Seq<char>> {
    match o {
        Some(s) => Some(s@),
        None => None,
    }
}

/// The data directory for the given values of `XDG_DATA_HOME` and `HOME`
/// (what `Store::default_dir` computes from the environment).
pub fn data_dir(xdg_data_home: Option<&str>, home: Option<&str>) -> (r: Result<String, DataDirError>)
    ensures
        r matches Ok(p) ==> data_dir_spec(opt_view(xdg_data_home), opt_view(home)) == Ok::<
            Seq<char>,
            DataDirError,
        >(p@),
        r matches Err(e) ==> data_dir_spec(opt_view(xdg_data_home), opt_view(home)) == Err::<
            Seq<char>,
            DataDirError,
        >(e),
{
    if let Some(v) = xdg_data_home {
        if !v.is_empty() {
            if path_is_absolute(v) {
                return Ok(join_path(v, "zpad"));
            } else {
                return Err(DataDirError::RelativeDataHome);
            }
        }
    }
    match home {
        Some(h) => {
            let local = join_path(h, ".local");
            let share = join_path(local.as_str(), "share");
            Ok(join_path(share.as_str(), "zpad"))
        },
        None => Err(DataDirError::HomeNotSet),
    }
}

/// `$XDG_CONFIG_HOME` when it is set, not empty and absolute; otherwise
/// `$HOME/.config` (with an empty `HOME` when it is not set).
pub open spec fn config_home_spec(xdg_config_home: Option<Seq<char>>, home: Option<Seq<char>>) -> Seq<
    char,
> {
    let home_dir = match home {
        Some(h) => h,
        None => Seq::empty(),
    };
    match xdg_config_home {
        Some(v) => if is_absolute(v) {
            v
        } else {
            path_join(home_dir, ".config"@)
        },
        None => path_join(home_dir, ".config"@),
    }
}

pub fn config_home(xdg_config_home: Option<&str>, home: Option<&str>) -> (p: String)
    ensures
        p@ == config_home_spec(opt_view(xdg_config_home), opt_view(home)),
{
    let home_dir: &str = match home {
        Some(h) => h,
        None => "",
    };
    proof {
        reveal_strlit("");
    }
    let use_xdg = match xdg_config_home {
        Some(v) => path_is_absolute(v),
        None => false,
    };
    if use_xdg {
        match xdg_config_home {
            Some(v) => String::from_str(v),
            None => join_path(home_dir, ".config"),
        }
    } else {
        join_path(home_dir, ".config")
    }
}

/// `<config home>/zpad/config.toml`, where the preferences are kept.
pub fn config_path(xdg_config_home: Option<&str>, home: Option<&str>) -> (p: String)
    ensures
        p@ == path_join(
            path_join(config_home_spec(opt_view(xdg_config_home), opt_view(home)), "zpad"@),
            "config.toml"@,
        ),
{
    let base = config_home(xdg_config_home, home);
    let dir = join_path(base.as_str(), "zpad");
    join_path(dir.as_str(), "config.toml")
}

/// `<config home>/autostart`, where the login autostart entry goes.
pub fn autostart_dir(xdg_config_home: Option<&str>, home: Option<&str>) -> (p: String)
    ensures
        p@ == path_join(config_home_spec(opt_view(xdg_config_home), opt_view(home)), "autostart"@),
{
    let base = config_home(xdg_config_home, home);
    join_path(base.as_str(), "autostart")
}

} // verus!
