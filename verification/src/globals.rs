use vstd::prelude::*;
use crate::text::chars_vec;

verus! {

pub const URL_AUR: &'static str = "https://aur.archlinux.org";

pub const URL_PKGBASE: &'static str = "https://aur.archlinux.org/pkgbase.gz";

pub const URL_PKG: &'static str = "https://aur.archlinux.org/packages.gz";

pub const FILENAME_PKG: &'static str = "packages";

pub const FILENAME_PKGBASE: &'static str = "pkgbase";

/// Settings that every command reads: the cache directory.
pub struct Globals {
    pub cache_path: String,
}

/// What the environment holds for a variable.
pub enum EnvVar {
    Value(String),
    NotPresent,
    NotUnicode,
}

/// `PathBuf::join` of a relative path `name` to `base`: `name` alone when `base` is
/// empty, else a separator between them unless `base` ends with one.
pub open spec fn path_join(base: Seq<char>, name: Seq<char>) -> Seq<char> {
    if base.len() == 0 {
        name
    } else if base.last() == '/' {
        base + name
    } else {
        base + seq!['/'] + name
    }
}

/// Joins the relative path `name` (no leading separator) to `base`.
pub fn join(base: &str, name: &str) -> (r: String)
    ensures
        r@ == path_join(base@, name@),
{
    let v = chars_vec(base);
    let mut r = String::from_str(base);
    if v.len() == 0 {
        return String::from_str(name);
    }
    if v[v.len() - 1] != '/' {
        r.append("/");
        proof {
            reveal_strlit("/");
        }
    }
    r.append(name);
    r
}

/// The cache directory for the values of `$XDG_CACHE_HOME` and `$HOME`.
pub open spec fn cache_path_spec(xdg: EnvVar, home: EnvVar) -> Result<Seq<char>, Seq<char>> {
    match xdg {
        EnvVar::Value(v) => Ok(path_join(v@, "saur"@)),
        EnvVar::NotPresent => match home {
            EnvVar::Value(h) => Ok(path_join(h@ + "/.cache"@, "saur"@)),
            EnvVar::NotPresent => Err("$HOME is not set"@),
            EnvVar::NotUnicode => Err("Invalid $HOME value"@),
        },
        EnvVar::NotUnicode => Err("Invalid $XDG_CACHE_HOME value"@),
    }
}

/// The configuration file for the values of `$XDG_CONFIG_HOME` and `$HOME`.
pub open spec fn config_path_spec(xdg: EnvVar, home: EnvVar) -> Result<Seq<char>, Seq<char>> {
    match xdg {
        EnvVar::Value(v) => Ok(path_join(path_join(v@, "saur"@), "config.toml"@)),
        EnvVar::NotPresent => match home {
            EnvVar::Value(h) => Ok(path_join(path_join(h@ + "/.config"@, "saur"@), "config.toml"@)),
            EnvVar::NotPresent => Err("$HOME is not set"@),
            EnvVar::NotUnicode => Err("Invalid $HOME value"@),
        },
        EnvVar::NotUnicode => Err("Invalid $XDG_CONFIG_HOME value"@),
    }
}

/// The configuration file: `$XDG_CONFIG_HOME/saur/config.toml`, or
/// `$HOME/.config/saur/config.toml` when `$XDG_CONFIG_HOME` is not set.
pub fn config_path(xdg_config_home: EnvVar, home: EnvVar) -> (r: Result<String, String>)
    ensures
        match r {
            Ok(p) => config_path_spec(xdg_config_home, home) == Ok::<Seq<char>, Seq<char>>(p@),
            Err(e) => config_path_spec(xdg_config_home, home) == Err::<Seq<char>, Seq<char>>(e@),
        },
{
    let base = match xdg_config_home {
        EnvVar::Value(val) => val,
        EnvVar::NotPresent => {
            let mut home = match home {
                EnvVar::Value(val) => val,
                EnvVar::NotPresent => return Err(String::from_str("$HOME is not set")),
                EnvVar::NotUnicode => return Err(String::from_str("Invalid $HOME value")),
            };
            home.append("/.config");
            home
        },
        EnvVar::NotUnicode => return Err(String::from_str("Invalid $XDG_CONFIG_HOME value")),
    };
    let dir = join(base.as_str(), "saur");
    Ok(join(dir.as_str(), "config.toml"))
}

impl Globals {
    /// The cache directory is `$XDG_CACHE_HOME/saur`, or `$HOME/.cache/saur` when
    /// `$XDG_CACHE_HOME` is not set.
    pub fn build(xdg_cache_home: EnvVar, home: EnvVar) -> (r: Result<Globals, String>)
        ensures
            match r {
                Ok(g) => cache_path_spec(xdg_cache_home, home) == Ok::<Seq<char>, Seq<char>>(g.cache_path@),
                Err(e) => cache_path_spec(xdg_cache_home, home) == Err::<Seq<char>, Seq<char>>(e@),
            },
    {
        let cache_path = match xdg_cache_home {
            EnvVar::Value(val) => val,
            EnvVar::NotPresent => {
                let mut home = match home {
                    EnvVar::Value(val) => val,
                    EnvVar::NotPresent => return Err(String::from_str("$HOME is not set")),
                    EnvVar::NotUnicode => return Err(String::from_str("Invalid $HOME value")),
                };
                home.append("/.cache");
                home
            },
            EnvVar::NotUnicode => return Err(String::from_str("Invalid $XDG_CACHE_HOME value")),
        };
        Ok(Globals { cache_path: join(cache_path.as_str(), "saur") })
    }

    /// The directory where the AUR repositories are cloned: `<cache>/clone`.
    pub fn clone_path(&self) -> (p: String)
        ensures
            p@ == path_join(self.cache_path@, "clone"@),
    {
        join(self.cache_path.as_str(), "clone")
    }
}

} // verus!
