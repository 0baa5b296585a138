use vstd::prelude::*;

use crate::path::{join, join_path};

verus! {

/// Which program's configuration directory is in use.
#[derive(Clone, Copy, Debug, PartialEq, Eq, Structural)]
pub enum ConfigDirKind {
    Breezy,
    Bazaar,
}

impl ConfigDirKind {
    pub open spec fn name_spec(self) -> Seq<char> {
        match self {
            ConfigDirKind::Breezy => "breezy"@,
            ConfigDirKind::Bazaar => "bazaar"@,
        }
    }

    /// `breezy` or `bazaar`.
    pub fn to_string(&self) -> (r: String)
        ensures
            r@ == self.name_spec(),
    {
        match self {
            ConfigDirKind::Breezy => "breezy".to_string(),
            ConfigDirKind::Bazaar => "bazaar".to_string(),
        }
    }
}

pub open spec fn or_else(o: Option<&str>, d: Seq<char>) -> Seq<char> {
    match o {
        Some(s) => s@,
        None => d,
    }
}

/// The XDG configuration home: `$XDG_CONFIG_HOME`, else `~/.config`.
pub fn xdg_config_home(xdg_var: Option<&str>, home: &str) -> (r: String)
    ensures
        r@ == or_else(xdg_var, join(home@, ".config"@)),
{
    match xdg_var {
        Some(x) => x.to_string(),
        None => join_path(home, ".config"),
    }
}

/// Where an XDG-style Bazaar configuration directory would be.
pub fn bazaar_xdg_dir(xdg_config_home_var: Option<&str>, home: &str) -> (r: String)
    ensures
        r@ == join(or_else(xdg_config_home_var, join(home@, ".config"@)), "bazaar"@),
{
    let x = xdg_config_home(xdg_config_home_var, home);
    join_path(x.as_str(), "bazaar")
}

/// The per-user Bazaar configuration directory: `$BZR_HOME/.bazaar` when
/// that is set; else the XDG one when it exists; else `~/.bazaar`.
pub fn bazaar_config_dir(bzr_home: Option<&str>, xdg_config_home_var: Option<&str>, home: &str, xdg_dir_exists: bool) -> (r: String)
    ensures
        bzr_home matches Some(b) ==> r@ == join(b@, ".bazaar"@),
        bzr_home is None && xdg_dir_exists ==> r@ == join(or_else(xdg_config_home_var, join(home@, ".config"@)), "bazaar"@),
        bzr_home is None && !xdg_dir_exists ==> r@ == join(home@, ".bazaar"@),
{
    match bzr_home {
        Some(b) => join_path(b, ".bazaar"),
        None => {
            if xdg_dir_exists {
                bazaar_xdg_dir(xdg_config_home_var, home)
            } else {
                join_path(home, ".bazaar")
            }
        },
    }
}

/// Where the Breezy configuration directory is: under `$BRZ_HOME`, else
/// under the XDG configuration home.
pub fn breezy_config_dir(brz_home: Option<&str>, xdg_config_home_var: Option<&str>, home: &str) -> (r: String)
    ensures
        r@ == join(or_else(brz_home, or_else(xdg_config_home_var, join(home@, ".config"@))), "breezy"@),
{
    let base = match brz_home {
        Some(b) => b.to_string(),
        None => xdg_config_home(xdg_config_home_var, home),
    };
    join_path(base.as_str(), "breezy")
}

/// Chooses the configuration directory: Breezy's when it exists, else
/// Bazaar's when that exists, else Breezy's.
pub fn config_dir_and_kind(breezy_dir: &str, breezy_exists: bool, bazaar_dir: &str, bazaar_exists: bool) -> (r: (
    String,
    ConfigDirKind,
))
    ensures
        breezy_exists || !bazaar_exists ==> r.0@ == breezy_dir@ && r.1 == ConfigDirKind::Breezy,
        !breezy_exists && bazaar_exists ==> r.0@ == bazaar_dir@ && r.1 == ConfigDirKind::Bazaar,
{
    if breezy_exists {
        (breezy_dir.to_string(), ConfigDirKind::Breezy)
    } else if bazaar_exists {
        (bazaar_dir.to_string(), ConfigDirKind::Bazaar)
    } else {
        (breezy_dir.to_string(), ConfigDirKind::Breezy)
    }
}

/// The per-user configuration directory.
pub fn config_dir(breezy_dir: &str, breezy_exists: bool, bazaar_dir: &str, bazaar_exists: bool) -> (r: String)
    ensures
        breezy_exists || !bazaar_exists ==> r@ == breezy_dir@,
        !breezy_exists && bazaar_exists ==> r@ == bazaar_dir@,
{
    config_dir_and_kind(breezy_dir, breezy_exists, bazaar_dir, bazaar_exists).0
}

/// The main configuration file in a configuration directory of this kind.
pub fn config_path(dir: &str, kind: ConfigDirKind) -> (r: String)
    ensures
        kind == ConfigDirKind::Breezy ==> r@ == join(dir@, "breezy.conf"@),
        kind == ConfigDirKind::Bazaar ==> r@ == join(dir@, "bazaar.conf"@),
{
    match kind {
        ConfigDirKind::Breezy => join_path(dir, "breezy.conf"),
        ConfigDirKind::Bazaar => join_path(dir, "bazaar.conf"),
    }
}

/// The per-user locations file.
pub fn locations_config_path(config_dir: &str) -> (r: String)
    ensures
        r@ == join(config_dir@, "locations.conf"@),
{
    join_path(config_dir, "locations.conf")
}

/// The per-user authentication file.
pub fn authentication_config_path(config_dir: &str) -> (r: String)
    ensures
        r@ == join(config_dir@, "authentication.conf"@),
{
    join_path(config_dir, "authentication.conf")
}

/// The per-user ignore file.
pub fn user_ignore_config_path(config_dir: &str) -> (r: String)
    ensures
        r@ == join(config_dir@, "ignore"@),
{
    join_path(config_dir, "ignore")
}

/// Where crash files go: `$APPORT_CRASH_DIR`, else `/var/crash`.
pub fn crash_dir(apport_crash_dir: Option<&str>) -> (r: String)
    ensures
        r@ == or_else(apport_crash_dir, "/var/crash"@),
{
    match apport_crash_dir {
        Some(d) => d.to_string(),
        None => "/var/crash".to_string(),
    }
}

/// The cache directory: `breezy` under `$XDG_CACHE_HOME`, else under
/// `~/.cache`.
pub fn cache_dir(xdg_cache_home: Option<&str>, home: &str) -> (r: String)
    ensures
        r@ == join(or_else(xdg_cache_home, join(home@, ".cache"@)), "breezy"@),
{
    let base = match xdg_cache_home {
        Some(x) => x.to_string(),
        None => join_path(home, ".cache"),
    };
    join_path(base.as_str(), "breezy")
}

} // verus!
