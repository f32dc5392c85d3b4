//! Path resolution: CLI flags, then environment variables, then platform
//! defaults. Reading the environment and the platform directories is the
//! caller's; this module decides between what they found.

use vstd::prelude::*;

use crate::error::{JingleError, Result};

verus! {

broadcast use vstd::string::group_string_axioms;

pub const ENV_KEYFILE: &'static str = "JINGLE_KEYFILE";

pub const ENV_DATA_DIR: &'static str = "JINGLE_DATA_DIR";

/// Where the keyfile, the vault and its audit log live.
#[derive(Debug, Clone, PartialEq, Eq)]
pub struct Paths {
    pub keyfile: String,
    pub vault: String,
    pub audit: String,
}

/// The path `base` extended by the relative path `seg`.
pub uninterp spec fn path_join(base: Seq<char>, seg: Seq<char>) -> Seq<char>;

/// `Path::join`: `base` followed by `seg` as a further component.
#[verifier::external_body]
fn join_path(base: &str, seg: &str) -> (r: String)
    ensures
        r@ == path_join(base@, seg@),
{
    std::path::Path::new(base).join(seg).to_string_lossy().into_owned()
}

/// The path `p` with its last component replaced by `name`.
pub uninterp spec fn path_with_file_name(p: Seq<char>, name: Seq<char>) -> Seq<char>;

/// `PathBuf::with_file_name`: `p` with its file name replaced by `name`.
#[verifier::external_body]
fn with_file_name(p: &str, name: &str) -> (r: String)
    ensures
        r@ == path_with_file_name(p@, name@),
{
    std::path::Path::new(p).with_file_name(name).to_string_lossy().into_owned()
}

pub open spec fn opt_view(o: Option<String>) -> Option<Seq<char>> {
    match o {
        Some(s) => Some(s@),
        None => None,
    }
}

/// A flag, else a non-empty environment value, else a default: the first
/// that is there.
pub open spec fn first_given(flag: Option<Seq<char>>, env: Option<Seq<char>>, default: Option<Seq<char>>) -> Option<Seq<char>> {
    match flag {
        Some(f) => Some(f),
        None => match env {
            Some(e) if e.len() > 0 => Some(e),
            _ => default,
        },
    }
}

/// The keyfile path: `keyfile_flag`, else `JINGLE_KEYFILE`, else `key` in
/// the platform config directory.
pub open spec fn keyfile_path(keyfile_flag: Option<Seq<char>>, env_keyfile: Option<Seq<char>>, config_dir: Option<Seq<char>>) -> Option<Seq<char>> {
    first_given(
        keyfile_flag,
        env_keyfile,
        match config_dir {
            Some(d) => Some(path_join(d, "key"@)),
            None => None,
        },
    )
}

/// The vault path: `vault_flag`, else `vault.jingle` in `JINGLE_DATA_DIR`,
/// else in the platform data directory.
pub open spec fn vault_path(vault_flag: Option<Seq<char>>, env_data_dir: Option<Seq<char>>, data_dir: Option<Seq<char>>) -> Option<Seq<char>> {
    match vault_flag {
        Some(v) => Some(v),
        None => match first_given(None, env_data_dir, data_dir) {
            Some(d) => Some(path_join(d, "vault.jingle"@)),
            None => None,
        },
    }
}

/// Resolve the keyfile, vault and audit-log paths from what the command
/// line, the environment (`JINGLE_KEYFILE`, `JINGLE_DATA_DIR`) and the
/// platform (`config_dir`, `data_dir`) offer. The audit log always lives
/// next to the vault, so a relocated vault keeps its trail.
pub fn resolve(
    vault_flag: Option<String>,
    keyfile_flag: Option<String>,
    env_keyfile: Option<String>,
    env_data_dir: Option<String>,
    config_dir: Option<String>,
    data_dir: Option<String>,
) -> (r: Result<Paths>)
    ensures
        keyfile_path(opt_view(keyfile_flag), opt_view(env_keyfile), opt_view(config_dir)) is None ==> (r matches Err(JingleError::Other(m)) && m@ == "cannot determine a config directory"@),
        keyfile_path(opt_view(keyfile_flag), opt_view(env_keyfile), opt_view(config_dir)) is Some && vault_path(opt_view(vault_flag), opt_view(env_data_dir), opt_view(data_dir)) is None ==> (r matches Err(JingleError::Other(m)) && m@ == "cannot determine a data directory"@),
        r is Ok <==> keyfile_path(opt_view(keyfile_flag), opt_view(env_keyfile), opt_view(config_dir)) is Some
            && vault_path(opt_view(vault_flag), opt_view(env_data_dir), opt_view(data_dir)) is Some,
        r matches Ok(p) ==> {
            &&& keyfile_path(opt_view(keyfile_flag), opt_view(env_keyfile), opt_view(config_dir)) == Some(p.keyfile@)
            &&& vault_path(opt_view(vault_flag), opt_view(env_data_dir), opt_view(data_dir)) == Some(p.vault@)
            &&& p.audit@ == path_with_file_name(p.vault@, "audit.jsonl"@)
        },
{
    let keyfile = match keyfile_flag {
        Some(p) => p,
        None => match env_keyfile {
            Some(p) if !p.as_str().is_empty() => p,
            _ => match config_dir {
                Some(d) => join_path(d.as_str(), "key"),
                None => {
                    return Err(JingleError::Other("cannot determine a config directory".to_owned()));
                },
            },
        },
    };
    let vault = match vault_flag {
        Some(p) => p,
        None => {
            let dir = match env_data_dir {
                Some(p) if !p.as_str().is_empty() => p,
                _ => match data_dir {
                    Some(d) => d,
                    None => {
                        return Err(JingleError::Other("cannot determine a data directory".to_owned()));
                    },
                },
            };
            join_path(dir.as_str(), "vault.jingle")
        },
    };
    let audit = with_file_name(vault.as_str(), "audit.jsonl");
    Ok(Paths { keyfile, vault, audit })
}

} // verus!
