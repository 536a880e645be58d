//! Configuration of one matcher invocation: the scan root, the set of
//! directory basenames to ignore, the worker count, and the optional path of
//! the visit-cache file.
//!
//! The configuration file itself is YAML and is read and decomposed by the
//! unverified shell; the shell hands this module the plain fields it found
//! (`ConfigParts`), and this module applies the defaulting and validation
//! rules and assembles the `Config`.

use vstd::prelude::*;

verus! {

/// Configuration shared read-only by every worker of one invocation.
#[derive(Clone, Debug)]
pub struct Config {
    /// Directory basenames skipped during traversal (exact match on the last
    /// path segment).
    pub ignores: Vec<String>,
    /// The directory the scan starts from.
    pub scan_root: String,
    /// How many workers drain the frontier.
    pub num_threads: u8,
    /// Path of the visit-cache file; `None` disables the cache entirely.
    pub previous_visits: Option<String>,
}

/// The plain fields found in a configuration file, each `None` when the file
/// does not mention it.  `num_threads` is still unvalidated here: the file
/// may hold any integer.
#[derive(Clone, Debug)]
pub struct ConfigParts {
    pub ignores: Option<Vec<String>>,
    pub scan_root: Option<String>,
    pub previous_visits: Option<String>,
    pub num_threads: Option<i64>,
}

/// Why a configuration file was rejected.
#[derive(Clone, Copy, Debug, PartialEq, Eq, Structural)]
pub enum ConfigError {
    /// The file's `num_threads` does not fit the worker-count type.
    ThreadCountOutOfRange,
}

/// The worker count used when the configuration file does not set one.
pub const DEFAULT_NUM_THREADS: u8 = 3;

/// The scan root used when the configuration file does not set one.
pub open spec fn default_scan_root() -> Seq<char> {
    "."@
}

pub fn test_config() -> (c: Config)
    ensures
        c.ignores@ =~= Seq::<String>::empty(),
        c.scan_root@ == "test_configs"@,
        c.num_threads == 1,
        c.previous_visits is None,
{
    Config {
        ignores: Vec::new(),
        scan_root: "test_configs".to_owned(),
        num_threads: 1,
        previous_visits: None,
    }
}

/// The configuration used when no configuration file can be read: no ignores,
/// no visit cache, one worker, scanning from `scan_root` (the shell passes
/// the user's home directory here).
pub fn default_config(scan_root: String) -> (c: Config)
    ensures
        c.ignores@ =~= Seq::<String>::empty(),
        c.scan_root == scan_root,
        c.num_threads == 1,
        c.previous_visits is None,
{
    Config { ignores: Vec::new(), scan_root, num_threads: 1, previous_visits: None }
}

/// Assembles a `Config` from the fields of a configuration file, filling each
/// missing field with its default.  Fails exactly when the file sets a worker
/// count outside `0..=255`.
pub fn read_config_from_parts(parts: ConfigParts) -> (r: Result<Config, ConfigError>)
    ensures
        r is Err <==> (parts.num_threads matches Some(t) && !(0 <= t <= u8::MAX)),
        r is Err ==> r == Result::<Config, ConfigError>::Err(ConfigError::ThreadCountOutOfRange),
        r matches Ok(c) ==> {
            &&& c.ignores@ == match parts.ignores {
                Some(v) => v@,
                None => Seq::<String>::empty(),
            }
            &&& c.scan_root@ == match parts.scan_root {
                Some(s) => s@,
                None => default_scan_root(),
            }
            &&& c.previous_visits == parts.previous_visits
            &&& c.num_threads as int == match parts.num_threads {
                Some(t) => t as int,
                None => DEFAULT_NUM_THREADS as int,
            }
        },
{
    let num_threads: u8 = match parts.num_threads {
        Some(t) => {
            if t < 0 || t > u8::MAX as i64 {
                return Err(ConfigError::ThreadCountOutOfRange);
            }
            t as u8
        },
        None => DEFAULT_NUM_THREADS,
    };
    let ignores: Vec<String> = match parts.ignores {
        Some(v) => v,
        None => Vec::new(),
    };
    let scan_root: String = match parts.scan_root {
        Some(s) => s,
        None => ".".to_owned(),
    };
    Ok(Config { ignores, scan_root, num_threads, previous_visits: parts.previous_visits })
}

/// The configuration for one invocation: from the file's fields when a
/// configuration file was read, else the default.  `fallback_root` is the
/// scan root of the default configuration.
pub fn get_config_pb(maybe_parts: Option<ConfigParts>, fallback_root: String) -> (r: Result<
    Config,
    ConfigError,
>)
    ensures
        maybe_parts is None ==> (r matches Ok(c) && {
            &&& c.ignores@ =~= Seq::<String>::empty()
            &&& c.scan_root == fallback_root
            &&& c.num_threads == 1
            &&& c.previous_visits is None
        }),
        maybe_parts matches Some(parts) ==> {
            &&& (r is Err <==> (parts.num_threads matches Some(t) && !(0 <= t <= u8::MAX)))
            &&& (r matches Ok(c) ==> {
                &&& c.ignores@ == match parts.ignores {
                    Some(v) => v@,
                    None => Seq::<String>::empty(),
                }
                &&& c.scan_root@ == match parts.scan_root {
                    Some(s) => s@,
                    None => default_scan_root(),
                }
                &&& c.previous_visits == parts.previous_visits
                &&& c.num_threads as int == match parts.num_threads {
                    Some(t) => t as int,
                    None => DEFAULT_NUM_THREADS as int,
                }
            })
        },
{
    match maybe_parts {
        Some(parts) => read_config_from_parts(parts),
        None => Ok(default_config(fallback_root)),
    }
}

} // verus!
