//! What a configuration file must satisfy before it is read.
use vstd::prelude::*;
use vstd::string::StringExecFns;

use crate::text::{chars_of, range_eq};

use super::errors::{push_decimal, spec_decimal, ConfigError};

verus! {

/// The largest configuration file that is read, in bytes.
pub const MAX_CONFIG_FILE_SIZE: u64 = 2 * 1024 * 1024;

/// The message for a file of `len` bytes at `path` that is too large.
pub open spec fn spec_too_large_message(path: Seq<char>, len: u64) -> Seq<char> {
    "Config file too large: "@ + path + " ("@ + spec_decimal(len as nat) + " bytes, max: "@
        + spec_decimal(MAX_CONFIG_FILE_SIZE as nat) + " bytes)"@
}

/// Refuses a configuration file of `len` bytes at `path` that is larger than
/// `MAX_CONFIG_FILE_SIZE`.
pub fn check_config_size(path: &str, len: u64) -> (r: Result<(), ConfigError>)
    ensures
        len <= MAX_CONFIG_FILE_SIZE ==> r is Ok,
        len > MAX_CONFIG_FILE_SIZE ==> (r matches Err(ConfigError::Io { message, path: Some(p) })
            && message@ == spec_too_large_message(path@, len) && p@ == path@),
{
    if len <= MAX_CONFIG_FILE_SIZE {
        return Ok(());
    }
    let mut message = "Config file too large: ".to_owned();
    message.append(path);
    message.append(" (");
    push_decimal(&mut message, len);
    message.append(" bytes, max: ");
    push_decimal(&mut message, MAX_CONFIG_FILE_SIZE);
    message.append(" bytes)");
    Err(ConfigError::Io { message, path: Some(path.to_owned()) })
}

/// What an `includes` entry of a master file names, by the last part of its
/// path: every file of its directory (`*`), the `.conf` files of its
/// directory (`*.conf`), or one file.
#[derive(Debug, Clone, Copy, PartialEq, Eq, Structural)]
pub enum IncludeKind {
    Every,
    ConfFiles,
    Single,
}

/// The kind of include whose path ends in `file_name`.
pub fn include_kind(file_name: &str) -> (k: IncludeKind)
    ensures
        k == (if file_name@ == "*"@ {
            IncludeKind::Every
        } else if file_name@ == "*.conf"@ {
            IncludeKind::ConfFiles
        } else {
            IncludeKind::Single
        }),
{
    let v = chars_of(file_name);
    let n = v.len();
    assert(v@.subrange(0, n as int) =~= file_name@);
    if range_eq(&v, 0, n, "*") {
        IncludeKind::Every
    } else if range_eq(&v, 0, n, "*.conf") {
        IncludeKind::ConfFiles
    } else {
        IncludeKind::Single
    }
}

/// A configuration file and the time it was last modified, in nanoseconds
/// from the Unix epoch (negative before it).
#[derive(Debug, Clone)]
pub struct ConfigFileTracker {
    pub path: String,
    pub last_mtime: i128,
}

impl ConfigFileTracker {
    pub fn new(path: String, mtime: i128) -> (t: Self)
        ensures
            t.path == path,
            t.last_mtime == mtime,
    {
        ConfigFileTracker { path, last_mtime: mtime }
    }

    /// Whether the file, now last modified at `current`, changed since it was
    /// last seen: it is newer.
    pub fn has_changed(&self, current: i128) -> (b: bool)
        ensures
            b == (current > self.last_mtime),
    {
        current > self.last_mtime
    }

    /// Records `mtime` as the file's last modification.
    pub fn refresh_mtime(&mut self, mtime: i128)
        ensures
            final(self).path == old(self).path,
            final(self).last_mtime == mtime,
    {
        self.last_mtime = mtime;
    }
}

} // verus!
