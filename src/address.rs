//! Choosing the device address from the command-line flag, the environment
//! variable and the configuration file.

use vstd::prelude::*;
use crate::error::CliError;

verus! {

/// A source supplies an address when it holds a non-empty string.
pub open spec fn supplies(source: Option<String>) -> bool {
    source matches Some(s) && s@.len() > 0
}

/// The address chosen from the flag, the environment variable and the file, in
/// that order of precedence: the first source that supplies one wins whole.
pub open spec fn resolved(flag: Option<String>, env: Option<String>, file: Option<String>) -> Option<
    Seq<char>,
> {
    if supplies(flag) {
        Some(flag->0@)
    } else if supplies(env) {
        Some(env->0@)
    } else if supplies(file) {
        Some(file->0@)
    } else {
        None
    }
}

fn supplied(source: &Option<String>) -> (r: bool)
    ensures
        r == supplies(*source),
{
    match source {
        Some(s) => s.as_str().unicode_len() > 0,
        None => false,
    }
}

/// The effective device address: the command-line flag if it is a non-empty
/// string, else the environment variable if it is, else the configuration file's
/// value if it is; otherwise `NoHostConfigured`. An empty string counts as
/// absent for every source. The address is not checked for URL shape.
pub fn resolve_host(flag: Option<String>, env: Option<String>, file: Option<String>) -> (r: Result<
    String,
    CliError,
>)
    ensures
        match resolved(flag, env, file) {
            Some(a) => r matches Ok(h) && h@ == a,
            None => r matches Err(CliError::NoHostConfigured),
        },
        r matches Ok(h) ==> h@.len() > 0,
        supplies(flag) ==> (r matches Ok(h) && h@ == flag->0@),
        !supplies(flag) && supplies(env) ==> (r matches Ok(h) && h@ == env->0@),
        !supplies(flag) && !supplies(env) && !supplies(file) ==> r matches Err(
            CliError::NoHostConfigured,
        ),
{
    if supplied(&flag) {
        return Ok(flag.unwrap());
    }
    if supplied(&env) {
        return Ok(env.unwrap());
    }
    if supplied(&file) {
        return Ok(file.unwrap());
    }
    Err(CliError::NoHostConfigured)
}

/// What reading the configuration file gave.
pub enum ConfigFile {
    /// There is no configuration file.
    Missing,
    /// The file was read; holds its address field, if it has one.
    Loaded(Option<String>),
    /// The file exists but is not a configuration of the expected shape; holds
    /// the cause.
    Malformed(String),
}

/// The effective device address, consulting the configuration file only where
/// neither the flag nor the environment variable supplies one: a malformed file
/// then fails with `ConfigMalformed`, a missing one counts as absent.
pub fn resolve_address(flag: Option<String>, env: Option<String>, file: ConfigFile) -> (r: Result<
    String,
    CliError,
>)
    ensures
        supplies(flag) ==> (r matches Ok(h) && h@ == flag->0@),
        !supplies(flag) && supplies(env) ==> (r matches Ok(h) && h@ == env->0@),
        !supplies(flag) && !supplies(env) ==> match file {
            ConfigFile::Missing => r matches Err(CliError::NoHostConfigured),
            ConfigFile::Loaded(h) => match resolved(flag, env, h) {
                Some(a) => r matches Ok(x) && x@ == a,
                None => r matches Err(CliError::NoHostConfigured),
            },
            ConfigFile::Malformed(cause) => r matches Err(CliError::ConfigMalformed(c)) && c@
                == cause@,
        },
{
    if supplied(&flag) || supplied(&env) {
        return resolve_host(flag, env, None);
    }
    match file {
        ConfigFile::Missing => resolve_host(flag, env, None),
        ConfigFile::Loaded(h) => resolve_host(flag, env, h),
        ConfigFile::Malformed(cause) => Err(CliError::ConfigMalformed(cause)),
    }
}

} // verus!
