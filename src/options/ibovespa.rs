//! Where the Ibovespa series is stored.
use crate::options::{key_of, setting, ConfigError, Settings};
use vstd::prelude::*;

verus! {

/// Where the Ibovespa series is stored.
#[derive(Clone, Debug, Default)]
pub struct Options {
    pub description: String,
    pub path: String,
}

/// The Ibovespa options from the settings under `indices.ibovespa`; the first
/// missing field is an error.
pub fn load(settings: &Settings) -> (r: Result<Options, ConfigError>)
    ensures
        match r {
            Ok(o) => setting(settings.entries@, key_of("indices.ibovespa"@, "description"@)) == Some(
                o.description@,
            ) && setting(settings.entries@, key_of("indices.ibovespa"@, "path"@)) == Some(o.path@),
            Err(_) => setting(settings.entries@, key_of("indices.ibovespa"@, "description"@)) is None || setting(
                settings.entries@,
                key_of("indices.ibovespa"@, "path"@),
            ) is None,
        },
{
    let description = settings.field("indices.ibovespa", "description")?;
    let path = settings.field("indices.ibovespa", "path")?;
    Ok(Options { description, path })
}

} // verus!
