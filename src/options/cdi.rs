//! Where the CDI rate series is published.
use crate::options::{key_of, setting, ConfigError, Settings};
use vstd::prelude::*;

verus! {

/// Where the CDI series is published and stored.
#[derive(Clone, Debug, Default)]
pub struct Options {
    pub description: String,
    pub url: String,
    pub path: String,
}

/// The CDI options from the settings under `indices.cdi`; the first missing
/// field is an error.
pub fn load(settings: &Settings) -> (r: Result<Options, ConfigError>)
    ensures
        match r {
            Ok(o) => setting(settings.entries@, key_of("indices.cdi"@, "description"@)) == Some(
                o.description@,
            ) && setting(settings.entries@, key_of("indices.cdi"@, "url"@)) == Some(o.url@) && setting(
                settings.entries@,
                key_of("indices.cdi"@, "path"@),
            ) == Some(o.path@),
            Err(_) => setting(settings.entries@, key_of("indices.cdi"@, "description"@)) is None || setting(
                settings.entries@,
                key_of("indices.cdi"@, "url"@),
            ) is None || setting(settings.entries@, key_of("indices.cdi"@, "path"@)) is None,
        },
{
    let description = settings.field("indices.cdi", "description")?;
    let url = settings.field("indices.cdi", "url")?;
    let path = settings.field("indices.cdi", "path")?;
    Ok(Options { description, url, path })
}

} // verus!
