//! Where the fund registry is published.
use crate::options::{key_of, setting, ConfigError, Settings};
use vstd::prelude::*;

verus! {

/// Where the fund registry is published and stored.
#[derive(Clone, Debug, Default)]
pub struct Options {
    pub description: String,
    pub url: String,
    pub path: String,
}

/// The registry options from the settings under `cvm.fundo.cadastro`; the first missing
/// field is an error.
pub fn load(settings: &Settings) -> (r: Result<Options, ConfigError>)
    ensures
        match r {
            Ok(o) => setting(settings.entries@, key_of("cvm.fundo.cadastro"@, "description"@)) == Some(
                o.description@,
            ) && setting(settings.entries@, key_of("cvm.fundo.cadastro"@, "url"@)) == Some(o.url@) && setting(
                settings.entries@,
                key_of("cvm.fundo.cadastro"@, "path"@),
            ) == Some(o.path@),
            Err(_) => setting(settings.entries@, key_of("cvm.fundo.cadastro"@, "description"@)) is None || setting(
                settings.entries@,
                key_of("cvm.fundo.cadastro"@, "url"@),
            ) is None || setting(settings.entries@, key_of("cvm.fundo.cadastro"@, "path"@)) is None,
        },
{
    let description = settings.field("cvm.fundo.cadastro", "description")?;
    let url = settings.field("cvm.fundo.cadastro", "url")?;
    let path = settings.field("cvm.fundo.cadastro", "path")?;
    Ok(Options { description, url, path })
}

} // verus!
