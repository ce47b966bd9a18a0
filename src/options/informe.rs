//! Where the daily quota reports are published, and the months they cover.
use crate::locator::{expand_months, expansion, names_of, parse_date, parsed_date};
use crate::options::{key_of, setting, ConfigError, Settings};
use vstd::prelude::*;

verus! {

/// Where the daily reports are published and stored, and the range of
/// dates to fetch (`dd/mm/yyyy`).
#[derive(Clone, Debug, Default)]
pub struct Options {
    pub description: String,
    pub url: String,
    pub path: String,
    pub start_date: String,
    pub end_date: String,
}

/// The month number of a parsed date.
pub open spec fn month_number_of(d: (int, int, int)) -> int {
    d.0 * 12 + d.1 - 1
}

/// The URLs of a template over the months from `start` to `end`, given as
/// `dd/mm/yyyy`; none when a date does not parse or lies before year zero.
pub open spec fn monthly_urls(template: Seq<char>, start: Seq<char>, end: Seq<char>) -> Seq<
    Seq<char>,
> {
    match (parsed_date(start, "%d/%m/%Y"@), parsed_date(end, "%d/%m/%Y"@)) {
        (Some(s), Some(e)) => if s.0 >= 0 && e.0 < 0x7fff_ffff {
            expansion(template, "{year}"@, "{month}"@, month_number_of(s), month_number_of(e))
        } else {
            Seq::empty()
        },
        _ => Seq::empty(),
    }
}

/// The template filled in for each month from `start` to `end`.
pub fn monthly_urls_of(template: &str, start: &str, end: &str) -> (r: Vec<String>)
    ensures
        names_of(r@) == monthly_urls(template@, start@, end@),
{
    let s = parse_date(start, "%d/%m/%Y");
    let e = parse_date(end, "%d/%m/%Y");
    match (s, e) {
        (Some(s), Some(e)) => {
            if s.year >= 0 && e.year < 0x7fff_ffff {
                proof {
                    reveal_strlit("{year}");
                    reveal_strlit("{month}");
                }
                let first = s.year as i64 * 12 + s.month as i64 - 1;
                let last = e.year as i64 * 12 + e.month as i64 - 1;
                expand_months(template, "{year}", "{month}", first, last)
            } else {
                let r: Vec<String> = Vec::new();
                proof {
                    assert(names_of(r@) =~= Seq::<Seq<char>>::empty());
                }
                r
            }
        },
        _ => {
            let r: Vec<String> = Vec::new();
            proof {
                assert(names_of(r@) =~= Seq::<Seq<char>>::empty());
            }
            r
        },
    }
}

impl Options {
    /// The report URLs for each month of the configured range, without repeats.
    pub fn urls(&self) -> (r: Vec<String>)
        ensures
            names_of(r@) == monthly_urls(self.url@, self.start_date@, self.end_date@),
    {
        monthly_urls_of(self.url.as_str(), self.start_date.as_str(), self.end_date.as_str())
    }
}

/// The report options from the settings under `cvm.fundo.informe`; the first
/// missing field is an error.
pub fn load(settings: &Settings) -> (r: Result<Options, ConfigError>)
    ensures
        match r {
            Ok(o) => setting(settings.entries@, key_of("cvm.fundo.informe"@, "description"@)) == Some(
                o.description@,
            ) && setting(settings.entries@, key_of("cvm.fundo.informe"@, "url"@)) == Some(o.url@) && setting(
                settings.entries@,
                key_of("cvm.fundo.informe"@, "path"@),
            ) == Some(o.path@) && setting(settings.entries@, key_of("cvm.fundo.informe"@, "start_date"@)) == Some(
                o.start_date@,
            ) && setting(settings.entries@, key_of("cvm.fundo.informe"@, "end_date"@)) == Some(o.end_date@),
            Err(_) => setting(settings.entries@, key_of("cvm.fundo.informe"@, "description"@)) is None || setting(
                settings.entries@,
                key_of("cvm.fundo.informe"@, "url"@),
            ) is None || setting(settings.entries@, key_of("cvm.fundo.informe"@, "path"@)) is None || setting(
                settings.entries@,
                key_of("cvm.fundo.informe"@, "start_date"@),
            ) is None || setting(settings.entries@, key_of("cvm.fundo.informe"@, "end_date"@)) is None,
        },
{
    let description = settings.field("cvm.fundo.informe", "description")?;
    let url = settings.field("cvm.fundo.informe", "url")?;
    let path = settings.field("cvm.fundo.informe", "path")?;
    let start_date = settings.field("cvm.fundo.informe", "start_date")?;
    let end_date = settings.field("cvm.fundo.informe", "end_date")?;
    Ok(Options { description, url, path, start_date, end_date })
}

} // verus!
