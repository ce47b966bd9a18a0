//! Where the monthly portfolio reports are published, with the yearly
//! archive that stands in for a month that cannot be fetched.
use crate::batch::Outcome;
use crate::locator::{fill_template, month_span, push_year, year_text, Date};
use crate::options::{key_of, setting, ConfigError, Settings};
use crate::text::{chars_eq, chars_of, replace_all, replace_chars, string_of, two_digits};
use vstd::prelude::*;

verus! {

/// Where the portfolio reports are published and stored, and the range of
/// dates to fetch (`dd/mm/yyyy`).
#[derive(Clone, Debug, Default)]
pub struct Options {
    pub description: String,
    pub url: String,
    pub historical_url: String,
    pub path: String,
    pub start_date: String,
    pub end_date: String,
}

/// The URL of a month, and of the yearly archive to try when it fails.
pub open spec fn month_target(url: Seq<char>, historical_url: Seq<char>, year: int, month: int) -> (
    Seq<char>,
    Seq<char>,
) {
    (
        replace_all(
            replace_all(url, "{year}"@, year_text(year)),
            "{month}"@,
            two_digits(month as nat),
        ),
        replace_all(historical_url, "{year}"@, year_text(year)),
    )
}

/// A pair of texts as values.
pub open spec fn pair_view(p: (String, String)) -> (Seq<char>, Seq<char>) {
    (p.0@, p.1@)
}

/// The pairs of `s` without repeats, each where it first appears.
pub open spec fn dedup_pairs(s: Seq<(Seq<char>, Seq<char>)>) -> Seq<(Seq<char>, Seq<char>)>
    decreases s.len(),
{
    if s.len() == 0 {
        s
    } else {
        let d = dedup_pairs(s.drop_last());
        if d.contains(s.last()) {
            d
        } else {
            d.push(s.last())
        }
    }
}

/// The month and archive URLs of each month from month number `first` to
/// `last`, without repeats; none before year zero.
pub open spec fn targets_between(
    url: Seq<char>,
    historical_url: Seq<char>,
    first: int,
    last: int,
) -> Seq<(Seq<char>, Seq<char>)> {
    if first < 0 {
        Seq::empty()
    } else {
        dedup_pairs(
            month_span(first, last).map_values(
                |p: (int, int)| month_target(url, historical_url, p.0, p.1),
            ),
        )
    }
}

/// What to do next for one period.
#[derive(Clone, Debug, PartialEq, Eq)]
pub enum PeriodStep {
    /// Fetch this URL and report the outcome.
    Fetch(String),
    /// The period is stored.
    Stored,
    /// Neither the month nor its yearly archive could be fetched.
    Failed,
}

/// The next step for a period whose month URL and yearly archive URL are
/// `target`: the month is tried first, and the archive only after the
/// month failed.
pub fn period_step(target: &(String, String), tried_archive: bool, last: Option<Outcome>) -> (r:
    PeriodStep)
    ensures
        last is None ==> r is Fetch && r->Fetch_0@ == target.0@,
        last == Some(Outcome::Fetched) || last == Some(Outcome::NotModified) ==> r is Stored,
        last == Some(Outcome::Failed) && !tried_archive ==> r is Fetch && r->Fetch_0@
            == target.1@,
        last == Some(Outcome::Failed) && tried_archive ==> r is Failed,
{
    match last {
        None => PeriodStep::Fetch(target.0.clone()),
        Some(Outcome::Fetched) | Some(Outcome::NotModified) => PeriodStep::Stored,
        Some(Outcome::Failed) => if tried_archive {
            PeriodStep::Failed
        } else {
            PeriodStep::Fetch(target.1.clone())
        },
    }
}

fn push_unique_pair(out: &mut Vec<(String, String)>, x: (String, String))
    ensures
        final(out)@.map_values(|p: (String, String)| pair_view(p)) == if old(out)@.map_values(
            |p: (String, String)| pair_view(p),
        ).contains(pair_view(x)) {
            old(out)@.map_values(|p: (String, String)| pair_view(p))
        } else {
            old(out)@.map_values(|p: (String, String)| pair_view(p)).push(pair_view(x))
        },
{
    let a = chars_of(x.0.as_str());
    let b = chars_of(x.1.as_str());
    let ghost vs = out@.map_values(|p: (String, String)| pair_view(p));
    let mut i: usize = 0;
    while i < out.len()
        invariant
            0 <= i <= out@.len(),
            a@ == x.0@,
            b@ == x.1@,
            vs == out@.map_values(|p: (String, String)| pair_view(p)),
            forall|k: int| 0 <= k < i ==> vs[k] != pair_view(x),
        decreases out@.len() - i,
    {
        if chars_eq(&chars_of(out[i].0.as_str()), &a) && chars_eq(&chars_of(out[i].1.as_str()), &b) {
            proof {
                assert(vs[i as int] == pair_view(x));
            }
            return;
        }
        proof {
            assert(vs[i as int] == pair_view(out@[i as int]));
        }
        i += 1;
    }
    let ghost before = out@;
    out.push(x);
    proof {
        assert(out@.map_values(|p: (String, String)| pair_view(p)) =~= vs.push(pair_view(x)));
    }
}

impl Options {
    /// The month URL and yearly archive URL of each month from `start` to
    /// `end`, without repeats.
    pub fn month_targets(&self, start: Date, end: Date) -> (r: Vec<(String, String)>)
        requires
            start.wf(),
            end.wf(),
        ensures
            r@.map_values(|p: (String, String)| pair_view(p)) == targets_between(
                self.url@,
                self.historical_url@,
                start.month_number(),
                end.month_number(),
            ),
    {
        let first: i64 = start.year as i64 * 12 + start.month as i64 - 1;
        let last: i64 = end.year as i64 * 12 + end.month as i64 - 1;
        let mut out: Vec<(String, String)> = Vec::new();
        if first < 0 || last < first {
            proof {
                assert(out@.map_values(|p: (String, String)| pair_view(p)) =~= targets_between(
                    self.url@,
                    self.historical_url@,
                    first as int,
                    last as int,
                ));
            }
            return out;
        }
        let ghost all = month_span(first as int, last as int).map_values(
            |p: (int, int)| month_target(self.url@, self.historical_url@, p.0, p.1),
        );
        let mut k: i64 = first;
        proof {
            assert(all.subrange(0, 0) =~= Seq::<(Seq<char>, Seq<char>)>::empty());
            assert(out@.map_values(|p: (String, String)| pair_view(p)) =~= dedup_pairs(
                all.subrange(0, 0),
            ));
        }
        while k <= last
            invariant
                0 <= first <= last,
                last < 12 * 0x8000_0000,
                first <= k <= last + 1,
                all == month_span(first as int, last as int).map_values(
                    |p: (int, int)| month_target(self.url@, self.historical_url@, p.0, p.1),
                ),
                out@.map_values(|p: (String, String)| pair_view(p)) == dedup_pairs(
                    all.subrange(0, k - first),
                ),
            decreases last + 1 - k,
        {
            let y = (k / 12) as i32;
            let m = (k % 12 + 1) as u32;
            let t = self.month_target(Date { year: y, month: m, day: 1 });
            proof {
                assert(crate::locator::month_at(first as int, k - first) == (y as int, m as int));
                let sub = all.subrange(0, k - first + 1);
                assert(sub.drop_last() =~= all.subrange(0, k - first));
                assert(sub.last() == pair_view(t));
            }
            push_unique_pair(&mut out, t);
            k = k + 1;
        }
        proof {
            assert(all.subrange(0, k - first) =~= all);
        }
        out
    }

    /// The portfolio reports are fetched on demand, month by month, and take
    /// no part in the bulk download.
    pub fn urls(&self) -> (r: Vec<String>)
        ensures
            r@.len() == 0,
    {
        Vec::new()
    }

    /// The URL of the month of `date`, and of the yearly archive that
    /// stands in for it when it cannot be fetched.
    pub fn month_target(&self, date: Date) -> (r: (String, String))
        ensures
            (r.0@, r.1@) == month_target(
                self.url@,
                self.historical_url@,
                date.year as int,
                date.month as int,
            ),
    {
        proof {
            reveal_strlit("{year}");
            reveal_strlit("{month}");
        }
        let main = fill_template(self.url.as_str(), "{year}", "{month}", date.year, date.month);
        let mut y: Vec<char> = Vec::new();
        push_year(&mut y, date.year);
        proof {
            assert(y@ =~= year_text(date.year as int));
        }
        let hist = replace_chars(&chars_of(self.historical_url.as_str()), &chars_of("{year}"), &y);
        (main, string_of(&hist))
    }
}

/// The report options from the settings under `cvm.fundo.carteira`; the first
/// missing field is an error.
pub fn load(settings: &Settings) -> (r: Result<Options, ConfigError>)
    ensures
        match r {
            Ok(o) => setting(settings.entries@, key_of("cvm.fundo.carteira"@, "description"@)) == Some(
                o.description@,
            ) && setting(settings.entries@, key_of("cvm.fundo.carteira"@, "url"@)) == Some(o.url@) && setting(
                settings.entries@,
                key_of("cvm.fundo.carteira"@, "historical_url"@),
            ) == Some(o.historical_url@) && setting(settings.entries@, key_of("cvm.fundo.carteira"@, "path"@))
                == Some(o.path@) && setting(settings.entries@, key_of("cvm.fundo.carteira"@, "start_date"@))
                == Some(o.start_date@) && setting(settings.entries@, key_of("cvm.fundo.carteira"@, "end_date"@))
                == Some(o.end_date@),
            Err(_) => setting(settings.entries@, key_of("cvm.fundo.carteira"@, "description"@)) is None || setting(
                settings.entries@,
                key_of("cvm.fundo.carteira"@, "url"@),
            ) is None || setting(settings.entries@, key_of("cvm.fundo.carteira"@, "historical_url"@)) is None
                || setting(settings.entries@, key_of("cvm.fundo.carteira"@, "path"@)) is None || setting(
                settings.entries@,
                key_of("cvm.fundo.carteira"@, "start_date"@),
            ) is None || setting(settings.entries@, key_of("cvm.fundo.carteira"@, "end_date"@)) is None,
        },
{
    let description = settings.field("cvm.fundo.carteira", "description")?;
    let url = settings.field("cvm.fundo.carteira", "url")?;
    let historical_url = settings.field("cvm.fundo.carteira", "historical_url")?;
    let path = settings.field("cvm.fundo.carteira", "path")?;
    let start_date = settings.field("cvm.fundo.carteira", "start_date")?;
    let end_date = settings.field("cvm.fundo.carteira", "end_date")?;
    Ok(Options { description, url, historical_url, path, start_date, end_date })
}

} // verus!
