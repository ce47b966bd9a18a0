//! Dataset descriptors: where a periodic dataset is published and how its
//! per-month and per-year files are named.
use crate::locator::{expand_months, expansion, fill, names_of, push_year, today, year_text, Date};
use crate::batch::Outcome;
use crate::text::{chars_of, push_all, replace_all, replace_chars, string_of};
use vstd::prelude::*;

verus! {

/// A remote dataset published per month, with yearly historical archives.
#[derive(Clone, Debug)]
pub struct Document {
    pub description: String,
    pub url: String,
    /// Whether yearly historical archives exist.
    pub hist: bool,
    pub ext: String,
    pub filename: String,
    /// The per-month name, with `{ano}` and `{mes}` placeholders.
    pub pattern: String,
    /// The per-year historical name, with an `{ano}` placeholder.
    pub pattern_hist: String,
    pub download_path: String,
    /// When positive, only this many years back from the current year are fetched.
    pub limit_years: i32,
}

/// The first year from which per-month files are fetched: the lookback
/// limit, when positive, overrides the caller's start.
pub open spec fn first_year(limit_years: int, initial_year: int, current_year: int) -> int {
    if limit_years > 0 {
        current_year - limit_years
    } else {
        initial_year
    }
}

/// The first month number of the expansion, never before year zero.
pub open spec fn first_month(limit_years: int, initial_year: int, current_year: int) -> int {
    let y = first_year(limit_years, initial_year, current_year);
    if y < 0 {
        0
    } else {
        y * 12
    }
}

/// The year from which historical archives begin.
pub const FIRST_HISTORICAL_YEAR: i32 = 2005;

/// The URL of the yearly archive of `year`.
pub open spec fn archive_url(url: Seq<char>, pattern_hist: Seq<char>, year: int) -> Seq<char> {
    url + "/HIST/"@ + replace_all(pattern_hist, "{ano}"@, year_text(year)) + ".zip"@
}

/// What to do next while fetching a document's yearly archives.
#[derive(Clone, Debug, PartialEq, Eq)]
pub enum HistoryStep {
    /// Fetch this archive and report the outcome.
    Fetch(String),
    /// The archives are done: fetch the monthly files from this year on.
    MonthlyFrom(i32),
}

impl Document {
    /// The name of the historical archive of `year`.
    pub fn make_historical_date(&self, year: i32) -> (r: String)
        ensures
            r@ == replace_all(self.pattern_hist@, "{ano}"@, year_text(year as int)),
    {
        let key = chars_of("{ano}");
        proof {
            reveal_strlit("{ano}");
        }
        let t = chars_of(self.pattern_hist.as_str());
        let mut y: Vec<char> = Vec::new();
        push_year(&mut y, year);
        proof {
            assert(y@ =~= year_text(year as int));
        }
        let out = replace_chars(&t, &key, &y);
        string_of(&out)
    }

    /// Whether yearly archives are fetched before the monthly files: only
    /// for archived datasets without a lookback limit.
    pub fn uses_history(&self) -> (r: bool)
        ensures
            r == (self.hist && self.limit_years <= 0),
    {
        self.hist && self.limit_years <= 0
    }

    /// The year from which monthly files are fetched after the yearly
    /// archives: the first year whose archive could not be fetched, or the
    /// current year when every archive was.
    pub fn first_monthly_year(&self, first_missing_archive: Option<i32>, current_year: i32) -> (r:
        i32)
        ensures
            r == match first_missing_archive {
                Some(y) => y,
                None => current_year,
            },
    {
        match first_missing_archive {
            Some(y) => y,
            None => current_year,
        }
    }

    /// The URL of the monthly file named `name` (one of `generate_dates`).
    pub fn monthly_url(&self, name: &str) -> (r: String)
        ensures
            r@ == self.url@ + "/"@ + name@ + ".zip"@,
    {
        let mut out = chars_of(self.url.as_str());
        push_all(&mut out, &chars_of("/"));
        push_all(&mut out, &chars_of(name));
        push_all(&mut out, &chars_of(".zip"));
        proof {
            assert(out@ =~= self.url@ + "/"@ + name@ + ".zip"@);
        }
        string_of(&out)
    }

    /// The URL of the yearly archive of `year`.
    pub fn archive_url(&self, year: i32) -> (r: String)
        ensures
            r@ == archive_url(self.url@, self.pattern_hist@, year as int),
    {
        let mut out = chars_of(self.url.as_str());
        push_all(&mut out, &chars_of("/HIST/"));
        let name = self.make_historical_date(year);
        push_all(&mut out, &chars_of(name.as_str()));
        push_all(&mut out, &chars_of(".zip"));
        proof {
            assert(out@ =~= archive_url(self.url@, self.pattern_hist@, year as int));
        }
        string_of(&out)
    }

    /// The next step through the yearly archives `years`, tried in order:
    /// `i` is the archive just tried (with its outcome) or about to be tried
    /// (no outcome yet). The first archive that fails gives the year from
    /// which the monthly files are fetched; when all are stored, the monthly
    /// files start at the current year.
    pub fn history_step(&self, years: &Vec<i32>, i: usize, last: Option<Outcome>, current_year: i32) -> (r:
        HistoryStep)
        ensures
            last is None && i < years@.len() ==> r is Fetch && r->Fetch_0@ == archive_url(
                self.url@,
                self.pattern_hist@,
                years@[i as int] as int,
            ),
            last is None && i >= years@.len() ==> r == HistoryStep::MonthlyFrom(current_year),
            last == Some(Outcome::Failed) && i < years@.len() ==> r == HistoryStep::MonthlyFrom(
                years@[i as int],
            ),
            last is Some && last != Some(Outcome::Failed) && i + 1 < years@.len() ==> r is Fetch
                && r->Fetch_0@ == archive_url(
                self.url@,
                self.pattern_hist@,
                years@[i + 1] as int,
            ),
            last is Some && last != Some(Outcome::Failed) && i + 1 >= years@.len() ==> r
                == HistoryStep::MonthlyFrom(current_year),
            last == Some(Outcome::Failed) && i >= years@.len() ==> r == HistoryStep::MonthlyFrom(
                current_year,
            ),
    {
        match last {
            None => if i < years.len() {
                HistoryStep::Fetch(self.archive_url(years[i]))
            } else {
                HistoryStep::MonthlyFrom(current_year)
            },
            Some(Outcome::Failed) => if i < years.len() {
                HistoryStep::MonthlyFrom(years[i])
            } else {
                HistoryStep::MonthlyFrom(current_year)
            },
            Some(_) => if i < years.len() && i + 1 < years.len() {
                HistoryStep::Fetch(self.archive_url(years[i + 1]))
            } else {
                HistoryStep::MonthlyFrom(current_year)
            },
        }
    }

    /// The years that historical archives may cover, up to the current year.
    pub fn historical_years(&self, current_year: i32) -> (r: Vec<i32>)
        ensures
            r@.len() == if current_year >= FIRST_HISTORICAL_YEAR {
                current_year - FIRST_HISTORICAL_YEAR + 1
            } else {
                0
            },
            forall|i: int| 0 <= i < r@.len() ==> #[trigger] r@[i] == FIRST_HISTORICAL_YEAR + i,
    {
        let mut r: Vec<i32> = Vec::new();
        if current_year < FIRST_HISTORICAL_YEAR {
            return r;
        }
        let mut y: i32 = FIRST_HISTORICAL_YEAR;
        while y <= current_year
            invariant
                FIRST_HISTORICAL_YEAR <= y <= current_year as int + 1,
                r@.len() == y - FIRST_HISTORICAL_YEAR,
                forall|i: int| 0 <= i < r@.len() ==> #[trigger] r@[i] == FIRST_HISTORICAL_YEAR + i,
            decreases current_year - y + 1,
        {
            r.push(y);
            if y == current_year {
                return r;
            }
            y = y + 1;
        }
        r
    }

    /// The per-month names from `initial_year` (or from the lookback limit,
    /// when positive) to the month of `today`, without repeats. With a
    /// positive limit no name is for a year before `today`'s year minus the
    /// limit.
    pub fn generate_dates(&self, initial_year: i32, today: Date) -> (r: Vec<String>)
        requires
            today.wf(),
        ensures
            names_of(r@) == expansion(
                self.pattern@,
                "{ano}"@,
                "{mes}"@,
                first_month(self.limit_years as int, initial_year as int, today.year as int),
                today.month_number(),
            ),
            self.limit_years > 0 ==> forall|x: Seq<char>| #[trigger]
                names_of(r@).contains(x) ==> exists|y: int, m: int|
                    y >= today.year - self.limit_years && 1 <= m <= 12 && x == fill(
                        self.pattern@,
                        "{ano}"@,
                        "{mes}"@,
                        (y, m),
                    ),
    {
        let ini: i64 = if self.limit_years > 0 {
            today.year as i64 - self.limit_years as i64
        } else {
            initial_year as i64
        };
        let first: i64 = if ini < 0 {
            0
        } else {
            ini * 12
        };
        let last: i64 = today.year as i64 * 12 + today.month as i64 - 1;
        proof {
            reveal_strlit("{ano}");
            reveal_strlit("{mes}");
        }
        let r = expand_months(self.pattern.as_str(), "{ano}", "{mes}", first, last);
        proof {
            crate::locator::lemma_expansion_not_before(
                self.pattern@,
                "{ano}"@,
                "{mes}"@,
                first as int,
                last as int,
            );
            if self.limit_years > 0 {
                assert forall|x: Seq<char>| #[trigger] names_of(r@).contains(x) implies exists|
                    y: int,
                    m: int,
                |
                    y >= today.year - self.limit_years && 1 <= m <= 12 && x == fill(
                        self.pattern@,
                        "{ano}"@,
                        "{mes}"@,
                        (y, m),
                    ) by {
                    let span = crate::locator::month_span(first as int, last as int);
                    let i = choose|i: int|
                        0 <= i < span.len() && x == fill(
                            self.pattern@,
                            "{ano}"@,
                            "{mes}"@,
                            span[i],
                        ) && span[i].0 * 12 + span[i].1 - 1 >= first;
                    let p = span[i];
                    assert(p == crate::locator::month_at(first as int, i));
                    assert(1 <= p.1 <= 12);
                    assert(p.0 >= ini) by (nonlinear_arith)
                        requires
                            p.0 * 12 + p.1 - 1 >= first,
                            first >= ini * 12,
                            1 <= p.1 <= 12,
                    ;
                }
            }
        }
        r
    }

    /// Today's date and the per-month names up to its month.
    pub fn current_dates(&self, initial_year: i32) -> (r: (Date, Vec<String>))
        ensures
            r.0.wf(),
            names_of(r.1@) == expansion(
                self.pattern@,
                "{ano}"@,
                "{mes}"@,
                first_month(self.limit_years as int, initial_year as int, r.0.year as int),
                r.0.month_number(),
            ),
    {
        let d = today();
        let names = self.generate_dates(initial_year, d);
        (d, names)
    }
}

} // verus!
