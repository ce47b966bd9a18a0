//! Dates, and the expansion of a dataset's URL or path template over the
//! months of a range.
use crate::text::{
    chars_eq, chars_of, decimal, push_decimal, push_two_digits, replace_all, replace_chars,
    string_of, two_digits,
};
use chrono::Datelike;
use vstd::prelude::*;

verus! {

/// A calendar date.
#[derive(Clone, Copy, Debug, PartialEq, Eq, Structural)]
pub struct Date {
    pub year: i32,
    pub month: u32,
    pub day: u32,
}

pub open spec fn is_leap(y: int) -> bool {
    (y % 4 == 0 && y % 100 != 0) || y % 400 == 0
}

pub open spec fn days_in_month(y: int, m: int) -> int {
    if m == 2 {
        if is_leap(y) {
            29
        } else {
            28
        }
    } else if m == 4 || m == 6 || m == 9 || m == 11 {
        30
    } else {
        31
    }
}

impl Date {
    /// A real day of the proleptic Gregorian calendar.
    pub open spec fn wf(&self) -> bool {
        1 <= self.month <= 12 && 1 <= self.day <= days_in_month(self.year as int, self.month as int)
    }

    /// The number of the month counted from year zero.
    pub open spec fn month_number(&self) -> int {
        self.year * 12 + self.month - 1
    }

    /// Whether this date is on or before `other`.
    pub open spec fn le(&self, other: Date) -> bool {
        self.year < other.year || (self.year == other.year && (self.month < other.month || (
        self.month == other.month && self.day <= other.day)))
    }

    /// Whether this date is on or before `other`.
    pub fn on_or_before(&self, other: &Date) -> (r: bool)
        ensures
            r == self.le(*other),
    {
        self.year < other.year || (self.year == other.year && (self.month < other.month || (
        self.month == other.month && self.day <= other.day)))
    }
}

/// What a date text parses to under a chrono format, if anything.
pub uninterp spec fn parsed_date(s: Seq<char>, fmt: Seq<char>) -> Option<(int, int, int)>;

/// Relies on `chrono::NaiveDate::parse_from_str`: the date that the text
/// denotes under the format; a `NaiveDate` is always a real calendar day.
#[verifier::external_body]
pub(crate) fn parse_date(s: &str, fmt: &str) -> (r: Option<Date>)
    ensures
        match r {
            Some(d) => d.wf() && parsed_date(s@, fmt@) == Some(
                (d.year as int, d.month as int, d.day as int),
            ),
            None => parsed_date(s@, fmt@) is None,
        },
{
    match chrono::NaiveDate::parse_from_str(s, fmt) {
        Ok(d) => Some(Date { year: d.year(), month: d.month(), day: d.day() }),
        Err(_) => None,
    }
}

/// Relies on `chrono::Utc::now`: today's date in UTC, a real calendar day.
#[verifier::external_body]
pub(crate) fn today() -> (r: Date)
    ensures
        r.wf(),
{
    let d = chrono::Utc::now().date_naive();
    Date { year: d.year(), month: d.month(), day: d.day() }
}

/// Today's date in UTC.
pub fn current_date() -> (r: Date)
    ensures
        r.wf(),
{
    today()
}

/// The month `i` months after month number `first`, as year and month.
pub open spec fn month_at(first: int, i: int) -> (int, int) {
    ((first + i) / 12, (first + i) % 12 + 1)
}

/// The months from month number `first` to month number `last`, inclusive.
pub open spec fn month_span(first: int, last: int) -> Seq<(int, int)> {
    if last < first {
        Seq::empty()
    } else {
        Seq::new((last - first + 1) as nat, |i: int| month_at(first, i))
    }
}

/// A signed year in decimal.
pub open spec fn year_text(y: int) -> Seq<char> {
    if y < 0 {
        seq!['-'] + decimal((-y) as nat)
    } else {
        decimal(y as nat)
    }
}

/// A template with the year and month placeholders filled in.
pub open spec fn fill(
    template: Seq<char>,
    year_key: Seq<char>,
    month_key: Seq<char>,
    period: (int, int),
) -> Seq<char> {
    replace_all(
        replace_all(template, year_key, year_text(period.0)),
        month_key,
        two_digits(period.1 as nat),
    )
}

/// The elements of `s` without repeats, each where it first appears.
pub open spec fn dedup(s: Seq<Seq<char>>) -> Seq<Seq<char>>
    decreases s.len(),
{
    if s.len() == 0 {
        s
    } else {
        let d = dedup(s.drop_last());
        if d.contains(s.last()) {
            d
        } else {
            d.push(s.last())
        }
    }
}

pub proof fn lemma_dedup_from(s: Seq<Seq<char>>)
    ensures
        forall|x: Seq<char>| #[trigger] dedup(s).contains(x) <==> s.contains(x),
        dedup(s).no_duplicates(),
    decreases s.len(),
{
    if s.len() > 0 {
        let t = s.drop_last();
        lemma_dedup_from(t);
        let d = dedup(t);
        assert forall|x: Seq<char>| #[trigger] dedup(s).contains(x) <==> s.contains(x) by {
            if s.contains(x) && x != s.last() {
                let i = choose|i: int| 0 <= i < s.len() && s[i] == x;
                assert(t[i] == x);
            }
            if t.contains(x) {
                let i = choose|i: int| 0 <= i < t.len() && t[i] == x;
                assert(s[i] == x);
            }
            if !d.contains(s.last()) && dedup(s).contains(x) {
                let i = choose|i: int| 0 <= i < dedup(s).len() && dedup(s)[i] == x;
                if i < d.len() {
                    assert(d[i] == x);
                }
            }
            if !d.contains(s.last()) && x == s.last() {
                assert(dedup(s)[d.len() as int] == x);
            }
            if !d.contains(s.last()) && d.contains(x) {
                let i = choose|i: int| 0 <= i < d.len() && d[i] == x;
                assert(dedup(s)[i] == x);
            }
            assert(s[s.len() - 1] == s.last());
        }
    }
}

/// The template filled in for each month from `first` to `last`, without
/// repeats, each where it first appears.
pub open spec fn expansion(
    template: Seq<char>,
    year_key: Seq<char>,
    month_key: Seq<char>,
    first: int,
    last: int,
) -> Seq<Seq<char>> {
    dedup(month_span(first, last).map_values(|p: (int, int)| fill(template, year_key, month_key, p)))
}

/// Appends a year in decimal.
pub fn push_year(out: &mut Vec<char>, y: i32)
    ensures
        final(out)@ == old(out)@ + year_text(y as int),
{
    if y < 0 {
        out.push('-');
        let v: u64 = (0i64 - y as i64) as u64;
        push_decimal(out, v);
        proof {
            assert(final(out)@ =~= old(out)@ + year_text(y as int));
        }
    } else {
        push_decimal(out, y as u64);
    }
}

/// The template with the year and month placeholders filled in.
pub fn fill_template(template: &str, year_key: &str, month_key: &str, year: i32, month: u32) -> (r:
    String)
    requires
        year_key@.len() > 0,
        month_key@.len() > 0,
    ensures
        r@ == fill(template@, year_key@, month_key@, (year as int, month as int)),
{
    let t = chars_of(template);
    let mut y: Vec<char> = Vec::new();
    push_year(&mut y, year);
    let mut m: Vec<char> = Vec::new();
    push_two_digits(&mut m, month as u64);
    let step = replace_chars(&t, &chars_of(year_key), &y);
    let done = replace_chars(&step, &chars_of(month_key), &m);
    proof {
        assert(y@ =~= year_text(year as int));
        assert(m@ =~= two_digits(month as nat));
    }
    string_of(&done)
}

/// Adds `x` unless it is already present.
fn push_unique(out: &mut Vec<String>, x: String)
    ensures
        names_of(final(out)@) == if names_of(old(out)@).contains(x@) {
            names_of(old(out)@)
        } else {
            names_of(old(out)@).push(x@)
        },
{
    let xs = chars_of(x.as_str());
    let mut i: usize = 0;
    while i < out.len()
        invariant
            0 <= i <= out@.len(),
            xs@ == x@,
            forall|k: int| 0 <= k < i ==> names_of(out@)[k] != x@,
        decreases out@.len() - i,
    {
        if chars_eq(&chars_of(out[i].as_str()), &xs) {
            proof {
                assert(names_of(out@)[i as int] == x@);
            }
            return;
        }
        i += 1;
    }
    let ghost before = out@;
    out.push(x);
    proof {
        assert(names_of(out@) =~= names_of(before).push(x@));
    }
}

pub open spec fn names_of(v: Seq<String>) -> Seq<Seq<char>> {
    v.map_values(|s: String| s@)
}

/// The template filled in for each month from `first` to `last` (month
/// numbers counted from year zero), without repeats, in order of first
/// appearance.
pub fn expand_months(template: &str, year_key: &str, month_key: &str, first: i64, last: i64) -> (r:
    Vec<String>)
    requires
        year_key@.len() > 0,
        month_key@.len() > 0,
        0 <= first,
        last < 12 * 0x8000_0000,
    ensures
        names_of(r@) == expansion(template@, year_key@, month_key@, first as int, last as int),
{
    let ghost all = month_span(first as int, last as int).map_values(
        |p: (int, int)| fill(template@, year_key@, month_key@, p),
    );
    let mut out: Vec<String> = Vec::new();
    if last < first {
        proof {
            assert(all.len() == 0);
            assert(names_of(out@) =~= dedup(all));
        }
        return out;
    }
    let mut k: i64 = first;
    while k <= last
        invariant
            0 <= first <= last < 12 * 0x8000_0000,
            first <= k <= last + 1,
            all == month_span(first as int, last as int).map_values(
                |p: (int, int)| fill(template@, year_key@, month_key@, p),
            ),
            year_key@.len() > 0,
            month_key@.len() > 0,
            names_of(out@) == dedup(all.subrange(0, k - first)),
        decreases last + 1 - k,
    {
        let y = (k / 12) as i32;
        let m = (k % 12 + 1) as u32;
        let s = fill_template(template, year_key, month_key, y, m);
        proof {
            assert(month_at(first as int, k - first) == (y as int, m as int));
            let sub = all.subrange(0, k - first + 1);
            assert(sub.drop_last() =~= all.subrange(0, k - first));
            assert(sub.last() == s@);
        }
        push_unique(&mut out, s);
        k = k + 1;
    }
    proof {
        assert(all.subrange(0, k - first) =~= all);
    }
    out
}

/// Every element of the expansion of `first..=last` is the template filled
/// in for a month no earlier than `first`.
pub proof fn lemma_expansion_not_before(
    template: Seq<char>,
    year_key: Seq<char>,
    month_key: Seq<char>,
    first: int,
    last: int,
)
    requires
        0 <= first,
    ensures
        forall|x: Seq<char>|
            #[trigger] expansion(template, year_key, month_key, first, last).contains(x) ==> exists|i: int|
                0 <= i < month_span(first, last).len() && x == fill(
                    template,
                    year_key,
                    month_key,
                    month_span(first, last)[i],
                ) && month_span(first, last)[i].0 * 12 + month_span(first, last)[i].1 - 1 >= first,
{
    let s = month_span(first, last).map_values(|p: (int, int)| fill(template, year_key, month_key, p));
    lemma_dedup_from(s);
    assert forall|x: Seq<char>| #[trigger] dedup(s).contains(x) implies exists|i: int|
        0 <= i < month_span(first, last).len() && x == fill(
            template,
            year_key,
            month_key,
            month_span(first, last)[i],
        ) && month_span(first, last)[i].0 * 12 + month_span(first, last)[i].1 - 1 >= first by {
        let i = choose|i: int| 0 <= i < s.len() && s[i] == x;
        let p = month_span(first, last)[i];
        assert(p == month_at(first, i));
        assert(p.0 * 12 + p.1 - 1 == first + i) by {
            assert((first + i) == ((first + i) / 12) * 12 + (first + i) % 12);
        }
    }
}

} // verus!
