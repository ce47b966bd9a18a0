//! Daily quota reports: the quota series of one fund over a date range and
//! its daily and cumulative returns.
use crate::decimal::{div_round, fixed_value, parse_fixed, round_div, round_quotient, UNIT};
use crate::locator::{parse_date, parsed_date, Date};
use crate::order::{is_permutation, lex_le, sort_order, sorted_by};
use crate::table::{cell_at, find_column, QueryError, Table};
use crate::text::{chars_of, contains, contains_chars, string_of};
use vstd::prelude::*;

verus! {

/// The daily quota reports.
pub struct Informe {
    /// Where the monthly report files are found.
    pub path: String,
}

impl Informe {
    /// The reports under the default dataset folder.
    pub fn new() -> (r: Informe)
        ensures
            r.path@ == "./dataset/infdiario/inf_diario_fi_*/*.csv"@,
    {
        Informe { path: string_of(&chars_of("./dataset/infdiario/inf_diario_fi_*/*.csv")) }
    }
}

/// The bound on the factors of the running product.
pub const GROWTH_BOUND: i128 = 1_000_000_000_000_000_000;

/// The return of day `i` over day `i - 1`, in units of 10^-12: zero for the
/// first day, and wherever a quota is missing or the previous one is not
/// positive.
pub open spec fn daily_return(q: Seq<Option<i128>>, i: int) -> int {
    if i <= 0 {
        0
    } else {
        match (q[i - 1], q[i]) {
            (Some(p), Some(c)) => if p > 0 {
                round_div((c - p) * UNIT, p as int)
            } else {
                0
            },
            _ => 0,
        }
    }
}

/// The running product of one plus the daily returns, in units of 10^-12,
/// each step rounded half away from zero.
pub open spec fn growth(q: Seq<Option<i128>>, i: int) -> int
    decreases i,
{
    if i <= 0 {
        UNIT as int
    } else {
        round_quotient(growth(q, i - 1) * (UNIT + daily_return(q, i)), UNIT as int)
    }
}

/// The cumulative return up to day `i` as a percentage, in units of 10^-12.
pub open spec fn cumulative_return(q: Seq<Option<i128>>, i: int) -> int {
    (growth(q, i) - UNIT) * 100
}

/// Whether step `i` of the running product stays within the exact range.
pub open spec fn step_fits(q: Seq<Option<i128>>, i: int) -> bool {
    &&& -GROWTH_BOUND <= growth(q, i - 1) <= GROWTH_BOUND
    &&& -GROWTH_BOUND <= UNIT + daily_return(q, i) <= GROWTH_BOUND
}

/// Whether every step of the series stays within the exact range.
pub open spec fn returns_fit(q: Seq<Option<i128>>) -> bool {
    forall|i: int| 1 <= i < q.len() ==> #[trigger] step_fits(q, i)
}

/// Whether every quota is within the range of a parsed amount.
pub open spec fn quotas_bounded(q: Seq<Option<i128>>) -> bool {
    forall|i: int|
        0 <= i < q.len() && (#[trigger] q[i]) is Some ==> -UNIT * UNIT < q[i]->0 < UNIT * UNIT
}

/// The returns of one day.
#[derive(Clone, Copy, Debug, PartialEq, Eq, Structural)]
pub struct DailyReturn {
    /// The return over the previous day, in units of 10^-12.
    pub daily: i128,
    /// The cumulative return as a percentage, in units of 10^-12.
    pub cumulative: i128,
}

/// The daily and cumulative returns of a quota series. An empty series is
/// no data; a series whose running product leaves the exact range is out of
/// range.
pub fn cumulative_returns(quotas: &Vec<Option<i128>>) -> (r: Result<Vec<DailyReturn>, QueryError>)
    requires
        quotas_bounded(quotas@),
    ensures
        quotas@.len() == 0 ==> r == Err::<Vec<DailyReturn>, QueryError>(QueryError::NoData),
        quotas@.len() > 0 ==> (r is Ok <==> returns_fit(quotas@)),
        quotas@.len() > 0 && r is Err ==> r->Err_0 == QueryError::OutOfRange,
        r is Ok ==> r->Ok_0@.len() == quotas@.len() && forall|i: int|
            0 <= i < quotas@.len() ==> (#[trigger] r->Ok_0@[i]).daily == daily_return(quotas@, i)
                && r->Ok_0@[i].cumulative == cumulative_return(quotas@, i),
{
    if quotas.len() == 0 {
        return Err(QueryError::NoData);
    }
    let mut out: Vec<DailyReturn> = Vec::new();
    out.push(DailyReturn { daily: 0, cumulative: 0 });
    let mut g: i128 = UNIT;
    let mut i: usize = 1;
    while i < quotas.len()
        invariant
            quotas_bounded(quotas@),
            1 <= i <= quotas@.len(),
            g == growth(quotas@, i - 1),
            forall|k: int| 1 <= k < i ==> #[trigger] step_fits(quotas@, k),
            out@.len() == i,
            forall|k: int|
                0 <= k < i ==> (#[trigger] out@[k]).daily == daily_return(quotas@, k)
                    && out@[k].cumulative == cumulative_return(quotas@, k),
        decreases quotas@.len() - i,
    {
        let d: i128 = match (quotas[i - 1], quotas[i]) {
            (Some(p), Some(c)) => if p > 0 {
                div_round((c - p) * UNIT, p)
            } else {
                0
            },
            _ => 0,
        };
        let f: i128 = UNIT + d;
        if g < -GROWTH_BOUND || g > GROWTH_BOUND || f < -GROWTH_BOUND || f > GROWTH_BOUND {
            proof {
                assert(!step_fits(quotas@, i as int));
            }
            return Err(QueryError::OutOfRange);
        }
        proof {
            assert(step_fits(quotas@, i as int));
            assert(-GROWTH_BOUND * GROWTH_BOUND <= g * f <= GROWTH_BOUND * GROWTH_BOUND)
                by (nonlinear_arith)
                requires
                    -GROWTH_BOUND <= g <= GROWTH_BOUND,
                    -GROWTH_BOUND <= f <= GROWTH_BOUND,
            ;
        }
        let ng = div_round(g * f, UNIT);
        proof {
            crate::decimal::lemma_round_div_bound(
                g * f,
                UNIT as int,
                1_000_000_000_000_000_000_000_000,
            );
        }
        g = ng;
        out.push(DailyReturn { daily: d, cumulative: (g - UNIT) * 100 });
        i += 1;
    }
    Ok(out)
}

} // verus!

verus! {

/// A date as year, month and day.
pub open spec fn date_tuple(d: Date) -> (int, int, int) {
    (d.year as int, d.month as int, d.day as int)
}

/// Whether one date, as year, month and day, is on or before another.
pub open spec fn tuple_le(a: (int, int, int), b: (int, int, int)) -> bool {
    a.0 < b.0 || (a.0 == b.0 && (a.1 < b.1 || (a.1 == b.1 && a.2 <= b.2)))
}

/// The reporting date of row `j`.
pub open spec fn quote_date(t: Table, j: int) -> Option<(int, int, int)> {
    match t.value(j, "DT_COMPTC"@) {
        Some(s) => parsed_date(s, "%Y-%m-%d"@),
        None => None,
    }
}

/// Whether row `j` reports on the fund `cnpj` (its identifier contains the
/// text) on a date within `start..=end`.
#[verifier::opaque]
pub open spec fn quote_row_matches(t: Table, j: int, cnpj: Seq<char>, start: Date, end: Date) -> bool {
    &&& match t.value(j, "CNPJ_FUNDO"@) {
        Some(id) => contains(id, cnpj),
        None => false,
    }
    &&& match quote_date(t, j) {
        Some(d) => tuple_le(date_tuple(start), d) && tuple_le(d, date_tuple(end)),
        None => false,
    }
}

/// The quota of row `j`, in units of 10^-12.
pub open spec fn quota_of(t: Table, j: int) -> Option<int> {
    match t.value(j, "VL_QUOTA"@) {
        Some(s) => fixed_value(s),
        None => None,
    }
}

pub open spec fn opt_int(o: Option<i128>) -> Option<int> {
    match o {
        Some(v) => Some(v as int),
        None => None,
    }
}

/// One day of a fund's quota series, with its returns.
#[derive(Clone, Copy, Debug, PartialEq, Eq, Structural)]
pub struct QuotePoint {
    /// The row of the report table.
    pub row: usize,
    pub date: Date,
    /// The quota, in units of 10^-12.
    pub quota: Option<i128>,
    /// The return over the previous day, in units of 10^-12.
    pub daily: i128,
    /// The cumulative return as a percentage, in units of 10^-12.
    pub cumulative: i128,
}

/// The quotas of a series, in order.
pub open spec fn quotas_of(ps: Seq<QuotePoint>) -> Seq<Option<i128>> {
    ps.map_values(|p: QuotePoint| p.quota)
}

pub proof fn lemma_date_key(a: Date, b: Date)
    ensures
        lex_le(
            seq![a.year as i128, a.month as i128, a.day as i128],
            seq![b.year as i128, b.month as i128, b.day as i128],
        ) == tuple_le(date_tuple(a), date_tuple(b)),
{
    let x = seq![a.year as i128, a.month as i128, a.day as i128];
    let y = seq![b.year as i128, b.month as i128, b.day as i128];
    assert(x.drop_first() =~= seq![a.month as i128, a.day as i128]);
    assert(y.drop_first() =~= seq![b.month as i128, b.day as i128]);
    assert(x.drop_first().drop_first() =~= seq![a.day as i128]);
    assert(y.drop_first().drop_first() =~= seq![b.day as i128]);
    assert(x.drop_first().drop_first().drop_first() =~= Seq::<i128>::empty());
    assert(y.drop_first().drop_first().drop_first() =~= Seq::<i128>::empty());
    reveal_with_fuel(lex_le, 4);
}

/// The rows that report on the fund within the range, in table order, with
/// their dates.
fn select_quotes(t: &Table, cnpj: &str, start: Date, end: Date) -> (r: (Vec<usize>, Vec<Date>))
    requires
        t.wf(),
    ensures
        r.0@.len() == r.1@.len(),
        forall|k: int|
            0 <= k < r.0@.len() ==> (#[trigger] r.0@[k]) < t.rows@.len() && quote_row_matches(
                *t,
                r.0@[k] as int,
                cnpj@,
                start,
                end,
            ) && quote_date(*t, r.0@[k] as int) == Some(date_tuple(r.1@[k])),
        forall|a: int, b: int| 0 <= a < b < r.0@.len() ==> r.0@[a] < r.0@[b],
        forall|j: int|
            0 <= j < t.rows@.len() && quote_row_matches(*t, j, cnpj@, start, end)
                ==> r.0@.contains(j as usize),
{
    let ci = find_column(t, "CNPJ_FUNDO");
    let cd = find_column(t, "DT_COMPTC");
    let needle = chars_of(cnpj);
    let mut sel: Vec<usize> = Vec::new();
    let mut dates: Vec<Date> = Vec::new();
    let mut j: usize = 0;
    while j < t.rows.len()
        invariant
            t.wf(),
            needle@ == cnpj@,
            ci is Some <==> t.has_column("CNPJ_FUNDO"@),
            ci is Some ==> ci->0 < t.columns@.len() && t.column_names()[ci->0 as int]
                == "CNPJ_FUNDO"@,
            cd is Some <==> t.has_column("DT_COMPTC"@),
            cd is Some ==> cd->0 < t.columns@.len() && t.column_names()[cd->0 as int]
                == "DT_COMPTC"@,
            0 <= j <= t.rows@.len(),
            sel@.len() == dates@.len(),
            forall|k: int|
                0 <= k < sel@.len() ==> (#[trigger] sel@[k]) < j && quote_row_matches(
                    *t,
                    sel@[k] as int,
                    cnpj@,
                    start,
                    end,
                ) && quote_date(*t, sel@[k] as int) == Some(date_tuple(dates@[k])),
            forall|a: int, b: int| 0 <= a < b < sel@.len() ==> sel@[a] < sel@[b],
            forall|jj: int|
                0 <= jj < j && quote_row_matches(*t, jj, cnpj@, start, end) ==> sel@.contains(
                    jj as usize,
                ),
        decreases t.rows@.len() - j,
    {
        let id = cell_at(t, j, ci, Ghost("CNPJ_FUNDO"@));
        let dt = cell_at(t, j, cd, Ghost("DT_COMPTC"@));
        let mut keep = false;
        let mut found: Option<Date> = None;
        match (id, dt) {
            (Some(id), Some(dt)) => {
                if contains_chars(&chars_of(id.as_str()), &needle) {
                    match parse_date(dt.as_str(), "%Y-%m-%d") {
                        Some(d) => {
                            if start.on_or_before(&d) && d.on_or_before(&end) {
                                keep = true;
                                found = Some(d);
                            }
                        },
                        None => {},
                    }
                }
            },
            _ => {},
        }
        proof {
            reveal(quote_row_matches);
            assert(keep <==> quote_row_matches(*t, j as int, cnpj@, start, end));
        }
        if keep {
            let d = found.unwrap();
            let ghost before = sel@;
            sel.push(j);
            dates.push(d);
            proof {
                assert(sel@[before.len() as int] == j);
                assert forall|jj: int|
                    0 <= jj < j + 1 && quote_row_matches(*t, jj, cnpj@, start, end)
                        implies sel@.contains(jj as usize) by {
                    if jj < j {
                        let k = choose|k: int| 0 <= k < before.len() && before[k] == jj as usize;
                        assert(sel@[k] == jj as usize);
                    }
                }
            }
        }
        j += 1;
    }
    (sel, dates)
}

/// The sort key of each date: year, month, day.
fn date_keys(dates: &Vec<Date>) -> (keys: Vec<Vec<i128>>)
    ensures
        keys@.len() == dates@.len(),
        forall|m: int|
            0 <= m < dates@.len() ==> (#[trigger] keys@[m])@ == seq![
                dates@[m].year as i128,
                dates@[m].month as i128,
                dates@[m].day as i128,
            ],
{
    let mut keys: Vec<Vec<i128>> = Vec::new();
    let mut k: usize = 0;
    while k < dates.len()
        invariant
            0 <= k <= dates@.len(),
            keys@.len() == k,
            forall|m: int|
                0 <= m < k ==> (#[trigger] keys@[m])@ == seq![
                    dates@[m].year as i128,
                    dates@[m].month as i128,
                    dates@[m].day as i128,
                ],
        decreases dates@.len() - k,
    {
        let d = dates[k];
        let key = vec![d.year as i128, d.month as i128, d.day as i128];
        keys.push(key);
        k += 1;
    }
    keys
}

/// The quotas of the selected rows, in the given order.
fn quotas_in_order(informes: &Table, sel: &Vec<usize>, order: &Vec<usize>) -> (quotas: Vec<
    Option<i128>,
>)
    requires
        informes.wf(),
        forall|m: int| 0 <= m < order@.len() ==> (#[trigger] order@[m]) < sel@.len(),
        forall|m: int| 0 <= m < sel@.len() ==> (#[trigger] sel@[m]) < informes.rows@.len(),
    ensures
        quotas@.len() == order@.len(),
        forall|m: int|
            0 <= m < order@.len() ==> opt_int(#[trigger] quotas@[m]) == quota_of(
                *informes,
                sel@[order@[m] as int] as int,
            ),
        quotas_bounded(quotas@),
{
    let cq = find_column(informes, "VL_QUOTA");
    let mut quotas: Vec<Option<i128>> = Vec::new();
    let mut i: usize = 0;
    while i < order.len()
        invariant
            informes.wf(),
            forall|m: int| 0 <= m < order@.len() ==> (#[trigger] order@[m]) < sel@.len(),
            forall|m: int| 0 <= m < sel@.len() ==> (#[trigger] sel@[m]) < informes.rows@.len(),
            cq is Some <==> informes.has_column("VL_QUOTA"@),
            cq is Some ==> cq->0 < informes.columns@.len() && informes.column_names()[cq->0 as int]
                == "VL_QUOTA"@,
            0 <= i <= order@.len(),
            quotas@.len() == i,
            forall|m: int|
                0 <= m < i ==> opt_int(#[trigger] quotas@[m]) == quota_of(
                    *informes,
                    sel@[order@[m] as int] as int,
                ),
            quotas_bounded(quotas@),
        decreases order@.len() - i,
    {
        let row = sel[order[i]];
        let cell = cell_at(informes, row, cq, Ghost("VL_QUOTA"@));
        let q = match cell {
            Some(s) => parse_fixed(&chars_of(s.as_str())),
            None => None,
        };
        quotas.push(q);
        i += 1;
    }
    quotas
}

/// The points of the series: for each position of the order, its row, date,
/// quota and returns.
fn assemble(
    sel: &Vec<usize>,
    dates: &Vec<Date>,
    order: &Vec<usize>,
    quotas: &Vec<Option<i128>>,
    rets: &Vec<DailyReturn>,
) -> (points: Vec<QuotePoint>)
    requires
        forall|m: int| 0 <= m < order@.len() ==> (#[trigger] order@[m]) < sel@.len(),
        sel@.len() == dates@.len(),
        rets@.len() == quotas@.len(),
        quotas@.len() == order@.len(),
    ensures
        points@.len() == order@.len(),
        forall|m: int|
            0 <= m < order@.len() ==> (#[trigger] points@[m]).row == sel@[order@[m] as int]
                && points@[m].date == dates@[order@[m] as int] && points@[m].quota == quotas@[m]
                && points@[m].daily == rets@[m].daily && points@[m].cumulative
                == rets@[m].cumulative,
{
    let mut points: Vec<QuotePoint> = Vec::new();
    let mut i: usize = 0;
    while i < order.len()
        invariant
            0 <= i <= order@.len(),
            forall|m: int| 0 <= m < order@.len() ==> (#[trigger] order@[m]) < sel@.len(),
            sel@.len() == dates@.len(),
            rets@.len() == quotas@.len(),
            quotas@.len() == order@.len(),
            points@.len() == i,
            forall|m: int|
                0 <= m < i ==> (#[trigger] points@[m]).row == sel@[order@[m] as int]
                    && points@[m].date == dates@[order@[m] as int] && points@[m].quota
                    == quotas@[m] && points@[m].daily == rets@[m].daily
                    && points@[m].cumulative == rets@[m].cumulative,
        decreases order@.len() - i,
    {
        let m = order[i];
        points.push(
            QuotePoint {
                row: sel[m],
                date: dates[m],
                quota: quotas[i],
                daily: rets[i].daily,
                cumulative: rets[i].cumulative,
            },
        );
        i += 1;
    }
    points
}

/// Whether `ps` lists each row reporting on fund `cnpj` within the range
/// once, sorted by date, with the row's date and quota.
pub open spec fn is_series(t: Table, cnpj: Seq<char>, start: Date, end: Date, ps: Seq<QuotePoint>) -> bool {
    &&& forall|i: int|
        0 <= i < ps.len() ==> (#[trigger] ps[i]).row < t.rows@.len() && quote_row_matches(
            t,
            ps[i].row as int,
            cnpj,
            start,
            end,
        ) && quote_date(t, ps[i].row as int) == Some(date_tuple(ps[i].date)) && opt_int(
            ps[i].quota,
        ) == quota_of(t, ps[i].row as int)
    &&& forall|j: int|
        0 <= j < t.rows@.len() && quote_row_matches(t, j, cnpj, start, end) ==> exists|i: int|
            0 <= i < ps.len() && (#[trigger] ps[i]).row == j
    &&& forall|a: int, b: int| 0 <= a < b < ps.len() ==> ps[a].row != ps[b].row
    &&& forall|a: int, b: int|
        0 <= a < b < ps.len() ==> tuple_le(
            date_tuple(#[trigger] ps[a].date),
            date_tuple(#[trigger] ps[b].date),
        )
}

/// What the assembled series satisfies, from what its parts satisfy.
#[verifier::rlimit(80)]
proof fn lemma_series(
    t: Table,
    cnpj: Seq<char>,
    start: Date,
    end: Date,
    sel: Seq<usize>,
    dates: Seq<Date>,
    keys: Seq<Vec<i128>>,
    order: Seq<usize>,
    quotas: Seq<Option<i128>>,
    ps: Seq<QuotePoint>,
)
    requires
        t.rows@.len() <= usize::MAX,
        sel.len() <= usize::MAX,
        sel.len() == dates.len(),
        forall|k: int|
            0 <= k < sel.len() ==> (#[trigger] sel[k]) < t.rows@.len() && quote_row_matches(
                t,
                sel[k] as int,
                cnpj,
                start,
                end,
            ) && quote_date(t, sel[k] as int) == Some(date_tuple(dates[k])),
        forall|a: int, b: int| 0 <= a < b < sel.len() ==> sel[a] < sel[b],
        forall|j: int|
            0 <= j < t.rows@.len() && quote_row_matches(t, j, cnpj, start, end) ==> sel.contains(
                j as usize,
            ),
        keys.len() == dates.len(),
        forall|m: int|
            0 <= m < dates.len() ==> (#[trigger] keys[m])@ == seq![
                dates[m].year as i128,
                dates[m].month as i128,
                dates[m].day as i128,
            ],
        is_permutation(order, keys.len()),
        sorted_by(keys, order),
        quotas.len() == order.len(),
        forall|m: int|
            0 <= m < order.len() ==> opt_int(#[trigger] quotas[m]) == quota_of(
                t,
                sel[order[m] as int] as int,
            ),
        ps.len() == order.len(),
        forall|m: int|
            0 <= m < order.len() ==> (#[trigger] ps[m]).row == sel[order[m] as int] && ps[m].date
                == dates[order[m] as int] && ps[m].quota == quotas[m],
    ensures
        is_series(t, cnpj, start, end, ps),
        quotas_of(ps) == quotas,
{
    assert(quotas_of(ps) =~= quotas);
        assert forall|j: int|
            0 <= j < t.rows@.len() && quote_row_matches(t, j, cnpj, start, end)
                implies exists|i: int| 0 <= i < ps.len() && (#[trigger] ps[i]).row == j by {
            let k = choose|k: int| 0 <= k < sel.len() && sel[k] == j as usize;
            assert(order.contains(k as usize));
            let i = choose|i: int| 0 <= i < order.len() && order[i] == k as usize;
            assert(ps[i].row == sel[order[i] as int]);
            assert(order[i] as int == k);
            assert(ps[i].row as int == j);
        }
        assert forall|a: int, b: int| 0 <= a < b < ps.len() implies ps[a].row != ps[b].row by {
            assert(order[a] != order[b]);
            if order[a] < order[b] {
                assert(sel[order[a] as int] < sel[order[b] as int]);
            } else {
                assert(sel[order[b] as int] < sel[order[a] as int]);
            }
        }
        assert forall|a: int, b: int| 0 <= a < b < ps.len() implies tuple_le(
            date_tuple(#[trigger] ps[a].date),
            date_tuple(#[trigger] ps[b].date),
        ) by {
            assert(lex_le(keys[order[a] as int]@, keys[order[b] as int]@));
            lemma_date_key(dates[order[a] as int], dates[order[b] as int]);
        }
}

impl Informe {
    /// The quota series of fund `cnpj` from `start` to `end`, sorted by
    /// date, with daily and cumulative returns. No report in the range is no
    /// data, as opposed to an empty series.
    #[verifier::rlimit(100)]
    pub fn profitability(&self, informes: &Table, cnpj: &str, start: Date, end: Date) -> (r: Result<
        Vec<QuotePoint>,
        QueryError,
    >)
        requires
            informes.wf(),
        ensures
            r == Err::<Vec<QuotePoint>, QueryError>(QueryError::NoData) <==> forall|j: int|
                0 <= j < informes.rows@.len() ==> !quote_row_matches(*informes, j, cnpj@, start, end),
            r is Err ==> r->Err_0 == QueryError::NoData || r->Err_0 == QueryError::OutOfRange,
            r == Err::<Vec<QuotePoint>, QueryError>(QueryError::OutOfRange) ==> exists|
                ps: Seq<QuotePoint>,
            |
                #[trigger] is_series(*informes, cnpj@, start, end, ps) && !returns_fit(
                    quotas_of(ps),
                ),
            r is Ok ==> {
                let ps = r->Ok_0@;
                &&& is_series(*informes, cnpj@, start, end, ps)
                &&& forall|i: int|
                    0 <= i < ps.len() ==> (#[trigger] ps[i]).daily == daily_return(quotas_of(ps), i)
                        && ps[i].cumulative == cumulative_return(quotas_of(ps), i)
            },
    {
        let nrows = informes.rows.len();
        let (sel, dates) = select_quotes(informes, cnpj, start, end);
        if sel.len() == 0 {
            proof {
                assert forall|j: int|
                    0 <= j < informes.rows@.len() implies !quote_row_matches(
                        *informes,
                        j,
                        cnpj@,
                        start,
                        end,
                    ) by {
                    if quote_row_matches(*informes, j, cnpj@, start, end) {
                        assert(sel@.contains(j as usize));
                    }
                }
            }
            return Err(QueryError::NoData);
        }
        proof {
            assert(quote_row_matches(*informes, sel@[0] as int, cnpj@, start, end));
        }
        let keys = date_keys(&dates);
        let order = sort_order(&keys);
        let quotas = quotas_in_order(informes, &sel, &order);
        let rets = cumulative_returns(&quotas);
        let rets = match rets {
            Ok(v) => v,
            Err(e) => {
                proof {
                    let ps = Seq::new(
                        order@.len(),
                        |m: int|
                            QuotePoint {
                                row: sel@[order@[m] as int],
                                date: dates@[order@[m] as int],
                                quota: quotas@[m],
                                daily: 0,
                                cumulative: 0,
                            },
                    );
                    lemma_series(
                        *informes,
                        cnpj@,
                        start,
                        end,
                        sel@,
                        dates@,
                        keys@,
                        order@,
                        quotas@,
                        ps,
                    );
                    assert(is_series(*informes, cnpj@, start, end, ps) && !returns_fit(
                        quotas_of(ps),
                    ));
                }
                return Err(QueryError::OutOfRange);
            },
        };
        let points = assemble(&sel, &dates, &order, &quotas, &rets);
        proof {
            lemma_series(
                *informes,
                cnpj@,
                start,
                end,
                sel@,
                dates@,
                keys@,
                order@,
                quotas@,
                points@,
            );
        }
        Ok(points)
    }
}

} // verus!

verus! {

/// The growth factor of one day at a daily rate given in percent (units of
/// 10^-12): one plus the rate over a hundred, in units of 10^-12.
pub open spec fn rate_factor(rate: Option<i128>) -> int {
    match rate {
        Some(r) => UNIT + round_quotient(r as int, 100),
        None => UNIT as int,
    }
}

/// The running product of the daily factors up to day `i`, in units of
/// 10^-12, each step rounded half away from zero.
pub open spec fn rate_growth(rates: Seq<Option<i128>>, i: int) -> int
    decreases i + 1,
{
    if i < 0 {
        UNIT as int
    } else {
        round_quotient(rate_growth(rates, i - 1) * rate_factor(rates[i]), UNIT as int)
    }
}

/// Whether every step of the rate product stays within the exact range.
pub open spec fn rates_fit(rates: Seq<Option<i128>>) -> bool {
    forall|i: int|
        0 <= i < rates.len() ==> -GROWTH_BOUND <= #[trigger] rate_growth(rates, i - 1)
            <= GROWTH_BOUND && -GROWTH_BOUND <= rate_factor(rates[i]) <= GROWTH_BOUND
}

/// The cumulative return of a series of daily rates (a benchmark such as
/// the CDI), as a percentage in units of 10^-12, day by day.
pub fn rate_cumulative_returns(rates: &Vec<Option<i128>>) -> (r: Result<Vec<i128>, QueryError>)
    requires
        quotas_bounded(rates@),
    ensures
        rates@.len() == 0 ==> r == Err::<Vec<i128>, QueryError>(QueryError::NoData),
        rates@.len() > 0 ==> (r is Ok <==> rates_fit(rates@)),
        rates@.len() > 0 && r is Err ==> r->Err_0 == QueryError::OutOfRange,
        r is Ok ==> r->Ok_0@.len() == rates@.len() && forall|i: int|
            0 <= i < rates@.len() ==> #[trigger] r->Ok_0@[i] == (rate_growth(rates@, i) - UNIT)
                * 100,
{
    if rates.len() == 0 {
        return Err(QueryError::NoData);
    }
    let mut out: Vec<i128> = Vec::new();
    let mut g: i128 = UNIT;
    let mut i: usize = 0;
    while i < rates.len()
        invariant
            quotas_bounded(rates@),
            0 <= i <= rates@.len(),
            g == rate_growth(rates@, i - 1),
            forall|k: int|
                0 <= k < i ==> -GROWTH_BOUND <= #[trigger] rate_growth(rates@, k - 1) <= GROWTH_BOUND
                    && -GROWTH_BOUND <= rate_factor(rates@[k]) <= GROWTH_BOUND,
            out@.len() == i,
            forall|k: int| 0 <= k < i ==> #[trigger] out@[k] == (rate_growth(rates@, k) - UNIT) * 100,
        decreases rates@.len() - i,
    {
        let f: i128 = match rates[i] {
            Some(x) => UNIT + div_round(x, 100),
            None => UNIT,
        };
        if g < -GROWTH_BOUND || g > GROWTH_BOUND || f < -GROWTH_BOUND || f > GROWTH_BOUND {
            return Err(QueryError::OutOfRange);
        }
        proof {
            assert(-GROWTH_BOUND * GROWTH_BOUND <= g * f <= GROWTH_BOUND * GROWTH_BOUND)
                by (nonlinear_arith)
                requires
                    -GROWTH_BOUND <= g <= GROWTH_BOUND,
                    -GROWTH_BOUND <= f <= GROWTH_BOUND,
            ;
            crate::decimal::lemma_round_div_bound(
                g * f,
                UNIT as int,
                1_000_000_000_000_000_000_000_000,
            );
        }
        g = div_round(g * f, UNIT);
        out.push((g - UNIT) * 100);
        i += 1;
    }
    Ok(out)
}

} // verus!
