//! Portfolio composition: a fund's positions in a month, each as a share of
//! its net worth, and the totals per asset type.
use crate::decimal::{div_round, fixed_value, parse_fixed, round_quotient, UNIT};
use crate::group::{
    by_total_desc, group_sums, groups_of, key_views, lemma_key_sum_bound, Group,
    MAX_ITEMS, VALUE_BOUND,
};
use crate::order::is_permutation;
use crate::locator::{parse_date, parsed_date};
use crate::table::{cell_at, cell_view, find_column, Table};
use crate::text::{chars_of, contains, contains_chars, string_of};
use vstd::prelude::*;

verus! {

/// The monthly portfolio reports.
pub struct Portfolio {
    /// The pattern of the report files, with `{year}` and `{month}`.
    pub path: String,
}

impl Portfolio {
    /// The reports under the default dataset folder.
    pub fn new() -> (r: Portfolio)
        ensures
            r.path@ == "./dataset/cda/cda_fi_{year}{month}/cda*.csv"@,
    {
        Portfolio { path: string_of(&chars_of("./dataset/cda/cda_fi_{year}{month}/cda*.csv")) }
    }

    /// The pattern of the report files of month `month` of `year`.
    pub fn month_pattern(&self, year: i32, month: u32) -> (r: String)
        ensures
            r@ == crate::locator::fill(self.path@, "{year}"@, "{month}"@, (year as int, month as int)),
    {
        proof {
            reveal_strlit("{year}");
            reveal_strlit("{month}");
        }
        crate::locator::fill_template(self.path.as_str(), "{year}", "{month}", year, month)
    }
}

/// Whether a file of the month's portfolio holds the net worth rather than
/// positions: its name contains `PL`.
pub fn is_net_worth_file(name: &str) -> (r: bool)
    ensures
        r == contains(name@, "PL"@),
{
    contains_chars(&chars_of(name), &chars_of("PL"))
}

/// The first of the first `n` rows whose column `name` holds `v`.
pub open spec fn first_row(t: Table, name: Seq<char>, v: Seq<char>, n: int) -> Option<int>
    decreases n,
{
    if n <= 0 {
        None
    } else {
        match first_row(t, name, v, n - 1) {
            Some(j) => Some(j),
            None => if t.value(n - 1, name) == Some(v) {
                Some(n - 1)
            } else {
                None
            },
        }
    }
}

/// The amount in a cell, if it holds one.
pub open spec fn amount(t: Table, j: int, name: Seq<char>) -> Option<int> {
    match t.value(j, name) {
        Some(s) => fixed_value(s),
        None => None,
    }
}

/// The fund's net worth: the amount of its first net-worth row, or zero
/// when there is none.
pub open spec fn net_worth_of(pl: Table, cnpj: Seq<char>) -> int {
    match first_row(pl, "CNPJ_FUNDO"@, cnpj, pl.rows@.len() as int) {
        Some(j) => match amount(pl, j, "VL_PATRIM_LIQ"@) {
            Some(v) => v,
            None => 0,
        },
        None => 0,
    }
}

/// A position's share of the net worth in thousandths of a percent, rounded
/// half away from zero. A zero net worth gives no share: the sentinel for
/// an undefined percentage.
pub open spec fn share_of(value: Option<int>, net_worth: int) -> Option<int> {
    if net_worth == 0 {
        None
    } else {
        match value {
            Some(v) => Some(round_quotient(v * 100_000, net_worth)),
            None => None,
        }
    }
}

/// The fund's net worth in units of 10^-12, from the net-worth table.
pub fn net_worth(pl: &Table, cnpj: &str) -> (r: i128)
    requires
        pl.wf(),
    ensures
        r == net_worth_of(*pl, cnpj@),
        -UNIT * UNIT < r < UNIT * UNIT,
{
    let ci = find_column(pl, "CNPJ_FUNDO");
    let cv = find_column(pl, "VL_PATRIM_LIQ");
    let id = string_of(&chars_of(cnpj));
    let mut j: usize = 0;
    while j < pl.rows.len()
        invariant
            pl.wf(),
            id@ == cnpj@,
            ci is Some <==> pl.has_column("CNPJ_FUNDO"@),
            ci is Some ==> ci->0 < pl.columns@.len() && pl.column_names()[ci->0 as int]
                == "CNPJ_FUNDO"@,
            cv is Some <==> pl.has_column("VL_PATRIM_LIQ"@),
            cv is Some ==> cv->0 < pl.columns@.len() && pl.column_names()[cv->0 as int]
                == "VL_PATRIM_LIQ"@,
            0 <= j <= pl.rows@.len(),
            first_row(*pl, "CNPJ_FUNDO"@, cnpj@, j as int) is None,
        decreases pl.rows@.len() - j,
    {
        let v = cell_at(pl, j, ci, Ghost("CNPJ_FUNDO"@));
        let hit = match &v {
            Some(s) => *s == id,
            None => false,
        };
        if hit {
            proof {
                lemma_first_row_stays(*pl, "CNPJ_FUNDO"@, cnpj@, j as int + 1, pl.rows@.len() as int);
            }
            let w = cell_at(pl, j, cv, Ghost("VL_PATRIM_LIQ"@));
            return match w {
                Some(s) => match parse_fixed(&chars_of(s.as_str())) {
                    Some(x) => x,
                    None => 0,
                },
                None => 0,
            };
        }
        j += 1;
    }
    0
}

pub proof fn lemma_first_row_stays(t: Table, name: Seq<char>, v: Seq<char>, a: int, b: int)
    requires
        0 <= a <= b,
        first_row(t, name, v, a) is Some,
    ensures
        first_row(t, name, v, b) == first_row(t, name, v, a),
    decreases b - a,
{
    if a < b {
        lemma_first_row_stays(t, name, v, a, b - 1);
    }
}

/// The totals of one asset type.
#[derive(Clone, Debug)]
pub struct CategoryTotal {
    /// The asset type code.
    pub category: Option<String>,
    /// The summed value of its positions, in units of 10^-12.
    pub value: i128,
    /// The summed shares of its positions, in thousandths of a percent; none
    /// where the shares are undefined.
    pub share: Option<i128>,
}

/// A fund's positions in one month.
pub struct PositionReport {
    /// The net worth, in units of 10^-12.
    pub net_worth: i128,
    /// The rows of the fund's positions, in table order.
    pub rows: Vec<usize>,
    /// The value of each position, in units of 10^-12.
    pub values: Vec<Option<i128>>,
    /// The share of each position in thousandths of a percent; none where
    /// the net worth is zero or the value is missing.
    pub shares: Vec<Option<i128>>,
    /// The totals per asset type, largest value first.
    pub top: Vec<CategoryTotal>,
}

pub open spec fn opt_int(o: Option<i128>) -> Option<int> {
    match o {
        Some(v) => Some(v as int),
        None => None,
    }
}

/// The value of each selected position, none counted as zero.
pub open spec fn value_or_zero(vs: Seq<Option<i128>>) -> Seq<i128> {
    vs.map_values(|v: Option<i128>| match v {
        Some(x) => x,
        None => 0i128,
    })
}

/// Whether row `j` is a position of fund `cnpj` dated in month `month` of
/// `year`.
pub open spec fn position_row(t: Table, j: int, cnpj: Seq<char>, year: int, month: int) -> bool {
    &&& t.value(j, "CNPJ_FUNDO"@) == Some(cnpj)
    &&& match t.value(j, "DT_COMPTC"@) {
        Some(s) => match parsed_date(s, "%Y-%m-%d"@) {
            Some(d) => d.0 == year && d.1 == month,
            None => false,
        },
        None => false,
    }
}

/// Whether `rows`, `values` and `shares` are the positions of `cnpj` in
/// table order, with their values and shares of the net worth `nw`.
pub open spec fn are_positions(
    rows: Seq<usize>,
    values: Seq<Option<i128>>,
    shares: Seq<Option<i128>>,
    assets: Table,
    cnpj: Seq<char>,
    year: int,
    month: int,
    nw: int,
) -> bool {
    &&& rows.len() == values.len() && rows.len() == shares.len()
    &&& forall|k: int|
        0 <= k < rows.len() ==> (#[trigger] rows[k]) < assets.rows@.len() && position_row(
            assets,
            rows[k] as int,
            cnpj,
            year,
            month,
        ) && opt_int(values[k]) == amount(assets, rows[k] as int, "VL_MERC_POS_FINAL"@)
            && opt_int(shares[k]) == share_of(opt_int(values[k]), nw)
    &&& forall|a: int, b: int| 0 <= a < b < rows.len() ==> rows[a] < rows[b]
    &&& forall|j: int|
        0 <= j < assets.rows@.len() && position_row(assets, j, cnpj, year, month) ==> rows.contains(
            j as usize,
        )
}

/// The positions of fund `cnpj`, with their values and shares of the net
/// worth.
fn select_positions(assets: &Table, cnpj: &str, year: i32, month: u32, nw: i128) -> (r: (Vec<usize>, Vec<Option<i128>>, Vec<Option<i128>>))
    requires
        assets.wf(),
        -UNIT * UNIT < nw < UNIT * UNIT,
    ensures
        are_positions(r.0@, r.1@, r.2@, *assets, cnpj@, year as int, month as int, nw as int),
        r.0@.len() <= assets.rows@.len(),
        forall|k: int| 0 <= k < r.1@.len() && (#[trigger] r.1@[k]) is Some ==> -UNIT * UNIT < r.1@[k]->0 < UNIT * UNIT,
{
    let ci = find_column(assets, "CNPJ_FUNDO");
    let cv = find_column(assets, "VL_MERC_POS_FINAL");
    let cd = find_column(assets, "DT_COMPTC");
    let id = string_of(&chars_of(cnpj));
    let mut rows: Vec<usize> = Vec::new();
    let mut values: Vec<Option<i128>> = Vec::new();
    let mut shares: Vec<Option<i128>> = Vec::new();
    let mut j: usize = 0;
    while j < assets.rows.len()
        invariant
            assets.wf(),
            -UNIT * UNIT < nw < UNIT * UNIT,
            id@ == cnpj@,
            ci is Some <==> assets.has_column("CNPJ_FUNDO"@),
            ci is Some ==> ci->0 < assets.columns@.len() && assets.column_names()[ci->0 as int]
                == "CNPJ_FUNDO"@,
            cv is Some <==> assets.has_column("VL_MERC_POS_FINAL"@),
            cv is Some ==> cv->0 < assets.columns@.len() && assets.column_names()[cv->0 as int]
                == "VL_MERC_POS_FINAL"@,
            cd is Some <==> assets.has_column("DT_COMPTC"@),
            cd is Some ==> cd->0 < assets.columns@.len() && assets.column_names()[cd->0 as int]
                == "DT_COMPTC"@,
            0 <= j <= assets.rows@.len(),
            rows@.len() <= j,
            rows@.len() == values@.len() && rows@.len() == shares@.len(),
            forall|k: int|
                0 <= k < rows@.len() ==> (#[trigger] rows@[k]) < j && position_row(
                    *assets,
                    rows@[k] as int,
                    cnpj@,
                    year as int,
                    month as int,
                ) && opt_int(values@[k]) == amount(
                    *assets,
                    rows@[k] as int,
                    "VL_MERC_POS_FINAL"@,
                ) && opt_int(shares@[k]) == share_of(opt_int(values@[k]), nw as int),
            forall|k: int| 0 <= k < values@.len() && (#[trigger] values@[k]) is Some ==> -UNIT * UNIT < values@[k]->0 < UNIT * UNIT,
            forall|a: int, b: int| 0 <= a < b < rows@.len() ==> rows@[a] < rows@[b],
            forall|jj: int|
                0 <= jj < j && position_row(*assets, jj, cnpj@, year as int, month as int)
                    ==> rows@.contains(jj as usize),
        decreases assets.rows@.len() - j,
    {
        let v = cell_at(assets, j, ci, Ghost("CNPJ_FUNDO"@));
        let same_fund = match &v {
            Some(s) => *s == id,
            None => false,
        };
        let dated = cell_at(assets, j, cd, Ghost("DT_COMPTC"@));
        let in_month = match dated {
            Some(s) => match parse_date(s.as_str(), "%Y-%m-%d") {
                Some(d) => d.year == year && d.month == month,
                None => false,
            },
            None => false,
        };
        proof {
            assert((same_fund && in_month) == position_row(
                *assets,
                j as int,
                cnpj@,
                year as int,
                month as int,
            ));
        }
        if same_fund && in_month {
            let cell = cell_at(assets, j, cv, Ghost("VL_MERC_POS_FINAL"@));
            let value = match cell {
                Some(s) => parse_fixed(&chars_of(s.as_str())),
                None => None,
            };
            let share = if nw == 0 {
                None
            } else {
                match value {
                    Some(x) => Some(div_round(x * 100_000, nw)),
                    None => None,
                }
            };
            let ghost before = rows@;
            rows.push(j);
            values.push(value);
            shares.push(share);
            proof {
                assert(rows@[before.len() as int] == j);
                assert forall|jj: int|
                    0 <= jj < j + 1 && position_row(*assets, jj, cnpj@, year as int, month as int)
                        implies rows@.contains(jj as usize) by {
                    if jj < j {
                        let k = choose|k: int| 0 <= k < before.len() && before[k] == jj as usize;
                        assert(rows@[k] == jj as usize);
                    }
                }
            }
        }
        j += 1;
    }
    (rows, values, shares)
}

impl Portfolio {
    /// The positions of fund `cnpj` dated in month `month` of `year` in the
    /// month's portfolio table, each with its share of the net worth found
    /// in the net-worth table, and the totals per asset type, largest first.
    pub fn positions(&self, assets: &Table, pl: &Table, cnpj: &str, year: i32, month: u32) -> (r:
        PositionReport)
        requires
            assets.wf(),
            pl.wf(),
            assets.rows@.len() <= MAX_ITEMS,
        ensures
            r.net_worth == net_worth_of(*pl, cnpj@),
            are_positions(
                r.rows@,
                r.values@,
                r.shares@,
                *assets,
                cnpj@,
                year as int,
                month as int,
                r.net_worth as int,
            ),
            are_category_totals(
                r.top@,
                categories(*assets, r.rows@),
                value_or_zero(r.values@),
                r.shares@,
            ),
            forall|a: int, b: int| 0 <= a < b < r.top@.len() ==> (#[trigger] r.top@[a]).value >= (
            #[trigger] r.top@[b]).value,
    {
        let nw = net_worth(pl, cnpj);
        let (rows, values, shares) = select_positions(assets, cnpj, year, month, nw);
        let top = top_by_category(assets, &rows, &values, &shares);
        PositionReport { net_worth: nw, rows, values, shares, top }
    }
}

/// The asset types of the selected positions, in order.
pub open spec fn categories(assets: Table, rows: Seq<usize>) -> Seq<Option<Seq<char>>> {
    Seq::new(rows.len(), |i: int| assets.value(rows[i] as int, "TP_APLIC"@))
}

/// The sum of the shares of the first `n` positions of type `k`; none when
/// one of them has no share or a partial sum leaves the exact range.
pub open spec fn share_acc(
    keys: Seq<Option<Seq<char>>>,
    shares: Seq<Option<i128>>,
    k: Option<Seq<char>>,
    n: int,
) -> Option<int>
    decreases n,
{
    if n <= 0 {
        Some(0)
    } else {
        match share_acc(keys, shares, k, n - 1) {
            None => None,
            Some(acc) => if keys[n - 1] != k {
                Some(acc)
            } else {
                match shares[n - 1] {
                    None => None,
                    Some(x) => if x < -VALUE_BOUND || x > VALUE_BOUND || acc + x < -VALUE_BOUND
                        || acc + x > VALUE_BOUND {
                        None
                    } else {
                        Some(acc + x)
                    },
                }
            },
        }
    }
}

/// Whether `r` holds one total per asset type: the summed value and
/// summed share of its positions.
pub open spec fn are_category_totals(
    r: Seq<CategoryTotal>,
    keys: Seq<Option<Seq<char>>>,
    vals: Seq<i128>,
    shares: Seq<Option<i128>>,
) -> bool {
    &&& exists|gs: Seq<Group>, order: Seq<usize>|
        #[trigger] groups_of(gs, keys, vals) && #[trigger] is_permutation(order, gs.len()) && r.len()
            == gs.len() && forall|i: int|
            0 <= i < r.len() ==> cell_view((#[trigger] r[i]).category) == cell_view(
                gs[order[i] as int].key,
            ) && r[i].value == gs[order[i] as int].total
    &&& forall|i: int|
        0 <= i < r.len() ==> opt_int((#[trigger] r[i]).share) == share_acc(
            keys,
            shares,
            cell_view(r[i].category),
            keys.len() as int,
        )
}

/// The totals per asset type of the selected positions, largest value first.
fn top_by_category(
    assets: &Table,
    rows: &Vec<usize>,
    values: &Vec<Option<i128>>,
    shares: &Vec<Option<i128>>,
) -> (r: Vec<CategoryTotal>)
    requires
        assets.wf(),
        rows@.len() == values@.len(),
        rows@.len() == shares@.len(),
        rows@.len() <= MAX_ITEMS,
        forall|k: int| 0 <= k < rows@.len() ==> (#[trigger] rows@[k]) < assets.rows@.len(),
        forall|k: int| 0 <= k < values@.len() && (#[trigger] values@[k]) is Some ==> -UNIT * UNIT < values@[k]->0 < UNIT * UNIT,
    ensures
        are_category_totals(r@, categories(*assets, rows@), value_or_zero(values@), shares@),
        forall|a: int, b: int| 0 <= a < b < r@.len() ==> (#[trigger] r@[a]).value >= (
        #[trigger] r@[b]).value,
{
    let ct = find_column(assets, "TP_APLIC");
    let mut keys: Vec<Option<String>> = Vec::new();
    let mut vals: Vec<i128> = Vec::new();
    let mut i: usize = 0;
    while i < rows.len()
        invariant
            assets.wf(),
            rows@.len() == values@.len(),
            rows@.len() <= MAX_ITEMS,
            forall|k: int| 0 <= k < rows@.len() ==> (#[trigger] rows@[k]) < assets.rows@.len(),
            forall|k: int| 0 <= k < values@.len() && (#[trigger] values@[k]) is Some ==> -UNIT * UNIT < values@[k]->0 < UNIT * UNIT,
            ct is Some <==> assets.has_column("TP_APLIC"@),
            ct is Some ==> ct->0 < assets.columns@.len() && assets.column_names()[ct->0 as int]
                == "TP_APLIC"@,
            0 <= i <= rows@.len(),
            keys@.len() == i,
            key_views(keys@) == Seq::new(i as nat, |m: int| assets.value(rows@[m] as int, "TP_APLIC"@)),
            vals@ == value_or_zero(values@.subrange(0, i as int)),
        decreases rows@.len() - i,
    {
        let ghost kb = keys@;
        keys.push(cell_at(assets, rows[i], ct, Ghost("TP_APLIC"@)));
        proof {
            assert(key_views(keys@) =~= key_views(kb).push(assets.value(rows@[i as int] as int, "TP_APLIC"@)));
            assert(key_views(keys@) =~= Seq::new((i + 1) as nat, |m: int| assets.value(rows@[m] as int, "TP_APLIC"@)));
        }
        let v = match values[i] {
            Some(x) => x,
            None => 0,
        };
        vals.push(v);
        proof {
            assert(value_or_zero(values@.subrange(0, i + 1)) =~= value_or_zero(
                values@.subrange(0, i as int),
            ).push(v));
        }
        i += 1;
    }
    proof {
        assert forall|k: int| 0 <= k < vals@.len() implies -VALUE_BOUND <= #[trigger] vals@[k]
            <= VALUE_BOUND by {
            assert(values@.subrange(0, i as int)[k] == values@[k]);
        }
        assert(values@.subrange(0, i as int) =~= values@);
        assert(key_views(keys@) =~= categories(*assets, rows@));
    }
    let gs = group_sums(&keys, &vals);
    proof {
        assert forall|g: int| 0 <= g < gs@.len() implies -VALUE_BOUND * MAX_ITEMS <= (
        #[trigger] gs@[g]).total <= VALUE_BOUND * MAX_ITEMS by {
            lemma_key_sum_bound(key_views(keys@), vals@, cell_view(gs@[g].key), keys@.len() as int);
            assert(keys@.len() * VALUE_BOUND <= VALUE_BOUND * MAX_ITEMS) by (nonlinear_arith)
                requires
                    keys@.len() <= MAX_ITEMS,
            ;
        }
    }
    let sorted = by_total_desc(gs);
    let mut r: Vec<CategoryTotal> = Vec::new();
    let mut g: usize = 0;
    while g < sorted.len()
        invariant
            0 <= g <= sorted@.len(),
            keys@.len() == shares@.len(),
            r@.len() == g,
            forall|a: int| 0 <= a < g ==> (#[trigger] r@[a]).value == sorted@[a].total && cell_view(
                r@[a].category,
            ) == cell_view(sorted@[a].key) && opt_int(r@[a].share) == share_acc(
                key_views(keys@),
                shares@,
                cell_view(r@[a].category),
                keys@.len() as int,
            ),
            forall|a: int, b: int| 0 <= a < b < sorted@.len() ==> (#[trigger] sorted@[a]).total >= (
            #[trigger] sorted@[b]).total,
        decreases sorted@.len() - g,
    {
        let share = share_total(&keys, shares, &sorted[g].key);
        let category = match &sorted[g].key {
            Some(s) => Some(s.clone()),
            None => None,
        };
        r.push(CategoryTotal { category, value: sorted[g].total, share });
        g += 1;
    }
    proof {
        assert forall|a: int, b: int| 0 <= a < b < r@.len() implies (#[trigger] r@[a]).value >= (
        #[trigger] r@[b]).value by {
            assert(r@[a].value == sorted@[a].total);
            assert(r@[b].value == sorted@[b].total);
        }
        let order = choose|order: Seq<usize>|
            is_permutation(order, gs@.len()) && forall|i: int|
                0 <= i < sorted@.len() ==> cell_view((#[trigger] sorted@[i]).key) == cell_view(
                    gs@[order[i] as int].key,
                ) && sorted@[i].total == gs@[order[i] as int].total;
        assert(groups_of(gs@, key_views(keys@), vals@));
        assert forall|i: int| 0 <= i < r@.len() implies cell_view((#[trigger] r@[i]).category)
            == cell_view(gs@[order[i] as int].key) && r@[i].value == gs@[order[i] as int].total by {
            assert(cell_view(sorted@[i].key) == cell_view(gs@[order[i] as int].key));
        }
    }
    r
}

/// The summed shares of the positions of one asset type; none where a share
/// is undefined.
fn share_total(keys: &Vec<Option<String>>, shares: &Vec<Option<i128>>, key: &Option<String>) -> (r:
    Option<i128>)
    requires
        keys@.len() == shares@.len(),
    ensures
        opt_int(r) == share_acc(key_views(keys@), shares@, cell_view(*key), keys@.len() as int),
{
    let mut sum: i128 = 0;
    let mut i: usize = 0;
    while i < keys.len()
        invariant
            keys@.len() == shares@.len(),
            0 <= i <= keys@.len(),
            -VALUE_BOUND <= sum <= VALUE_BOUND,
            share_acc(key_views(keys@), shares@, cell_view(*key), i as int) == Some(sum as int),
        decreases keys@.len() - i,
    {
        let same = match (&keys[i], key) {
            (Some(a), Some(b)) => *a == *b,
            (None, None) => true,
            _ => false,
        };
        proof {
            assert(same == (key_views(keys@)[i as int] == cell_view(*key)));
        }
        if same {
            match shares[i] {
                Some(s) => {
                    if s < -VALUE_BOUND || s > VALUE_BOUND {
                        proof {
                            lemma_share_acc_none(key_views(keys@), shares@, cell_view(*key), i as int + 1, keys@.len() as int);
                        }
                        return None;
                    }
                    let next = sum + s;
                    if next < -VALUE_BOUND || next > VALUE_BOUND {
                        proof {
                            lemma_share_acc_none(key_views(keys@), shares@, cell_view(*key), i as int + 1, keys@.len() as int);
                        }
                        return None;
                    }
                    sum = next;
                },
                None => {
                    proof {
                        lemma_share_acc_none(key_views(keys@), shares@, cell_view(*key), i as int + 1, keys@.len() as int);
                    }
                    return None;
                },
            }
        }
        i += 1;
    }
    Some(sum)
}

/// Once the sum of shares is undefined it stays undefined.
pub proof fn lemma_share_acc_none(
    keys: Seq<Option<Seq<char>>>,
    shares: Seq<Option<i128>>,
    k: Option<Seq<char>>,
    a: int,
    b: int,
)
    requires
        0 <= a <= b,
        share_acc(keys, shares, k, a) is None,
    ensures
        share_acc(keys, shares, k, b) is None,
    decreases b - a,
{
    if a < b {
        lemma_share_acc_none(keys, shares, k, a, b - 1);
    }
}

} // verus!
