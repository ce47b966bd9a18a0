use fundos::decimal::UNIT;
use fundos::informe::{cumulative_returns, DailyReturn, Informe};
use fundos::locator::Date;
use fundos::portfolio::{net_worth, Portfolio};
use fundos::registry::{fold_name, matches_folded, matches_keyword, Class, Register, Situation};
use fundos::table::{unify, QueryError, Table};

fn s(x: &str) -> String {
    x.to_string()
}

fn table(cols: &[&str], rows: &[&[Option<&str>]]) -> Table {
    Table {
        columns: cols.iter().map(|c| s(c)).collect(),
        rows: rows
            .iter()
            .map(|r| r.iter().map(|c| c.map(|v| s(v))).collect())
            .collect(),
    }
}

#[test]
fn cumulative_return_round_trip() {
    let q = vec![Some(10 * UNIT), Some(11 * UNIT), Some(99 * UNIT / 10)];
    let r = cumulative_returns(&q).unwrap();
    let daily: Vec<i128> = r.iter().map(|p| p.daily).collect();
    let cum: Vec<i128> = r.iter().map(|p| p.cumulative).collect();
    assert_eq!(daily, vec![0, UNIT / 10, -UNIT / 10]);
    assert_eq!(cum, vec![0, 10 * UNIT, -UNIT]);
}

#[test]
fn cumulative_returns_of_nothing_is_no_data() {
    assert_eq!(cumulative_returns(&vec![]), Err(QueryError::NoData));
}

#[test]
fn missing_quota_gives_zero_return() {
    let q = vec![Some(10 * UNIT), None, Some(12 * UNIT)];
    let r = cumulative_returns(&q).unwrap();
    assert_eq!(r[1], DailyReturn { daily: 0, cumulative: 0 });
    assert_eq!(r[2], DailyReturn { daily: 0, cumulative: 0 });
}

#[test]
fn profitability_sorts_by_date_and_filters_fund() {
    let t = table(
        &["CNPJ_FUNDO", "DT_COMPTC", "VL_QUOTA"],
        &[
            &[Some("11.111"), Some("2023-01-03"), Some("11.0")],
            &[Some("22.222"), Some("2023-01-02"), Some("5.0")],
            &[Some("11.111"), Some("2023-01-02"), Some("10.0")],
            &[Some("11.111"), Some("2023-01-04"), Some("9.9")],
            &[Some("11.111"), Some("2023-02-01"), Some("50.0")],
        ],
    );
    let start = Date { year: 2023, month: 1, day: 1 };
    let end = Date { year: 2023, month: 1, day: 31 };
    let r = Informe::new().profitability(&t, "11.111", start, end).unwrap();
    let rows: Vec<usize> = r.iter().map(|p| p.row).collect();
    assert_eq!(rows, vec![2, 0, 3]);
    let cum: Vec<i128> = r.iter().map(|p| p.cumulative).collect();
    assert_eq!(cum, vec![0, 10 * UNIT, -UNIT]);
}

#[test]
fn profitability_without_rows_is_no_data() {
    let t = table(&["CNPJ_FUNDO", "DT_COMPTC", "VL_QUOTA"], &[&[Some("1"), Some("2020-01-01"), Some("1")]]);
    let start = Date { year: 2023, month: 1, day: 1 };
    let end = Date { year: 2023, month: 1, day: 31 };
    assert_eq!(Informe::new().profitability(&t, "1", start, end).unwrap_err(), QueryError::NoData);
}

#[test]
fn positions_with_zero_net_worth_have_no_share() {
    let assets = table(
        &["CNPJ_FUNDO", "TP_APLIC", "VL_MERC_POS_FINAL", "DT_COMPTC"],
        &[
            &[Some("X"), Some("Acoes"), Some("100.00"), Some("2023-05-31")],
            &[Some("Y"), Some("Acoes"), Some("5"), Some("2023-05-31")],
            &[Some("X"), Some("Titulos"), Some("300"), Some("2023-05-31")],
            &[Some("X"), Some("Titulos"), Some("7"), Some("2023-04-30")],
        ],
    );
    let pl = table(&["CNPJ_FUNDO", "VL_PATRIM_LIQ"], &[&[Some("X"), Some("0")]]);
    let r = Portfolio::new().positions(&assets, &pl, "X", 2023, 5);
    assert_eq!(r.net_worth, 0);
    assert_eq!(r.rows, vec![0, 2]);
    assert_eq!(r.shares, vec![None, None]);
    assert_eq!(r.values, vec![Some(100 * UNIT), Some(300 * UNIT)]);
}

#[test]
fn positions_share_of_net_worth_and_top() {
    let assets = table(
        &["CNPJ_FUNDO", "TP_APLIC", "VL_MERC_POS_FINAL", "DT_COMPTC"],
        &[
            &[Some("X"), Some("Acoes"), Some("100"), Some("2023-05-31")],
            &[Some("X"), Some("Titulos"), Some("300"), Some("2023-05-31")],
            &[Some("X"), Some("Acoes"), Some("200"), Some("2023-05-31")],
        ],
    );
    let pl = table(&["CNPJ_FUNDO", "VL_PATRIM_LIQ"], &[&[Some("X"), Some("900")]]);
    let r = Portfolio::new().positions(&assets, &pl, "X", 2023, 5);
    // 100 / 900 * 100 = 11.111%, 300/900 = 33.333%, 200/900 = 22.222%
    assert_eq!(r.shares, vec![Some(11_111), Some(33_333), Some(22_222)]);
    assert_eq!(r.top.len(), 2);
    assert_eq!(r.top[0].value, 300 * UNIT);
    assert_eq!(r.top[0].category, Some(s("Acoes")));
    assert_eq!(r.top[0].share, Some(33_333));
    assert_eq!(r.top[1].category, Some(s("Titulos")));
}

#[test]
fn net_worth_absent_is_zero() {
    let pl = table(&["CNPJ_FUNDO", "VL_PATRIM_LIQ"], &[&[Some("A"), Some("12.5")]]);
    assert_eq!(net_worth(&pl, "A"), 12 * UNIT + UNIT / 2);
    assert_eq!(net_worth(&pl, "B"), 0);
}

#[test]
fn unify_pads_missing_columns_with_null() {
    let a = table(&["A", "B"], &[&[Some("1"), Some("2")]]);
    let b = table(&["B", "C"], &[&[Some("3"), Some("4")], &[None, Some("5")]]);
    let t = unify(&vec![a, b]).unwrap();
    assert_eq!(t.columns, vec![s("A"), s("B"), s("C")]);
    assert_eq!(t.rows[0], vec![Some(s("1")), Some(s("2")), None]);
    assert_eq!(t.rows[1], vec![None, Some(s("3")), Some(s("4"))]);
    assert_eq!(t.rows[2], vec![None, None, Some(s("5"))]);
}

#[test]
fn unify_of_no_partitions_is_no_data() {
    assert_eq!(unify(&vec![]).unwrap_err(), QueryError::NoData);
}

#[test]
fn keyword_ignores_diacritics_and_case() {
    assert_eq!(fold_name("Fundo de Ações"), s("fundo de acoes"));
    assert!(matches_keyword("acoes", "FUNDO DE AÇÕES", "00.000"));
    assert!(matches_keyword("Grao", "Grão Fundo", "1"));
    assert!(matches_keyword("12.3", "Outro", "12.345"));
    assert!(!matches_keyword("renda", "Fundo de Ações", "1"));
    assert!(matches_folded("ab", "xaby", ""));
    assert!(!matches_folded("ab", "xa", "b"));
}

fn registry() -> Register {
    Register::new(table(
        &["CNPJ_FUNDO", "DENOM_SOCIAL", "CLASSE", "SIT", "DT_REG", "DT_CONST"],
        &[
            &[Some("3"), Some("Zeta Ações FIA"), Some("Fundo de Ações"), Some("EM FUNCIONAMENTO NORMAL"), Some("2010-01-01"), Some("2001-05-01")],
            &[Some("1"), Some("Alfa Renda"), Some("Fundo de Renda Fixa"), Some("EM FUNCIONAMENTO NORMAL"), Some("2009-01-01"), Some("2001-02-01")],
            &[Some("2"), Some("Beta ações"), Some("Fundo de Ações"), Some("CANCELADA"), Some("2008-01-01"), Some("1999-02-01")],
            &[Some("1"), Some("Alfa Renda II"), Some("Fundo de Renda Fixa"), Some("CANCELADA"), Some("2005-01-01"), Some("bad")],
        ],
    ))
}

#[test]
fn search_matches_normalized_keyword_sorted_by_name() {
    let r = registry();
    let t = r.find(Some(s("acoes")), None, None, None);
    assert_eq!(t.rows.len(), 1);
    assert_eq!(t.rows[0][1], Some(s("Zeta Ações FIA")));
    let all = r.find(None, None, Some(Situation::Canceled), None);
    let names: Vec<Option<String>> = all.rows.iter().map(|row| row[1].clone()).collect();
    assert_eq!(names, vec![Some(s("Alfa Renda II")), Some(s("Beta ações"))]);
    let cls = r.find(None, Some(Class::RendaFixa), None, None);
    assert_eq!(cls.rows.len(), 1);
    let limited = r.find(None, None, Some(Situation::Canceled), Some(1));
    assert_eq!(limited.rows.len(), 1);
    assert_eq!(limited.rows[0][1], Some(s("Beta ações")));
}

#[test]
fn find_by_cnpj_sorted_by_registration() {
    let r = registry();
    let t = r.find_by_cnpj("1").unwrap();
    assert_eq!(t.rows.len(), 2);
    assert_eq!(t.rows[0][4], Some(s("2005-01-01")));
    assert_eq!(r.find_by_cnpj("").unwrap_err(), QueryError::NotFound);
    assert_eq!(r.find_by_cnpj("9").unwrap_err(), QueryError::NotFound);
}

#[test]
fn stats_count_most_frequent_first() {
    let (by_year, by_sit, by_class) = registry().stats();
    assert_eq!(by_year.len(), 2);
    assert_eq!(by_year[0].key, Some(s("2001")));
    assert_eq!(by_year[0].total, 2);
    assert_eq!(by_sit.len(), 2);
    assert_eq!(by_sit[0].total, 2);
    assert_eq!(by_class.len(), 2);
}

#[test]
fn labels_of_situation_and_class() {
    assert_eq!(Situation::Normal.to_string(), s("EM FUNCIONAMENTO NORMAL"));
    assert_eq!(Situation::Canceled.to_string(), s("CANCELADA"));
    assert_eq!(Class::Acoes.to_string(), s("Fundo de Ações"));
    assert_eq!(Class::MultiMarket.to_string(), s("Fundo Multimercado"));
}

#[test]
fn delimited_text_becomes_a_table() {
    let t = fundos::table::parse_delimited("A;B;C\r\n1;;3\n\n4;5\n", ';').unwrap();
    assert_eq!(t.columns, vec![s("A"), s("B"), s("C")]);
    assert_eq!(t.rows.len(), 2);
    assert_eq!(t.rows[0], vec![Some(s("1")), None, Some(s("3"))]);
    assert_eq!(t.rows[1], vec![Some(s("4")), Some(s("5")), None]);
    assert_eq!(fundos::table::parse_delimited("A;A\n1;2", ';').unwrap_err(), QueryError::Malformed);
}

#[test]
fn rate_series_compounds() {
    // two days at 1% each: 1.01 * 1.01 - 1 = 2.01%
    let r = fundos::informe::rate_cumulative_returns(&vec![Some(UNIT), Some(UNIT)]).unwrap();
    assert_eq!(r, vec![UNIT, 2 * UNIT + UNIT / 100]);
    assert_eq!(fundos::informe::rate_cumulative_returns(&vec![]), Err(QueryError::NoData));
}

#[test]
fn delimited_rows_follow_non_empty_lines() {
    let t = fundos::table::parse_delimited("A\n\nx\r\n\ny", ';').unwrap();
    assert_eq!(t.rows, vec![vec![Some(s("x"))], vec![Some(s("y"))]]);
}

#[test]
fn limited_search_reaches_its_limit() {
    let r = registry();
    let t = r.find(None, Some(Class::Acoes), Some(Situation::Normal), Some(5));
    assert_eq!(t.rows.len(), 1);
    let t = r.find(None, None, Some(Situation::Canceled), Some(2));
    assert_eq!(t.rows.len(), 2);
}

#[test]
fn columns_are_gathered_and_aligned() {
    let a = table(&["A", "B"], &[&[Some("1"), Some("2")]]);
    let b = table(&["C", "A"], &[&[Some("3"), Some("4")]]);
    let cols = fundos::table::get_all_columns(&vec![a.clone(), b.clone()]);
    assert_eq!(cols, vec![s("A"), s("B"), s("C")]);
    let t = fundos::table::align_and_convert_columns_to_string(&b, &cols);
    assert_eq!(t.columns, cols);
    assert_eq!(t.rows, vec![vec![Some(s("4")), None, Some(s("3"))]]);
    let kept = fundos::table::align_columns(&b, &vec![s("B")]);
    assert_eq!(kept.columns, vec![s("C"), s("A"), s("B")]);
    assert_eq!(kept.rows, vec![vec![Some(s("3")), Some(s("4")), None]]);
}
