use fundos::batch::{format_progress, Batch, DownloadStatus, Outcome, StartDecision, TaskState};
use fundos::cache::{get_etag, get_last_modified, get_path, header_get, HeadersStore};
use fundos::dataset::{Document, HistoryStep};
use fundos::options::portfolio::{period_step, PeriodStep};
use fundos::fetch::{
    archive_entry_path, classify_content_type, decode, file_name_from_url, response_action,
    ContentKind, DownloadError, ResponseAction,
};
use fundos::history::History;
use fundos::locator::Date;
use fundos::options::{fund, informe, portfolio, ConfigError, Settings};

fn s(x: &str) -> String {
    x.to_string()
}

fn labels(n: usize) -> Vec<String> {
    (0..n).map(|i| format!("Fundos - {}", i)).collect()
}

#[test]
fn batch_never_exceeds_cap() {
    let mut b = Batch::new(labels(3), 2);
    assert_eq!(b.start(0), StartDecision::Start);
    assert_eq!(b.start(1), StartDecision::Start);
    assert_eq!(b.start(2), StartDecision::Wait);
    assert_eq!(b.in_flight, 2);
    let ev = b.finish(0, Outcome::Fetched);
    assert_eq!(ev, vec![DownloadStatus::InProgress(s("Baixando: 1/3 (Fundos - 0)"))]);
    assert_eq!(b.start(2), StartDecision::Start);
    let ev = b.finish(1, Outcome::Failed);
    assert_eq!(ev.len(), 1);
    let ev = b.finish(2, Outcome::NotModified);
    assert_eq!(
        ev,
        vec![DownloadStatus::InProgress(s("Baixando: 3/3 (Fundos - 2)")), DownloadStatus::Done]
    );
    assert_eq!(b.states, vec![TaskState::Done, TaskState::Failed, TaskState::Done]);
}

#[test]
fn cancelled_batch_reaches_no_new_done() {
    let mut b = Batch::new(labels(3), 1);
    assert_eq!(b.start(0), StartDecision::Start);
    let _ = b.finish(0, Outcome::Fetched);
    assert_eq!(b.start(1), StartDecision::Start);
    b.cancel();
    assert_eq!(b.finish(1, Outcome::Fetched), vec![DownloadStatus::Cancelled]);
    assert_eq!(b.start(2), StartDecision::Cancelled);
    assert_eq!(b.states, vec![TaskState::Done, TaskState::Cancelled, TaskState::Cancelled]);
    assert_eq!(b.in_flight, 0);
}

#[test]
fn progress_message_text() {
    assert_eq!(format_progress(12, 250, &s("Indices - CDI")), s("Baixando: 12/250 (Indices - CDI)"));
}

#[test]
fn recording_twice_keeps_one_entry() {
    let mut store = HeadersStore::new();
    let hs = vec![(s("last-modified"), s("Mon")), (s("ETag"), s("\"abc\""))];
    store.record_response("http://x/a.csv", "/data/a.csv", &hs);
    store.record_response("http://x/a.csv", "/data/a.csv", &hs);
    assert_eq!(store.entries.len(), 1);
    assert_eq!(get_path(&store, "http://x/a.csv"), Some(s("/data/a.csv")));
    assert_eq!(get_last_modified(&store, "http://x/a.csv"), Some(s("Mon")));
    assert_eq!(get_etag(&store, "http://x/a.csv"), Some(s("\"abc\"")));
    assert_eq!(
        store.get_cached_headers("http://x/a.csv"),
        vec![(s("If-Modified-Since"), s("Mon")), (s("If-None-Match"), s("\"abc\""))]
    );
    assert_eq!(store.request_headers("http://x/a.csv", false), vec![]);
    assert_eq!(get_path(&store, "http://x/b.csv"), None);
}

#[test]
fn header_lookup_ignores_case() {
    let hs = vec![(s("Content-Type"), s("text/csv")), (s("content-type"), s("other"))];
    assert_eq!(header_get(&hs, "CONTENT-TYPE"), Some(s("text/csv")));
    assert_eq!(header_get(&hs, "ETag"), None);
}

#[test]
fn content_types_are_dispatched() {
    assert_eq!(classify_content_type("text/csv; charset=iso-8859-1"), ContentKind::Tabular);
    assert_eq!(classify_content_type("application/octet-stream"), ContentKind::Tabular);
    assert_eq!(classify_content_type("application/json"), ContentKind::Json);
    assert_eq!(classify_content_type("application/zip"), ContentKind::Zip);
    assert_eq!(classify_content_type("text/html"), ContentKind::Unsupported);
    assert_eq!(response_action(304, "text/csv"), ResponseAction::KeepStored);
    assert_eq!(response_action(200, "application/zip"), ResponseAction::Store(ContentKind::Zip));
}

#[test]
fn names_of_stored_files() {
    assert_eq!(file_name_from_url("https://dados.cvm.gov.br/x/cad_fi.csv"), s("cad_fi.csv"));
    assert_eq!(file_name_from_url("plain"), s("plain"));
    assert_eq!(archive_entry_path("./dataset", "hist", "a.csv"), s("./dataset/hist/a.csv"));
    assert_eq!(archive_entry_path("./dataset", "", "a.csv"), s("./dataset/a.csv"));
}

#[test]
fn legacy_text_is_decoded() {
    assert_eq!(decode(&b"abc;1".to_vec()), (s("abc;1"), false));
    assert_eq!(decode(&vec![0x41, 0xE7, 0xE3]), (s("Açã"), false));
}

#[test]
fn error_messages() {
    assert_eq!(DownloadError::Cancelled.message(), s("Operation was cancelled"));
    assert_eq!(DownloadError::DecodeFailed(s("x.csv")).message(), s("Failed to decode file: x.csv"));
}

fn document(limit: i32) -> Document {
    Document {
        description: s("Informe"),
        url: s("https://x"),
        hist: true,
        ext: s("zip"),
        filename: s("f"),
        pattern: s("inf_{ano}{mes}"),
        pattern_hist: s("inf_{ano}"),
        download_path: s("./d"),
        limit_years: limit,
    }
}

#[test]
fn lookback_limit_clamps_start() {
    let today = Date { year: 2024, month: 2, day: 10 };
    let d = document(1).generate_dates(2000, today);
    assert_eq!(d.len(), 14);
    assert_eq!(d[0], s("inf_202301"));
    assert_eq!(d[13], s("inf_202402"));
    let all = document(0).generate_dates(2023, today);
    assert_eq!(all.len(), 14);
    assert_eq!(document(0).make_historical_date(2007), s("inf_2007"));
    let years = document(0).historical_years(2007);
    assert_eq!(years, vec![2005, 2006, 2007]);
}

#[test]
fn current_dates_end_today() {
    let (today, names) = document(1).current_dates(2000);
    assert_eq!(names.len() as i64, 12 + today.month as i64);
}

#[test]
fn options_load_from_settings() {
    let mut settings = Settings {
        entries: vec![
            (s("cvm.fundo.cadastro.description"), s("Cadastro")),
            (s("cvm.fundo.cadastro.url"), s("https://x/cad.csv")),
            (s("cvm.fundo.cadastro.path"), s("cad")),
        ],
    };
    let o = fund::load(&settings).unwrap();
    assert_eq!(o.url, s("https://x/cad.csv"));
    assert_eq!(
        informe::load(&settings).unwrap_err(),
        ConfigError::NotFound(s("cvm.fundo.informe.description"))
    );
    for (k, v) in [
        ("description", "Informe"),
        ("url", "https://x/inf_{year}{month}.zip"),
        ("path", "inf"),
        ("start_date", "15/11/2023"),
        ("end_date", "02/02/2024"),
    ] {
        settings.entries.push((format!("cvm.fundo.informe.{}", k), s(v)));
    }
    let i = informe::load(&settings).unwrap();
    assert_eq!(
        i.urls(),
        vec![
            s("https://x/inf_202311.zip"),
            s("https://x/inf_202312.zip"),
            s("https://x/inf_202401.zip"),
            s("https://x/inf_202402.zip"),
        ]
    );
}

#[test]
fn portfolio_month_and_archive() {
    let o = portfolio::Options {
        description: s("Carteira"),
        url: s("https://x/cda_fi_{year}{month}.zip"),
        historical_url: s("https://x/HIST/cda_fi_{year}.zip"),
        path: s("cda"),
        start_date: s("01/01/2023"),
        end_date: s("01/03/2023"),
    };
    let (m, h) = o.month_target(Date { year: 2023, month: 5, day: 1 });
    assert_eq!(m, s("https://x/cda_fi_202305.zip"));
    assert_eq!(h, s("https://x/HIST/cda_fi_2023.zip"));
    assert!(o.urls().is_empty());
}

#[test]
fn history_keeps_recent_visits() {
    let mut h = History::new();
    h.add(s("1"), s("Alfa"));
    h.add(s("2"), s("Beta"));
    h.add(s("1"), s("Alfa novo"));
    assert_eq!(h.get_most_accesseds(), vec![(s("1"), s("Alfa")), (s("2"), s("Beta"))]);
    for i in 0..10 {
        h.add(format!("n{}", i), s("N"));
    }
    let r = h.get_most_accesseds();
    assert_eq!(r.len(), 10);
    assert_eq!(r[0].0, s("n9"));
    assert!(!r.iter().any(|(k, _)| k == "2"));
}

#[test]
fn history_decisions_of_a_document() {
    let d = document(0);
    assert!(d.uses_history());
    assert!(!document(2).uses_history());
    assert_eq!(d.first_monthly_year(Some(2019), 2024), 2019);
    assert_eq!(d.first_monthly_year(None, 2024), 2024);
}

#[test]
fn download_groups_list_the_datasets() {
    let cdi = fundos::options::cdi::Options { description: s("CDI"), url: s("https://cdi"), path: s("cdi") };
    let ibov = fundos::options::ibovespa::Options { description: s("Ibovespa"), path: s("ibov") };
    let fund = fund::Options { description: s("Cadastro"), url: s("https://cad"), path: s("cad") };
    let inf = informe::Options {
        description: s("Informe"),
        url: s("https://inf_{year}{month}.zip"),
        path: s("inf"),
        start_date: s("01/12/2023"),
        end_date: s("31/01/2024"),
    };
    let cart = portfolio::Options {
        description: s("Carteira"),
        url: s("u"),
        historical_url: s("h"),
        path: s("cda"),
        start_date: s("01/01/2023"),
        end_date: s("01/01/2023"),
    };
    let groups = fundos::batch::make_groups(&cdi, &ibov, &fund, &inf, &cart);
    assert_eq!(groups.len(), 2);
    assert_eq!(groups[0].downloads[0].urls, vec![s("https://cdi")]);
    assert_eq!(groups[1].downloads[1].urls, vec![s("https://inf_202312.zip"), s("https://inf_202401.zip")]);
    assert!(fundos::portfolio::is_net_worth_file("cda_fi_PL_202305.csv"));
    assert!(!fundos::portfolio::is_net_worth_file("cda_fi_BLC_1_202305.csv"));
}

#[test]
fn documents_load_until_the_first_gap() {
    let mut entries = Vec::new();
    for (k, v) in [
        ("description", "Informe Diário"),
        ("url", "https://x/INF_DIARIO/DADOS"),
        ("ext", "zip"),
        ("filename", "inf"),
        ("pattern", "inf_diario_fi_{ano}{mes}"),
        ("pattern_hist", "inf_diario_fi_{ano}"),
        ("download_path", "./dataset/infdiario"),
        ("hist", "true"),
        ("limit_years", "3"),
    ] {
        entries.push((format!("app.cvm.documents.0.{}", k), s(v)));
    }
    entries.push((s("app.cvm.documents.2.description"), s("skipped")));
    let o = fundos::options::downloader::load(&Settings { entries }).unwrap();
    assert_eq!(o.documents.len(), 1);
    assert!(o.documents[0].hist);
    assert_eq!(o.documents[0].limit_years, 3);
    let bad = Settings { entries: vec![(s("app.cvm.documents.0.description"), s("x"))] };
    assert_eq!(
        fundos::options::downloader::load(&bad).unwrap_err(),
        ConfigError::NotFound(s("app.cvm.documents.0.url"))
    );
}

#[test]
fn batch_opens_with_zero_done() {
    let b = Batch::new(labels(4), 2);
    assert_eq!(b.opening_event(), DownloadStatus::InProgress(s("Baixando: 0/4")));
}

#[test]
fn month_falls_back_to_its_yearly_archive() {
    let o = portfolio::Options {
        description: s("Carteira"),
        url: s("https://x/cda_fi_{year}{month}.zip"),
        historical_url: s("https://x/HIST/cda_fi_{year}.zip"),
        path: s("cda"),
        start_date: s("01/01/2023"),
        end_date: s("01/03/2023"),
    };
    let ts = o.month_targets(Date { year: 2022, month: 12, day: 5 }, Date { year: 2023, month: 1, day: 9 });
    assert_eq!(
        ts,
        vec![
            (s("https://x/cda_fi_202212.zip"), s("https://x/HIST/cda_fi_2022.zip")),
            (s("https://x/cda_fi_202301.zip"), s("https://x/HIST/cda_fi_2023.zip")),
        ]
    );
    let t = &ts[0];
    assert_eq!(period_step(t, false, None), PeriodStep::Fetch(t.0.clone()));
    assert_eq!(period_step(t, false, Some(Outcome::Failed)), PeriodStep::Fetch(t.1.clone()));
    assert_eq!(period_step(t, true, Some(Outcome::Failed)), PeriodStep::Failed);
    assert_eq!(period_step(t, true, Some(Outcome::NotModified)), PeriodStep::Stored);
}

#[test]
fn yearly_archives_until_the_first_missing() {
    let d = document(0);
    let years = d.historical_years(2007);
    assert_eq!(d.history_step(&years, 0, None, 2007), HistoryStep::Fetch(s("https://x/HIST/inf_2005.zip")));
    assert_eq!(d.history_step(&years, 0, Some(Outcome::Fetched), 2007), HistoryStep::Fetch(s("https://x/HIST/inf_2006.zip")));
    assert_eq!(d.history_step(&years, 1, Some(Outcome::Failed), 2007), HistoryStep::MonthlyFrom(2006));
    assert_eq!(d.history_step(&years, 2, Some(Outcome::Fetched), 2007), HistoryStep::MonthlyFrom(2007));
}

#[test]
fn json_bodies_are_checked_and_monthly_urls_named() {
    assert!(fundos::fetch::reformat_json(&b"{\"a\":[1,2]}".to_vec()).is_some());
    assert_eq!(fundos::fetch::reformat_json(&b"{\"a\":".to_vec()), None);
    assert_eq!(document(0).monthly_url("inf_202301"), s("https://x/inf_202301.zip"));
    assert_eq!(
        fundos::portfolio::Portfolio::new().month_pattern(2023, 5),
        s("./dataset/cda/cda_fi_202305/cda*.csv")
    );
}
