//! The datasets downloaded as documents, listed in the settings as
//! `app.cvm.documents.<n>.<field>` from `n = 0` on.
use crate::dataset::Document;
use crate::options::{setting, ConfigError, Settings};
use crate::text::{all_digits, chars_of, decimal, digits_value, push_all, push_decimal, string_of};
use vstd::prelude::*;

verus! {

/// The documents to download.
#[derive(Clone, Debug)]
pub struct DownloaderOptions {
    pub documents: Vec<Document>,
}

/// The settings key of a field of document `n`.
pub open spec fn doc_key(n: nat, field: Seq<char>) -> Seq<char> {
    "app.cvm.documents."@ + decimal(n) + "."@ + field
}

/// A year count written in at most nine digits; anything else counts as none.
pub open spec fn year_count(v: Option<Seq<char>>) -> int {
    match v {
        Some(t) => if 0 < t.len() <= 9 && all_digits(t) {
            digits_value(t) as int
        } else {
            0
        },
        None => 0,
    }
}

/// Whether document `n` is as the settings describe it.
pub open spec fn document_from(entries: Seq<(String, String)>, n: nat, d: Document) -> bool {
    &&& setting(entries, doc_key(n, "description"@)) == Some(d.description@)
    &&& setting(entries, doc_key(n, "url"@)) == Some(d.url@)
    &&& setting(entries, doc_key(n, "ext"@)) == Some(d.ext@)
    &&& setting(entries, doc_key(n, "filename"@)) == Some(d.filename@)
    &&& setting(entries, doc_key(n, "pattern"@)) == Some(d.pattern@)
    &&& setting(entries, doc_key(n, "pattern_hist"@)) == Some(d.pattern_hist@)
    &&& setting(entries, doc_key(n, "download_path"@)) == Some(d.download_path@)
    &&& d.hist == (setting(entries, doc_key(n, "hist"@)) == Some("true"@))
    &&& d.limit_years == year_count(setting(entries, doc_key(n, "limit_years"@)))
}

fn key(n: usize, field: &str) -> (r: String)
    ensures
        r@ == doc_key(n as nat, field@),
{
    let mut k = chars_of("app.cvm.documents.");
    push_decimal(&mut k, n as u64);
    push_all(&mut k, &chars_of("."));
    push_all(&mut k, &chars_of(field));
    proof {
        assert(k@ =~= doc_key(n as nat, field@));
    }
    string_of(&k)
}

fn required(settings: &Settings, n: usize, field: &str) -> (r: Result<String, ConfigError>)
    ensures
        match r {
            Ok(v) => setting(settings.entries@, doc_key(n as nat, field@)) == Some(v@),
            Err(ConfigError::NotFound(k)) => k@ == doc_key(n as nat, field@) && setting(
                settings.entries@,
                doc_key(n as nat, field@),
            ) is None,
        },
{
    let k = key(n, field);
    match settings.get(k.as_str()) {
        Some(v) => Ok(v),
        None => Err(ConfigError::NotFound(k)),
    }
}

fn parse_year_count(v: &Option<String>) -> (r: i32)
    ensures
        r == year_count(crate::cache::opt_view(*v)),
{
    match v {
        None => 0,
        Some(t) => {
            let cs = chars_of(t.as_str());
            if cs.len() == 0 || cs.len() > 9 {
                return 0;
            }
            let mut acc: i32 = 0;
            let mut i: usize = 0;
            while i < cs.len()
                invariant
                    cs@ == t@,
                    crate::cache::opt_view(*v) == Some(t@),
                    0 < cs@.len() <= 9,
                    0 <= i <= cs@.len(),
                    all_digits(cs@.subrange(0, i as int)),
                    acc == digits_value(cs@.subrange(0, i as int)),
                    0 <= acc < crate::text::pow10(i as nat),
                    crate::text::pow10(i as nat) <= 1_000_000_000,
                decreases cs@.len() - i,
            {
                let c = cs[i];
                if !(c >= '0' && c <= '9') {
                    proof {
                        assert(!crate::text::is_digit(cs@[i as int]));
                        assert(!all_digits(cs@));
                        assert(crate::cache::opt_view(*v) == Some(cs@));
                    }
                    return 0;
                }
                let d = (c as u32 - '0' as u32) as i32;
                proof {
                    let pre = cs@.subrange(0, i + 1);
                    assert(pre.drop_last() =~= cs@.subrange(0, i as int));
                    assert(crate::text::pow10((i + 1) as nat) == 10 * crate::text::pow10(i as nat));
                    crate::decimal::lemma_pow10_mono((i + 1) as nat, 9);
                    assert(crate::text::pow10(9) == 1_000_000_000) by {
                        reveal_with_fuel(crate::text::pow10, 10);
                    }
                    assert(acc * 10 + d < crate::text::pow10((i + 1) as nat)) by (nonlinear_arith)
                        requires
                            0 <= acc < crate::text::pow10(i as nat),
                            0 <= d < 10,
                            crate::text::pow10((i + 1) as nat) == 10 * crate::text::pow10(i as nat),
                    ;
                    assert(crate::text::all_digits(pre)) by {
                        assert forall|k: int| 0 <= k < pre.len() implies crate::text::is_digit(
                            #[trigger] pre[k],
                        ) by {
                            if k < i {
                                assert(pre[k] == cs@.subrange(0, i as int)[k]);
                            }
                        }
                    }
                }
                acc = acc * 10 + d;
                i += 1;
            }
            proof {
                assert(cs@.subrange(0, cs@.len() as int) =~= cs@);
            }
            acc
        },
    }
}

/// The key that an error names.
pub open spec fn error_key(e: ConfigError) -> Seq<char> {
    match e {
        ConfigError::NotFound(k) => k@,
    }
}

/// The documents described in the settings, from document 0 up to the
/// first without a description (and no more documents than settings). A document missing another text field is an
/// error naming its key; `hist` is true only when set to `true`, and
/// `limit_years` counts as zero unless written in digits.
pub fn load(settings: &Settings) -> (r: Result<DownloaderOptions, ConfigError>)
    ensures
        r is Ok ==> {
            let ds = r->Ok_0.documents@;
            &&& forall|n: int| 0 <= n < ds.len() ==> document_from(settings.entries@, n as nat, #[trigger] ds[n])
            &&& ds.len() == settings.entries@.len() || setting(
                settings.entries@,
                doc_key(ds.len(), "description"@),
            ) is None
        },
        r is Err ==> exists|n: nat, f: Seq<char>|
            n < settings.entries@.len() && setting(settings.entries@, doc_key(n, "description"@))
                is Some && error_key(r->Err_0) == #[trigger] doc_key(n, f) && setting(
                settings.entries@,
                doc_key(n, f),
            ) is None,
{
    let mut documents: Vec<Document> = Vec::new();
    let mut n: usize = 0;
    while n < settings.entries.len()
        invariant
            0 <= n <= settings.entries@.len(),
            documents@.len() == n,
            forall|m: int| 0 <= m < n ==> document_from(settings.entries@, m as nat, #[trigger] documents@[m]),
        decreases settings.entries@.len() - n,
    {
        let description = match required(settings, n, "description") {
            Ok(v) => v,
            Err(_) => {
                return Ok(DownloaderOptions { documents });
            },
        };
        let url = match required(settings, n, "url") {
            Ok(v) => v,
            Err(e) => {
                proof {
                    assert(error_key(e) == doc_key(n as nat, "url"@));
                }
                return Err(e);
            },
        };
        let ext = match required(settings, n, "ext") {
            Ok(v) => v,
            Err(e) => {
                proof {
                    assert(error_key(e) == doc_key(n as nat, "ext"@));
                }
                return Err(e);
            },
        };
        let filename = match required(settings, n, "filename") {
            Ok(v) => v,
            Err(e) => {
                proof {
                    assert(error_key(e) == doc_key(n as nat, "filename"@));
                }
                return Err(e);
            },
        };
        let pattern = match required(settings, n, "pattern") {
            Ok(v) => v,
            Err(e) => {
                proof {
                    assert(error_key(e) == doc_key(n as nat, "pattern"@));
                }
                return Err(e);
            },
        };
        let pattern_hist = match required(settings, n, "pattern_hist") {
            Ok(v) => v,
            Err(e) => {
                proof {
                    assert(error_key(e) == doc_key(n as nat, "pattern_hist"@));
                }
                return Err(e);
            },
        };
        let download_path = match required(settings, n, "download_path") {
            Ok(v) => v,
            Err(e) => {
                proof {
                    assert(error_key(e) == doc_key(n as nat, "download_path"@));
                }
                return Err(e);
            },
        };
        let hist_text = settings.get(key(n, "hist").as_str());
        let hist = match &hist_text {
            Some(h) => crate::text::chars_eq(&chars_of(h.as_str()), &chars_of("true")),
            None => false,
        };
        let limit_years = parse_year_count(&settings.get(key(n, "limit_years").as_str()));
        documents.push(
            Document {
                description,
                url,
                hist,
                ext,
                filename,
                pattern,
                pattern_hist,
                download_path,
                limit_years,
            },
        );
        n += 1;
    }
    Ok(DownloaderOptions { documents })
}

} // verus!
