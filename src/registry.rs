//! The fund registry: search by keyword, class and situation, lookup by
//! identifier.
use crate::group::{
    by_total_desc, group_sums, groups_of, key_views, lemma_key_sum_bound, Group, MAX_ITEMS,
    VALUE_BOUND,
};
use crate::locator::{parse_date, parsed_date};
use crate::order::{is_permutation, lex_le, sort_order};
use crate::table::{cell_at, cell_view, find_column, project, QueryError, Table};
use crate::text::{chars_of, contains, contains_chars, decimal, format_decimal, string_of};
use unicode_normalization::UnicodeNormalization;
use vstd::prelude::*;

verus! {

/// The situation of a fund in the registry.
#[derive(Clone, Copy, Debug, PartialEq, Eq, Structural)]
pub enum Situation {
    Canceled,
    Normal,
}

/// The registry's text for a situation.
pub open spec fn situation_label(s: Situation) -> Seq<char> {
    match s {
        Situation::Canceled => "CANCELADA"@,
        Situation::Normal => "EM FUNCIONAMENTO NORMAL"@,
    }
}

impl Situation {
    /// The registry's text for this situation.
    pub fn to_string(&self) -> (r: String)
        ensures
            r@ == situation_label(*self),
    {
        match self {
            Situation::Canceled => string_of(&chars_of("CANCELADA")),
            Situation::Normal => string_of(&chars_of("EM FUNCIONAMENTO NORMAL")),
        }
    }
}

/// The class of a fund.
#[derive(Clone, Copy, Debug, PartialEq, Eq, Structural)]
pub enum Class {
    RendaFixa,
    Acoes,
    Cambial,
    MultiMarket,
}

/// The registry's text for a class.
pub open spec fn class_label(c: Class) -> Seq<char> {
    match c {
        Class::Acoes => "Fundo de Ações"@,
        Class::RendaFixa => "Fundo de Renda Fixa"@,
        Class::Cambial => "Fundo Cambial"@,
        Class::MultiMarket => "Fundo Multimercado"@,
    }
}

impl Class {
    /// The registry's text for this class.
    pub fn to_string(&self) -> (r: String)
        ensures
            r@ == class_label(*self),
    {
        match self {
            Class::Acoes => string_of(&chars_of("Fundo de Ações")),
            Class::RendaFixa => string_of(&chars_of("Fundo de Renda Fixa")),
            Class::Cambial => string_of(&chars_of("Fundo Cambial")),
            Class::MultiMarket => string_of(&chars_of("Fundo Multimercado")),
        }
    }
}

/// The compatibility decomposition (NFKD) of a text.
pub uninterp spec fn nfkd(s: Seq<char>) -> Seq<char>;

/// Whether a character is a combining mark (general category M).
pub uninterp spec fn is_mark(c: char) -> bool;

/// A text in lower case.
pub uninterp spec fn lower(s: Seq<char>) -> Seq<char>;

/// Relies on `unicode_normalization::UnicodeNormalization::nfkd`: the NFKD
/// form of the text.
#[verifier::external_body]
fn decompose(s: &str) -> (r: String)
    ensures
        r@ == nfkd(s@),
{
    s.nfkd().collect()
}

/// Relies on `unicode_normalization::char::is_combining_mark`.
#[verifier::external_body]
fn combining_mark(c: char) -> (r: bool)
    ensures
        r == is_mark(c),
{
    unicode_normalization::char::is_combining_mark(c)
}

/// Relies on `str::to_lowercase`: the result depends on the characters alone.
#[verifier::external_body]
fn lowercase(s: &str) -> (r: String)
    ensures
        r@ == lower(s@),
{
    s.to_lowercase()
}

/// The text without its combining marks.
pub open spec fn without_marks(s: Seq<char>) -> Seq<char>
    decreases s.len(),
{
    if s.len() == 0 {
        s
    } else if is_mark(s.last()) {
        without_marks(s.drop_last())
    } else {
        without_marks(s.drop_last()).push(s.last())
    }
}

/// A name as it is compared: decomposed, without marks, in lower case.
pub open spec fn folded(s: Seq<char>) -> Seq<char> {
    lower(without_marks(nfkd(s)))
}

/// Whether a keyword, in lower case, occurs in the folded name or in the
/// identifier in lower case.
pub open spec fn matches_folded_spec(keyword: Seq<char>, name: Seq<char>, id: Seq<char>) -> bool {
    contains(name, keyword) || contains(id, keyword)
}

/// Whether a keyword matches a registry row, ignoring case and diacritics in
/// the name and case in the identifier.
pub open spec fn keyword_matches(keyword: Seq<char>, name: Seq<char>, id: Seq<char>) -> bool {
    matches_folded_spec(lower(keyword), folded(name), lower(id))
}

/// Whether the keyword occurs in the folded name or in the identifier,
/// all three already folded.
pub fn matches_folded(keyword: &str, name: &str, id: &str) -> (r: bool)
    ensures
        r == matches_folded_spec(keyword@, name@, id@),
{
    let k = chars_of(keyword);
    contains_chars(&chars_of(name), &k) || contains_chars(&chars_of(id), &k)
}

fn strip_marks(s: &Vec<char>) -> (r: Vec<char>)
    ensures
        r@ == without_marks(s@),
{
    let mut r: Vec<char> = Vec::new();
    let mut i: usize = 0;
    while i < s.len()
        invariant
            0 <= i <= s@.len(),
            r@ == without_marks(s@.subrange(0, i as int)),
        decreases s@.len() - i,
    {
        proof {
            assert(s@.subrange(0, i + 1).drop_last() =~= s@.subrange(0, i as int));
        }
        if !combining_mark(s[i]) {
            r.push(s[i]);
        }
        i += 1;
    }
    proof {
        assert(s@.subrange(0, s@.len() as int) =~= s@);
    }
    r
}

/// The folded form of a name.
pub fn fold_name(name: &str) -> (r: String)
    ensures
        r@ == folded(name@),
{
    let d = decompose(name);
    let stripped = string_of(&strip_marks(&chars_of(d.as_str())));
    lowercase(stripped.as_str())
}

/// Whether a keyword matches a fund's name or identifier.
pub fn matches_keyword(keyword: &str, name: &str, id: &str) -> (r: bool)
    ensures
        r == keyword_matches(keyword@, name@, id@),
{
    let k = lowercase(keyword);
    let n = fold_name(name);
    let i = lowercase(id);
    matches_folded(k.as_str(), n.as_str(), i.as_str())
}

/// Whether row `j` passes the search's filters: the keyword, if any, the
/// class, if any, and the situation.
pub open spec fn row_selected(
    t: Table,
    j: int,
    keyword: Option<Seq<char>>,
    class: Option<Class>,
    situation: Situation,
) -> bool {
    &&& match keyword {
        None => true,
        Some(k) => match (t.value(j, "DENOM_SOCIAL"@), t.value(j, "CNPJ_FUNDO"@)) {
            (Some(n), Some(i)) => keyword_matches(k, n, i),
            (Some(n), None) => contains(folded(n), lower(k)),
            (None, Some(i)) => contains(lower(i), lower(k)),
            (None, None) => false,
        },
    }
    &&& match class {
        None => true,
        Some(c) => t.value(j, "CLASSE"@) == Some(class_label(c)),
    }
    &&& t.value(j, "SIT"@) == Some(situation_label(situation))
}

/// The sort key of an optional text: missing first, then by code points.
pub open spec fn text_key(v: Option<Seq<char>>) -> Seq<i128> {
    match v {
        None => seq![0i128],
        Some(s) => seq![1i128] + s.map_values(|c: char| c as u32 as i128),
    }
}

/// The sort key of an optional text.
pub fn text_key_of(v: &Option<String>) -> (r: Vec<i128>)
    ensures
        r@ == text_key(cell_view(*v)),
{
    let mut r: Vec<i128> = Vec::new();
    match v {
        None => {
            r.push(0);
        },
        Some(s) => {
            r.push(1);
            let cs = chars_of(s.as_str());
            let mut i: usize = 0;
            while i < cs.len()
                invariant
                    0 <= i <= cs@.len(),
                    cs@ == s@,
                    r@ == seq![1i128] + cs@.subrange(0, i as int).map_values(
                        |c: char| c as u32 as i128,
                    ),
                decreases cs@.len() - i,
            {
                r.push(cs[i] as u32 as i128);
                proof {
                    assert(cs@.subrange(0, i + 1).map_values(|c: char| c as u32 as i128)
                        =~= cs@.subrange(0, i as int).map_values(|c: char| c as u32 as i128).push(
                        cs@[i as int] as u32 as i128,
                    ));
                }
                i += 1;
            }
            proof {
                assert(cs@.subrange(0, cs@.len() as int) =~= cs@);
            }
        },
    }
    proof {
        assert(r@ =~= text_key(cell_view(*v)));
    }
    r
}

/// The rows that pass the filters, in table order, at most `limit` of them.
fn filter_rows(
    t: &Table,
    keyword: &Option<String>,
    class: Option<Class>,
    situation: Situation,
    limit: Option<u32>,
) -> (r: Vec<usize>)
    requires
        t.wf(),
    ensures
        forall|k: int|
            0 <= k < r@.len() ==> (#[trigger] r@[k]) < t.rows@.len() && row_selected(
                *t,
                r@[k] as int,
                cell_view(*keyword),
                class,
                situation,
            ),
        forall|a: int, b: int| 0 <= a < b < r@.len() ==> r@[a] < r@[b],
        limit is Some ==> r@.len() <= limit->0,
        forall|j: int|
            0 <= j < t.rows@.len() && row_selected(*t, j, cell_view(*keyword), class, situation)
                && !r@.contains(j as usize) ==> limit is Some && r@.len() == limit->0 && forall|
                k: int,
            |
                0 <= k < r@.len() ==> #[trigger] r@[k] < j,
{
    let cn = find_column(t, "DENOM_SOCIAL");
    let ci = find_column(t, "CNPJ_FUNDO");
    let cc = find_column(t, "CLASSE");
    let cs = find_column(t, "SIT");
    let sit = situation.to_string();
    let cls = match class {
        Some(c) => Some(c.to_string()),
        None => None,
    };
    let mut r: Vec<usize> = Vec::new();
    let mut j: usize = 0;
    while j < t.rows.len()
        invariant
            t.wf(),
            cn is Some <==> t.has_column("DENOM_SOCIAL"@),
            cn is Some ==> cn->0 < t.columns@.len() && t.column_names()[cn->0 as int]
                == "DENOM_SOCIAL"@,
            ci is Some <==> t.has_column("CNPJ_FUNDO"@),
            ci is Some ==> ci->0 < t.columns@.len() && t.column_names()[ci->0 as int]
                == "CNPJ_FUNDO"@,
            cc is Some <==> t.has_column("CLASSE"@),
            cc is Some ==> cc->0 < t.columns@.len() && t.column_names()[cc->0 as int] == "CLASSE"@,
            cs is Some <==> t.has_column("SIT"@),
            cs is Some ==> cs->0 < t.columns@.len() && t.column_names()[cs->0 as int] == "SIT"@,
            sit@ == situation_label(situation),
            cls is Some <==> class is Some,
            cls is Some ==> cls->0@ == class_label(class->0),
            0 <= j <= t.rows@.len(),
            forall|k: int|
                0 <= k < r@.len() ==> (#[trigger] r@[k]) < j && row_selected(
                    *t,
                    r@[k] as int,
                    cell_view(*keyword),
                    class,
                    situation,
                ),
            forall|a: int, b: int| 0 <= a < b < r@.len() ==> r@[a] < r@[b],
            limit is Some ==> r@.len() <= limit->0,
            forall|jj: int|
                0 <= jj < j && row_selected(*t, jj, cell_view(*keyword), class, situation)
                    ==> r@.contains(jj as usize),
        decreases t.rows@.len() - j,
    {
        match limit {
            Some(l) => {
                if r.len() >= l as usize {
                    return r;
                }
            },
            None => {},
        }
        let ok = row_passes(t, j, keyword, &cls, &sit, cn, ci, cc, cs, Ghost(class), Ghost(situation));
        if ok {
            let ghost before = r@;
            r.push(j);
            proof {
                assert(r@[before.len() as int] == j);
                assert forall|jj: int|
                    0 <= jj < j + 1 && row_selected(*t, jj, cell_view(*keyword), class, situation)
                        implies r@.contains(jj as usize) by {
                    if jj < j {
                        let k = choose|k: int| 0 <= k < before.len() && before[k] == jj as usize;
                        assert(r@[k] == jj as usize);
                    }
                }
            }
        }
        j += 1;
    }
    r
}

fn row_passes(
    t: &Table,
    j: usize,
    keyword: &Option<String>,
    cls: &Option<String>,
    sit: &String,
    cn: Option<usize>,
    ci: Option<usize>,
    cc: Option<usize>,
    cs: Option<usize>,
    Ghost(class): Ghost<Option<Class>>,
    Ghost(situation): Ghost<Situation>,
) -> (r: bool)
    requires
        t.wf(),
        j < t.rows@.len(),
        cn is Some <==> t.has_column("DENOM_SOCIAL"@),
        cn is Some ==> cn->0 < t.columns@.len() && t.column_names()[cn->0 as int]
            == "DENOM_SOCIAL"@,
        ci is Some <==> t.has_column("CNPJ_FUNDO"@),
        ci is Some ==> ci->0 < t.columns@.len() && t.column_names()[ci->0 as int] == "CNPJ_FUNDO"@,
        cc is Some <==> t.has_column("CLASSE"@),
        cc is Some ==> cc->0 < t.columns@.len() && t.column_names()[cc->0 as int] == "CLASSE"@,
        cs is Some <==> t.has_column("SIT"@),
        cs is Some ==> cs->0 < t.columns@.len() && t.column_names()[cs->0 as int] == "SIT"@,
        sit@ == situation_label(situation),
        cls is Some <==> class is Some,
        cls is Some ==> cls->0@ == class_label(class->0),
    ensures
        r == row_selected(*t, j as int, cell_view(*keyword), class, situation),
{
    let name = cell_at(t, j, cn, Ghost("DENOM_SOCIAL"@));
    let id = cell_at(t, j, ci, Ghost("CNPJ_FUNDO"@));
    let kw_ok = match keyword {
        None => true,
        Some(k) => {
            let kl = lowercase(k.as_str());
            let klc = chars_of(kl.as_str());
            match (&name, &id) {
                (Some(n), Some(i)) => matches_keyword(k.as_str(), n.as_str(), i.as_str()),
                (Some(n), None) => contains_chars(&chars_of(fold_name(n.as_str()).as_str()), &klc),
                (None, Some(i)) => contains_chars(&chars_of(lowercase(i.as_str()).as_str()), &klc),
                (None, None) => false,
            }
        },
    };
    let class_ok = match cls {
        None => true,
        Some(c) => {
            let v = cell_at(t, j, cc, Ghost("CLASSE"@));
            match v {
                Some(v) => v == *c,
                None => false,
            }
        },
    };
    let sit_ok = match cell_at(t, j, cs, Ghost("SIT"@)) {
        Some(v) => v == *sit,
        None => false,
    };
    kw_ok && class_ok && sit_ok
}

/// The rows of the registry that pass the filters, at most `limit` of them
/// taken in table order, sorted by name (rows without a name first). The
/// situation defaults to normal operation.
pub fn search_rows(
    t: &Table,
    keyword: &Option<String>,
    class: Option<Class>,
    situation: Option<Situation>,
    limit: Option<u32>,
) -> (r: Vec<usize>)
    requires
        t.wf(),
    ensures
        is_search_result(
            *t,
            cell_view(*keyword),
            class,
            situation_or_normal(situation),
            limit,
            r@,
        ),
{
    let sit = match situation {
        Some(s) => s,
        None => Situation::Normal,
    };
    let sel = filter_rows(t, keyword, class, sit, limit);
    let cn = find_column(t, "DENOM_SOCIAL");
    let mut keys: Vec<Vec<i128>> = Vec::new();
    let mut k: usize = 0;
    while k < sel.len()
        invariant
            t.wf(),
            forall|m: int| 0 <= m < sel@.len() ==> (#[trigger] sel@[m]) < t.rows@.len(),
            cn is Some <==> t.has_column("DENOM_SOCIAL"@),
            cn is Some ==> cn->0 < t.columns@.len() && t.column_names()[cn->0 as int]
                == "DENOM_SOCIAL"@,
            0 <= k <= sel@.len(),
            keys@.len() == k,
            forall|m: int|
                0 <= m < k ==> (#[trigger] keys@[m])@ == text_key(
                    t.value(sel@[m] as int, "DENOM_SOCIAL"@),
                ),
        decreases sel@.len() - k,
    {
        let name = cell_at(t, sel[k], cn, Ghost("DENOM_SOCIAL"@));
        keys.push(text_key_of(&name));
        k += 1;
    }
    let order = sort_order(&keys);
    let mut r: Vec<usize> = Vec::new();
    let mut i: usize = 0;
    while i < order.len()
        invariant
            is_permutation(order@, keys@.len()),
            keys@.len() == sel@.len(),
            0 <= i <= order@.len(),
            r@.len() == i,
            forall|m: int| 0 <= m < i ==> #[trigger] r@[m] == sel@[order@[m] as int],
        decreases order@.len() - i,
    {
        r.push(sel[order[i]]);
        i += 1;
    }
    proof {
        assert forall|a: int, b: int| 0 <= a < r@.len() && 0 <= b < r@.len() && a != b implies r@[a]
            != r@[b] by {
            assert(order@[a] != order@[b]);
            if order@[a] < order@[b] {
                assert(sel@[order@[a] as int] < sel@[order@[b] as int]);
            } else {
                assert(sel@[order@[b] as int] < sel@[order@[a] as int]);
            }
        }
        assert forall|j: int|
            0 <= j < t.rows@.len() && row_selected(*t, j, cell_view(*keyword), class, sit)
                && sel@.contains(j as usize) implies r@.contains(j as usize) by {
            let k = choose|k: int| 0 <= k < sel@.len() && sel@[k] == j as usize;
            assert(order@.contains(k as usize));
            let i = choose|i: int| 0 <= i < order@.len() && order@[i] == k as usize;
            assert(r@[i] == j as usize);
        }
        assert forall|a: int, b: int| 0 <= a < b < r@.len() implies lex_le(
            text_key(t.value(r@[a] as int, "DENOM_SOCIAL"@)),
            text_key(t.value(r@[b] as int, "DENOM_SOCIAL"@)),
        ) by {
            assert(lex_le(keys@[order@[a] as int]@, keys@[order@[b] as int]@));
        }
        assert(sit == situation_or_normal(situation));
    }
    r
}

} // verus!

verus! {

/// The cells of a column, one per row; none where the table lacks the column.
pub open spec fn column_values(t: Table, name: Seq<char>) -> Seq<Option<Seq<char>>> {
    Seq::new(t.rows@.len(), |j: int| t.value(j, name))
}

/// The year of the constitution date of row `j`, when it parses and is positive.
pub open spec fn constitution_year(t: Table, j: int) -> Option<int> {
    match t.value(j, "DT_CONST"@) {
        Some(s) => match parsed_date(s, "%Y-%m-%d"@) {
            Some(d) => if d.0 > 0 {
                Some(d.0)
            } else {
                None
            },
            None => None,
        },
        None => None,
    }
}

/// The positive constitution years of the first `n` rows, as text, in order.
pub open spec fn year_keys(t: Table, n: int) -> Seq<Option<Seq<char>>>
    decreases n,
{
    if n <= 0 {
        Seq::empty()
    } else {
        match constitution_year(t, n - 1) {
            Some(y) => year_keys(t, n - 1).push(Some(decimal(y as nat))),
            None => year_keys(t, n - 1),
        }
    }
}

/// The count of each key, most frequent first.
pub open spec fn counted_desc(r: Seq<Group>, keys: Seq<Option<Seq<char>>>) -> bool {
    &&& exists|gs: Seq<Group>, order: Seq<usize>|
        groups_of(gs, keys, Seq::new(keys.len(), |i: int| 1i128)) && is_permutation(
            order,
            gs.len(),
        ) && r.len() == gs.len() && forall|i: int|
            0 <= i < r.len() ==> cell_view((#[trigger] r[i]).key) == cell_view(
                gs[order[i] as int].key,
            ) && r[i].total == gs[order[i] as int].total
    &&& forall|a: int, b: int| 0 <= a < b < r.len() ==> (#[trigger] r[a]).total >= (
    #[trigger] r[b]).total
}

/// Counts items per key, most frequent first.
fn count_desc(keys: &Vec<Option<String>>) -> (r: Vec<Group>)
    requires
        keys@.len() <= MAX_ITEMS,
    ensures
        counted_desc(r@, key_views(keys@)),
{
    let mut ones: Vec<i128> = Vec::new();
    let mut i: usize = 0;
    while i < keys.len()
        invariant
            0 <= i <= keys@.len(),
            ones@ == Seq::new(i as nat, |k: int| 1i128),
        decreases keys@.len() - i,
    {
        ones.push(1);
        proof {
            assert(ones@ =~= Seq::new((i + 1) as nat, |k: int| 1i128));
        }
        i += 1;
    }
    let gs = group_sums(keys, &ones);
    proof {
        assert forall|g: int| 0 <= g < gs@.len() implies -VALUE_BOUND * MAX_ITEMS <= (
        #[trigger] gs@[g]).total <= VALUE_BOUND * MAX_ITEMS by {
            lemma_key_sum_bound(key_views(keys@), ones@, cell_view(gs@[g].key), keys@.len() as int);
            assert(keys@.len() * VALUE_BOUND <= VALUE_BOUND * MAX_ITEMS) by (nonlinear_arith)
                requires
                    keys@.len() <= MAX_ITEMS,
            ;
        }
    }
    let r = by_total_desc(gs);
    proof {
        assert(key_views(keys@).len() == keys@.len());
        assert(ones@ =~= Seq::new(key_views(keys@).len(), |i: int| 1i128));
    }
    r
}

/// The cells of a column as keys.
fn column_keys(t: &Table, name: &str) -> (r: Vec<Option<String>>)
    requires
        t.wf(),
    ensures
        r@.len() == t.rows@.len(),
        key_views(r@) == column_values(*t, name@),
{
    let c = find_column(t, name);
    let mut r: Vec<Option<String>> = Vec::new();
    let mut j: usize = 0;
    while j < t.rows.len()
        invariant
            t.wf(),
            c is Some <==> t.has_column(name@),
            c is Some ==> c->0 < t.columns@.len() && t.column_names()[c->0 as int] == name@,
            0 <= j <= t.rows@.len(),
            r@.len() == j,
            key_views(r@) == Seq::new(j as nat, |k: int| t.value(k, name@)),
        decreases t.rows@.len() - j,
    {
        let v = cell_at(t, j, c, Ghost(name@));
        let ghost before = r@;
        r.push(v);
        proof {
            assert(key_views(r@) =~= key_views(before).push(cell_view(v)));
            assert(key_views(r@) =~= Seq::new((j + 1) as nat, |k: int| t.value(k, name@)));
        }
        j += 1;
    }
    r
}

/// The registry of funds.
pub struct Register {
    pub funds: Table,
}

/// The situation searched for: normal operation unless another is given.
pub open spec fn situation_or_normal(s: Option<Situation>) -> Situation {
    match s {
        Some(s) => s,
        None => Situation::Normal,
    }
}

/// Whether `rows` is what a search of `t` returns.
pub open spec fn is_search_result(
    t: Table,
    keyword: Option<Seq<char>>,
    class: Option<Class>,
    sit: Situation,
    limit: Option<u32>,
    r: Seq<usize>,
) -> bool {
    &&& forall|k: int|
        0 <= k < r.len() ==> (#[trigger] r[k]) < t.rows@.len() && row_selected(
            t,
            r[k] as int,
            keyword,
            class,
            sit,
        )
    &&& r.no_duplicates()
    &&& limit is Some ==> r.len() <= limit->0
    &&& limit is None ==> forall|j: int|
        0 <= j < t.rows@.len() && row_selected(t, j, keyword, class, sit) ==> r.contains(
            j as usize,
        )
    &&& forall|j: int|
        0 <= j < t.rows@.len() && row_selected(t, j, keyword, class, sit) && !r.contains(
            j as usize,
        ) ==> limit is Some && r.len() == limit->0
    &&& forall|a: int, b: int|
        0 <= a < b < r.len() ==> lex_le(
            text_key(t.value(r[a] as int, "DENOM_SOCIAL"@)),
            text_key(t.value(r[b] as int, "DENOM_SOCIAL"@)),
        )
}

/// Whether `rows` are the registrations of `cnpj` in `t`, each once, sorted
/// by registration date.
pub open spec fn is_id_result(t: Table, cnpj: Seq<char>, rows: Seq<usize>) -> bool {
    &&& rows.no_duplicates()
    &&& forall|k: int|
        0 <= k < rows.len() ==> (#[trigger] rows[k]) < t.rows@.len() && t.value(
            rows[k] as int,
            "CNPJ_FUNDO"@,
        ) == Some(cnpj)
    &&& forall|j: int|
        0 <= j < t.rows@.len() && t.value(j, "CNPJ_FUNDO"@) == Some(cnpj) ==> rows.contains(
            j as usize,
        )
    &&& forall|a: int, b: int|
        0 <= a < b < rows.len() ==> lex_le(
            text_key(t.value(rows[a] as int, "DT_REG"@)),
            text_key(t.value(rows[b] as int, "DT_REG"@)),
        )
}

impl Register {
    /// A registry over a table of funds.
    pub fn new(funds: Table) -> (r: Register)
        ensures
            r.funds == funds,
    {
        Register { funds }
    }

    /// The funds that pass the filters, at most `limit` of them, sorted by
    /// name; the situation defaults to normal operation.
    pub fn find(
        &self,
        keyword: Option<String>,
        class: Option<Class>,
        situation: Option<Situation>,
        limit: Option<u32>,
    ) -> (r: Table)
        requires
            self.funds.wf(),
        ensures
            r.wf(),
            r.column_names() == self.funds.column_names(),
            exists|rows: Seq<usize>|
                #[trigger] is_search_result(
                    self.funds,
                    cell_view(keyword),
                    class,
                    situation_or_normal(situation),
                    limit,
                    rows,
                ) && r.rows@.len() == rows.len() && forall|i: int, name: Seq<char>|
                    0 <= i < rows.len() ==> #[trigger] r.value(i, name) == self.funds.value(
                        rows[i] as int,
                        name,
                    ),
    {
        let rows = search_rows(&self.funds, &keyword, class, situation, limit);
        let r = project(&self.funds, &rows);
        proof {
            assert(is_search_result(
                self.funds,
                cell_view(keyword),
                class,
                situation_or_normal(situation),
                limit,
                rows@,
            ));
        }
        r
    }

    /// The registrations of the fund `cnpj`, sorted by registration date.
    /// An empty identifier, or one absent from the registry, is not found.
    pub fn find_by_cnpj(&self, cnpj: &str) -> (r: Result<Table, QueryError>)
        requires
            self.funds.wf(),
        ensures
            r is Err <==> (cnpj@.len() == 0 || forall|j: int|
                0 <= j < self.funds.rows@.len() ==> self.funds.value(j, "CNPJ_FUNDO"@) != Some(
                    cnpj@,
                )),
            r is Err ==> r->Err_0 == QueryError::NotFound,
            r is Ok ==> r->Ok_0.wf() && r->Ok_0.column_names() == self.funds.column_names()
                && exists|rows: Seq<usize>|
                #[trigger] is_id_result(self.funds, cnpj@, rows) && r->Ok_0.rows@.len()
                    == rows.len() && forall|i: int, name: Seq<char>|
                    0 <= i < rows.len() ==> #[trigger] r->Ok_0.value(i, name)
                        == self.funds.value(rows[i] as int, name),
    {
        let t = &self.funds;
        if cnpj.unicode_len() == 0 {
            return Err(QueryError::NotFound);
        }
        let ci = find_column(t, "CNPJ_FUNDO");
        let cr = find_column(t, "DT_REG");
        let id = string_of(&chars_of(cnpj));
        let mut sel: Vec<usize> = Vec::new();
        let mut keys: Vec<Vec<i128>> = Vec::new();
        let mut j: usize = 0;
        while j < t.rows.len()
            invariant
                t.wf(),
                id@ == cnpj@,
                ci is Some <==> t.has_column("CNPJ_FUNDO"@),
                ci is Some ==> ci->0 < t.columns@.len() && t.column_names()[ci->0 as int]
                    == "CNPJ_FUNDO"@,
                cr is Some <==> t.has_column("DT_REG"@),
                cr is Some ==> cr->0 < t.columns@.len() && t.column_names()[cr->0 as int]
                    == "DT_REG"@,
                0 <= j <= t.rows@.len(),
                sel@.len() == keys@.len(),
                forall|k: int|
                    0 <= k < sel@.len() ==> (#[trigger] sel@[k]) < j && t.value(
                        sel@[k] as int,
                        "CNPJ_FUNDO"@,
                    ) == Some(cnpj@) && keys@[k]@ == text_key(t.value(sel@[k] as int, "DT_REG"@)),
                forall|a: int, b: int| 0 <= a < b < sel@.len() ==> sel@[a] < sel@[b],
                forall|jj: int|
                    0 <= jj < j && t.value(jj, "CNPJ_FUNDO"@) == Some(cnpj@) ==> sel@.contains(
                        jj as usize,
                    ),
            decreases t.rows@.len() - j,
        {
            let v = cell_at(t, j, ci, Ghost("CNPJ_FUNDO"@));
            let hit = match &v {
                Some(s) => *s == id,
                None => false,
            };
            if hit {
                let reg = cell_at(t, j, cr, Ghost("DT_REG"@));
                let ghost before = sel@;
                sel.push(j);
                keys.push(text_key_of(&reg));
                proof {
                    assert(sel@[before.len() as int] == j);
                    assert forall|jj: int|
                        0 <= jj < j + 1 && t.value(jj, "CNPJ_FUNDO"@) == Some(cnpj@)
                            implies sel@.contains(jj as usize) by {
                        if jj < j {
                            let k = choose|k: int| 0 <= k < before.len() && before[k] == jj as usize;
                            assert(sel@[k] == jj as usize);
                        }
                    }
                }
            }
            j += 1;
        }
        if sel.len() == 0 {
            proof {
                assert forall|j: int|
                    0 <= j < t.rows@.len() implies t.value(j, "CNPJ_FUNDO"@) != Some(cnpj@) by {
                    if t.value(j, "CNPJ_FUNDO"@) == Some(cnpj@) {
                        assert(sel@.contains(j as usize));
                    }
                }
            }
            return Err(QueryError::NotFound);
        }
        let order = sort_order(&keys);
        let mut rows: Vec<usize> = Vec::new();
        let mut i: usize = 0;
        while i < order.len()
            invariant
                is_permutation(order@, keys@.len()),
                keys@.len() == sel@.len(),
                0 <= i <= order@.len(),
                rows@.len() == i,
                forall|m: int| 0 <= m < i ==> #[trigger] rows@[m] == sel@[order@[m] as int],
            decreases order@.len() - i,
        {
            rows.push(sel[order[i]]);
            i += 1;
        }
        let r = project(t, &rows);
        proof {
            assert(t.value(sel@[0] as int, "CNPJ_FUNDO"@) == Some(cnpj@));
            assert forall|a: int, b: int|
                0 <= a < rows@.len() && 0 <= b < rows@.len() && a != b implies rows@[a]
                != rows@[b] by {
                assert(order@[a] != order@[b]);
                if order@[a] < order@[b] {
                    assert(sel@[order@[a] as int] < sel@[order@[b] as int]);
                } else {
                    assert(sel@[order@[b] as int] < sel@[order@[a] as int]);
                }
            }
            assert forall|j: int|
                0 <= j < t.rows@.len() && t.value(j, "CNPJ_FUNDO"@) == Some(cnpj@)
                    implies rows@.contains(j as usize) by {
                let k = choose|k: int| 0 <= k < sel@.len() && sel@[k] == j as usize;
                assert(order@.contains(k as usize));
                let i = choose|i: int| 0 <= i < order@.len() && order@[i] == k as usize;
                assert(rows@[i] == j as usize);
            }
            assert forall|a: int, b: int| 0 <= a < b < rows@.len() implies lex_le(
                text_key(t.value(rows@[a] as int, "DT_REG"@)),
                text_key(t.value(rows@[b] as int, "DT_REG"@)),
            ) by {
                assert(lex_le(keys@[order@[a] as int]@, keys@[order@[b] as int]@));
            }
            assert(is_id_result(*t, cnpj@, rows@));
        }
        Ok(r)
    }

    /// Three counts over the registry, each most frequent first: funds per
    /// year of constitution (rows without a positive year left out), per
    /// situation and per class.
    pub fn stats(&self) -> (r: (Vec<Group>, Vec<Group>, Vec<Group>))
        requires
            self.funds.wf(),
            self.funds.rows@.len() <= MAX_ITEMS,
        ensures
            counted_desc(r.0@, year_keys(self.funds, self.funds.rows@.len() as int)),
            counted_desc(r.1@, column_values(self.funds, "SIT"@)),
            counted_desc(r.2@, column_values(self.funds, "CLASSE"@)),
    {
        let t = &self.funds;
        let cd = find_column(t, "DT_CONST");
        let mut years: Vec<Option<String>> = Vec::new();
        let mut j: usize = 0;
        while j < t.rows.len()
            invariant
                t.wf(),
                t.rows@.len() <= MAX_ITEMS,
                cd is Some <==> t.has_column("DT_CONST"@),
                cd is Some ==> cd->0 < t.columns@.len() && t.column_names()[cd->0 as int]
                    == "DT_CONST"@,
                0 <= j <= t.rows@.len(),
                years@.len() <= j,
                key_views(years@) == year_keys(*t, j as int),
            decreases t.rows@.len() - j,
        {
            let v = cell_at(t, j, cd, Ghost("DT_CONST"@));
            let ghost before = years@;
            match v {
                Some(s) => match parse_date(s.as_str(), "%Y-%m-%d") {
                    Some(d) => {
                        if d.year > 0 {
                            years.push(Some(format_decimal(d.year as u64)));
                        }
                    },
                    None => {},
                },
                None => {},
            }
            proof {
                assert(key_views(years@) =~= year_keys(*t, j + 1));
            }
            j += 1;
        }
        let by_year = count_desc(&years);
        let sits = column_keys(t, "SIT");
        let by_situation = count_desc(&sits);
        let classes = column_keys(t, "CLASSE");
        let by_class = count_desc(&classes);
        (by_year, by_situation, by_class)
    }
}

} // verus!
