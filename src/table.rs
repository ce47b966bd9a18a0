//! Tables of text cells read from dataset partitions, and the unification of
//! partitions whose column sets differ into one table.
use crate::text::{chars_of, string_of};
use vstd::prelude::*;

verus! {

/// Why a query produced no table.
#[derive(Clone, Copy, Debug, PartialEq, Eq, Structural)]
pub enum QueryError {
    /// No partition, or no row, lies in the requested range.
    NoData,
    /// The requested identifier is empty or absent.
    NotFound,
    /// A derived value does not fit the fixed-point range.
    OutOfRange,
    /// The text is not a table: no header, or a repeated column name.
    Malformed,
}

/// A table: named columns and rows of optional text cells.
#[derive(Clone, Debug)]
pub struct Table {
    pub columns: Vec<String>,
    pub rows: Vec<Vec<Option<String>>>,
}

/// The text of a cell.
pub open spec fn cell_view(c: Option<String>) -> Option<Seq<char>> {
    match c {
        Some(s) => Some(s@),
        None => None,
    }
}

/// The texts of some names.
pub open spec fn names(cols: Seq<String>) -> Seq<Seq<char>> {
    cols.map_values(|s: String| s@)
}

impl Table {
    pub open spec fn column_names(&self) -> Seq<Seq<char>> {
        names(self.columns@)
    }

    /// Every row has one cell per column, and no two columns share a name.
    pub open spec fn wf(&self) -> bool {
        &&& self.column_names().no_duplicates()
        &&& forall|j: int| 0 <= j < self.rows@.len() ==> #[trigger] self.rows@[j]@.len()
            == self.columns@.len()
    }

    pub open spec fn has_column(&self, name: Seq<char>) -> bool {
        self.column_names().contains(name)
    }

    /// The cell of row `j` under column `name`; none where the table has no
    /// such column.
    pub open spec fn value(&self, j: int, name: Seq<char>) -> Option<Seq<char>> {
        if self.has_column(name) {
            let m = choose|m: int| 0 <= m < self.columns@.len() && self.column_names()[m] == name;
            cell_view(self.rows@[j]@[m])
        } else {
            None
        }
    }

    /// A table with these columns and no rows.
    pub fn empty(columns: Vec<String>) -> (r: Table)
        requires
            names(columns@).no_duplicates(),
        ensures
            r.wf(),
            r.columns@ == columns@,
            r.rows@.len() == 0,
    {
        Table { columns, rows: Vec::new() }
    }
}

/// The rows of the partitions before partition `p`.
pub open spec fn row_offset(parts: Seq<Table>, p: int) -> nat
    decreases p,
{
    if p <= 0 {
        0
    } else {
        row_offset(parts, p - 1) + parts[p - 1].rows@.len()
    }
}

/// Whether some partition has a column of this name.
pub open spec fn some_part_has(parts: Seq<Table>, name: Seq<char>) -> bool {
    exists|q: int| 0 <= q < parts.len() && (#[trigger] parts[q]).has_column(name)
}

pub proof fn lemma_value_at(t: &Table, j: int, m: int)
    requires
        t.wf(),
        0 <= m < t.columns@.len(),
    ensures
        t.has_column(t.column_names()[m]),
        t.value(j, t.column_names()[m]) == cell_view(t.rows@[j]@[m]),
{
    let name = t.column_names()[m];
    assert(t.column_names()[m] == name);
    let c = choose|c: int| 0 <= c < t.columns@.len() && t.column_names()[c] == name;
    assert(c == m);
}

/// The index of the column named `name`, if any.
pub fn column_index(columns: &Vec<String>, name: &String) -> (r: Option<usize>)
    ensures
        r is Some <==> names(columns@).contains(name@),
        r is Some ==> r->0 < columns@.len() && names(columns@)[r->0 as int] == name@,
{
    let mut k: usize = 0;
    while k < columns.len()
        invariant
            0 <= k <= columns@.len(),
            forall|i: int| 0 <= i < k ==> names(columns@)[i] != name@,
        decreases columns@.len() - k,
    {
        if columns[k] == *name {
            proof {
                assert(names(columns@)[k as int] == name@);
            }
            return Some(k);
        }
        k += 1;
    }
    None
}

/// The cell of row `j` under `name`, given where `column_index` found `name`.
pub(crate) fn cell_at(t: &Table, j: usize, m: Option<usize>, Ghost(name): Ghost<Seq<char>>) -> (r:
    Option<String>)
    requires
        t.wf(),
        j < t.rows@.len(),
        m is Some <==> t.has_column(name),
        m is Some ==> m->0 < t.columns@.len() && t.column_names()[m->0 as int] == name,
    ensures
        cell_view(r) == t.value(j as int, name),
{
    match m {
        Some(k) => {
            proof {
                lemma_value_at(t, j as int, k as int);
            }
            clone_cell(&t.rows[j][k])
        },
        None => None,
    }
}

/// The index of the column named by a literal.
pub(crate) fn find_column(t: &Table, name: &str) -> (r: Option<usize>)
    ensures
        r is Some <==> t.has_column(name@),
        r is Some ==> r->0 < t.columns@.len() && t.column_names()[r->0 as int] == name@,
{
    let n = crate::text::string_of(&crate::text::chars_of(name));
    column_index(&t.columns, &n)
}

fn clone_cell(c: &Option<String>) -> (r: Option<String>)
    ensures
        cell_view(r) == cell_view(*c),
{
    match c {
        Some(s) => Some(s.clone()),
        None => None,
    }
}

fn clone_row(row: &Vec<Option<String>>) -> (r: Vec<Option<String>>)
    ensures
        r@.len() == row@.len(),
        forall|c: int| 0 <= c < row@.len() ==> #[trigger] cell_view(r@[c]) == cell_view(row@[c]),
{
    let mut r: Vec<Option<String>> = Vec::new();
    let mut c: usize = 0;
    while c < row.len()
        invariant
            0 <= c <= row@.len(),
            r@.len() == c,
            forall|k: int| 0 <= k < c ==> #[trigger] cell_view(r@[k]) == cell_view(row@[k]),
        decreases row@.len() - c,
    {
        r.push(clone_cell(&row[c]));
        c += 1;
    }
    r
}

/// The table made of the given rows of `t`, in the given order.
pub fn project(t: &Table, rows: &Vec<usize>) -> (r: Table)
    requires
        t.wf(),
        forall|k: int| 0 <= k < rows@.len() ==> (#[trigger] rows@[k]) < t.rows@.len(),
    ensures
        r.wf(),
        r.column_names() == t.column_names(),
        r.rows@.len() == rows@.len(),
        forall|i: int, name: Seq<char>|
            0 <= i < rows@.len() ==> #[trigger] r.value(i, name) == t.value(
                rows@[i] as int,
                name,
            ),
{
    let mut columns: Vec<String> = Vec::new();
    let mut c: usize = 0;
    while c < t.columns.len()
        invariant
            0 <= c <= t.columns@.len(),
            names(columns@) == t.column_names().subrange(0, c as int),
        decreases t.columns@.len() - c,
    {
        let ghost before = columns@;
        let name = t.columns[c].clone();
        columns.push(name);
        proof {
            assert(columns@ == before.push(t.columns@[c as int]));
            assert(names(columns@) =~= names(before).push(t.columns@[c as int]@));
            assert(names(columns@) =~= t.column_names().subrange(0, c + 1));
        }
        c += 1;
    }
    proof {
        assert(names(columns@) =~= t.column_names());
    }
    let mut out: Vec<Vec<Option<String>>> = Vec::new();
    let mut i: usize = 0;
    while i < rows.len()
        invariant
            t.wf(),
            forall|k: int| 0 <= k < rows@.len() ==> (#[trigger] rows@[k]) < t.rows@.len(),
            0 <= i <= rows@.len(),
            out@.len() == i,
            forall|k: int|
                0 <= k < i ==> (#[trigger] out@[k])@.len() == t.columns@.len() && forall|c: int|
                    0 <= c < t.columns@.len() ==> #[trigger] cell_view(out@[k]@[c]) == cell_view(
                        t.rows@[rows@[k] as int]@[c],
                    ),
        decreases rows@.len() - i,
    {
        out.push(clone_row(&t.rows[rows[i]]));
        i += 1;
    }
    let r = Table { columns, rows: out };
    proof {
        assert(r.column_names() =~= t.column_names());
        assert forall|i: int, name: Seq<char>|
            0 <= i < rows@.len() implies #[trigger] r.value(i, name) == t.value(
                rows@[i] as int,
                name,
            ) by {
            if t.has_column(name) {
                let m = choose|m: int| 0 <= m < t.columns@.len() && t.column_names()[m] == name;
                lemma_value_at(t, rows@[i] as int, m);
                lemma_value_at(&r, i, m);
            }
        }
    }
    r
}

/// One table from partitions whose column sets differ. Its columns are the
/// union of theirs, in order of first appearance; each partition's rows
/// follow in turn, with no cell under a column that the partition lacks.
/// No partitions is no data, not an empty table.
pub fn unify(parts: &Vec<Table>) -> (r: Result<Table, QueryError>)
    requires
        forall|p: int| 0 <= p < parts@.len() ==> (#[trigger] parts@[p]).wf(),
    ensures
        parts@.len() == 0 <==> r is Err,
        r is Err ==> r->Err_0 == QueryError::NoData,
        r is Ok ==> {
            let t = r->Ok_0;
            &&& t.wf()
            &&& forall|name: Seq<char>| #[trigger]
                t.has_column(name) <==> some_part_has(parts@, name)
            &&& t.rows@.len() == row_offset(parts@, parts@.len() as int)
            &&& forall|p: int, j: int, name: Seq<char>|
                0 <= p < parts@.len() && 0 <= j < parts@[p].rows@.len() && t.has_column(name)
                    ==> #[trigger] t.value(row_offset(parts@, p) + j, name) == #[trigger] parts@[p].value(
                    j,
                    name,
                )
        },
{
    if parts.len() == 0 {
        return Err(QueryError::NoData);
    }
    let cols = get_all_columns(parts);
    let mut rows: Vec<Vec<Option<String>>> = Vec::new();
    let mut p: usize = 0;
    while p < parts.len()
        invariant
            0 <= p <= parts@.len(),
            forall|q: int| 0 <= q < parts@.len() ==> (#[trigger] parts@[q]).wf(),
            names(cols@).no_duplicates(),
            rows@.len() == row_offset(parts@, p as int),
            forall|i: int| 0 <= i < rows@.len() ==> #[trigger] rows@[i]@.len() == cols@.len(),
            forall|q: int, j: int, c: int|
                0 <= q < p && 0 <= j < parts@[q].rows@.len() && 0 <= c < cols@.len()
                    ==> #[trigger] cell_view(rows@[row_offset(parts@, q) + j]@[c])
                    == #[trigger] parts@[q].value(j, names(cols@)[c]),
        decreases parts@.len() - p,
    {
        let part = &parts[p];
        let mut j: usize = 0;
        while j < part.rows.len()
            invariant
                0 <= p < parts@.len(),
                *part == parts@[p as int],
                part.wf(),
                0 <= j <= part.rows@.len(),
                forall|q: int| 0 <= q < parts@.len() ==> (#[trigger] parts@[q]).wf(),
                names(cols@).no_duplicates(),
                rows@.len() == row_offset(parts@, p as int) + j,
                forall|i: int| 0 <= i < rows@.len() ==> #[trigger] rows@[i]@.len() == cols@.len(),
                forall|q: int, jj: int, c: int|
                    0 <= q < p && 0 <= jj < parts@[q].rows@.len() && 0 <= c < cols@.len()
                        ==> #[trigger] cell_view(rows@[row_offset(parts@, q) + jj]@[c])
                        == #[trigger] parts@[q].value(jj, names(cols@)[c]),
                forall|jj: int, c: int|
                    0 <= jj < j && 0 <= c < cols@.len() ==> #[trigger] cell_view(
                        rows@[row_offset(parts@, p as int) + jj]@[c],
                    ) == part.value(jj, names(cols@)[c]),
            decreases part.rows@.len() - j,
        {
            let row = align_row(part, j, &cols);
            let ghost before = rows@;
            rows.push(row);
            proof {
                assert forall|q: int, jj: int, c: int|
                    0 <= q < p && 0 <= jj < parts@[q].rows@.len() && 0 <= c < cols@.len()
                        implies #[trigger] cell_view(rows@[row_offset(parts@, q) + jj]@[c])
                        == #[trigger] parts@[q].value(jj, names(cols@)[c]) by {
                    lemma_offset_mono(parts@, q + 1, p as int);
                    assert(rows@[row_offset(parts@, q) + jj] == before[row_offset(parts@, q) + jj]);
                }
            }
            j += 1;
        }
        proof {
            assert(row_offset(parts@, p + 1) == row_offset(parts@, p as int)
                + parts@[p as int].rows@.len());
        }
        p += 1;
    }
    let t = Table { columns: cols, rows };
    proof {
        assert forall|i: int| 0 <= i < t.rows@.len() implies #[trigger] t.rows@[i]@.len()
            == t.columns@.len() by {}
        assert forall|p: int, j: int, name: Seq<char>|
            0 <= p < parts@.len() && 0 <= j < parts@[p].rows@.len() && t.has_column(name)
                implies #[trigger] t.value(row_offset(parts@, p) + j, name)
            == #[trigger] parts@[p].value(j, name) by {
            let c = choose|c: int| 0 <= c < t.columns@.len() && t.column_names()[c] == name;
            lemma_offset_mono(parts@, p + 1, parts@.len() as int);
            lemma_value_at(&t, row_offset(parts@, p) + j, c);
        }
    }
    Ok(t)
}

pub proof fn lemma_offset_mono(parts: Seq<Table>, a: int, b: int)
    requires
        0 <= a <= b,
    ensures
        row_offset(parts, a) <= row_offset(parts, b),
    decreases b - a,
{
    if a < b {
        lemma_offset_mono(parts, a, b - 1);
    }
}

/// The table laid out under exactly `cols`, in that order: each row keeps
/// its cells under the columns it has, holds nothing under the others, and
/// loses the columns that `cols` does not name.
pub fn align_and_convert_columns_to_string(t: &Table, cols: &Vec<String>) -> (r: Table)
    requires
        t.wf(),
        names(cols@).no_duplicates(),
    ensures
        r.wf(),
        r.column_names() == names(cols@),
        r.rows@.len() == t.rows@.len(),
        forall|j: int, name: Seq<char>|
            0 <= j < t.rows@.len() && names(cols@).contains(name) ==> #[trigger] r.value(j, name)
                == t.value(j, name),
{
    let mut columns: Vec<String> = Vec::new();
    let mut c: usize = 0;
    while c < cols.len()
        invariant
            0 <= c <= cols@.len(),
            names(columns@) == names(cols@).subrange(0, c as int),
        decreases cols@.len() - c,
    {
        let ghost before = columns@;
        let name = cols[c].clone();
        columns.push(name);
        proof {
            assert(columns@ == before.push(cols@[c as int]));
            assert(names(columns@) =~= names(before).push(cols@[c as int]@));
            assert(names(columns@) =~= names(cols@).subrange(0, c + 1));
        }
        c += 1;
    }
    proof {
        assert(names(columns@) =~= names(cols@));
    }
    let mut rows: Vec<Vec<Option<String>>> = Vec::new();
    let mut j: usize = 0;
    while j < t.rows.len()
        invariant
            t.wf(),
            0 <= j <= t.rows@.len(),
            rows@.len() == j,
            forall|i: int| 0 <= i < j ==> (#[trigger] rows@[i])@.len() == cols@.len(),
            forall|i: int, c: int|
                0 <= i < j && 0 <= c < cols@.len() ==> #[trigger] cell_view(rows@[i]@[c])
                    == t.value(i, names(cols@)[c]),
        decreases t.rows@.len() - j,
    {
        let row = align_row(t, j, cols);
        rows.push(row);
        j += 1;
    }
    let r = Table { columns, rows };
    proof {
        assert(r.column_names() =~= names(cols@));
        assert forall|j: int, name: Seq<char>|
            0 <= j < t.rows@.len() && names(cols@).contains(name) implies #[trigger] r.value(j, name)
                == t.value(j, name) by {
            let c = choose|c: int| 0 <= c < names(cols@).len() && names(cols@)[c] == name;
            lemma_value_at(&r, j, c);
        }
    }
    r
}

/// The table with its own columns, in their order, followed by each column
/// of `cols` that it lacks, which holds nothing in every row.
pub fn align_columns(t: &Table, cols: &Vec<String>) -> (r: Table)
    requires
        t.wf(),
    ensures
        r.wf(),
        r.column_names().subrange(0, t.columns@.len() as int) == t.column_names(),
        forall|name: Seq<char>| #[trigger]
            r.has_column(name) <==> t.has_column(name) || names(cols@).contains(name),
        r.rows@.len() == t.rows@.len(),
        forall|j: int, name: Seq<char>|
            0 <= j < t.rows@.len() && r.has_column(name) ==> #[trigger] r.value(j, name)
                == t.value(j, name),
{
    let mut all: Vec<String> = Vec::new();
    let mut c: usize = 0;
    while c < t.columns.len()
        invariant
            0 <= c <= t.columns@.len(),
            names(all@) == t.column_names().subrange(0, c as int),
        decreases t.columns@.len() - c,
    {
        let ghost before = all@;
        let name = t.columns[c].clone();
        all.push(name);
        proof {
            assert(all@ == before.push(t.columns@[c as int]));
            assert(names(all@) =~= names(before).push(t.columns@[c as int]@));
            assert(names(all@) =~= t.column_names().subrange(0, c + 1));
        }
        c += 1;
    }
    proof {
        assert(names(all@) =~= t.column_names());
    }
    let mut k: usize = 0;
    while k < cols.len()
        invariant
            t.wf(),
            0 <= k <= cols@.len(),
            names(all@).no_duplicates(),
            names(all@).len() >= t.columns@.len(),
            names(all@).subrange(0, t.columns@.len() as int) == t.column_names(),
            forall|name: Seq<char>| #[trigger]
                names(all@).contains(name) <==> t.has_column(name) || exists|i: int|
                    0 <= i < k && names(cols@)[i] == name,
        decreases cols@.len() - k,
    {
        let ghost before = names(all@);
        if column_index(&all, &cols[k]).is_none() {
            all.push(cols[k].clone());
            proof {
                assert(names(all@) =~= before.push(cols@[k as int]@));
                assert(names(all@).subrange(0, t.columns@.len() as int) =~= before.subrange(
                    0,
                    t.columns@.len() as int,
                ));
                assert forall|a: int, b: int|
                    0 <= a < names(all@).len() && 0 <= b < names(all@).len() && a != b
                        implies names(all@)[a] != names(all@)[b] by {
                    if a == before.len() as int {
                        assert(names(all@)[b] == before[b]);
                    } else if b == before.len() as int {
                        assert(names(all@)[a] == before[a]);
                    }
                }
            }
        }
        proof {
            let nk = names(cols@)[k as int];
            assert forall|name: Seq<char>| #[trigger]
                names(all@).contains(name) <==> t.has_column(name) || exists|i: int|
                    0 <= i < k + 1 && names(cols@)[i] == name by {
                if before.contains(name) {
                    let i = choose|i: int| 0 <= i < before.len() && before[i] == name;
                    assert(names(all@)[i] == name);
                }
                if names(all@).contains(name) && !before.contains(name) {
                    assert(name == nk);
                }
                if name == nk && !before.contains(name) {
                    assert(names(all@)[before.len() as int] == name);
                }
            }
        }
        k += 1;
    }
    let r = align_and_convert_columns_to_string(t, &all);
    proof {
        assert forall|name: Seq<char>| #[trigger]
            r.has_column(name) <==> t.has_column(name) || names(cols@).contains(name) by {
            if names(cols@).contains(name) {
                let i = choose|i: int| 0 <= i < names(cols@).len() && names(cols@)[i] == name;
                assert(exists|i: int| 0 <= i < cols@.len() && names(cols@)[i] == name);
            }
            if exists|i: int| 0 <= i < cols@.len() && names(cols@)[i] == name {
                let i = choose|i: int| 0 <= i < cols@.len() && names(cols@)[i] == name;
                assert(names(cols@)[i] == name);
            }
        }
    }
    r
}

/// Row `j` of `part` laid out under `cols`.
fn align_row(part: &Table, j: usize, cols: &Vec<String>) -> (r: Vec<Option<String>>)
    requires
        part.wf(),
        j < part.rows@.len(),
    ensures
        r@.len() == cols@.len(),
        forall|c: int| 0 <= c < cols@.len() ==> #[trigger] cell_view(r@[c]) == part.value(
            j as int,
            names(cols@)[c],
        ),
{
    let mut row: Vec<Option<String>> = Vec::new();
    let mut c: usize = 0;
    while c < cols.len()
        invariant
            part.wf(),
            j < part.rows@.len(),
            0 <= c <= cols@.len(),
            row@.len() == c,
            forall|k: int| 0 <= k < c ==> #[trigger] cell_view(row@[k]) == part.value(
                j as int,
                names(cols@)[k],
            ),
        decreases cols@.len() - c,
    {
        let cell = match column_index(&part.columns, &cols[c]) {
            Some(m) => {
                proof {
                    lemma_value_at(part, j as int, m as int);
                }
                clone_cell(&part.rows[j][m])
            },
            None => None,
        };
        row.push(cell);
        c += 1;
    }
    row
}

/// The union of the partitions' column names, in order of first appearance.
pub fn get_all_columns(parts: &Vec<Table>) -> (r: Vec<String>)
    ensures
        names(r@).no_duplicates(),
        forall|name: Seq<char>| #[trigger] names(r@).contains(name) <==> some_part_has(parts@, name),
{
    let mut cols: Vec<String> = Vec::new();
    let mut p: usize = 0;
    while p < parts.len()
        invariant
            0 <= p <= parts@.len(),
            names(cols@).no_duplicates(),
            forall|name: Seq<char>| #[trigger]
                names(cols@).contains(name) <==> exists|q: int|
                    0 <= q < p && (#[trigger] parts@[q]).has_column(name),
        decreases parts@.len() - p,
    {
        let part = &parts[p];
        let mut k: usize = 0;
        while k < part.columns.len()
            invariant
                0 <= p < parts@.len(),
                *part == parts@[p as int],
                0 <= k <= part.columns@.len(),
                names(cols@).no_duplicates(),
                forall|name: Seq<char>| #[trigger]
                    names(cols@).contains(name) <==> (exists|q: int|
                        0 <= q < p && (#[trigger] parts@[q]).has_column(name)) || exists|i: int|
                        0 <= i < k && part.column_names()[i] == name,
            decreases part.columns@.len() - k,
        {
            let ghost before = names(cols@);
            if column_index(&cols, &part.columns[k]).is_none() {
                cols.push(part.columns[k].clone());
                proof {
                    assert(names(cols@) =~= before.push(part.columns@[k as int]@));
                    assert forall|a: int, b: int|
                        0 <= a < names(cols@).len() && 0 <= b < names(cols@).len() && a != b
                            implies names(cols@)[a] != names(cols@)[b] by {
                        if a == before.len() as int {
                            assert(names(cols@)[b] == before[b]);
                        } else if b == before.len() as int {
                            assert(names(cols@)[a] == before[a]);
                        }
                    }
                }
            }
            proof {
                let name_k = part.column_names()[k as int];
                assert forall|name: Seq<char>| #[trigger]
                    names(cols@).contains(name) <==> (exists|q: int|
                        0 <= q < p && (#[trigger] parts@[q]).has_column(name)) || exists|i: int|
                        0 <= i < k + 1 && part.column_names()[i] == name by {
                    if names(cols@).contains(name) && !before.contains(name) {
                        assert(name == name_k);
                    }
                    if before.contains(name) {
                        let i = choose|i: int| 0 <= i < before.len() && before[i] == name;
                        assert(names(cols@)[i] == name);
                    }
                    if name == name_k && !before.contains(name) {
                        assert(names(cols@)[before.len() as int] == name);
                    }
                }
            }
            k += 1;
        }
        proof {
            assert forall|name: Seq<char>| #[trigger]
                names(cols@).contains(name) <==> exists|q: int|
                    0 <= q < p + 1 && (#[trigger] parts@[q]).has_column(name) by {
                if exists|i: int| 0 <= i < part.columns@.len() && part.column_names()[i] == name {
                    let i = choose|i: int|
                        0 <= i < part.columns@.len() && part.column_names()[i] == name;
                    assert(parts@[p as int].has_column(name));
                }
                if parts@[p as int].has_column(name) {
                    let i = choose|i: int|
                        0 <= i < part.column_names().len() && part.column_names()[i] == name;
                    assert(0 <= i < part.columns@.len() && part.column_names()[i] == name);
                }
            }
        }
        p += 1;
    }
    cols
}

/// The pieces of `s` between occurrences of `c`.
pub open spec fn split_on(s: Seq<char>, c: char) -> Seq<Seq<char>>
    decreases s.len(),
{
    if s.len() == 0 {
        seq![Seq::empty()]
    } else {
        let init = split_on(s.drop_last(), c);
        if s.last() == c {
            init.push(Seq::empty())
        } else {
            init.update(init.len() - 1, init.last().push(s.last()))
        }
    }
}

pub proof fn lemma_split_nonempty(s: Seq<char>, c: char)
    ensures
        split_on(s, c).len() >= 1,
    decreases s.len(),
{
    if s.len() > 0 {
        lemma_split_nonempty(s.drop_last(), c);
    }
}

/// The pieces of `s` between occurrences of `c`.
pub fn split_chars(s: &Vec<char>, c: char) -> (r: Vec<Vec<char>>)
    ensures
        r@.len() == split_on(s@, c).len(),
        forall|k: int| 0 <= k < r@.len() ==> (#[trigger] r@[k])@ == split_on(s@, c)[k],
{
    let mut r: Vec<Vec<char>> = Vec::new();
    r.push(Vec::new());
    let mut i: usize = 0;
    proof {
        assert(s@.subrange(0, 0) =~= Seq::<char>::empty());
    }
    while i < s.len()
        invariant
            0 <= i <= s@.len(),
            r@.len() == split_on(s@.subrange(0, i as int), c).len(),
            r@.len() >= 1,
            forall|k: int| 0 <= k < r@.len() ==> (#[trigger] r@[k])@ == split_on(
                s@.subrange(0, i as int),
                c,
            )[k],
        decreases s@.len() - i,
    {
        let ghost pre = split_on(s@.subrange(0, i as int), c);
        proof {
            assert(s@.subrange(0, i + 1).drop_last() =~= s@.subrange(0, i as int));
            assert(s@.subrange(0, i + 1).last() == s@[i as int]);
        }
        if s[i] == c {
            r.push(Vec::new());
            proof {
                assert forall|k: int| 0 <= k < r@.len() implies (#[trigger] r@[k])@ == split_on(
                    s@.subrange(0, i + 1),
                    c,
                )[k] by {
                    if k == r@.len() - 1 {
                        assert(r@[k]@ =~= Seq::<char>::empty());
                    }
                }
            }
        } else {
            let last = r.len() - 1;
            let mut piece = r.pop().unwrap();
            piece.push(s[i]);
            r.push(piece);
            proof {
                assert forall|k: int| 0 <= k < r@.len() implies (#[trigger] r@[k])@ == split_on(
                    s@.subrange(0, i + 1),
                    c,
                )[k] by {
                    if k == last {
                        assert(r@[k]@ =~= pre.last().push(s@[i as int]));
                    }
                }
            }
        }
        i += 1;
    }
    proof {
        assert(s@.subrange(0, s@.len() as int) =~= s@);
    }
    r
}

/// A line without its final carriage return.
pub open spec fn without_cr(line: Seq<char>) -> Seq<char> {
    if line.len() > 0 && line.last() == '\r' {
        line.drop_last()
    } else {
        line
    }
}

/// The cell of a field: an empty field holds nothing.
pub open spec fn field_cell(f: Seq<char>) -> Option<Seq<char>> {
    if f.len() == 0 {
        None
    } else {
        Some(f)
    }
}

/// The cell `k` of a line split into fields; none past the last field.
pub open spec fn line_cell(line: Seq<char>, sep: char, k: int) -> Option<Seq<char>> {
    let fs = split_on(without_cr(line), sep);
    if k < fs.len() {
        field_cell(fs[k])
    } else {
        None
    }
}

fn strip_cr(line: &Vec<char>) -> (r: Vec<char>)
    ensures
        r@ == without_cr(line@),
{
    let mut r: Vec<char> = Vec::new();
    let n = if line.len() > 0 && line[line.len() - 1] == '\r' {
        line.len() - 1
    } else {
        line.len()
    };
    let mut i: usize = 0;
    while i < n
        invariant
            n <= line@.len(),
            0 <= i <= n,
            r@ == line@.subrange(0, i as int),
        decreases n - i,
    {
        r.push(line[i]);
        proof {
            assert(line@.subrange(0, i + 1) =~= line@.subrange(0, i as int).push(line@[i as int]));
        }
        i += 1;
    }
    proof {
        assert(r@ =~= without_cr(line@));
    }
    r
}

/// The lines after the first of the first `n`, keeping those that are not
/// empty once a final carriage return is dropped, in order.
pub open spec fn row_lines(lines: Seq<Seq<char>>, n: int) -> Seq<Seq<char>>
    decreases n,
{
    if n <= 1 {
        Seq::empty()
    } else if without_cr(lines[n - 1]).len() > 0 {
        row_lines(lines, n - 1).push(lines[n - 1])
    } else {
        row_lines(lines, n - 1)
    }
}

/// A table read from delimited text: the first line names the columns,
/// each later non-empty line is a row, empty fields and missing trailing
/// fields hold nothing, and fields past the header are dropped. Text with a
/// repeated column name is malformed.
pub fn parse_delimited(text: &str, sep: char) -> (r: Result<Table, QueryError>)
    ensures
        r is Ok ==> {
            let lines = split_on(text@, '\n');
            let t = r->Ok_0;
            &&& t.wf()
            &&& t.column_names() == split_on(without_cr(lines[0]), sep)
            &&& t.rows@.len() == row_lines(lines, lines.len() as int).len()
            &&& forall|i: int, k: int|
                0 <= i < t.rows@.len() && 0 <= k < t.columns@.len() ==> #[trigger] cell_view(
                    t.rows@[i]@[k],
                ) == line_cell(row_lines(lines, lines.len() as int)[i], sep, k)
        },
        r is Err ==> r->Err_0 == QueryError::Malformed && !split_on(
            without_cr(split_on(text@, '\n')[0]),
            sep,
        ).no_duplicates(),
{
    let lines = split_chars(&chars_of(text), '\n');
    proof {
        lemma_split_nonempty(text@, '\n');
    }
    let header = split_chars(&strip_cr(&lines[0]), sep);
    let mut columns: Vec<String> = Vec::new();
    let mut k: usize = 0;
    while k < header.len()
        invariant
            0 <= k <= header@.len(),
            names(columns@).len() == k,
            forall|m: int| 0 <= m < k ==> #[trigger] names(columns@)[m] == header@[m]@,
        decreases header@.len() - k,
    {
        let ghost before = columns@;
        columns.push(string_of(&header[k]));
        proof {
            assert(names(columns@) =~= names(before).push(header@[k as int]@));
        }
        k += 1;
    }
    let ghost hdr = split_on(without_cr(lines@[0]@), sep);
    proof {
        assert(names(columns@) =~= hdr);
        assert(lines@[0]@ == split_on(text@, '\n')[0]);
    }
    let mut a: usize = 0;
    while a < columns.len()
        invariant
            names(columns@) == split_on(without_cr(split_on(text@, '\n')[0]), sep),
            0 <= a <= columns@.len(),
            forall|x: int, y: int|
                0 <= x < a && 0 <= y < columns@.len() && x != y ==> names(columns@)[x] != names(
                    columns@,
                )[y],
        decreases columns@.len() - a,
    {
        let mut b: usize = 0;
        while b < columns.len()
            invariant
                names(columns@) == split_on(without_cr(split_on(text@, '\n')[0]), sep),
                0 <= a < columns@.len(),
                0 <= b <= columns@.len(),
                forall|x: int, y: int|
                    0 <= x < a && 0 <= y < columns@.len() && x != y ==> names(columns@)[x]
                        != names(columns@)[y],
                forall|y: int| 0 <= y < b && a != y ==> names(columns@)[a as int] != names(
                    columns@,
                )[y],
            decreases columns@.len() - b,
        {
            if a != b && columns[a] == columns[b] {
                proof {
                    assert(names(columns@)[a as int] == names(columns@)[b as int]);
                }
                return Err(QueryError::Malformed);
            }
            b += 1;
        }
        a += 1;
    }
    let mut rows: Vec<Vec<Option<String>>> = Vec::new();
    let mut l: usize = 1;
    while l < lines.len()
        invariant
            1 <= l <= lines@.len(),
            lines@.len() == split_on(text@, '\n').len(),
            forall|m: int| 0 <= m < lines@.len() ==> (#[trigger] lines@[m])@ == split_on(text@, '\n')[m],
            forall|i: int| 0 <= i < rows@.len() ==> #[trigger] rows@[i]@.len() == columns@.len(),
            rows@.len() == row_lines(split_on(text@, '\n'), l as int).len(),
            forall|i: int, k: int|
                0 <= i < rows@.len() && 0 <= k < columns@.len() ==> #[trigger] cell_view(
                    rows@[i]@[k],
                ) == line_cell(row_lines(split_on(text@, '\n'), l as int)[i], sep, k),
        decreases lines@.len() - l,
    {
        let line = strip_cr(&lines[l]);
        if line.len() > 0 {
            let fields = split_chars(&line, sep);
            let mut row: Vec<Option<String>> = Vec::new();
            let mut k: usize = 0;
            while k < columns.len()
                invariant
                    1 <= l < lines@.len(),
                    line@ == without_cr(lines@[l as int]@),
                    fields@.len() == split_on(line@, sep).len(),
                    forall|m: int| 0 <= m < fields@.len() ==> (#[trigger] fields@[m])@ == split_on(line@, sep)[m],
                    0 <= k <= columns@.len(),
                    row@.len() == k,
                    forall|m: int| 0 <= m < k ==> #[trigger] cell_view(row@[m]) == line_cell(
                        lines@[l as int]@,
                        sep,
                        m,
                    ),
                decreases columns@.len() - k,
            {
                let cell = if k < fields.len() && fields[k].len() > 0 {
                    Some(string_of(&fields[k]))
                } else {
                    None
                };
                row.push(cell);
                k += 1;
            }
            let ghost before = rows@;
            rows.push(row);
            proof {
                let ls = split_on(text@, '\n');
                assert(row_lines(ls, l + 1) == row_lines(ls, l as int).push(ls[l as int]));
                assert forall|i: int, k: int|
                    0 <= i < rows@.len() && 0 <= k < columns@.len() implies #[trigger] cell_view(
                        rows@[i]@[k],
                    ) == line_cell(row_lines(ls, l + 1)[i], sep, k) by {
                    if i < before.len() {
                        assert(rows@[i] == before[i]);
                    }
                }
            }
        } else {
            proof {
                let ls = split_on(text@, '\n');
                assert(row_lines(ls, l + 1) == row_lines(ls, l as int));
            }
        }
        l += 1;
    }
    Ok(Table { columns, rows })
}

} // verus!
