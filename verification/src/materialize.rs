//! Materializing a table: how many columns it has, how the cells of the
//! records are laid out in columns, and the keys of the columns.

use vstd::prelude::*;

verus! {

/// The column names handed to the materialize component.
pub enum ColumnNames {
    /// No string array of column names was given.
    Absent,
    /// A one-dimensional array of names.
    OneDimensional(Vec<String>),
    /// An array of names with another number of dimensions.
    MultiDimensional,
}

#[derive(Debug, Clone, Copy, PartialEq, Eq, Structural)]
pub enum MaterializeError {
    /// "column names must be one-dimensional"
    ColumnNamesNotOneDimensional,
    /// "either column_names or num_columns must be provided"
    ColumnCountMissing,
}

/// The key of a materialized column: its name, or its index where no names were given.
pub enum ColumnKey {
    Name(String),
    Index(i64),
}

/// The number of columns to build: the number of column names, or the
/// given count (taken as `usize` the way `as` converts it). Exactly one of
/// the two must be given.
pub fn resolve_column_count(column_names: &ColumnNames, num_columns: Option<i64>) -> (r: Result<
    usize,
    MaterializeError,
>)
    ensures
        match (column_names, num_columns) {
            (ColumnNames::OneDimensional(names), None) => r == Ok::<usize, MaterializeError>(
                names.len(),
            ),
            (ColumnNames::MultiDimensional, None) => r == Err::<usize, MaterializeError>(
                MaterializeError::ColumnNamesNotOneDimensional,
            ),
            (ColumnNames::Absent, Some(n)) => r == Ok::<usize, MaterializeError>(n as usize),
            _ => r == Err::<usize, MaterializeError>(MaterializeError::ColumnCountMissing),
        },
{
    match (column_names, num_columns) {
        (ColumnNames::OneDimensional(names), None) => Ok(names.len()),
        (ColumnNames::MultiDimensional, None) => Err(
            MaterializeError::ColumnNamesNotOneDimensional,
        ),
        (ColumnNames::Absent, Some(n)) => Ok(n as usize),
        _ => Err(MaterializeError::ColumnCountMissing),
    }
}

/// The cells that the records put in column `j`, in record order; a
/// record too short to reach column `j` puts nothing there.
pub open spec fn column_of(records: Seq<Seq<Seq<char>>>, j: int) -> Seq<Seq<char>>
    decreases records.len(),
{
    if records.len() == 0 {
        Seq::empty()
    } else {
        column_of(records.drop_last(), j) + (if j < records.last().len() {
            seq![records.last()[j]]
        } else {
            Seq::empty()
        })
    }
}

/// How many of the columns hold at least one cell.
pub open spec fn count_nonempty(columns: Seq<Seq<Seq<char>>>) -> nat
    decreases columns.len(),
{
    if columns.len() == 0 {
        0
    } else {
        count_nonempty(columns.drop_last()) + (if columns.last().len() > 0 {
            1nat
        } else {
            0nat
        })
    }
}

/// The columns of `n` columns before padding.
pub open spec fn raw_columns(records: Seq<Seq<Seq<char>>>, n: nat) -> Seq<Seq<Seq<char>>> {
    Seq::new(n, |j: int| column_of(records, j))
}

/// The columns as materialized: if some but not all of the `n` columns
/// hold cells, and `k` is how many do, every column from index `k` on is
/// replaced by as many empty strings as the first column has cells.
pub open spec fn spec_arranged(records: Seq<Seq<Seq<char>>>, n: nat) -> Seq<Seq<Seq<char>>> {
    let cols = raw_columns(records, n);
    let k = count_nonempty(cols);
    if 0 < k < n {
        Seq::new(
            n,
            |j: int|
                if j >= k {
                    Seq::new(cols[0].len(), |i: int| Seq::<char>::empty())
                } else {
                    cols[j]
                },
        )
    } else {
        cols
    }
}

/// The length of the longest record.
pub open spec fn max_width(records: Seq<Seq<Seq<char>>>) -> nat
    decreases records.len(),
{
    if records.len() == 0 {
        0
    } else {
        let w = max_width(records.drop_last());
        if records.last().len() > w {
            records.last().len()
        } else {
            w
        }
    }
}

/// A column receives cells exactly when some record reaches it.
proof fn lemma_column_nonempty(records: Seq<Seq<Seq<char>>>, j: int)
    requires
        0 <= j,
    ensures
        column_of(records, j).len() > 0 <==> j < max_width(records),
    decreases records.len(),
{
    if records.len() > 0 {
        lemma_column_nonempty(records.drop_last(), j);
    }
}

/// In records that all have `w > j` cells, column `j` holds cell `j` of each record.
proof fn lemma_column_full(records: Seq<Seq<Seq<char>>>, j: int)
    requires
        0 <= j,
        forall|i: int| 0 <= i < records.len() ==> j < #[trigger] records[i].len(),
    ensures
        column_of(records, j) == Seq::new(records.len(), |i: int| records[i][j]),
    decreases records.len(),
{
    if records.len() > 0 {
        let prefix = records.drop_last();
        assert forall|i: int| 0 <= i < prefix.len() implies j < #[trigger] prefix[i].len() by {
            assert(prefix[i] == records[i]);
        }
        lemma_column_full(prefix, j);
        assert(column_of(records, j) =~= Seq::new(records.len(), |i: int| records[i][j]));
    }
}

/// Where the non-empty columns are exactly the first `k`, `k` columns are non-empty.
proof fn lemma_count_prefix(cols: Seq<Seq<Seq<char>>>, k: int)
    requires
        0 <= k <= cols.len(),
        forall|j: int| 0 <= j < cols.len() ==> (#[trigger] cols[j].len() > 0 <==> j < k),
    ensures
        count_nonempty(cols) == k,
    decreases cols.len(),
{
    if cols.len() > 0 {
        let prefix = cols.drop_last();
        let k2 = if k == cols.len() { k - 1 } else { k };
        assert forall|j: int| 0 <= j < prefix.len() implies (#[trigger] prefix[j].len() > 0 <==> j
            < k2) by {
            assert(prefix[j] == cols[j]);
        }
        lemma_count_prefix(prefix, k2);
    }
}

/// The number of non-empty columns is the width of the longest record, at most `n`.
proof fn lemma_count_is_width(records: Seq<Seq<Seq<char>>>, n: nat)
    ensures
        count_nonempty(raw_columns(records, n)) == if max_width(records) < n {
            max_width(records)
        } else {
            n
        },
{
    let cols = raw_columns(records, n);
    let k: int = if max_width(records) < n {
        max_width(records) as int
    } else {
        n as int
    };
    assert forall|j: int| 0 <= j < cols.len() implies (#[trigger] cols[j].len() > 0 <==> j < k) by {
        lemma_column_nonempty(records, j);
    }
    lemma_count_prefix(cols, k);
}

/// A table of `m > 0` records of `w > 0` cells each becomes `n` columns of
/// `m` cells: column `j` holds cell `j` of every record where the records
/// reach it, and `m` empty strings where they do not.
pub proof fn lemma_arranged_rectangular(records: Seq<Seq<Seq<char>>>, n: nat, w: nat)
    requires
        records.len() > 0,
        w > 0,
        forall|i: int| 0 <= i < records.len() ==> #[trigger] records[i].len() == w,
    ensures
        spec_arranged(records, n).len() == n,
        forall|j: int|
            0 <= j < n ==> #[trigger] spec_arranged(records, n)[j].len() == records.len(),
        forall|j: int, i: int|
            0 <= j < n && 0 <= i < records.len() ==> #[trigger] spec_arranged(records, n)[j][i] == (
            if j < w {
                records[i][j]
            } else {
                Seq::<char>::empty()
            }),
{
    let cols = raw_columns(records, n);
    assert(max_width(records) == w) by {
        lemma_width_bound(records, w);
        lemma_column_nonempty(records, w - 1);
        lemma_column_full(records, w - 1);
    }
    lemma_count_is_width(records, n);
    assert forall|j: int| 0 <= j < n && j < w implies #[trigger] cols[j] == Seq::new(
        records.len(),
        |i: int| records[i][j],
    ) by {
        lemma_column_full(records, j);
    }
    assert forall|j: int| 0 <= j < n && j >= w implies #[trigger] cols[j].len() == 0 by {
        lemma_column_nonempty(records, j);
    }
    if n > 0 {
        assert(cols[0] == Seq::new(records.len(), |i: int| records[i][0]));
    }
}

/// Where some record has a cell (the first column has `R > 0` cells), a
/// column that no record reaches holds `R` empty strings.
pub proof fn lemma_arranged_pads_beyond_width(records: Seq<Seq<Seq<char>>>, n: nat, j: int)
    requires
        0 <= j < n,
        forall|i: int| 0 <= i < records.len() ==> #[trigger] records[i].len() <= j,
        column_of(records, 0).len() > 0,
    ensures
        spec_arranged(records, n)[j] == Seq::new(
            column_of(records, 0).len(),
            |i: int| Seq::<char>::empty(),
        ),
{
    lemma_column_nonempty(records, 0);
    lemma_column_nonempty(records, j);
    lemma_count_is_width(records, n);
    assert(max_width(records) <= j) by {
        lemma_width_bound(records, j as nat);
    }
}

proof fn lemma_width_bound(records: Seq<Seq<Seq<char>>>, b: nat)
    requires
        forall|i: int| 0 <= i < records.len() ==> #[trigger] records[i].len() <= b,
    ensures
        max_width(records) <= b,
    decreases records.len(),
{
    if records.len() > 0 {
        let prefix = records.drop_last();
        assert forall|i: int| 0 <= i < prefix.len() implies #[trigger] prefix[i].len() <= b by {
            assert(prefix[i] == records[i]);
        }
        lemma_width_bound(prefix, b);
    }
}

fn copy_strings(v: &Vec<String>) -> (r: Vec<String>)
    ensures
        r.deep_view() == v.deep_view(),
{
    let mut r: Vec<String> = Vec::new();
    for i in 0..v.len()
        invariant
            r.deep_view() == v.deep_view().subrange(0, i as int),
            r@.len() == i,
    {
        let ghost before = r@;
        let cell = v[i].clone();
        r.push(cell);
        assert forall|k: int| 0 <= k < i implies r@[k] == before[k] by {}
        assert(r.deep_view() =~= v.deep_view().subrange(0, i + 1));
    }
    assert(v.deep_view().subrange(0, v.len() as int) =~= v.deep_view());
    r
}

fn column(records: &Vec<Vec<String>>, j: usize) -> (c: Vec<String>)
    ensures
        c.deep_view() == column_of(records.deep_view(), j as int),
{
    let mut c: Vec<String> = Vec::new();
    let ghost rd = records.deep_view();
    assert(rd.subrange(0, 0) =~= Seq::<Seq<Seq<char>>>::empty());
    for r in 0..records.len()
        invariant
            rd == records.deep_view(),
            c.deep_view() == column_of(rd.subrange(0, r as int), j as int),
    {
        let record = &records[r];
        assert(rd.subrange(0, r + 1).drop_last() =~= rd.subrange(0, r as int));
        assert(rd.subrange(0, r + 1).last() == record.deep_view());
        if j < record.len() {
            let cell = record[j].clone();
            c.push(cell);
            assert(c.deep_view() =~= column_of(rd.subrange(0, r + 1), j as int));
        } else {
            assert(c.deep_view() =~= column_of(rd.subrange(0, r + 1), j as int));
        }
    }
    assert(rd.subrange(0, records.len() as int) =~= rd);
    c
}

fn empty_strings(n: usize) -> (v: Vec<String>)
    ensures
        v.deep_view() == Seq::new(n as nat, |i: int| Seq::<char>::empty()),
{
    let mut v: Vec<String> = Vec::new();
    for i in 0..n
        invariant
            forall|k: int| 0 <= k < v@.len() ==> (#[trigger] v@[k])@ == Seq::<char>::empty(),
            v@.len() == i,
    {
        let ghost before = v@;
        let e = String::new();
        v.push(e);
        assert(v@[i as int]@ == Seq::<char>::empty());
        assert forall|k: int| 0 <= k < i implies v@[k] == before[k] by {}
    }
    assert(v.deep_view() =~= Seq::new(n as nat, |k: int| Seq::<char>::empty()));
    v
}

/// Lays out the cells of the records in `num_columns` columns: cell `j` of
/// each record goes to column `j`, cells beyond the last column are
/// dropped, and if some but not all columns received cells, the columns
/// from the count of non-empty ones on are filled with empty strings (as
/// many as the first column has cells).
pub fn arrange_columns(num_columns: usize, records: &Vec<Vec<String>>) -> (columns: Vec<
    Vec<String>,
>)
    ensures
        columns.deep_view() == spec_arranged(records.deep_view(), num_columns as nat),
{
    let ghost rd = records.deep_view();
    let ghost cols = raw_columns(rd, num_columns as nat);
    let mut response: Vec<Vec<String>> = Vec::new();
    let mut num_nonempty: usize = 0;
    for j in 0..num_columns
        invariant
            rd == records.deep_view(),
            cols == raw_columns(rd, num_columns as nat),
            response.deep_view() == cols.subrange(0, j as int),
            num_nonempty == count_nonempty(cols.subrange(0, j as int)),
            num_nonempty <= j,
    {
        let c = column(records, j);
        if c.len() > 0 {
            num_nonempty = num_nonempty + 1;
        }
        response.push(c);
        assert(cols.subrange(0, j + 1).drop_last() =~= cols.subrange(0, j as int));
        assert(response.deep_view() =~= cols.subrange(0, j + 1));
    }
    assert(cols.subrange(0, num_columns as int) =~= cols);
    if 0 < num_nonempty && num_nonempty < num_columns {
        let first_len = response[0].len();
        let ghost target = spec_arranged(rd, num_columns as nat);
        for idx in num_nonempty..num_columns
            invariant
                0 < num_nonempty < num_columns,
                response.len() == num_columns,
                first_len == cols[0].len(),
                target == spec_arranged(rd, num_columns as nat),
                cols == raw_columns(rd, num_columns as nat),
                num_nonempty == count_nonempty(cols),
                forall|k: int| 0 <= k < idx ==> response.deep_view()[k] == target[k],
                forall|k: int| idx <= k < num_columns ==> response.deep_view()[k] == cols[k],
                cols.len() == num_columns,
        {
            let filler = empty_strings(first_len);
            let ghost before = response@;
            response.set(idx, filler);
            proof {
                assert(response@[idx as int] == filler);
                assert(target[idx as int] =~= filler.deep_view());
                assert forall|k: int| 0 <= k < response@.len() && k != idx implies response@[k]
                    == before[k] by {}
                assert(response.deep_view()[idx as int] =~= target[idx as int]);
            }
        }
        assert(response.deep_view() =~= target);
    }
    response
}

/// Pairs each column with its key: the name at the same index, or the
/// index itself where no names were given.
pub fn label_columns(column_names: Option<Vec<String>>, columns: Vec<Vec<String>>) -> (labeled: Vec<
    (ColumnKey, Vec<String>),
>)
    requires
        column_names matches Some(names) ==> names.len() >= columns.len(),
    ensures
        labeled.len() == columns.len(),
        forall|k: int|
            0 <= k < columns.len() ==> {
                &&& (#[trigger] labeled@[k]).1.deep_view() == columns@[k].deep_view()
                &&& match column_names {
                    Some(names) => labeled@[k].0 matches ColumnKey::Name(s) && s@ == names@[k]@,
                    None => labeled@[k].0 == ColumnKey::Index(k as i64),
                }
            },
{
    let mut labeled: Vec<(ColumnKey, Vec<String>)> = Vec::new();
    for k in 0..columns.len()
        invariant
            labeled.len() == k,
            column_names matches Some(names) ==> names.len() >= columns.len(),
            forall|i: int|
                0 <= i < k ==> {
                    &&& (#[trigger] labeled@[i]).1.deep_view() == columns@[i].deep_view()
                    &&& match column_names {
                        Some(names) => labeled@[i].0 matches ColumnKey::Name(s) && s@ == names@[i]@,
                        None => labeled@[i].0 == ColumnKey::Index(i as i64),
                    }
                },
    {
        let key = match &column_names {
            Some(names) => ColumnKey::Name(names[k].clone()),
            None => ColumnKey::Index(k as i64),
        };
        let cells = copy_strings(&columns[k]);
        labeled.push((key, cells));
    }
    labeled
}

} // verus!
