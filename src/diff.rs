//! Structural differences between the tables of two snapshots: columns by
//! name, rows by position.

use vstd::prelude::*;
use crate::table::TableModel;
use crate::snapshot::Snapshot;

verus! {

/// One difference between two tables.
#[derive(Debug, Clone)]
pub enum Change {
    RowAdded { index: usize, data: Vec<String> },
    RowRemoved { index: usize, data: Vec<String> },
    CellChanged { row: usize, col: usize, old_value: String, new_value: String },
    ColumnAdded { name: String, index: usize },
    ColumnRemoved { name: String, index: usize },
}

/// A change as mathematical values.
pub enum ChangeModel {
    RowAdded { index: nat, data: Seq<Seq<char>> },
    RowRemoved { index: nat, data: Seq<Seq<char>> },
    CellChanged { row: nat, col: nat, old_value: Seq<char>, new_value: Seq<char> },
    ColumnAdded { name: Seq<char>, index: nat },
    ColumnRemoved { name: Seq<char>, index: nat },
}

impl View for Change {
    type V = ChangeModel;

    open spec fn view(&self) -> ChangeModel {
        match self {
            Change::RowAdded { index, data } => ChangeModel::RowAdded {
                index: *index as nat,
                data: data.deep_view(),
            },
            Change::RowRemoved { index, data } => ChangeModel::RowRemoved {
                index: *index as nat,
                data: data.deep_view(),
            },
            Change::CellChanged { row, col, old_value, new_value } => ChangeModel::CellChanged {
                row: *row as nat,
                col: *col as nat,
                old_value: old_value@,
                new_value: new_value@,
            },
            Change::ColumnAdded { name, index } => ChangeModel::ColumnAdded {
                name: name@,
                index: *index as nat,
            },
            Change::ColumnRemoved { name, index } => ChangeModel::ColumnRemoved {
                name: name@,
                index: *index as nat,
            },
        }
    }
}

/// Counts of the differences between two tables.
#[derive(Debug, Clone, Copy, PartialEq, Eq, Structural)]
pub struct DiffSummary {
    pub rows_added: usize,
    pub rows_removed: usize,
    pub rows_modified: usize,
    pub columns_added: usize,
    pub columns_removed: usize,
}

/// The differences from one snapshot to another.
#[derive(Debug, Clone)]
pub struct SnapshotDiff {
    pub from_id: String,
    pub to_id: String,
    pub summary: DiffSummary,
    pub changes: Vec<Change>,
}

pub open spec fn changes_view(v: Seq<Change>) -> Seq<ChangeModel> {
    v.map_values(|c: Change| c@)
}

/// For the first `n` headers of `headers`, those whose name is not among
/// `other`: `ColumnAdded` records when `added`, else `ColumnRemoved` records,
/// with their index in `headers`.
pub open spec fn header_changes(
    other: Seq<Seq<char>>,
    headers: Seq<Seq<char>>,
    n: int,
    added: bool,
) -> Seq<ChangeModel>
    decreases n,
{
    if n <= 0 {
        Seq::empty()
    } else {
        let prev = header_changes(other, headers, n - 1, added);
        if other.contains(headers[n - 1]) {
            prev
        } else if added {
            prev.push(ChangeModel::ColumnAdded { name: headers[n - 1], index: (n - 1) as nat })
        } else {
            prev.push(ChangeModel::ColumnRemoved { name: headers[n - 1], index: (n - 1) as nat })
        }
    }
}

/// For the first `n` positions of two rows, a `CellChanged` record at each
/// position where their cells differ.
pub open spec fn cell_changes(
    row: nat,
    a: Seq<Seq<char>>,
    b: Seq<Seq<char>>,
    n: int,
) -> Seq<ChangeModel>
    decreases n,
{
    if n <= 0 {
        Seq::empty()
    } else {
        let prev = cell_changes(row, a, b, n - 1);
        if a[n - 1] != b[n - 1] {
            prev.push(
                ChangeModel::CellChanged {
                    row,
                    col: (n - 1) as nat,
                    old_value: a[n - 1],
                    new_value: b[n - 1],
                },
            )
        } else {
            prev
        }
    }
}

pub open spec fn min(a: int, b: int) -> int {
    if a <= b {
        a
    } else {
        b
    }
}

pub open spec fn max(a: int, b: int) -> int {
    if a >= b {
        a
    } else {
        b
    }
}

/// The changes at row position `i`.
pub open spec fn row_changes(
    from: Seq<Seq<Seq<char>>>,
    to: Seq<Seq<Seq<char>>>,
    i: int,
) -> Seq<ChangeModel> {
    if i >= from.len() {
        seq![ChangeModel::RowAdded { index: i as nat, data: to[i] }]
    } else if i >= to.len() {
        seq![ChangeModel::RowRemoved { index: i as nat, data: from[i] }]
    } else if from[i] == to[i] {
        Seq::empty()
    } else {
        cell_changes(i as nat, from[i], to[i], min(from[i].len() as int, to[i].len() as int))
    }
}

/// The changes at row positions below `n`, in position order.
pub open spec fn rows_changes(
    from: Seq<Seq<Seq<char>>>,
    to: Seq<Seq<Seq<char>>>,
    n: int,
) -> Seq<ChangeModel>
    decreases n,
{
    if n <= 0 {
        Seq::empty()
    } else {
        rows_changes(from, to, n - 1) + row_changes(from, to, n - 1)
    }
}

/// The number of row positions below `n` that both tables have and where
/// their rows differ.
pub open spec fn modified_rows(from: Seq<Seq<Seq<char>>>, to: Seq<Seq<Seq<char>>>, n: int) -> nat
    decreases n,
{
    if n <= 0 {
        0
    } else {
        let i = n - 1;
        modified_rows(from, to, i) + if i < from.len() && i < to.len() && from[i] != to[i] {
            1nat
        } else {
            0nat
        }
    }
}

/// Every change from table `from` to table `to`: added columns, then removed
/// columns, then row changes by position.
pub open spec fn table_changes(from: TableModel, to: TableModel) -> Seq<ChangeModel> {
    header_changes(from.headers, to.headers, to.headers.len() as int, true) + header_changes(
        to.headers,
        from.headers,
        from.headers.len() as int,
        false,
    ) + rows_changes(from.rows, to.rows, max(from.rows.len() as int, to.rows.len() as int))
}

/// The summary counts of the changes from table `from` to table `to`.
pub open spec fn summary_matches(s: DiffSummary, from: TableModel, to: TableModel) -> bool {
    &&& s.rows_added == max(to.rows.len() - from.rows.len(), 0)
    &&& s.rows_removed == max(from.rows.len() - to.rows.len(), 0)
    &&& s.rows_modified == modified_rows(
        from.rows,
        to.rows,
        max(from.rows.len() as int, to.rows.len() as int),
    )
    &&& s.columns_added == header_changes(
        from.headers,
        to.headers,
        to.headers.len() as int,
        true,
    ).len()
    &&& s.columns_removed == header_changes(
        to.headers,
        from.headers,
        from.headers.len() as int,
        false,
    ).len()
}

fn has_header(headers: &Vec<String>, name: &String) -> (r: bool)
    ensures
        r == headers.deep_view().contains(name@),
{
    let mut i: usize = 0;
    while i < headers.len()
        invariant
            i <= headers.len(),
            forall|k: int| 0 <= k < i ==> headers.deep_view()[k] != name@,
        decreases headers.len() - i,
    {
        if headers[i] == *name {
            assert(headers.deep_view()[i as int] == name@);
            return true;
        }
        i += 1;
    }
    false
}

fn clone_cells(v: &Vec<String>) -> (r: Vec<String>)
    ensures
        r.deep_view() == v.deep_view(),
{
    let r = v.clone();
    proof {
        assert forall|i: int| 0 <= i < v.len() implies r.deep_view()[i] == v.deep_view()[i] by {
            assert(cloned::<String>(v[i], r[i]));
        }
        assert(r.deep_view() =~= v.deep_view());
    }
    r
}

fn same_cells(a: &Vec<String>, b: &Vec<String>) -> (r: bool)
    ensures
        r == (a.deep_view() == b.deep_view()),
{
    if a.len() != b.len() {
        assert(a.deep_view().len() != b.deep_view().len());
        return false;
    }
    let mut i: usize = 0;
    while i < a.len()
        invariant
            a.len() == b.len(),
            i <= a.len(),
            forall|k: int| 0 <= k < i ==> a.deep_view()[k] == b.deep_view()[k],
        decreases a.len() - i,
    {
        if a[i] != b[i] {
            assert(a.deep_view()[i as int] != b.deep_view()[i as int]);
            return false;
        }
        i += 1;
    }
    assert(a.deep_view() =~= b.deep_view());
    true
}

/// Appends a column record for each header of `headers` whose name is not
/// among `other`, and returns how many it appended.
fn push_header_changes(
    other: &Vec<String>,
    headers: &Vec<String>,
    added: bool,
    changes: &mut Vec<Change>,
) -> (r: usize)
    ensures
        changes_view(final(changes)@) == changes_view(old(changes)@) + header_changes(
            other.deep_view(),
            headers.deep_view(),
            headers.len() as int,
            added,
        ),
        r == header_changes(other.deep_view(), headers.deep_view(), headers.len() as int, added).len(),
{
    let ghost start = changes_view(changes@);
    let mut count: usize = 0;
    let mut idx: usize = 0;
    while idx < headers.len()
        invariant
            idx <= headers.len(),
            count <= idx,
            changes_view(changes@) =~= start + header_changes(
                other.deep_view(),
                headers.deep_view(),
                idx as int,
                added,
            ),
            count == header_changes(other.deep_view(), headers.deep_view(), idx as int, added).len(),
        decreases headers.len() - idx,
    {
        let ghost prev = changes_view(changes@);
        if !has_header(other, &headers[idx]) {
            let name = headers[idx].clone();
            let change = if added {
                Change::ColumnAdded { name, index: idx }
            } else {
                Change::ColumnRemoved { name, index: idx }
            };
            changes.push(change);
            assert(changes_view(changes@) =~= prev.push(change@));
            count += 1;
        }
        idx += 1;
    }
    count
}

/// Appends a `CellChanged` record for each position of the two rows where
/// their cells differ.
fn push_cell_changes(row: usize, a: &Vec<String>, b: &Vec<String>, changes: &mut Vec<Change>)
    ensures
        changes_view(final(changes)@) == changes_view(old(changes)@) + cell_changes(
            row as nat,
            a.deep_view(),
            b.deep_view(),
            min(a.len() as int, b.len() as int),
        ),
{
    let ghost start = changes_view(changes@);
    let n = if a.len() < b.len() {
        a.len()
    } else {
        b.len()
    };
    let mut col: usize = 0;
    while col < n
        invariant
            col <= n,
            n == min(a.len() as int, b.len() as int),
            changes_view(changes@) =~= start + cell_changes(
                row as nat,
                a.deep_view(),
                b.deep_view(),
                col as int,
            ),
        decreases n - col,
    {
        let ghost prev = changes_view(changes@);
        if a[col] != b[col] {
            let change = Change::CellChanged {
                row,
                col,
                old_value: a[col].clone(),
                new_value: b[col].clone(),
            };
            changes.push(change);
            assert(changes_view(changes@) =~= prev.push(change@));
        }
        col += 1;
    }
}

impl SnapshotDiff {
    /// The differences from `from` to `to`: columns compared by name, rows by
    /// position.
    pub fn compute(from: &Snapshot, to: &Snapshot) -> (r: SnapshotDiff)
        ensures
            r.from_id == from.id,
            r.to_id == to.id,
            changes_view(r.changes@) == table_changes(from.table@, to.table@),
            summary_matches(r.summary, from.table@, to.table@),
    {
        let ghost f = from.table@;
        let ghost t = to.table@;
        let mut changes: Vec<Change> = Vec::new();
        let columns_added = push_header_changes(
            &from.table.headers,
            &to.table.headers,
            true,
            &mut changes,
        );
        let columns_removed = push_header_changes(
            &to.table.headers,
            &from.table.headers,
            false,
            &mut changes,
        );
        let ghost columns = changes_view(changes@);
        let from_rows = &from.table.rows;
        let to_rows = &to.table.rows;
        let max_rows = if from_rows.len() >= to_rows.len() {
            from_rows.len()
        } else {
            to_rows.len()
        };
        let mut rows_added: usize = 0;
        let mut rows_removed: usize = 0;
        let mut rows_modified: usize = 0;
        let mut i: usize = 0;
        while i < max_rows
            invariant
                f == from.table@,
                t == to.table@,
                max_rows == max(f.rows.len() as int, t.rows.len() as int),
                i <= max_rows,
                changes_view(changes@) =~= columns + rows_changes(f.rows, t.rows, i as int),
                rows_added == max(min(i as int, t.rows.len() as int) - f.rows.len(), 0),
                rows_removed == max(min(i as int, f.rows.len() as int) - t.rows.len(), 0),
                rows_modified == modified_rows(f.rows, t.rows, i as int),
                rows_modified <= i,
                *from_rows == from.table.rows,
                *to_rows == to.table.rows,
            decreases max_rows - i,
        {
            let ghost before = changes_view(changes@);
            if i >= from_rows.len() {
                let change = Change::RowAdded { index: i, data: clone_cells(&to_rows[i]) };
                changes.push(change);
                assert(changes_view(changes@) =~= before.push(change@));
                rows_added += 1;
            } else if i >= to_rows.len() {
                let change = Change::RowRemoved { index: i, data: clone_cells(&from_rows[i]) };
                changes.push(change);
                assert(changes_view(changes@) =~= before.push(change@));
                rows_removed += 1;
            } else {
                let same = same_cells(&from_rows[i], &to_rows[i]);
                assert(from_rows[i as int].deep_view() == f.rows[i as int]);
                assert(to_rows[i as int].deep_view() == t.rows[i as int]);
                if !same {
                    rows_modified += 1;
                    push_cell_changes(i, &from_rows[i], &to_rows[i], &mut changes);
                }
            }
            assert(changes_view(changes@) =~= before + row_changes(f.rows, t.rows, i as int));
            i += 1;
        }
        let summary = DiffSummary {
            rows_added,
            rows_removed,
            rows_modified,
            columns_added,
            columns_removed,
        };
        SnapshotDiff { from_id: from.id.clone(), to_id: to.id.clone(), summary, changes }
    }
}

proof fn lemma_no_header_changes(headers: Seq<Seq<char>>, n: int, added: bool)
    requires
        n <= headers.len(),
    ensures
        header_changes(headers, headers, n, added) == Seq::<ChangeModel>::empty(),
    decreases n,
{
    if n > 0 {
        lemma_no_header_changes(headers, n - 1, added);
        assert(headers.contains(headers[n - 1]));
    }
}

proof fn lemma_no_row_changes(rows: Seq<Seq<Seq<char>>>, n: int)
    requires
        n <= rows.len(),
    ensures
        rows_changes(rows, rows, n) == Seq::<ChangeModel>::empty(),
        modified_rows(rows, rows, n) == 0,
    decreases n,
{
    if n > 0 {
        lemma_no_row_changes(rows, n - 1);
        assert(rows_changes(rows, rows, n) =~= Seq::<ChangeModel>::empty());
    }
}

/// A table compared with itself has no changes, and every count of the
/// summary is zero.
pub proof fn lemma_diff_identity(t: TableModel)
    ensures
        table_changes(t, t) == Seq::<ChangeModel>::empty(),
        forall|s: DiffSummary|
            summary_matches(s, t, t) ==> s == (DiffSummary {
                rows_added: 0,
                rows_removed: 0,
                rows_modified: 0,
                columns_added: 0,
                columns_removed: 0,
            }),
{
    lemma_no_header_changes(t.headers, t.headers.len() as int, true);
    lemma_no_header_changes(t.headers, t.headers.len() as int, false);
    lemma_no_row_changes(t.rows, t.rows.len() as int);
    assert(table_changes(t, t) =~= Seq::<ChangeModel>::empty());
}

proof fn lemma_header_changes_len(other: Seq<Seq<char>>, headers: Seq<Seq<char>>, n: int)
    ensures
        header_changes(other, headers, n, true).len() == header_changes(
            other,
            headers,
            n,
            false,
        ).len(),
    decreases n,
{
    if n > 0 {
        lemma_header_changes_len(other, headers, n - 1);
    }
}

proof fn lemma_modified_rows_symmetric(a: Seq<Seq<Seq<char>>>, b: Seq<Seq<Seq<char>>>, n: int)
    ensures
        modified_rows(a, b, n) == modified_rows(b, a, n),
    decreases n,
{
    if n > 0 {
        lemma_modified_rows_symmetric(a, b, n - 1);
    }
}

/// Swapping the two tables swaps the counts of added and removed rows, and of
/// added and removed columns, and keeps the count of modified rows.
pub proof fn lemma_diff_counts_swap(a: TableModel, b: TableModel, ab: DiffSummary, ba: DiffSummary)
    requires
        summary_matches(ab, a, b),
        summary_matches(ba, b, a),
    ensures
        ab.rows_added == ba.rows_removed,
        ab.rows_removed == ba.rows_added,
        ab.rows_modified == ba.rows_modified,
        ab.columns_added == ba.columns_removed,
        ab.columns_removed == ba.columns_added,
{
    lemma_modified_rows_symmetric(a.rows, b.rows, max(a.rows.len() as int, b.rows.len() as int));
    lemma_header_changes_len(a.headers, b.headers, b.headers.len() as int);
    lemma_header_changes_len(b.headers, a.headers, a.headers.len() as int);
}

} // verus!
