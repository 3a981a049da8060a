//! Table, column and row digests: SHA-256, rendered as lowercase hexadecimal.

use vstd::prelude::*;
use vstd::string::*;
use crate::table::{Table, TableModel};

verus! {

/// The lowercase hexadecimal SHA-256 digest of the UTF-8 encoding of a text.
pub uninterp spec fn sha256_hex(text: Seq<char>) -> Seq<char>;

/// Relies on `sha2::Sha256::digest` and the lowercase-hex rendering of its
/// 32-byte output (two digits per byte, so 64 characters).
#[verifier::external_body]
fn sha256_hex_of(text: &str) -> (r: String)
    ensures
        r@ == sha256_hex(text@),
        r@.len() == 64,
        forall|i: int|
            #![trigger r@[i]]
            0 <= i < r@.len() ==> ('0' <= r@[i] <= '9' || 'a' <= r@[i] <= 'f'),
{
    format!("{:x}", <sha2::Sha256 as sha2::Digest>::digest(text.as_bytes()))
}

/// A digest as rendered here: 64 lowercase hexadecimal digits.
pub open spec fn is_hex_digest(s: Seq<char>) -> bool {
    &&& s.len() == 64
    &&& forall|i: int| #![trigger s[i]] 0 <= i < s.len() ==> ('0' <= s[i] <= '9' || 'a' <= s[i] <= 'f')
}

/// The texts of a sequence, one after another with no separator.
pub open spec fn concat_all(parts: Seq<Seq<char>>) -> Seq<char>
    decreases parts.len(),
{
    if parts.len() == 0 {
        Seq::empty()
    } else {
        concat_all(parts.drop_last()) + parts.last()
    }
}

/// The cell of row `row` at column `col`, empty where the row is shorter.
pub open spec fn cell_or_empty(row: Seq<Seq<char>>, col: int) -> Seq<char> {
    if 0 <= col < row.len() {
        row[col]
    } else {
        Seq::empty()
    }
}

/// The cells of column `col` across all rows, in row order.
pub open spec fn column_cells(rows: Seq<Seq<Seq<char>>>, col: int) -> Seq<Seq<char>> {
    rows.map_values(|row: Seq<Seq<char>>| cell_or_empty(row, col))
}

/// What the digest of column `col` is taken over: its header, then its cells.
pub open spec fn column_input(t: TableModel, col: int) -> Seq<char> {
    t.headers[col] + concat_all(column_cells(t.rows, col))
}

/// What the table digest is taken over: all headers, then every cell in
/// row-major order.
pub open spec fn table_input(t: TableModel) -> Seq<char> {
    concat_all(t.headers) + concat_all(t.rows.map_values(|row: Seq<Seq<char>>| concat_all(row)))
}

pub open spec fn column_digest(t: TableModel, col: int) -> Seq<char> {
    sha256_hex(column_input(t, col))
}

pub open spec fn row_digest(row: Seq<Seq<char>>) -> Seq<char> {
    sha256_hex(concat_all(row))
}

pub open spec fn table_digest(t: TableModel) -> Seq<char> {
    sha256_hex(table_input(t))
}

/// No header after index `i` has the same name as header `i`.
pub open spec fn last_of_name(headers: Seq<Seq<char>>, i: int) -> bool {
    forall|j: int| i < j < headers.len() ==> headers[j] != headers[i]
}

/// The (header, column digest) entries for the columns before `n`, keeping for
/// each header name only its last column.
pub open spec fn column_entries(t: TableModel, n: int) -> Seq<(Seq<char>, Seq<char>)>
    decreases n,
{
    if n <= 0 {
        Seq::empty()
    } else {
        let prev = column_entries(t, n - 1);
        if last_of_name(t.headers, n - 1) {
            prev.push((t.headers[n - 1], column_digest(t, n - 1)))
        } else {
            prev
        }
    }
}

/// The digests of a table as mathematical values.
pub struct TableHashesModel {
    pub table_hash: Seq<char>,
    pub header_hashes: Seq<(Seq<char>, Seq<char>)>,
    pub row_hashes: Option<Seq<Seq<char>>>,
}

/// All the digests of a table.
pub open spec fn hashes_of(t: TableModel) -> TableHashesModel {
    TableHashesModel {
        table_hash: table_digest(t),
        header_hashes: column_entries(t, t.headers.len() as int),
        row_hashes: Some(t.rows.map_values(|row: Seq<Seq<char>>| row_digest(row))),
    }
}

pub open spec fn entries_view(v: Seq<(String, String)>) -> Seq<(Seq<char>, Seq<char>)> {
    v.map_values(|e: (String, String)| (e.0@, e.1@))
}

/// Integrity digests of a table: one for the whole table, one per header name
/// (a repeated name keeps the digest of its last column), one per row.
#[derive(Debug, Clone)]
pub struct TableHashes {
    pub table_hash: String,
    pub header_hashes: Vec<(String, String)>,
    pub row_hashes: Option<Vec<String>>,
}

impl View for TableHashes {
    type V = TableHashesModel;

    open spec fn view(&self) -> TableHashesModel {
        TableHashesModel {
            table_hash: self.table_hash@,
            header_hashes: entries_view(self.header_hashes@),
            row_hashes: self.row_hashes.deep_view(),
        }
    }
}

impl TableHashes {
    /// Computes the table digest, the column digests and the row digests.
    pub fn compute(table: &Table) -> (r: TableHashes)
        ensures
            r@ == hashes_of(table@),
            is_hex_digest(r.table_hash@),
            forall|e: int|
                0 <= e < r.header_hashes@.len() ==> is_hex_digest(#[trigger] r.header_hashes@[e].1@),
            r.row_hashes is Some,
            forall|i: int|
                0 <= i < r.row_hashes->0@.len() ==> is_hex_digest(#[trigger] r.row_hashes->0@[i]@),
    {
        let ghost t = table@;
        let n = table.headers.len();
        let mut header_hashes: Vec<(String, String)> = Vec::new();
        let mut idx: usize = 0;
        while idx < n
            invariant
                n == table.headers.len(),
                t == table@,
                idx <= n,
                entries_view(header_hashes@) =~= column_entries(t, idx as int),
                forall|e: int|
                    0 <= e < header_hashes@.len() ==> is_hex_digest(
                        #[trigger] header_hashes@[e].1@,
                    ),
            decreases n - idx,
        {
            let ghost prev = entries_view(header_hashes@);
            let mut later = false;
            let mut j: usize = idx + 1;
            while j < n
                invariant
                    n == table.headers.len(),
                    t == table@,
                    idx < j <= n,
                    later == exists|k: int| idx < k < j && t.headers[k] == t.headers[idx as int],
                decreases n - j,
            {
                if table.headers[j] == table.headers[idx] {
                    later = true;
                    assert(t.headers[j as int] == t.headers[idx as int]);
                } else {
                    assert(t.headers[j as int] != t.headers[idx as int]);
                }
                assert(later == exists|k: int|
                    idx < k < j + 1 && t.headers[k] == t.headers[idx as int]) by {
                    if !later {
                        assert forall|k: int| idx < k < j + 1 implies t.headers[k]
                            != t.headers[idx as int] by {
                            if k < j {
                            }
                        }
                    }
                }
                j += 1;
            }
            if !later {
                let hash = Self::hash_column(&table.headers[idx], &table.rows, idx);
                let ghost before = header_hashes@;
                let ghost digest = hash@;
                assert(is_hex_digest(digest));
                header_hashes.push((table.headers[idx].clone(), hash));
                assert forall|e: int| 0 <= e < header_hashes@.len() implies is_hex_digest(
                    #[trigger] header_hashes@[e].1@,
                ) by {
                    if e < before.len() {
                        assert(header_hashes@[e] == before[e]);
                        assert(is_hex_digest(before[e].1@));
                    } else {
                        assert(header_hashes@[e].1@ == digest);
                    }
                }
                assert(entries_view(header_hashes@) =~= prev.push(
                    (t.headers[idx as int], column_digest(t, idx as int)),
                ));
            }
            idx += 1;
        }
        let table_hash = Self::hash_table(&table.headers, &table.rows);
        let mut row_hashes: Vec<String> = Vec::new();
        let mut i: usize = 0;
        while i < table.rows.len()
            invariant
                t == table@,
                i <= table.rows.len(),
                row_hashes.deep_view() =~= t.rows.subrange(0, i as int).map_values(
                    |row: Seq<Seq<char>>| row_digest(row),
                ),
                forall|k: int| 0 <= k < row_hashes@.len() ==> is_hex_digest(#[trigger] row_hashes@[k]@),
            decreases table.rows.len() - i,
        {
            let ghost prev = row_hashes.deep_view();
            let hash = Self::hash_row(&table.rows[i]);
            row_hashes.push(hash);
            assert(row_hashes.deep_view() =~= prev.push(hash@));
            i += 1;
        }
        assert(t.rows.subrange(0, i as int) =~= t.rows);
        TableHashes { table_hash, header_hashes, row_hashes: Some(row_hashes) }
    }

    /// The texts of `parts`, one after another.
    fn concat_cells(parts: &Vec<String>) -> (r: String)
        ensures
            r@ == concat_all(parts.deep_view()),
    {
        let mut acc = String::new();
        let mut i: usize = 0;
        while i < parts.len()
            invariant
                i <= parts.len(),
                acc@ == concat_all(parts.deep_view().subrange(0, i as int)),
            decreases parts.len() - i,
        {
            acc.append(parts[i].as_str());
            assert(parts.deep_view().subrange(0, i + 1).drop_last() =~= parts.deep_view().subrange(
                0,
                i as int,
            ));
            i += 1;
        }
        assert(parts.deep_view().subrange(0, i as int) =~= parts.deep_view());
        acc
    }

    /// The digest of column `idx`: its header, then its cells in row order.
    fn hash_column(header: &String, rows: &Vec<Vec<String>>, idx: usize) -> (r: String)
        ensures
            r@ == sha256_hex(header@ + concat_all(column_cells(rows.deep_view(), idx as int))),
            is_hex_digest(r@),
    {
        let ghost cells = column_cells(rows.deep_view(), idx as int);
        let mut acc = header.clone();
        let mut body = String::new();
        let mut i: usize = 0;
        while i < rows.len()
            invariant
                i <= rows.len(),
                cells == column_cells(rows.deep_view(), idx as int),
                body@ == concat_all(cells.subrange(0, i as int)),
            decreases rows.len() - i,
        {
            if idx < rows[i].len() {
                body.append(rows[i][idx].as_str());
            }
            assert(cells.subrange(0, i + 1).drop_last() =~= cells.subrange(0, i as int));
            i += 1;
        }
        assert(cells.subrange(0, i as int) =~= cells);
        acc.append(body.as_str());
        sha256_hex_of(acc.as_str())
    }

    /// The digest of one row: its cells in order.
    fn hash_row(row: &Vec<String>) -> (r: String)
        ensures
            r@ == row_digest(row.deep_view()),
            is_hex_digest(r@),
    {
        let text = Self::concat_cells(row);
        sha256_hex_of(text.as_str())
    }

    /// The digest of the whole table: all headers, then all cells row by row.
    fn hash_table(headers: &Vec<String>, rows: &Vec<Vec<String>>) -> (r: String)
        ensures
            r@ == sha256_hex(
                concat_all(headers.deep_view()) + concat_all(
                    rows.deep_view().map_values(|row: Seq<Seq<char>>| concat_all(row)),
                ),
            ),
            is_hex_digest(r@),
    {
        let ghost flat = rows.deep_view().map_values(|row: Seq<Seq<char>>| concat_all(row));
        let mut acc = Self::concat_cells(headers);
        let mut body = String::new();
        let mut i: usize = 0;
        while i < rows.len()
            invariant
                i <= rows.len(),
                flat == rows.deep_view().map_values(|row: Seq<Seq<char>>| concat_all(row)),
                body@ == concat_all(flat.subrange(0, i as int)),
            decreases rows.len() - i,
        {
            let text = Self::concat_cells(&rows[i]);
            body.append(text.as_str());
            assert(flat.subrange(0, i + 1).drop_last() =~= flat.subrange(0, i as int));
            i += 1;
        }
        assert(flat.subrange(0, i as int) =~= flat);
        acc.append(body.as_str());
        sha256_hex_of(acc.as_str())
    }
}

/// Hashing is deterministic: two computations of the digests of one table
/// agree on the table digest, on every column digest and on every row digest.
pub proof fn lemma_hashes_deterministic(t: Table, a: TableHashes, b: TableHashes)
    requires
        a@ == hashes_of(t@),
        b@ == hashes_of(t@),
    ensures
        a@.table_hash == b@.table_hash,
        a@.header_hashes == b@.header_hashes,
        a@.row_hashes == b@.row_hashes,
{
}

/// `t` with the cell at row `r`, column `c` set to `v`.
pub open spec fn with_cell(t: TableModel, r: int, c: int, v: Seq<char>) -> TableModel {
    TableModel { rows: t.rows.update(r, t.rows[r].update(c, v)), ..t }
}

proof fn lemma_concat_append(a: Seq<Seq<char>>, b: Seq<Seq<char>>)
    ensures
        concat_all(a + b) == concat_all(a) + concat_all(b),
    decreases b.len(),
{
    if b.len() == 0 {
        assert(a + b =~= a);
        assert(concat_all(a) + concat_all(b) =~= concat_all(a));
    } else {
        assert((a + b).drop_last() =~= a + b.drop_last());
        lemma_concat_append(a, b.drop_last());
        assert(concat_all(a + b) =~= concat_all(a) + concat_all(b));
    }
}

proof fn lemma_middle_differs(p: Seq<char>, x: Seq<char>, y: Seq<char>, q: Seq<char>)
    requires
        x != y,
    ensures
        p + x + q != p + y + q,
{
    if x.len() == y.len() {
        let i = choose|i: int| 0 <= i < x.len() && x[i] != y[i];
        if !(exists|i: int| 0 <= i < x.len() && x[i] != y[i]) {
            assert(x =~= y);
        }
        assert((p + x + q)[p.len() + i] == x[i]);
        assert((p + y + q)[p.len() + i] == y[i]);
    } else {
        assert((p + x + q).len() != (p + y + q).len());
    }
}

proof fn lemma_concat_update(s: Seq<Seq<char>>, k: int, v: Seq<char>)
    requires
        0 <= k < s.len(),
        v != s[k],
    ensures
        concat_all(s.update(k, v)) != concat_all(s),
{
    let pre = s.subrange(0, k);
    let post = s.subrange(k + 1, s.len() as int);
    assert(s =~= pre + seq![s[k]] + post);
    assert(s.update(k, v) =~= pre + seq![v] + post);
    lemma_concat_append(pre + seq![s[k]], post);
    lemma_concat_append(pre, seq![s[k]]);
    lemma_concat_append(pre + seq![v], post);
    lemma_concat_append(pre, seq![v]);
    assert(seq![v].drop_last() =~= Seq::<Seq<char>>::empty());
    assert(seq![s[k]].drop_last() =~= Seq::<Seq<char>>::empty());
    assert(concat_all(Seq::<Seq<char>>::empty()) =~= Seq::<char>::empty());
    assert(concat_all(seq![v]) =~= v);
    assert(concat_all(seq![s[k]]) =~= s[k]);
    lemma_middle_differs(concat_all(pre), v, s[k], concat_all(post));
}

/// Changing one cell changes the text that the table digest is taken over,
/// and the texts that the digests of its row and of its column are taken over,
/// and leaves the digest of every other row and every other column as it was.
pub proof fn lemma_cell_change_inputs(t: TableModel, r: int, c: int, v: Seq<char>)
    requires
        0 <= r < t.rows.len(),
        0 <= c < t.rows[r].len(),
        v != t.rows[r][c],
    ensures
        table_input(with_cell(t, r, c, v)) != table_input(t),
        concat_all(with_cell(t, r, c, v).rows[r]) != concat_all(t.rows[r]),
        c < t.headers.len() ==> column_input(with_cell(t, r, c, v), c) != column_input(t, c),
        forall|i: int|
            0 <= i < t.rows.len() && i != r ==> row_digest(with_cell(t, r, c, v).rows[i])
                == row_digest(t.rows[i]),
        forall|j: int|
            0 <= j < t.headers.len() && j != c ==> column_digest(with_cell(t, r, c, v), j)
                == column_digest(t, j),
{
    let u = with_cell(t, r, c, v);
    lemma_concat_update(t.rows[r], c, v);
    let flat_t = t.rows.map_values(|row: Seq<Seq<char>>| concat_all(row));
    let flat_u = u.rows.map_values(|row: Seq<Seq<char>>| concat_all(row));
    assert(flat_u =~= flat_t.update(r, concat_all(u.rows[r])));
    lemma_concat_update(flat_t, r, concat_all(u.rows[r]));
    lemma_middle_differs(concat_all(t.headers), concat_all(flat_u), concat_all(flat_t), Seq::empty());
    assert(table_input(u) =~= concat_all(t.headers) + concat_all(flat_u) + Seq::<char>::empty());
    assert(table_input(t) =~= concat_all(t.headers) + concat_all(flat_t) + Seq::<char>::empty());
    if c < t.headers.len() {
        let cells_t = column_cells(t.rows, c);
        assert(column_cells(u.rows, c) =~= cells_t.update(r, v));
        lemma_concat_update(cells_t, r, v);
        lemma_middle_differs(
            t.headers[c],
            concat_all(column_cells(u.rows, c)),
            concat_all(cells_t),
            Seq::empty(),
        );
        assert(column_input(u, c) =~= t.headers[c] + concat_all(column_cells(u.rows, c))
            + Seq::<char>::empty());
        assert(column_input(t, c) =~= t.headers[c] + concat_all(cells_t) + Seq::<char>::empty());
    }
    assert forall|j: int| 0 <= j < t.headers.len() && j != c implies column_digest(u, j)
        == column_digest(t, j) by {
        assert(column_cells(u.rows, j) =~= column_cells(t.rows, j));
    }
}

/// Entry `e` of `entries` is named by header `k`, the last column of its name.
pub open spec fn entry_from(t: TableModel, entries: Seq<(Seq<char>, Seq<char>)>, e: int, k: int) -> bool {
    0 <= k < t.headers.len() && last_of_name(t.headers, k) && entries[e] == (
        t.headers[k],
        column_digest(t, k),
    )
}

/// Entry `e` of `entries` is named by some header before `n` that is the last
/// column of its name.
pub open spec fn named_before(t: TableModel, entries: Seq<(Seq<char>, Seq<char>)>, e: int, n: int) -> bool {
    exists|k: int| k < n && entry_from(t, entries, e, k)
}

proof fn lemma_entry_sound(t: TableModel, n: int, e: int)
    requires
        0 <= n <= t.headers.len(),
        0 <= e < column_entries(t, n).len(),
    ensures
        named_before(t, column_entries(t, n), e, n),
    decreases n,
{
    let prev = column_entries(t, n - 1);
    let cur = column_entries(t, n);
    if e < prev.len() {
        lemma_entry_sound(t, n - 1, e);
        assert(cur[e] == prev[e]);
        let k = choose|k: int| k < n - 1 && entry_from(t, prev, e, k);
        assert(entry_from(t, cur, e, k));
    } else {
        assert(entry_from(t, cur, e, n - 1));
    }
}

proof fn lemma_entry_unique(t: TableModel, n: int, e1: int, e2: int)
    requires
        0 <= n <= t.headers.len(),
        0 <= e1 < e2 < column_entries(t, n).len(),
    ensures
        column_entries(t, n)[e1].0 != column_entries(t, n)[e2].0,
    decreases n,
{
    let prev = column_entries(t, n - 1);
    let cur = column_entries(t, n);
    assert(cur[e1] == prev[e1]);
    if e2 < prev.len() {
        assert(cur[e2] == prev[e2]);
        lemma_entry_unique(t, n - 1, e1, e2);
    } else {
        lemma_entry_sound(t, n - 1, e1);
        let k = choose|k: int| k < n - 1 && entry_from(t, prev, e1, k);
        assert(t.headers[n - 1] != t.headers[k]);
    }
}

proof fn lemma_entries_complete(t: TableModel, n: int, k: int)
    requires
        0 <= k < n <= t.headers.len(),
        last_of_name(t.headers, k),
    ensures
        exists|e: int| 0 <= e < column_entries(t, n).len() && entry_from(t, column_entries(t, n), e, k),
    decreases n,
{
    let prev = column_entries(t, n - 1);
    let cur = column_entries(t, n);
    if k < n - 1 {
        lemma_entries_complete(t, n - 1, k);
        let e = choose|e: int| 0 <= e < prev.len() && entry_from(t, prev, e, k);
        if last_of_name(t.headers, n - 1) {
            assert(cur[e] == prev[e]);
        }
        assert(entry_from(t, cur, e, k));
    } else {
        assert(entry_from(t, cur, prev.len() as int, k));
    }
}

proof fn lemma_last_occurrence(headers: Seq<Seq<char>>, k: int, j: int)
    requires
        0 <= k <= j < headers.len(),
        headers[j] == headers[k],
    ensures
        exists|m: int| k <= m < headers.len() && last_of_name(headers, m) && headers[m] == headers[k],
    decreases headers.len() - j,
{
    if !last_of_name(headers, j) {
        let m = choose|m: int| j < m < headers.len() && headers[m] == headers[j];
        lemma_last_occurrence(headers, k, m);
    }
}

/// The per-header digests form a mapping from header names: no name appears
/// twice among them, every header name of the table appears, and each entry
/// holds the digest of the last column bearing its name.
pub proof fn lemma_header_hashes_keyed_by_name(t: TableModel)
    ensures
        forall|e1: int, e2: int|
            0 <= e1 < e2 < hashes_of(t).header_hashes.len() ==> #[trigger] hashes_of(
                t,
            ).header_hashes[e1].0 != #[trigger] hashes_of(t).header_hashes[e2].0,
        forall|e: int|
            0 <= e < hashes_of(t).header_hashes.len() ==> #[trigger] named_before(
                t,
                hashes_of(t).header_hashes,
                e,
                t.headers.len() as int,
            ),
        forall|k: int|
            #![trigger t.headers[k]]
            0 <= k < t.headers.len() ==> exists|e: int|
                0 <= e < hashes_of(t).header_hashes.len() && #[trigger] hashes_of(
                    t,
                ).header_hashes[e].0 == t.headers[k],
{
    let n = t.headers.len() as int;
    let entries = column_entries(t, n);
    assert(hashes_of(t).header_hashes == entries);
    assert forall|e1: int, e2: int|
        0 <= e1 < e2 < hashes_of(t).header_hashes.len() implies #[trigger] hashes_of(
            t,
        ).header_hashes[e1].0 != #[trigger] hashes_of(t).header_hashes[e2].0 by {
        lemma_entry_unique(t, n, e1, e2);
    }
    assert forall|e: int|
        0 <= e < hashes_of(t).header_hashes.len() implies #[trigger] named_before(
            t,
            hashes_of(t).header_hashes,
            e,
            t.headers.len() as int,
        ) by {
        lemma_entry_sound(t, n, e);
    }
    assert forall|k: int| #![trigger t.headers[k]] 0 <= k < n implies exists|e: int|
        0 <= e < hashes_of(t).header_hashes.len() && #[trigger] hashes_of(t).header_hashes[e].0
            == t.headers[k] by {
        lemma_last_occurrence(t.headers, k, k);
        let m = choose|m: int| k <= m < n && last_of_name(t.headers, m) && t.headers[m] == t.headers[k];
        lemma_entries_complete(t, n, m);
        let e = choose|e: int| 0 <= e < entries.len() && entry_from(t, entries, e, m);
        assert(hashes_of(t).header_hashes[e].0 == t.headers[k]);
    }
}

} // verus!
