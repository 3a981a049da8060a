//! In-memory tables: headers, rows of cells, and an optional primary key.

use vstd::prelude::*;
use vstd::string::*;

verus! {

/// A table as mathematical values: header names, rows of cell texts,
/// and the column indices that form the primary key, if any.
pub struct TableModel {
    pub headers: Seq<Seq<char>>,
    pub rows: Seq<Seq<Seq<char>>>,
    pub primary_key: Option<Seq<usize>>,
}

/// Headers plus rows; rows need not have as many cells as there are headers.
#[derive(Debug, Clone)]
pub struct Table {
    pub headers: Vec<String>,
    pub rows: Vec<Vec<String>>,
    pub primary_key: Option<Vec<usize>>,
}

impl View for Table {
    type V = TableModel;

    open spec fn view(&self) -> TableModel {
        TableModel {
            headers: self.headers.deep_view(),
            rows: self.rows.deep_view(),
            primary_key: match self.primary_key {
                Some(k) => Some(k@),
                None => None,
            },
        }
    }
}

/// Delimited text that the reader could not tokenize.
#[derive(Debug)]
pub struct ParseError {
    pub cause: csv::Error,
}

#[verifier::external_type_specification]
#[verifier::external_body]
pub struct ExCsvError(csv::Error);

/// The records that csv's reader yields for a text, header record first;
/// `None` where the reader fails on some record.
pub uninterp spec fn csv_records(text: Seq<char>) -> Option<Seq<Seq<Seq<char>>>>;

/// A character of Unicode's White_Space property.
pub open spec fn is_whitespace(c: char) -> bool {
    let u = c as u32;
    ||| 0x9 <= u <= 0xd
    ||| u == 0x20
    ||| u == 0x85
    ||| u == 0xa0
    ||| u == 0x1680
    ||| 0x2000 <= u <= 0x200a
    ||| u == 0x2028
    ||| u == 0x2029
    ||| u == 0x202f
    ||| u == 0x205f
    ||| u == 0x3000
}

/// The text without its leading whitespace.
pub open spec fn trim_start(s: Seq<char>) -> Seq<char>
    decreases s.len(),
{
    if s.len() > 0 && is_whitespace(s[0]) {
        trim_start(s.drop_first())
    } else {
        s
    }
}

/// The text without its trailing whitespace.
pub open spec fn trim_end(s: Seq<char>) -> Seq<char>
    decreases s.len(),
{
    if s.len() > 0 && is_whitespace(s.last()) {
        trim_end(s.drop_last())
    } else {
        s
    }
}

/// The text with leading and trailing whitespace removed.
pub open spec fn trimmed(s: Seq<char>) -> Seq<char> {
    trim_end(trim_start(s))
}

/// The text neither starts nor ends with whitespace.
pub open spec fn is_trimmed(s: Seq<char>) -> bool {
    s.len() > 0 ==> !is_whitespace(s[0]) && !is_whitespace(s.last())
}

proof fn lemma_trim_start_clean(s: Seq<char>)
    ensures
        trim_start(s).len() > 0 ==> !is_whitespace(trim_start(s)[0]),
    decreases s.len(),
{
    if s.len() > 0 && is_whitespace(s[0]) {
        lemma_trim_start_clean(s.drop_first());
    }
}

proof fn lemma_trim_end_keeps_start(s: Seq<char>)
    ensures
        trim_end(s).len() <= s.len(),
        trim_end(s) == s.subrange(0, trim_end(s).len() as int),
        trim_end(s).len() > 0 ==> !is_whitespace(trim_end(s).last()),
    decreases s.len(),
{
    if s.len() > 0 && is_whitespace(s.last()) {
        lemma_trim_end_keeps_start(s.drop_last());
        assert(s.drop_last().subrange(0, trim_end(s).len() as int) =~= s.subrange(
            0,
            trim_end(s).len() as int,
        ));
    } else {
        assert(s.subrange(0, s.len() as int) =~= s);
    }
}

/// Trimmed text has no whitespace at either end, and trimming it again
/// leaves it as it is.
pub proof fn lemma_trimmed_is_clean(s: Seq<char>)
    ensures
        is_trimmed(trimmed(s)),
        trimmed(trimmed(s)) == trimmed(s),
{
    lemma_trim_start_clean(s);
    lemma_trim_end_keeps_start(trim_start(s));
    let t = trimmed(s);
    if t.len() > 0 {
        assert(t[0] == trim_start(s)[0]);
    }
    lemma_trim_clean_fixed(t);
}

proof fn lemma_trim_clean_fixed(t: Seq<char>)
    requires
        is_trimmed(t),
    ensures
        trimmed(t) == t,
{
    assert(trim_start(t) == t);
}

/// Relies on `csv::Reader::from_reader` with `headers` and `records`: the header
/// record, then each data record, as text; the first error the reader meets.
#[verifier::external_body]
fn read_csv_records(text: &str) -> (r: Result<Vec<Vec<String>>, csv::Error>)
    ensures
        r is Ok <==> csv_records(text@) is Some,
        r is Ok ==> r->Ok_0.deep_view() == csv_records(text@)->0,
{
    let mut reader = csv::Reader::from_reader(text.as_bytes());
    let mut records: Vec<Vec<String>> = Vec::new();
    records.push(reader.headers()?.iter().map(|h| h.to_string()).collect());
    for record in reader.records() {
        records.push(record?.iter().map(|c| c.to_string()).collect());
    }
    Ok(records)
}

/// Relies on `str::trim`: leading and trailing characters with Unicode's
/// White_Space property removed.
#[verifier::external_body]
fn trim_text(s: &str) -> (r: String)
    ensures
        r@ == trimmed(s@),
{
    s.trim().to_string()
}

/// Every cell of a record, trimmed.
pub open spec fn trim_all(cells: Seq<Seq<char>>) -> Seq<Seq<char>> {
    cells.map_values(|c: Seq<char>| trimmed(c))
}

/// The table that a sequence of records describes: the first record gives the
/// headers, the others the rows, every cell trimmed, and no primary key.
pub open spec fn table_of_records(records: Seq<Seq<Seq<char>>>) -> TableModel {
    TableModel {
        headers: if records.len() == 0 { Seq::empty() } else { trim_all(records[0]) },
        rows: if records.len() == 0 {
            Seq::empty()
        } else {
            records.drop_first().map_values(|r: Seq<Seq<char>>| trim_all(r))
        },
        primary_key: None,
    }
}

/// Every header and every cell of the table neither starts nor ends with
/// whitespace.
pub open spec fn all_trimmed(t: TableModel) -> bool {
    &&& forall|i: int| 0 <= i < t.headers.len() ==> is_trimmed(#[trigger] t.headers[i])
    &&& forall|r: int, c: int|
        0 <= r < t.rows.len() && 0 <= c < t.rows[r].len() ==> is_trimmed(#[trigger] t.rows[r][c])
}

proof fn lemma_records_trimmed(records: Seq<Seq<Seq<char>>>)
    ensures
        all_trimmed(table_of_records(records)),
{
    let t = table_of_records(records);
    assert forall|i: int| 0 <= i < t.headers.len() implies is_trimmed(#[trigger] t.headers[i]) by {
        lemma_trimmed_is_clean(records[0][i]);
    }
    assert forall|r: int, c: int| 0 <= r < t.rows.len() && 0 <= c < t.rows[r].len() implies is_trimmed(
        #[trigger] t.rows[r][c],
    ) by {
        lemma_trimmed_is_clean(records[r + 1][c]);
    }
}

/// The cells of `row` at the indices of `key`, in key order, skipping indices
/// past the end of the row.
pub open spec fn key_cells(row: Seq<Seq<char>>, key: Seq<usize>) -> Seq<Seq<char>>
    decreases key.len(),
{
    if key.len() == 0 {
        Seq::empty()
    } else {
        let prev = key_cells(row, key.drop_last());
        if (key.last() as int) < row.len() {
            prev.push(row[key.last() as int])
        } else {
            prev
        }
    }
}

/// The primary-key value of row `i`: absent without a key or without such a row.
pub open spec fn row_key(t: TableModel, i: int) -> Option<Seq<Seq<char>>> {
    match t.primary_key {
        Some(key) => if 0 <= i < t.rows.len() {
            Some(key_cells(t.rows[i], key))
        } else {
            None
        },
        None => None,
    }
}

fn trim_cells(cells: &Vec<String>) -> (r: Vec<String>)
    ensures
        r.deep_view() == trim_all(cells.deep_view()),
{
    let mut out: Vec<String> = Vec::new();
    let mut i: usize = 0;
    while i < cells.len()
        invariant
            i <= cells.len(),
            out.deep_view() =~= trim_all(cells.deep_view().subrange(0, i as int)),
        decreases cells.len() - i,
    {
        let ghost prev = out.deep_view();
        let cell = trim_text(cells[i].as_str());
        out.push(cell);
        assert(out.deep_view() =~= prev.push(cell@));
        assert(cells.deep_view().subrange(0, i + 1) =~= cells.deep_view().subrange(
            0,
            i as int,
        ).push(cells.deep_view()[i as int]));
        i += 1;
    }
    assert(cells.deep_view().subrange(0, i as int) =~= cells.deep_view());
    out
}

impl Table {
    /// Builds a table from delimited text whose first line holds the headers;
    /// every header and cell is trimmed.
    pub fn from_csv_str(text: &str) -> (r: Result<Table, ParseError>)
        ensures
            r is Ok <==> csv_records(text@) is Some,
            r is Ok ==> r->Ok_0@ == table_of_records(csv_records(text@)->0),
            r is Ok ==> all_trimmed(r->Ok_0@),
    {
        match read_csv_records(text) {
            Ok(records) => Ok(Self::from_records(&records)),
            Err(e) => Err(ParseError { cause: e }),
        }
    }

    /// The table that records describe: the first record gives the headers,
    /// the others the rows, every cell trimmed, and no primary key.
    pub fn from_records(records: &Vec<Vec<String>>) -> (r: Table)
        ensures
            r@ == table_of_records(records.deep_view()),
            all_trimmed(r@),
    {
        let ghost recs = records.deep_view();
        let mut headers: Vec<String> = Vec::new();
        let mut rows: Vec<Vec<String>> = Vec::new();
        if records.len() > 0 {
            headers = trim_cells(&records[0]);
            let mut i: usize = 1;
            while i < records.len()
                invariant
                    1 <= i <= records.len(),
                    recs == records.deep_view(),
                    rows.deep_view() =~= recs.drop_first().subrange(0, i - 1).map_values(
                        |r: Seq<Seq<char>>| trim_all(r),
                    ),
                decreases records.len() - i,
            {
                let ghost prev = rows.deep_view();
                let row = trim_cells(&records[i]);
                rows.push(row);
                assert(rows.deep_view() =~= prev.push(row.deep_view()));
                assert(recs.drop_first().subrange(0, i as int) =~= recs.drop_first().subrange(
                    0,
                    i - 1,
                ).push(recs[i as int]));
                i += 1;
            }
            assert(recs.drop_first().subrange(0, i - 1) =~= recs.drop_first());
        }
        let t = Table { headers, rows, primary_key: None };
        assert(t@.headers =~= table_of_records(recs).headers);
        assert(t@.rows =~= table_of_records(recs).rows);
        proof {
            lemma_records_trimmed(recs);
        }
        t
    }

    /// Replaces the primary-key column indices; they are not checked against
    /// the headers.
    pub fn set_primary_key(&mut self, column_indices: Vec<usize>)
        ensures
            final(self).headers == old(self).headers,
            final(self).rows == old(self).rows,
            final(self).primary_key == Some(column_indices),
    {
        self.primary_key = Some(column_indices);
    }

    /// The primary-key cells of row `row_idx`, or `None` where no key is set or
    /// the row does not exist.
    pub fn get_row_key(&self, row_idx: usize) -> (r: Option<Vec<String>>)
        ensures
            r.deep_view() == row_key(self@, row_idx as int),
    {
        let key = match &self.primary_key {
            Some(k) => k,
            None => {
                return None;
            },
        };
        if row_idx >= self.rows.len() {
            return None;
        }
        let row = &self.rows[row_idx];
        let mut out: Vec<String> = Vec::new();
        let mut i: usize = 0;
        while i < key.len()
            invariant
                i <= key.len(),
                out.deep_view() =~= key_cells(row.deep_view(), key@.subrange(0, i as int)),
            decreases key.len() - i,
        {
            let idx = key[i];
            proof {
                assert(key@.subrange(0, i + 1).drop_last() =~= key@.subrange(0, i as int));
            }
            if idx < row.len() {
                out.push(row[idx].clone());
            }
            i += 1;
        }
        assert(key@.subrange(0, i as int) =~= key@);
        Some(out)
    }
}

} // verus!
