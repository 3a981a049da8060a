use gitsheets::{Change, DiffSummary, Snapshot, SnapshotDiff, Table, TableHashes, Timestamp};

fn strings(cells: &[&str]) -> Vec<String> {
    cells.iter().map(|c| c.to_string()).collect()
}

fn sales_table() -> Table {
    Table {
        headers: strings(&["ID", "Name", "Amount"]),
        rows: vec![strings(&["1", "Alice", "100"]), strings(&["2", "Bob", "200"])],
        primary_key: None,
    }
}

fn at(secs: i64) -> Timestamp {
    Timestamp { secs, nanos: 0 }
}

#[test]
fn test_snapshot_creation() {
    let table = Table {
        headers: vec!["ID".to_string(), "Name".to_string(), "Amount".to_string()],
        rows: vec![
            vec!["1".to_string(), "Alice".to_string(), "100".to_string()],
            vec!["2".to_string(), "Bob".to_string(), "200".to_string()],
        ],
        primary_key: Some(vec![0]),
    };

    let snapshot = Snapshot::new(table, Some("Initial snapshot".to_string()));

    assert!(snapshot.verify());
    assert_eq!(snapshot.table.headers.len(), 3);
    assert_eq!(snapshot.table.rows.len(), 2);
}

#[test]
fn test_hash_consistency() {
    let table = Table {
        headers: vec!["A".to_string(), "B".to_string()],
        rows: vec![vec!["1".to_string(), "2".to_string()]],
        primary_key: None,
    };

    let hash1 = TableHashes::compute(&table);
    let hash2 = TableHashes::compute(&table);

    assert_eq!(hash1.table_hash, hash2.table_hash);
}

#[test]
fn hashes_repeat_at_every_granularity() {
    let table = sales_table();
    let a = TableHashes::compute(&table);
    let b = TableHashes::compute(&table);
    assert_eq!(a.table_hash, b.table_hash);
    assert_eq!(a.header_hashes, b.header_hashes);
    assert_eq!(a.row_hashes, b.row_hashes);
}

#[test]
fn digests_are_sha256_hex() {
    let table = Table { headers: strings(&["abc"]), rows: vec![], primary_key: None };
    let h = TableHashes::compute(&table);
    let abc = "ba7816bf8f01cfea414140de5dae2223b00361a396177a9cb410ff61f20015ad";
    assert_eq!(h.table_hash, abc);
    assert_eq!(h.header_hashes, vec![("abc".to_string(), abc.to_string())]);
    assert_eq!(h.row_hashes, Some(vec![]));
}

#[test]
fn digests_concatenate_cells() {
    // headers "a", "b" and the row "c" hash as the text "abc"
    let table = Table {
        headers: strings(&["a", "b"]),
        rows: vec![strings(&["c"])],
        primary_key: None,
    };
    let h = TableHashes::compute(&table);
    assert_eq!(h.table_hash, "ba7816bf8f01cfea414140de5dae2223b00361a396177a9cb410ff61f20015ad");
    let empty = "e3b0c44298fc1c149afbf4c8996fb92427ae41e4649b934ca495991b7852b855";
    let rows = h.row_hashes.unwrap();
    assert_eq!(rows.len(), 1);
    // the short row contributes nothing to column "b"
    let one = Table { headers: strings(&["b"]), rows: vec![], primary_key: None };
    let b_alone = TableHashes::compute(&one).table_hash;
    assert_eq!(h.header_hashes[1], ("b".to_string(), b_alone));
    let blank = Table { headers: vec![], rows: vec![], primary_key: None };
    assert_eq!(TableHashes::compute(&blank).table_hash, empty);
}

#[test]
fn duplicate_headers_keep_last_column() {
    let table = Table {
        headers: strings(&["x", "y", "x"]),
        rows: vec![strings(&["1", "2", "3"])],
        primary_key: None,
    };
    let h = TableHashes::compute(&table);
    assert_eq!(h.header_hashes.len(), 2);
    assert_eq!(h.header_hashes[0].0, "y");
    assert_eq!(h.header_hashes[1].0, "x");
    let last = Table { headers: strings(&["x"]), rows: vec![strings(&["3"])], primary_key: None };
    assert_eq!(h.header_hashes[1].1, TableHashes::compute(&last).table_hash);
}

#[test]
fn one_cell_change_moves_its_digests_only() {
    let a = sales_table();
    let mut b = sales_table();
    b.rows[1][2] = "250".to_string();
    let ha = TableHashes::compute(&a);
    let hb = TableHashes::compute(&b);
    assert_ne!(ha.table_hash, hb.table_hash);
    let ra = ha.row_hashes.unwrap();
    let rb = hb.row_hashes.unwrap();
    assert_eq!(ra[0], rb[0]);
    assert_ne!(ra[1], rb[1]);
    assert_eq!(ha.header_hashes[0], hb.header_hashes[0]);
    assert_eq!(ha.header_hashes[1], hb.header_hashes[1]);
    assert_ne!(ha.header_hashes[2], hb.header_hashes[2]);
}

#[test]
fn snapshot_id_joins_seconds_and_digest_prefix() {
    let snap = Snapshot::new_at(sales_table(), None, at(1700000000));
    let expected = format!("1700000000-{}", &snap.hashes.table_hash[..8]);
    assert_eq!(snap.id, expected);
    assert_eq!(snap.timestamp, at(1700000000));
    assert!(snap.dependencies.is_empty());
    let negative = Snapshot::new_at(sales_table(), None, at(-42));
    assert!(negative.id.starts_with("-42-"));
    assert_eq!(negative.id.len(), 12);
    let zero = Snapshot::new_at(sales_table(), None, at(0));
    assert!(zero.id.starts_with("0-"));
}

#[test]
fn fresh_snapshot_verifies() {
    let snap = Snapshot::new(sales_table(), Some("m".to_string()));
    assert!(snap.verify());
    assert_eq!(snap.message, Some("m".to_string()));
    assert!(snap.id.ends_with(&snap.hashes.table_hash[..8]));
}

#[test]
fn altered_table_hash_fails_verify() {
    let mut snap = Snapshot::new_at(sales_table(), None, at(1));
    snap.hashes.table_hash = "0".repeat(64);
    assert!(!snap.verify());
}

#[test]
fn altered_cell_fails_verify() {
    let mut snap = Snapshot::new_at(sales_table(), None, at(1));
    snap.table.rows[0][1] = "Eve".to_string();
    assert!(!snap.verify());
}

#[test]
fn dependencies_append_in_order() {
    let mut snap = Snapshot::new_at(sales_table(), None, at(1));
    snap.add_dependency("customers.csv".to_string(), Some("../customers.csv".to_string()), "abc".to_string());
    snap.add_dependency("rates".to_string(), None, "def".to_string());
    assert_eq!(snap.dependencies.len(), 2);
    assert_eq!(snap.dependencies[0].name, "customers.csv");
    assert_eq!(snap.dependencies[0].path, Some("../customers.csv".to_string()));
    assert_eq!(snap.dependencies[1].hash, "def");
    assert!(snap.verify());
}

#[test]
fn csv_text_is_trimmed() {
    let t = Table::from_csv_str(" ID , Name \n 1 ,  Alice\n2,Bob  \n").unwrap();
    assert_eq!(t.headers, strings(&["ID", "Name"]));
    assert_eq!(t.rows, vec![strings(&["1", "Alice"]), strings(&["2", "Bob"])]);
    assert_eq!(t.primary_key, None);
}

#[test]
fn csv_empty_text_gives_empty_table() {
    let t = Table::from_csv_str("").unwrap();
    assert!(t.headers.is_empty());
    assert!(t.rows.is_empty());
}

#[test]
fn csv_ragged_record_is_a_parse_error() {
    let r = Table::from_csv_str("a,b\n1,2,3\n");
    assert!(r.is_err());
}

#[test]
fn row_key_reads_key_columns() {
    let mut t = sales_table();
    assert_eq!(t.get_row_key(0), None);
    t.set_primary_key(vec![2, 7, 0]);
    assert_eq!(t.primary_key, Some(vec![2, 7, 0]));
    assert_eq!(t.get_row_key(1), Some(strings(&["200", "2"])));
    assert_eq!(t.get_row_key(2), None);
    t.set_primary_key(vec![]);
    assert_eq!(t.get_row_key(0), Some(vec![]));
}

#[test]
fn diff_of_changed_and_appended_rows() {
    let from = Snapshot::new_at(sales_table(), None, at(1));
    let mut target = sales_table();
    target.rows[1][2] = "250".to_string();
    target.rows.push(strings(&["3", "Carol", "300"]));
    let to = Snapshot::new_at(target, None, at(2));
    let d = SnapshotDiff::compute(&from, &to);
    assert_eq!(
        d.summary,
        DiffSummary { rows_added: 1, rows_removed: 0, rows_modified: 1, columns_added: 0, columns_removed: 0 }
    );
    assert_eq!(d.changes.len(), 2);
    assert!(matches!(&d.changes[0],
        Change::CellChanged { row: 1, col: 2, old_value, new_value } if old_value == "200" && new_value == "250"));
    assert!(matches!(&d.changes[1],
        Change::RowAdded { index: 2, data } if *data == strings(&["3", "Carol", "300"])));
    assert_eq!(d.from_id, from.id);
    assert_eq!(d.to_id, to.id);
}

#[test]
fn diff_with_itself_is_empty() {
    let s = Snapshot::new_at(sales_table(), None, at(1));
    let d = SnapshotDiff::compute(&s, &s);
    assert!(d.changes.is_empty());
    assert_eq!(
        d.summary,
        DiffSummary { rows_added: 0, rows_removed: 0, rows_modified: 0, columns_added: 0, columns_removed: 0 }
    );
}

#[test]
fn swapped_diff_swaps_counts() {
    let a = Snapshot::new_at(sales_table(), None, at(1));
    let mut tb = sales_table();
    tb.rows.remove(1);
    tb.headers[2] = "Total".to_string();
    let b = Snapshot::new_at(tb, None, at(2));
    let ab = SnapshotDiff::compute(&a, &b).summary;
    let ba = SnapshotDiff::compute(&b, &a).summary;
    assert_eq!(ab.rows_removed, 1);
    assert_eq!(ab.rows_added, ba.rows_removed);
    assert_eq!(ab.rows_removed, ba.rows_added);
    assert_eq!(ab.columns_added, ba.columns_removed);
    assert_eq!(ab.columns_added, 1);
}

#[test]
fn diff_orders_columns_then_rows() {
    let from = Table {
        headers: strings(&["a", "b"]),
        rows: vec![strings(&["1", "2"]), strings(&["3", "4"])],
        primary_key: None,
    };
    let to = Table {
        headers: strings(&["c", "a", "d"]),
        rows: vec![strings(&["1", "2", "x"])],
        primary_key: None,
    };
    let d = SnapshotDiff::compute(&Snapshot::new_at(from, None, at(1)), &Snapshot::new_at(to, None, at(2)));
    assert!(matches!(&d.changes[0], Change::ColumnAdded { name, index: 0 } if name == "c"));
    assert!(matches!(&d.changes[1], Change::ColumnAdded { name, index: 2 } if name == "d"));
    assert!(matches!(&d.changes[2], Change::ColumnRemoved { name, index: 1 } if name == "b"));
    // row 0 differs only in length: modified, with no cell record
    assert!(matches!(&d.changes[3], Change::RowRemoved { index: 1, data } if *data == strings(&["3", "4"])));
    assert_eq!(d.changes.len(), 4);
    assert_eq!(
        d.summary,
        DiffSummary { rows_added: 0, rows_removed: 1, rows_modified: 1, columns_added: 2, columns_removed: 1 }
    );
}

#[test]
fn records_become_trimmed_table() {
    let records = vec![strings(&[" ID", "Name "]), strings(&["\t1\n", " Ann Lee "]), strings(&["2"])];
    let t = Table::from_records(&records);
    assert_eq!(t.headers, strings(&["ID", "Name"]));
    assert_eq!(t.rows, vec![strings(&["1", "Ann Lee"]), strings(&["2"])]);
    assert_eq!(t.primary_key, None);
    let empty = Table::from_records(&vec![]);
    assert!(empty.headers.is_empty());
    assert!(empty.rows.is_empty());
}

#[test]
fn unicode_whitespace_is_trimmed() {
    let records = vec![strings(&["\u{a0}A\u{3000}", "\u{2003}\u{85}"]), strings(&["\u{feff}x"])];
    let t = Table::from_records(&records);
    assert_eq!(t.headers, strings(&["A", ""]));
    // U+FEFF is not White_Space, so it stays
    assert_eq!(t.rows, vec![strings(&["\u{feff}x"])]);
}

#[test]
fn every_digest_is_lowercase_hex() {
    let h = TableHashes::compute(&sales_table());
    let hex = |s: &String| s.len() == 64 && s.chars().all(|c| c.is_ascii_digit() || ('a'..='f').contains(&c));
    assert!(hex(&h.table_hash));
    assert_eq!(h.header_hashes.len(), 3);
    assert!(h.header_hashes.iter().all(|(_, d)| hex(d)));
    let rows = h.row_hashes.unwrap();
    assert_eq!(rows.len(), 2);
    assert!(rows.iter().all(hex));
}
