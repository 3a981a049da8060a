//! Snapshots: a table captured with its digests, a time and a message.

use vstd::prelude::*;
use vstd::string::*;
use crate::table::{Table, TableModel};
use crate::hashes::{TableHashes, hashes_of, table_digest};

verus! {

/// A point in time: whole seconds since the Unix epoch, and nanoseconds
/// within that second.
#[derive(Debug, Clone, Copy, PartialEq, Eq, Structural)]
pub struct Timestamp {
    pub secs: i64,
    pub nanos: u32,
}

/// A reference to an external file or table, with the digest it had when the
/// snapshot was taken.
#[derive(Debug, Clone)]
pub struct Dependency {
    pub name: String,
    pub path: Option<String>,
    pub hash: String,
}

/// A table together with its digests, an identifier, a creation time, an
/// optional message and the dependencies recorded with it.
#[derive(Debug, Clone)]
pub struct Snapshot {
    pub id: String,
    pub timestamp: Timestamp,
    pub message: Option<String>,
    pub table: Table,
    pub hashes: TableHashes,
    pub dependencies: Vec<Dependency>,
}

/// Relies on chrono's `From<SystemTime> for DateTime<Utc>`, with `timestamp`
/// and `timestamp_subsec_nanos`: the current time, seconds before the epoch
/// counted negative, nanoseconds below one second.
#[verifier::external_body]
fn current_time() -> (r: Timestamp)
    ensures
        r.nanos < 1_000_000_000,
{
    let now = chrono::DateTime::<chrono::Utc>::from(std::time::SystemTime::now());
    Timestamp { secs: now.timestamp(), nanos: now.timestamp_subsec_nanos() }
}

pub open spec fn digit_char(d: int) -> char {
    if d == 0 {
        '0'
    } else if d == 1 {
        '1'
    } else if d == 2 {
        '2'
    } else if d == 3 {
        '3'
    } else if d == 4 {
        '4'
    } else if d == 5 {
        '5'
    } else if d == 6 {
        '6'
    } else if d == 7 {
        '7'
    } else if d == 8 {
        '8'
    } else {
        '9'
    }
}

/// The decimal digits of a natural number, most significant first.
pub open spec fn decimal(n: nat) -> Seq<char>
    decreases n,
{
    if n < 10 {
        seq![digit_char(n as int)]
    } else {
        decimal(n / 10).push(digit_char((n % 10) as int))
    }
}

/// An integer in decimal, with a leading minus sign when negative.
pub open spec fn signed_decimal(x: int) -> Seq<char> {
    if x < 0 {
        seq!['-'] + decimal((-x) as nat)
    } else {
        decimal(x as nat)
    }
}

/// The identifier of a snapshot taken at `secs` of table `t`: the seconds, a
/// dash, and the first eight characters of the table digest.
pub open spec fn snapshot_id(secs: i64, t: TableModel) -> Seq<char> {
    signed_decimal(secs as int) + seq!['-'] + table_digest(t).subrange(0, 8)
}

fn digit_text(d: u64) -> (r: String)
    requires
        d < 10,
    ensures
        r@ == seq![digit_char(d as int)],
{
    let digits = "0123456789";
    proof {
        reveal_strlit("0123456789");
    }
    let s = digits.substring_char(d as usize, d as usize + 1);
    assert(s@ =~= seq![digit_char(d as int)]);
    String::from_str(s)
}

fn decimal_text(n: u64) -> (r: String)
    ensures
        r@ == decimal(n as nat),
    decreases n,
{
    if n < 10 {
        digit_text(n)
    } else {
        let mut s = decimal_text(n / 10);
        let last = digit_text(n % 10);
        s.append(last.as_str());
        s
    }
}

fn signed_decimal_text(x: i64) -> (r: String)
    ensures
        r@ == signed_decimal(x as int),
{
    if x < 0 {
        let magnitude: u64 = (-(x + 1)) as u64 + 1;
        let minus = "-";
        proof {
            reveal_strlit("-");
        }
        let mut s = String::from_str(minus);
        let digits = decimal_text(magnitude);
        s.append(digits.as_str());
        s
    } else {
        decimal_text(x as u64)
    }
}

/// The stored table digest equals the digest recomputed from the snapshot's table.
pub open spec fn intact(s: Snapshot) -> bool {
    s.hashes.table_hash@ == table_digest(s.table@)
}

impl Snapshot {
    /// A snapshot of `table` taken at `timestamp`, with no dependencies.
    pub fn new_at(table: Table, message: Option<String>, timestamp: Timestamp) -> (r: Snapshot)
        ensures
            r.id@ == snapshot_id(timestamp.secs, table@),
            r.timestamp == timestamp,
            r.message == message,
            r.table == table,
            r.hashes@ == hashes_of(table@),
            r.dependencies@.len() == 0,
    {
        let hashes = TableHashes::compute(&table);
        let mut id = signed_decimal_text(timestamp.secs);
        let dash = "-";
        proof {
            reveal_strlit("-");
        }
        id.append(dash);
        id.append(hashes.table_hash.as_str().substring_char(0, 8));
        Snapshot { id, timestamp, message, table, hashes, dependencies: Vec::new() }
    }

    /// A snapshot of `table` taken now, with no dependencies.
    pub fn new(table: Table, message: Option<String>) -> (r: Snapshot)
        ensures
            r.id@ == snapshot_id(r.timestamp.secs, table@),
            r.timestamp.nanos < 1_000_000_000,
            r.message == message,
            r.table == table,
            r.hashes@ == hashes_of(table@),
            r.dependencies@.len() == 0,
    {
        let now = current_time();
        Self::new_at(table, message, now)
    }

    /// Records one more dependency; the caller supplies its digest.
    pub fn add_dependency(&mut self, name: String, path: Option<String>, hash: String)
        ensures
            final(self).dependencies@ == old(self).dependencies@.push(
                (Dependency { name, path, hash }),
            ),
            final(self).id == old(self).id,
            final(self).timestamp == old(self).timestamp,
            final(self).message == old(self).message,
            final(self).table == old(self).table,
            final(self).hashes == old(self).hashes,
    {
        self.dependencies.push(Dependency { name, path, hash });
    }

    /// Recomputes the digests of the table and compares the table digest alone
    /// with the stored one.
    pub fn verify(&self) -> (r: bool)
        ensures
            r == intact(*self),
    {
        let computed = TableHashes::compute(&self.table);
        computed.table_hash == self.hashes.table_hash
    }
}

/// A snapshot whose digests were computed from its own table passes its
/// integrity check; so every freshly created snapshot does.
pub proof fn lemma_fresh_snapshot_intact(s: Snapshot)
    requires
        s.hashes@ == hashes_of(s.table@),
    ensures
        intact(s),
{
}

} // verus!
