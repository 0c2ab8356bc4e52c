//! The SQL-backed store variant: member records in a single table keyed
//! by node id, with a uniqueness constraint on the address. Row decoding
//! is verified; the database calls go through trusted wrappers around
//! rusqlite.

use vstd::prelude::*;
use crate::snapshot::role_of_val;
use crate::store::NodeInfo;
use crate::store::NodeInfoV;
use crate::store::NodeRole;
use crate::store::NodeStoreError;
use crate::store::NodeStoreResult;

verus! {

#[verifier::external_type_specification]
#[verifier::external_body]
pub struct ExConnection(rusqlite::Connection);

/// Relies on rusqlite's `Connection::open`: opens, or creates, the
/// database at the given path.
#[verifier::external_body]
fn open_db(path: &str) -> (r: Result<rusqlite::Connection, String>) {
    rusqlite::Connection::open(path).map_err(|e| e.to_string())
}

/// Relies on rusqlite's `Connection::execute`: runs one parameterless
/// SQL statement.
#[verifier::external_body]
fn exec_sql(conn: &rusqlite::Connection, sql: &str) -> (r: Result<usize, String>) {
    conn.execute(sql, []).map_err(|e| e.to_string())
}

/// Relies on rusqlite's `prepare`, `query_map` and `Row::get`: runs a
/// three-column member query and hands every row out as plain values.
#[verifier::external_body]
fn query_rows(conn: &rusqlite::Connection, sql: &str) -> (r: Result<
    Vec<(i64, String, i64)>,
    String,
>) {
    let mut stmt = conn.prepare(sql).map_err(|e| e.to_string())?;
    let rows = stmt.query_map([], |row| Ok((row.get(0)?, row.get(1)?, row.get(2)?))).map_err(
        |e| e.to_string(),
    )?.collect::<rusqlite::Result<Vec<(i64, String, i64)>>>().map_err(|e| e.to_string())?;
    Ok(rows)
}

/// The record a well-formed row decodes to.
pub open spec fn spec_row_node(row: (i64, String, i64)) -> NodeInfoV {
    NodeInfoV { id: row.0 as u64, addr: row.1@, role: role_of_val(row.2 as nat) }
}

/// Every row's id column is a representable node id and its role column
/// is in the fixed range.
pub open spec fn rows_ok(rows: Seq<(i64, String, i64)>) -> bool {
    forall|i: int| 0 <= i < rows.len() ==> 0 <= (#[trigger] rows[i]).0 && 0 <= rows[i].2 <= 2
}

/// Decodes queried member rows into records: projects id, address and
/// role, rejecting any role outside the fixed range — exactly, for every
/// possible query result.
pub fn rows_to_nodes(rows: Vec<(i64, String, i64)>) -> (r: NodeStoreResult<Vec<NodeInfo>>)
    ensures
        r is Ok <==> rows_ok(rows@),
        r matches Ok(v) ==> (v.deep_view().len() == rows@.len() && (forall|i: int|
            0 <= i < rows@.len() ==> #[trigger] v.deep_view()[i] == spec_row_node(rows@[i]))),
        r matches Err(e) ==> e matches NodeStoreError::Store(_),
{
    let mut out: Vec<NodeInfo> = Vec::new();
    let mut i: usize = 0;
    while i < rows.len()
        invariant
            i <= rows.len(),
            out.len() == i,
            forall|k: int| 0 <= k < i ==> 0 <= (#[trigger] rows@[k]).0 && 0 <= rows@[k].2 <= 2,
            forall|k: int| 0 <= k < i ==> #[trigger] out.deep_view()[k] == spec_row_node(rows@[k]),
        decreases rows.len() - i,
    {
        let row = &rows[i];
        if row.0 < 0 {
            return Err(NodeStoreError::Store("invalid id column".to_owned()));
        }
        let role = if row.2 == 0 {
            NodeRole::Voter
        } else if row.2 == 1 {
            NodeRole::StandBy
        } else if row.2 == 2 {
            NodeRole::Spare
        } else {
            return Err(NodeStoreError::Store("invalid role column".to_owned()));
        };
        let node = NodeInfo { id: row.0 as u64, addr: row.1.clone(), role };
        let ghost prev = out.deep_view();
        out.push(node);
        proof {
            assert forall|k: int| 0 <= k < i + 1 implies #[trigger] out.deep_view()[k]
                == spec_row_node(rows@[k]) by {
                if k < i {
                    assert(out.deep_view()[k] == prev[k]);
                } else {
                    assert(out.deep_view()[k] == spec_row_node(rows@[k]));
                }
            }
        }
        i = i + 1;
    }
    Ok(out)
}

/// The SQL-backed store: one open database connection plus the
/// in-process version counter, which stays authoritative for optimistic
/// concurrency.
pub struct DatabaseNodeStore {
    conn: rusqlite::Connection,
    version: u64,
}

impl DatabaseNodeStore {
    /// The in-process version counter.
    pub closed spec fn version_view(&self) -> u64 {
        self.version
    }

    /// Opens, or creates, the member database at `path`, making sure the
    /// member table exists; any database failure surfaces as a store
    /// error with the store left unconstructed.
    pub fn new(path: &str) -> (r: NodeStoreResult<Self>)
        ensures
            r matches Ok(s) ==> s.version_view() == 0,
            r matches Err(e) ==> e matches NodeStoreError::Store(_),
    {
        let conn = match open_db(path) {
            Ok(c) => c,
            Err(e) => {
                return Err(NodeStoreError::Store(e));
            },
        };
        match exec_sql(
            &conn,
            "CREATE TABLE IF NOT EXISTS servers (\
             id INTEGER PRIMARY KEY, \
             address TEXT NOT NULL UNIQUE, \
             role INTEGER NOT NULL, \
             updated_at INTEGER NOT NULL DEFAULT (strftime('%s', 'now')))",
        ) {
            Ok(_) => {},
            Err(e) => {
                return Err(NodeStoreError::Store(e));
            },
        }
        Ok(DatabaseNodeStore { conn, version: 0 })
    }

    /// Reads every member row and decodes it; whatever the database
    /// returns, only rows whose role column is in the fixed range decode,
    /// and any other outcome is a store error.
    pub fn get_all(&self) -> (r: NodeStoreResult<Vec<NodeInfo>>)
        ensures
            r matches Err(e) ==> e matches NodeStoreError::Store(_),
    {
        let rows = match query_rows(&self.conn, "SELECT id, address, role FROM servers") {
            Ok(rows) => rows,
            Err(e) => {
                return Err(NodeStoreError::Store(e));
            },
        };
        rows_to_nodes(rows)
    }
}

} // verus!
