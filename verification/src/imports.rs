//! Import of Nsight Systems reports.
//!
//! A report is exported to SQLite by the `nsys` tool; its kernels are then copied
//! by the database itself.

use crate::clock::host_realtime_ns;
use crate::text::{append_decimal, append_hexadecimal, decimal, hexadecimal};
use vstd::prelude::*;
use vstd::string::StringExecFns;

verus! {

/// What a node has after an import.
#[derive(Copy, Clone, Debug, PartialEq, Eq, Structural)]
pub struct ImportResult {
    pub event_count: u64,
    pub ts_min_ns: u64,
    pub ts_max_ns: u64,
}

impl ImportResult {
    /// A line for the user.
    pub fn summary(&self) -> (s: String)
        ensures
            s@ == "imported "@ + decimal(self.event_count as nat) + " events ("@ + decimal(
                self.ts_min_ns as nat,
            ) + "ns .. "@ + decimal(self.ts_max_ns as nat) + "ns)"@,
    {
        let mut s = "imported ".to_string();
        append_decimal(&mut s, self.event_count);
        s.append(" events (");
        append_decimal(&mut s, self.ts_min_ns);
        s.append("ns .. ");
        append_decimal(&mut s, self.ts_max_ns);
        s.append("ns)");
        s
    }
}

pub const KERNEL_IMPORT_0: &'static str = "
        INSERT INTO events (ts_ns, duration_ns, node_id, gpu_id, pid, tid, ctx_id,
            stream_id, category, name_id, correlation_id, parent_id,
            grid_x, grid_y, grid_z, block_x, block_y, block_z,
            shared_static, shared_dynamic, registers, local_mem, launch_cbid)
        SELECT
            toUInt64(k.start)  AS ts_ns,
            toUInt64(k.end - k.start) AS duration_ns,
            toUInt32(";

pub const KERNEL_IMPORT_1: &'static str = ")       AS node_id,
            toUInt8(k.deviceId)       AS gpu_id,
            toUInt32(0)               AS pid,
            toUInt32(0)               AS tid,
            toUInt32(k.contextId)     AS ctx_id,
            toUInt32(k.streamId)      AS stream_id,
            CAST('KERNEL' AS Enum8(
               'METRIC'=1,'API_CALL'=2,'KERNEL'=3,'MEMCPY'=4,'MEMSET'=5,
               'SYNC'=6,'OVERHEAD'=7,'MARKER'=8)) AS category,
            xxHash64(coalesce(names.value, ''))   AS name_id,
            toUInt64(k.correlationId) AS correlation_id,
            0                         AS parent_id,
            toUInt32(k.gridX), toUInt32(k.gridY), toUInt32(k.gridZ),
            toUInt32(k.blockX), toUInt32(k.blockY), toUInt32(k.blockZ),
            toUInt32(k.staticSharedMemory), toUInt32(k.dynamicSharedMemory),
            0, toUInt32(k.localMemoryPerThread), 0
        FROM sqlite('";

pub const KERNEL_IMPORT_2: &'static str = "', 'CUPTI_ACTIVITY_KIND_KERNEL') AS k
        LEFT JOIN sqlite('";

pub const KERNEL_IMPORT_3: &'static str = "', 'StringIds') AS names
            ON names.id = k.shortName
        ";

/// The query that copies the kernels of an exported report into the `events` table.
pub open spec fn kernel_import(node_id: nat, sqlite: Seq<char>) -> Seq<char> {
    KERNEL_IMPORT_0@ + decimal(node_id) + KERNEL_IMPORT_1@ + sqlite + KERNEL_IMPORT_2@ + sqlite
        + KERNEL_IMPORT_3@
}

pub fn kernel_import_sql(node_id: u32, sqlite: &str) -> (sql: String)
    ensures
        sql@ == kernel_import(node_id as nat, sqlite@),
{
    let mut sql = KERNEL_IMPORT_0.to_string();
    append_decimal(&mut sql, node_id as u64);
    sql.append(KERNEL_IMPORT_1);
    sql.append(sqlite);
    sql.append(KERNEL_IMPORT_2);
    sql.append(sqlite);
    sql.append(KERNEL_IMPORT_3);
    sql
}

pub const IMPORT_STATS_0: &'static str = "SELECT count() AS c, min(ts_ns) AS mn, max(ts_ns) AS mx FROM events WHERE node_id = ";

/// The query for what a node has in the `events` table.
pub open spec fn import_stats(node_id: nat) -> Seq<char> {
    IMPORT_STATS_0@ + decimal(node_id)
}

pub fn import_stats_sql(node_id: u32) -> (sql: String)
    ensures
        sql@ == import_stats(node_id as nat),
{
    let mut sql = IMPORT_STATS_0.to_string();
    append_decimal(&mut sql, node_id as u64);
    sql
}

/// The name of a process's import directory.
pub fn import_dir_name(pid: u32) -> (name: String)
    ensures
        name@ == "perfweave-import-"@ + decimal(pid as nat),
{
    let mut name = "perfweave-import-".to_string();
    append_decimal(&mut name, pid as u64);
    name
}

/// Whether a text is a time in hexadecimal.
pub open spec fn is_stamp(s: Seq<char>, ns: u64) -> bool {
    s == hexadecimal(ns as nat)
}

/// A name that differs from one moment to the next: the time in hexadecimal.
pub fn uuid_like() -> (s: String)
    ensures
        exists|ns: u64| is_stamp(s@, ns),
{
    stamp(host_realtime_ns())
}

/// A time in hexadecimal.
pub fn stamp(ns: u64) -> (s: String)
    ensures
        is_stamp(s@, ns),
{
    let mut s = String::new();
    append_hexadecimal(&mut s, ns);
    assert(Seq::<char>::empty() + hexadecimal(ns as nat) =~= hexadecimal(ns as nat));
    s
}

/// The name that an upload is kept under until it has been imported.
pub fn upload_name(stamp: &str, file_name: Option<&str>) -> (name: String)
    ensures
        name@ == stamp@ + "-"@ + match file_name {
            Some(f) => f@,
            None => "upload.nsys-rep"@,
        },
{
    let mut name = stamp.to_string();
    name.append("-");
    match file_name {
        Some(f) => {
            name.append(f);
        },
        None => {
            name.append("upload.nsys-rep");
        },
    }
    name
}

} // verus!
