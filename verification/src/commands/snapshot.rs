//! Snapshots of the documentation.

use vstd::prelude::*;
use crate::clock::{utc_now_second, utc_timestamp};
use crate::text::{concat2, decimal_i64, owned, spec_decimal_i64};

verus! {

/// A snapshot.
#[derive(Debug, Clone)]
pub struct SnapshotInfo {
    pub id: String,
    pub name: String,
    pub timestamp: String,
    pub file_count: usize,
    pub size_bytes: usize,
}

impl SnapshotInfo {
    /// A snapshot stamped with the current time.
    pub fn new(id: &str, name: &str) -> (s: SnapshotInfo)
        ensures
            s.id@ == id@,
            s.name@ == name@,
            s.file_count == 0,
            s.size_bytes == 0,
            crate::clock::has_shape(s.timestamp@, crate::clock::second_shape()),
    {
        SnapshotInfo {
            id: owned(id),
            name: owned(name),
            timestamp: utc_now_second(),
            file_count: 0,
            size_bytes: 0,
        }
    }
}

/// Outcome of a snapshot command.
#[derive(Debug, Clone)]
pub struct SnapshotResult {
    pub action: String,
    pub snapshot: Option<SnapshotInfo>,
    pub snapshots: Vec<SnapshotInfo>,
}

impl SnapshotResult {
    pub fn created(info: SnapshotInfo) -> (r: SnapshotResult)
        ensures
            r.action@ == "created"@,
            r.snapshot == Some(info),
            r.snapshots@.len() == 0,
    {
        SnapshotResult { action: owned("created"), snapshot: Some(info), snapshots: Vec::new() }
    }

    pub fn list(snapshots: Vec<SnapshotInfo>) -> (r: SnapshotResult)
        ensures
            r.action@ == "list"@,
            r.snapshot is None,
            r.snapshots@ == snapshots@,
    {
        SnapshotResult { action: owned("list"), snapshot: None, snapshots }
    }
}

/// Options of the snapshot command.
#[derive(Debug, Clone)]
pub struct SnapshotCommand {
    pub name: Option<String>,
    pub list: bool,
    pub path: Option<String>,
}

impl SnapshotCommand {
    /// Lists the snapshots (none are kept), or creates one named as asked
    /// (`snapshot` by default) whose id is `snap_` and the current Unix time.
    pub fn run(&self) -> (r: SnapshotResult)
        ensures
            self.list ==> r.action@ == "list"@ && r.snapshot is None && r.snapshots@.len() == 0,
            !self.list ==> r.action@ == "created"@ && r.snapshot is Some
                && r.snapshot->0.name@ == match self.name { Some(n) => n@, None => "snapshot"@ }
                && r.snapshot->0.file_count == 0 && r.snapshot->0.size_bytes == 0 && r.snapshots@.len() == 0
                && exists|t: int| r.snapshot->0.id@ == "snap_"@ + spec_decimal_i64(t),
    {
        if self.list {
            SnapshotResult::list(Vec::new())
        } else {
            let name = match &self.name {
                Some(n) => n.as_str(),
                None => "snapshot",
            };
            let t = utc_timestamp();
            let id = concat2("snap_", decimal_i64(t).as_str());
            let info = SnapshotInfo::new(id.as_str(), name);
            assert(id@ == "snap_"@ + spec_decimal_i64(t as int));
            SnapshotResult::created(info)
        }
    }
}

} // verus!
