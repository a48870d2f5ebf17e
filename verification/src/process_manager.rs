use vstd::prelude::*;

use hashbrown::{HashMap, TryReserveError};

use crate::status::{nt_err, NtError, STATUS_INSUFFICIENT_RESOURCES};

verus! {

/// `hashbrown::TryReserveError`, what a failed reservation of table memory reports.
#[verifier::external_type_specification]
#[verifier::external_body]
pub struct ExTryReserveError(TryReserveError);

/// What is known of a process: its image name and, while the parent runs, the
/// identifier of its parent process.
#[derive(Clone, Debug)]
pub struct ProcessInfo {
    pub name: Vec<u16>,
    pub ppid: Option<u32>,
}

/// The table of known processes, keyed by process identifier: a `hashbrown::HashMap`.
#[verifier::external_body]
pub struct ProcessTable {
    map: HashMap<u32, ProcessInfo>,
}

/// What a [`ProcessInfo`] records: the image name and the parent process identifier.
pub type ProcessRecord = (Seq<u16>, Option<u32>);

impl View for ProcessInfo {
    type V = ProcessRecord;

    open spec fn view(&self) -> ProcessRecord {
        (self.name@, self.ppid)
    }
}

/// The entries of a process table: for each process identifier it holds, what is
/// recorded of that process.
pub uninterp spec fn process_table_contents(t: ProcessTable) -> Map<u32, ProcessRecord>;

/// The record `r` once the parent `pid` has stopped: the parent is forgotten when it is `pid`.
pub open spec fn spec_forget_parent(r: ProcessRecord, pid: u32) -> ProcessRecord {
    (r.0, if r.1 == Some(pid) { None } else { r.1 })
}

/// The table `m` once `info` is added under `pid`: an entry already present stays as it is.
pub open spec fn spec_add_process(m: Map<u32, ProcessRecord>, pid: u32, info: ProcessRecord) -> Map<
    u32,
    ProcessRecord,
> {
    if m.dom().contains(pid) {
        m
    } else {
        m.insert(pid, info)
    }
}

/// The table `m` once the process `pid` has stopped: its entry is gone and no other
/// entry names it as parent.
pub open spec fn spec_remove_process(m: Map<u32, ProcessRecord>, pid: u32) -> Map<u32, ProcessRecord> {
    Map::new(
        |k: u32| m.dom().contains(k) && k != pid,
        |k: u32| spec_forget_parent(m[k], pid),
    )
}

/// A table with no entries.
pub open spec fn empty_table() -> Map<u32, ProcessRecord> {
    Map::empty()
}

/// `HashMap::new`: an empty table.
#[verifier::external_body]
fn table_new() -> (t: ProcessTable)
    ensures
        process_table_contents(t) == empty_table(),
{
    ProcessTable { map: HashMap::new() }
}

/// `HashMap::try_reserve`: reserve room for `additional` more entries. Whether the
/// allocator grants it rests on the machine; either way the entries stay as they are.
#[verifier::external_body]
fn table_try_reserve(t: &mut ProcessTable, additional: usize) -> (r: Result<(), TryReserveError>)
    ensures
        process_table_contents(*final(t)) == process_table_contents(*old(t)),
{
    t.map.try_reserve(additional)
}

/// `HashMap::try_insert`: add `info` under `pid` when no entry has that key, and
/// otherwise leave the table as it is. The result tells whether it was added.
#[verifier::external_body]
fn table_try_insert(t: &mut ProcessTable, pid: u32, info: ProcessInfo) -> (inserted:
    bool)
    ensures
        inserted == !process_table_contents(*old(t)).dom().contains(pid),
        process_table_contents(*final(t)) == spec_add_process(
            process_table_contents(*old(t)),
            pid,
            info@,
        ),
{
    match t.map.try_insert(pid, info) {
        Ok(_) => true,
        Err(_) => false,
    }
}

/// `HashMap::remove`: take the entry of `pid` out of the table, if there is one.
#[verifier::external_body]
fn table_remove(t: &mut ProcessTable, pid: u32) -> (r: Option<ProcessInfo>)
    ensures
        process_table_contents(*final(t)) == process_table_contents(*old(t)).remove(pid),
        r is Some <==> process_table_contents(*old(t)).dom().contains(pid),
        r matches Some(info) ==> info@ == process_table_contents(*old(t))[pid],
{
    t.map.remove(&pid)
}

/// `HashMap::get`: the entry of `pid`, if there is one.
#[verifier::external_body]
fn table_get(t: &ProcessTable, pid: u32) -> (r: Option<&ProcessInfo>)
    ensures
        r is Some <==> process_table_contents(*t).dom().contains(pid),
        r matches Some(info) ==> info@ == process_table_contents(*t)[pid],
{
    t.map.get(&pid)
}

/// `HashMap::values_mut`: apply [`forget_parent`] with `pid` to every entry, keeping the keys.
#[verifier::external_body]
fn table_forget_parent(t: &mut ProcessTable, pid: u32)
    ensures
        process_table_contents(*final(t)).dom() == process_table_contents(*old(t)).dom(),
        forall|k: u32|
            #![trigger process_table_contents(*final(t))[k]]
            process_table_contents(*old(t)).dom().contains(k) ==> process_table_contents(
                *final(t),
            )[k] == spec_forget_parent(process_table_contents(*old(t))[k], pid),
{
    t.map.values_mut().for_each(|info| forget_parent(info, pid));
}

/// Forget the parent of `info` when it is the stopped process `pid`.
fn forget_parent(info: &mut ProcessInfo, pid: u32)
    ensures
        final(info)@ == spec_forget_parent(old(info)@, pid),
{
    if info.ppid == Some(pid) {
        info.ppid = None;
    }
}

/// The error that a failed reservation of table memory becomes:
/// `STATUS_INSUFFICIENT_RESOURCES`, whatever the reason the allocator gave.
pub fn into_nt_error(err: TryReserveError) -> (e: NtError)
    ensures
        e.status == STATUS_INSUFFICIENT_RESOURCES,
{
    NtError::from_ntstatus(STATUS_INSUFFICIENT_RESOURCES)
}

/// A copy of `info`.
fn copy_info(info: &ProcessInfo) -> (r: ProcessInfo)
    ensures
        r@ == info@,
{
    ProcessInfo { name: info.name.clone(), ppid: info.ppid }
}

/// The processes known to the filter, by process identifier.
///
/// Entries are added as other parts of the filter need them and removed when the
/// process stops; when a process stops, the entries that name it as parent forget it.
pub struct ProcessManager {
    processes: ProcessTable,
}

impl View for ProcessManager {
    type V = Map<u32, ProcessRecord>;

    closed spec fn view(&self) -> Map<u32, ProcessRecord> {
        process_table_contents(self.processes)
    }
}

impl ProcessManager {
    /// An empty process table.
    pub fn new() -> (pm: Self)
        ensures
            pm@ == empty_table(),
    {
        ProcessManager { processes: table_new() }
    }

    /// Process create/terminate notification: when the process `pid` stops
    /// (`create` is false) its information is removed.
    pub fn process_callback(&mut self, pid: u32, create: bool)
        ensures
            final(self)@ == if create {
                old(self)@
            } else {
                spec_remove_process(old(self)@, pid)
            },
    {
        if !create {
            self.remove_process(pid);
        }
    }

    /// Add `process_info` under `pid`.
    ///
    /// Reserves room first and fails with `STATUS_INSUFFICIENT_RESOURCES`, changing
    /// nothing, when that fails. When `pid` is already present, its entry is kept and
    /// `process_info` is dropped.
    pub fn add_process(&mut self, pid: u32, process_info: ProcessInfo) -> (r: Result<(), NtError>)
        ensures
            r is Ok ==> final(self)@ == spec_add_process(old(self)@, pid, process_info@),
            r is Err ==> final(self)@ == old(self)@ && r == nt_err::<()>(
                STATUS_INSUFFICIENT_RESOURCES,
            ),
    {
        match table_try_reserve(&mut self.processes, 1) {
            Ok(()) => {},
            Err(err) => {
                return Err(into_nt_error(err));
            },
        }
        let _ = table_try_insert(&mut self.processes, pid, process_info);
        Ok(())
    }

    /// Remove the information of the process `pid`, and forget it as the parent
    /// of every other process.
    pub fn remove_process(&mut self, pid: u32)
        ensures
            final(self)@ == spec_remove_process(old(self)@, pid),
    {
        let _ = table_remove(&mut self.processes, pid);
        table_forget_parent(&mut self.processes, pid);
        proof {
            assert(self@ =~= spec_remove_process(old(self)@, pid));
        }
    }

    /// The information of the process `pid`, or `None` when it is not known.
    pub fn process_info(&self, pid: u32) -> (r: Option<ProcessInfo>)
        ensures
            r is Some <==> self@.dom().contains(pid),
            r matches Some(info) ==> info@ == self@[pid],
    {
        match table_get(&self.processes, pid) {
            Some(info) => Some(copy_info(info)),
            None => None,
        }
    }

    /// The information of the process `pid`: the known one, or else `fetched`, what
    /// the system reported of `pid`, which is then added.
    ///
    /// Fails with the error of `fetched` when `pid` is not known and the system could
    /// not describe it, and with `STATUS_INSUFFICIENT_RESOURCES` when it cannot be added.
    pub fn get_or_add_process_info(
        &mut self,
        pid: u32,
        fetched: Result<ProcessInfo, NtError>,
    ) -> (r: Result<ProcessInfo, NtError>)
        ensures
            old(self)@.dom().contains(pid) ==> {
                &&& final(self)@ == old(self)@
                &&& r matches Ok(info) && info@ == old(self)@[pid]
            },
            !old(self)@.dom().contains(pid) ==> match fetched {
                Err(e) => r == Err::<ProcessInfo, NtError>(e) && final(self)@ == old(self)@,
                Ok(f) => {
                    ||| (r matches Ok(info) && info@ == f@ && final(self)@ == old(self)@.insert(pid, f@))
                    ||| (r == nt_err::<ProcessInfo>(STATUS_INSUFFICIENT_RESOURCES) && final(self)@ == old(self)@)
                },
            },
    {
        if let Some(info) = self.process_info(pid) {
            return Ok(info);
        }
        let info = match fetched {
            Ok(info) => info,
            Err(e) => {
                return Err(e);
            },
        };
        let shared = copy_info(&info);
        match self.add_process(pid, info) {
            Ok(()) => Ok(shared),
            Err(e) => Err(e),
        }
    }

    /// The information of the parent of `process_info`: `None` when it has no parent
    /// (or the parent cannot be described), else as [`ProcessManager::get_or_add_process_info`]
    /// gives it for the parent's identifier, with `fetched` what the system reported of it.
    pub fn get_or_add_parent_process_info(
        &mut self,
        process_info: &ProcessInfo,
        fetched: Result<ProcessInfo, NtError>,
    ) -> (r: Option<ProcessInfo>)
        ensures
            process_info.ppid is None ==> r is None && final(self)@ == old(self)@,
            process_info.ppid matches Some(ppid) ==> {
                &&& old(self)@.dom().contains(ppid) ==> {
                    &&& final(self)@ == old(self)@
                    &&& r matches Some(info) && info@ == old(self)@[ppid]
                }
                &&& !old(self)@.dom().contains(ppid) ==> match fetched {
                    Err(_) => r is None && final(self)@ == old(self)@,
                    Ok(f) => {
                        ||| (r matches Some(info) && info@ == f@ && final(self)@ == old(self)@.insert(ppid, f@))
                        ||| (r is None && final(self)@ == old(self)@)
                    },
                }
            },
    {
        match process_info.ppid {
            Some(ppid) => match self.get_or_add_process_info(ppid, fetched) {
                Ok(info) => Some(info),
                Err(_) => None,
            },
            None => None,
        }
    }
}

/// Once a process has stopped, the table knows nothing of it: it has no entry, and no
/// entry names it as parent; every other entry keeps its name.
pub proof fn lemma_stopped_process_forgotten(m: Map<u32, ProcessRecord>, pid: u32)
    ensures
        !spec_remove_process(m, pid).dom().contains(pid),
        forall|k: u32| #[trigger]
            spec_remove_process(m, pid).dom().contains(k) ==> spec_remove_process(m, pid)[k].1
                != Some(pid),
        forall|k: u32|
            m.dom().contains(k) && k != pid ==> #[trigger] spec_remove_process(m, pid).dom().contains(
                k,
            ) && spec_remove_process(m, pid)[k].0 == m[k].0,
{
}

/// A process added under an identifier not yet known is found under it afterwards,
/// and adding under a known identifier changes nothing.
pub proof fn lemma_added_process_found(m: Map<u32, ProcessRecord>, pid: u32, info: ProcessRecord)
    ensures
        spec_add_process(m, pid, info).dom().contains(pid),
        !m.dom().contains(pid) ==> spec_add_process(m, pid, info)[pid] == info,
        m.dom().contains(pid) ==> spec_add_process(m, pid, info) == m,
{
}

} // verus!
