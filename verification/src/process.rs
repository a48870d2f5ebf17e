use vstd::prelude::*;

use crate::status::{
    nt_err, NtError, STATUS_INFO_LENGTH_MISMATCH, STATUS_INTEGER_OVERFLOW, STATUS_UNSUCCESSFUL,
};
use crate::string_utils::{
    last_index_of, spec_last_index_of, spec_split_at, substring, BACKSLASH, MAX_UNICODE_UNITS,
};

verus! {

/// The process identifier of the system process.
pub const SYSTEM_PROCESS_ID: u32 = 4;

/// The image path reported for the system process: `C:\Windows\system32\ntoskrnl.exe`.
pub const SYSTEM_PROCESS_PATH: [u16; 32] = [0x43, 0x3A, 0x5C, 0x57, 0x69, 0x6E, 0x64, 0x6F, 0x77, 0x73, 0x5C, 0x73, 0x79, 0x73, 0x74, 0x65, 0x6D, 0x33, 0x32, 0x5C, 0x6E, 0x74, 0x6F, 0x73, 0x6B, 0x72, 0x6E, 0x6C, 0x2E, 0x65, 0x78, 0x65];

/// The image name reported for the system process: `ntoskrnl.exe`.
pub const SYSTEM_PROCESS_NAME: [u16; 12] = [0x6E, 0x74, 0x6F, 0x73, 0x6B, 0x72, 0x6E, 0x6C, 0x2E, 0x65, 0x78, 0x65];

/// Checks if `pid` is the system process identifier (4).
pub fn is_system_process_id(pid: u32) -> (r: bool)
    ensures
        r == (pid == SYSTEM_PROCESS_ID),
{
    pid == SYSTEM_PROCESS_ID
}

/// What [`image_name_from_path`] gives: the part of `path` after its last backslash, or
/// `Err(STATUS_UNSUCCESSFUL)` when it has none.
pub open spec fn spec_image_name(path: Seq<u16>) -> Result<Seq<u16>, NtError> {
    match spec_last_index_of(path, BACKSLASH) {
        None => nt_err(STATUS_UNSUCCESSFUL),
        Some(i) => match spec_split_at(path, i + 1) {
            Ok((_, name)) => Ok(name),
            Err(e) => Err(e),
        },
    }
}

/// Get a process image name from its full image path (of a process other than the
/// system process): the part of the path following the last backslash character.
pub fn image_name_from_path(path: &[u16]) -> (r: Result<Vec<u16>, NtError>)
    requires
        path@.len() <= MAX_UNICODE_UNITS,
    ensures
        match spec_image_name(path@) {
            Ok(name) => r matches Ok(v) && v@ == name,
            Err(e) => r == Err::<Vec<u16>, NtError>(e),
        },
        r matches Ok(v) ==> v@ == path@.skip(path@.len() - v@.len()),
{
    let last_backslash_idx = match last_index_of(path, BACKSLASH) {
        Some(i) => i,
        None => {
            return Err(NtError::from_ntstatus(STATUS_UNSUCCESSFUL));
        },
    };
    substring(path, last_backslash_idx as u16 + 1)
}

/// Get the parent process identifier of the process `pid`, if any, from the identifier
/// of the process it inherited from (`InheritedFromUniqueProcessId`). Always `None`
/// for the system process; `Err(STATUS_INTEGER_OVERFLOW)` when the identifier does not
/// fit a `u32`.
pub fn parent_process_id(pid: u32, inherited_from: u64) -> (r: Result<Option<u32>, NtError>)
    ensures
        pid == SYSTEM_PROCESS_ID ==> r == Ok::<Option<u32>, NtError>(None),
        pid != SYSTEM_PROCESS_ID && inherited_from > u32::MAX ==> r == nt_err::<Option<u32>>(
            STATUS_INTEGER_OVERFLOW,
        ),
        pid != SYSTEM_PROCESS_ID && inherited_from <= u32::MAX ==> r == Ok::<Option<u32>, NtError>(
            Some(inherited_from as u32),
        ),
{
    if is_system_process_id(pid) {
        return Ok(None);
    }
    if inherited_from > u32::MAX as u64 {
        return Err(NtError::from_ntstatus(STATUS_INTEGER_OVERFLOW));
    }
    Ok(Some(inherited_from as u32))
}

/// What asking for the size of a process image path (`ZwQueryInformationProcess` with
/// no buffer) tells: the system reports the size it needs with
/// `STATUS_INFO_LENGTH_MISMATCH`, and the path is then read; any other status is the error.
pub fn image_path_size_status(status: i32) -> (r: Result<(), NtError>)
    ensures
        status == STATUS_INFO_LENGTH_MISMATCH ==> r is Ok,
        status != STATUS_INFO_LENGTH_MISMATCH ==> r == nt_err::<()>(status),
{
    if status == STATUS_INFO_LENGTH_MISMATCH {
        Ok(())
    } else {
        Err(NtError::from_ntstatus(status))
    }
}

} // verus!
