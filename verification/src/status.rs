use vstd::prelude::*;

verus! {

/// `STATUS_SUCCESS`.
pub const STATUS_SUCCESS: i32 = 0;

/// `STATUS_UNSUCCESSFUL`.
pub const STATUS_UNSUCCESSFUL: i32 = -1073741823;

/// `STATUS_INFO_LENGTH_MISMATCH`.
pub const STATUS_INFO_LENGTH_MISMATCH: i32 = -1073741820;

/// `STATUS_INVALID_PARAMETER`.
pub const STATUS_INVALID_PARAMETER: i32 = -1073741811;

/// `STATUS_ACCESS_DENIED`.
pub const STATUS_ACCESS_DENIED: i32 = -1073741790;

/// `STATUS_OBJECT_NAME_NOT_FOUND`.
pub const STATUS_OBJECT_NAME_NOT_FOUND: i32 = -1073741772;

/// `STATUS_INTEGER_OVERFLOW`: what a failed integer narrowing becomes.
pub const STATUS_INTEGER_OVERFLOW: i32 = -1073741675;

/// `STATUS_INSUFFICIENT_RESOURCES`.
pub const STATUS_INSUFFICIENT_RESOURCES: i32 = -1073741670;

/// `STATUS_BUFFER_TOO_SMALL`.
pub const STATUS_BUFFER_TOO_SMALL: i32 = -1073741789;

/// `STATUS_NO_MORE_ENTRIES`: an enumeration has gone past its last entry.
pub const STATUS_NO_MORE_ENTRIES: i32 = -2147483622;

/// `STATUS_BUFFER_OVERFLOW`: what a string that would outgrow a `UNICODE_STRING` becomes.
pub const STATUS_BUFFER_OVERFLOW: i32 = -2147483643;

/// An error carrying the `NTSTATUS` code that describes it.
#[derive(Clone, Copy, Debug, PartialEq, Eq, Structural)]
pub struct NtError {
    pub status: i32,
}

impl NtError {
    /// Create an error from an `NTSTATUS` code.
    pub fn from_ntstatus(status: i32) -> (e: Self)
        ensures
            e.status == status,
    {
        NtError { status }
    }

    /// The `NTSTATUS` code of this error.
    pub fn ntstatus(&self) -> (s: i32)
        ensures
            s == self.status,
    {
        self.status
    }
}

/// The error value whose status is `status`.
pub open spec fn nt_err<T>(status: i32) -> Result<T, NtError> {
    Err(NtError { status })
}

} // verus!
