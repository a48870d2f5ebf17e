use vstd::prelude::*;

use crate::utils::is_any_flag_set;

verus! {

/// `FILE_WRITE_DATA` (also `FILE_ADD_FILE`).
pub const FILE_WRITE_DATA: u32 = 0x2;

/// `FILE_APPEND_DATA` (also `FILE_ADD_SUBDIRECTORY`).
pub const FILE_APPEND_DATA: u32 = 0x4;

/// `FILE_WRITE_EA`.
pub const FILE_WRITE_EA: u32 = 0x10;

/// `FILE_DELETE_CHILD`.
pub const FILE_DELETE_CHILD: u32 = 0x40;

/// `FILE_WRITE_ATTRIBUTES`.
pub const FILE_WRITE_ATTRIBUTES: u32 = 0x100;

/// `DELETE`.
pub const DELETE: u32 = 0x10000;

/// `WRITE_DAC`.
pub const WRITE_DAC: u32 = 0x40000;

/// `WRITE_OWNER`.
pub const WRITE_OWNER: u32 = 0x80000;

/// The access rights that can allow a file to be modified: `FILE_WRITE_DATA`,
/// `FILE_WRITE_ATTRIBUTES`, `FILE_WRITE_EA`, `WRITE_DAC`, `WRITE_OWNER`,
/// `FILE_APPEND_DATA`, `FILE_DELETE_CHILD`, `FILE_ADD_SUBDIRECTORY`, `FILE_ADD_FILE` and
/// `DELETE`.
pub const WRITE_ACCESS_RIGHTS: u32 = 0xD0156;

/// `FILE_SUPERSEDE`: replace the file if it exists, create it if not.
pub const FILE_SUPERSEDE: u32 = 0;

/// `FILE_OPEN`: open the file if it exists, fail if not.
pub const FILE_OPEN: u32 = 1;

/// `FILE_CREATE`: fail if the file exists, create it if not.
pub const FILE_CREATE: u32 = 2;

/// `FILE_OPEN_IF`: open the file if it exists, create it if not.
pub const FILE_OPEN_IF: u32 = 3;

/// `FILE_OVERWRITE`: overwrite the file if it exists, fail if not.
pub const FILE_OVERWRITE: u32 = 4;

/// `FILE_OVERWRITE_IF`: overwrite the file if it exists, create it if not.
pub const FILE_OVERWRITE_IF: u32 = 5;

/// The disposition of a create operation: the upper 8 bits (bits 24-31) of its options.
pub open spec fn spec_disposition(options: u32) -> u8 {
    (options >> 24u32) as u8
}

/// Read the `disposition` from the `options` of a create operation: their upper 8 bits.
///
/// <https://learn.microsoft.com/en-us/windows-hardware/drivers/ifs/flt-parameters-for-irp-mj-create>
pub fn create_file_disposition(options: u32) -> (r: u8)
    ensures
        r == spec_disposition(options),
        r as u32 == options / 0x1000000,
{
    let r = (options >> 24u32) as u8;
    assert(r as u32 == options / 0x1000000) by (bit_vector)
        requires
            r == (options >> 24u32) as u8,
    ;
    r
}

/// The `options` of a create operation with `disposition` put in their upper 8 bits;
/// the lower 24 bits are kept.
///
/// <https://learn.microsoft.com/en-us/windows-hardware/drivers/ifs/flt-parameters-for-irp-mj-create>
pub fn set_create_file_disposition(options: u32, disposition: u8) -> (r: u32)
    ensures
        spec_disposition(r) == disposition,
        r & 0xFF_FFFF == options & 0xFF_FFFF,
        r == spec_set_disposition(options, disposition),
{
    let r = (options & 0xFF_FFFF) | ((disposition as u32) << 24u32);
    assert(spec_disposition(r) == disposition && r & 0xFF_FFFF == options & 0xFF_FFFF) by (bit_vector)
        requires
            r == (options & 0xFF_FFFF) | ((disposition as u32) << 24u32),
    ;
    r
}

/// Check if the `access_rights` parameter contains any rights that can allow file modification.
pub fn is_write_access_rights(access_rights: u32) -> (r: bool)
    ensures
        r == (access_rights & WRITE_ACCESS_RIGHTS != 0),
{
    let mask = FILE_WRITE_DATA | FILE_WRITE_ATTRIBUTES | FILE_WRITE_EA | WRITE_DAC | WRITE_OWNER
        | FILE_APPEND_DATA | FILE_DELETE_CHILD | DELETE;
    assert(mask == WRITE_ACCESS_RIGHTS) by (bit_vector)
        requires
            mask == 0x2u32 | 0x100u32 | 0x10u32 | 0x40000u32 | 0x80000u32 | 0x4u32 | 0x40u32 | 0x10000u32,
    ;
    is_any_flag_set(access_rights, mask)
}

/// Whether `disposition` creates, replaces or overwrites the file.
pub open spec fn spec_is_modify_disposition(disposition: u8) -> bool {
    let d = disposition as u32;
    d == FILE_CREATE || d == FILE_SUPERSEDE || d == FILE_OVERWRITE || d == FILE_OVERWRITE_IF || d
        == FILE_OPEN_IF
}

/// Checks if the given `disposition` represents a file operation that modifies the file:
/// `FILE_CREATE`, `FILE_SUPERSEDE`, `FILE_OVERWRITE`, `FILE_OVERWRITE_IF` or `FILE_OPEN_IF`.
pub fn is_modify_disposition(disposition: u8) -> (r: bool)
    ensures
        r == spec_is_modify_disposition(disposition),
{
    let dispositions: [u32; 5] = [FILE_CREATE, FILE_SUPERSEDE, FILE_OVERWRITE, FILE_OVERWRITE_IF, FILE_OPEN_IF];
    let d = disposition as u32;
    let mut i: usize = 0;
    while i < 5
        invariant
            0 <= i <= 5,
            d == disposition as u32,
            dispositions@ == seq![FILE_CREATE, FILE_SUPERSEDE, FILE_OVERWRITE, FILE_OVERWRITE_IF, FILE_OPEN_IF],
            forall|k: int| 0 <= k < i ==> dispositions@[k] != d,
        decreases 5 - i,
    {
        if dispositions[i] == d {
            proof {
                let ds = seq![FILE_CREATE, FILE_SUPERSEDE, FILE_OVERWRITE, FILE_OVERWRITE_IF, FILE_OPEN_IF];
                assert(dispositions@[i as int] == d);
                assert(ds[i as int] == d);
                if i == 0 {
                    assert(ds[0] == d);
                } else if i == 1 {
                    assert(ds[1] == d);
                } else if i == 2 {
                    assert(ds[2] == d);
                } else if i == 3 {
                    assert(ds[3] == d);
                } else {
                    assert(ds[4] == d);
                }
            }
            return true;
        }
        i += 1;
    }
    false
}

/// The `options` of a create operation with `disposition` put in their upper 8 bits.
pub open spec fn spec_set_disposition(options: u32, disposition: u8) -> u32 {
    (options & 0xFF_FFFF) | ((disposition as u32) << 24u32)
}

/// Reading the disposition gives back what was set; setting the disposition that was
/// read changes nothing; and a second setting overrides the first.
pub proof fn lemma_disposition_round_trip(options: u32, d1: u8, d2: u8)
    ensures
        spec_disposition(spec_set_disposition(options, d1)) == d1,
        spec_set_disposition(options, spec_disposition(options)) == options,
        spec_set_disposition(spec_set_disposition(options, d1), d2) == spec_set_disposition(options, d2),
{
    assert(((options & 0xFF_FFFF) | ((d1 as u32) << 24u32)) >> 24u32 == d1 as u32) by (bit_vector);
    assert((options & 0xFF_FFFF) | (((options >> 24u32) as u8 as u32) << 24u32) == options) by (bit_vector);
    assert((((options & 0xFF_FFFF) | ((d1 as u32) << 24u32)) & 0xFF_FFFF) | ((d2 as u32) << 24u32)
        == (options & 0xFF_FFFF) | ((d2 as u32) << 24u32)) by (bit_vector);
}

} // verus!
