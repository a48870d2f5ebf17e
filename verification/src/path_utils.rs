use vstd::prelude::*;

use crate::status::{nt_err, NtError};
use crate::string_utils::{
    lemma_split_rejoins, spec_split_at, spec_starts_with, split_at, starts_with_no_case,
    try_push_units, CaseTable, fold, MAX_UNICODE_UNITS,
};

verus! {

/// The object manager's name for the DOS devices directory: `\??\`.
pub const OBJ_MANAGER_PATH_PREFIX: [u16; 4] = [0x5C, 0x3F, 0x3F, 0x5C];

/// The length of a DOS drive name (`C:`).
pub const DOS_DRIVE_NAME_LEN: u16 = 2;

/// What [`split_dos_path`] gives for `dos_path`: for an object manager DOS path
/// (`\??\C:\Path`, prefix in any case) its first six units and the rest; for a
/// regular DOS path (`C:\Path`) the object manager name of its drive (`\??\C:`)
/// and the rest; with the errors of splitting.
pub open spec fn spec_split_dos_path(t: &CaseTable, dos_path: Seq<u16>) -> Result<(Seq<u16>, Seq<u16>), NtError> {
    if spec_starts_with(Some(t), dos_path, OBJ_MANAGER_PATH_PREFIX@) {
        spec_split_at(dos_path, 6)
    } else {
        match spec_split_at(dos_path, 2) {
            Err(e) => Err(e),
            Ok((drive, file_path)) => Ok((OBJ_MANAGER_PATH_PREFIX@ + drive, file_path)),
        }
    }
}

/// Take a DOS path apart for its conversion to nt format: the object manager name of its
/// drive (whose symbolic link names the nt device, e.g. `\Device\HarddiskVolume3`) and
/// the path on that drive, which is appended to the device name.
///
/// Supports both regular dos-formatted path (e.g. `C:\Path`) and object manager dos
/// path (e.g. `\??\C:\Path`).
pub fn split_dos_path<'a>(dos_path: &'a [u16], t: &CaseTable) -> (r: Result<(Vec<u16>, &'a [u16]), NtError>)
    ensures
        match (r, spec_split_dos_path(t, dos_path@)) {
            (Ok((d, f)), Ok((x, y))) => d@ == x && f@ == y,
            (Err(e), Err(g)) => e == g,
            _ => false,
        },
{
    if starts_with_no_case(dos_path, &OBJ_MANAGER_PATH_PREFIX, t) {
        let (obj_man_dos_drive, file_path) = split_at(dos_path, 4 + DOS_DRIVE_NAME_LEN)?;
        Ok((vstd::slice::slice_to_vec(obj_man_dos_drive), file_path))
    } else {
        let (drive, file_path) = split_at(dos_path, DOS_DRIVE_NAME_LEN)?;
        let mut obj_man_dos_drive = vstd::slice::slice_to_vec(&OBJ_MANAGER_PATH_PREFIX);
        let pushed = try_push_units(&mut obj_man_dos_drive, drive);
        assert(pushed is Ok);
        Ok((obj_man_dos_drive, file_path))
    }
}

/// Nothing of a DOS path is lost in taking it apart: the drive name and the rest, put
/// back together, give the path, behind the `\??\` prefix for a regular DOS path.
pub proof fn lemma_dos_path_rejoins(t: &CaseTable, dos_path: Seq<u16>)
    ensures
        spec_split_dos_path(t, dos_path) matches Ok((drive, rest)) ==> if spec_starts_with(
            Some(t),
            dos_path,
            OBJ_MANAGER_PATH_PREFIX@,
        ) {
            drive + rest == dos_path
        } else {
            drive + rest == OBJ_MANAGER_PATH_PREFIX@ + dos_path
        },
{
    if spec_starts_with(Some(t), dos_path, OBJ_MANAGER_PATH_PREFIX@) {
        lemma_split_rejoins(dos_path, 6);
    } else {
        lemma_split_rejoins(dos_path, 2);
        if let Ok((drive, rest)) = spec_split_at(dos_path, 2) {
            assert(OBJ_MANAGER_PATH_PREFIX@ + drive + rest =~= OBJ_MANAGER_PATH_PREFIX@ + (drive + rest));
        }
    }
}

/// A regular DOS path and its object manager form are taken apart alike: `C:\Path` and
/// `\??\C:\Path` give the same drive name (`\??\C:`) and the same rest (`\Path`), so
/// both convert to the same nt path.
pub proof fn lemma_dos_forms_agree(t: &CaseTable, drive: Seq<u16>, rest: Seq<u16>)
    requires
        drive.len() == 2,
        rest.len() <= MAX_UNICODE_UNITS,
        !spec_starts_with(Some(t), drive + rest, OBJ_MANAGER_PATH_PREFIX@),
    ensures
        spec_split_dos_path(t, drive + rest) == Ok::<(Seq<u16>, Seq<u16>), NtError>(
            (OBJ_MANAGER_PATH_PREFIX@ + drive, rest),
        ),
        spec_split_dos_path(t, OBJ_MANAGER_PATH_PREFIX@ + drive + rest) == spec_split_dos_path(
            t,
            drive + rest,
        ),
{
    let p = drive + rest;
    let q = OBJ_MANAGER_PATH_PREFIX@ + drive + rest;
    assert(p.take(2) =~= drive);
    assert(p.skip(2) =~= rest);
    assert(q.take(6) =~= OBJ_MANAGER_PATH_PREFIX@ + drive);
    assert(q.skip(6) =~= rest);
    assert(spec_starts_with(Some(t), q, OBJ_MANAGER_PATH_PREFIX@)) by {
        assert forall|i: int| 0 <= i < OBJ_MANAGER_PATH_PREFIX@.len() implies fold(Some(t), #[trigger] q[i]) == fold(
            Some(t),
            OBJ_MANAGER_PATH_PREFIX@[i],
        ) by {
            assert(q[i] == OBJ_MANAGER_PATH_PREFIX@[i]);
        }
    }
}

} // verus!
