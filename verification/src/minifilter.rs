use vstd::prelude::*;

use crate::flt_utils::{
    is_modify_disposition, is_write_access_rights, spec_is_modify_disposition, FILE_CREATE,
    FILE_OPEN, FILE_OPEN_IF, FILE_OVERWRITE, FILE_OVERWRITE_IF, FILE_SUPERSEDE, WRITE_ACCESS_RIGHTS,
};
use crate::rules_manager::{rules_wf, spec_rule_action, FileSystemRuleAction, RulesManager};
use crate::string_utils::CaseTable;

verus! {

/// `FileRenameInformation`: a set-information request that renames a file.
pub const FILE_RENAME_INFORMATION: i32 = 10;

/// `FileRenameInformationEx`: a set-information request that renames a file.
pub const FILE_RENAME_INFORMATION_EX: i32 = 65;

/// What becomes of an intercepted create operation.
#[derive(Debug, Clone, Copy, PartialEq, Eq, Structural)]
pub enum CreateVerdict {
    /// Complete it with `STATUS_ACCESS_DENIED`.
    DenyAccess,
    /// Let it go on with its disposition changed to `FILE_OPEN`, so that it opens the
    /// file if it exists and fails if not, and never creates it.
    OpenExisting,
    /// Let it go on unchanged.
    Allow,
}

/// The verdict on a create operation of a read-only file.
pub open spec fn spec_create_read_only(desired_access: u32, disposition: u8) -> CreateVerdict {
    if desired_access & WRITE_ACCESS_RIGHTS != 0 {
        CreateVerdict::DenyAccess
    } else if disposition as u32 == FILE_OPEN_IF {
        CreateVerdict::OpenExisting
    } else if spec_is_modify_disposition(disposition) {
        CreateVerdict::DenyAccess
    } else {
        CreateVerdict::Allow
    }
}

/// Filter a create operation of a read-only file, from the access it asks for and its
/// disposition.
///
/// Any access right that can allow file modification denies it. A `FILE_OPEN_IF`
/// disposition (open the file if it exists, create it if not) is changed to `FILE_OPEN`
/// (open it if it exists, fail if not) to prevent file creation. Any other disposition
/// that can modify the file denies it.
pub fn create_read_only(desired_access: u32, disposition: u8) -> (r: CreateVerdict)
    ensures
        r == spec_create_read_only(desired_access, disposition),
{
    if is_write_access_rights(desired_access) {
        return CreateVerdict::DenyAccess;
    }
    if disposition as u32 == FILE_OPEN_IF {
        return CreateVerdict::OpenExisting;
    }
    if is_modify_disposition(disposition) {
        return CreateVerdict::DenyAccess;
    }
    CreateVerdict::Allow
}

/// The verdict on a create operation under the rule action found for a process: `Deny`
/// denies it, `ReadOnly` filters it as [`create_read_only`] does, and `Bypass` leaves the
/// decision to the next process asked about (`None`).
pub fn create_verdict(action: FileSystemRuleAction, desired_access: u32, disposition: u8) -> (r: Option<CreateVerdict>)
    ensures
        r == match action {
            FileSystemRuleAction::Deny => Some(CreateVerdict::DenyAccess),
            FileSystemRuleAction::ReadOnly => Some(spec_create_read_only(desired_access, disposition)),
            FileSystemRuleAction::Bypass => None::<CreateVerdict>,
        },
{
    match action {
        FileSystemRuleAction::Deny => Some(CreateVerdict::DenyAccess),
        FileSystemRuleAction::ReadOnly => Some(create_read_only(desired_access, disposition)),
        FileSystemRuleAction::Bypass => None,
    }
}

/// Check if the rules manager has any protection rule for `process_name` and
/// `file_path`: whether the action found is `Deny` or `ReadOnly`.
pub fn protection_rule_exists(rules: &RulesManager, process_name: &[u16], file_path: &[u16], t: &CaseTable) -> (r: bool)
    requires
        rules_wf(rules@),
    ensures
        r == (spec_rule_action(t, rules@, process_name@, file_path@) != FileSystemRuleAction::Bypass),
{
    match rules.search_rule_action(process_name, file_path, t) {
        FileSystemRuleAction::Deny | FileSystemRuleAction::ReadOnly => true,
        FileSystemRuleAction::Bypass => false,
    }
}

/// Whether a set-information request of class `class` renames a file; only those are
/// filtered.
pub fn is_rename_information(class: i32) -> (r: bool)
    ensures
        r == (class == FILE_RENAME_INFORMATION || class == FILE_RENAME_INFORMATION_EX),
{
    class == FILE_RENAME_INFORMATION || class == FILE_RENAME_INFORMATION_EX
}

/// Whether renaming the file `old_path` to `new_path` is denied to `process_name`: some
/// protection rule covers the process and either path.
pub fn rename_denied(
    rules: &RulesManager,
    process_name: &[u16],
    old_path: &[u16],
    new_path: &[u16],
    t: &CaseTable,
) -> (r: bool)
    requires
        rules_wf(rules@),
    ensures
        r == (spec_rule_action(t, rules@, process_name@, old_path@) != FileSystemRuleAction::Bypass
            || spec_rule_action(t, rules@, process_name@, new_path@) != FileSystemRuleAction::Bypass),
{
    protection_rule_exists(rules, process_name, old_path, t) || protection_rule_exists(
        rules,
        process_name,
        new_path,
        t,
    )
}

/// The verdict on a create operation: that of the requesting process when a rule covers
/// it (`own`), else that of its parent when the parent is known and a rule covers it
/// (`parent`, asked only when `own` is `None`), else the operation goes on unchanged.
/// A process or file that could not be described gives no verdict, so a failure never
/// blocks an operation.
pub fn pre_create_verdict(own: Option<CreateVerdict>, parent: Option<CreateVerdict>) -> (r: CreateVerdict)
    ensures
        r == match (own, parent) {
            (Some(v), _) => v,
            (None, Some(v)) => v,
            (None, None) => CreateVerdict::Allow,
        },
{
    match own {
        Some(v) => v,
        None => match parent {
            Some(v) => v,
            None => CreateVerdict::Allow,
        },
    }
}

/// Whether a rename is denied: when it is denied to the requesting process (`own`), or
/// else to its parent (`parent`, `None` when the parent is unknown or was not asked).
/// Anything that could not be described lets the rename through.
pub fn pre_set_info_denied(own: bool, parent: Option<bool>) -> (r: bool)
    ensures
        r == (own || parent == Some(true)),
{
    own || match parent {
        Some(d) => d,
        None => false,
    }
}

/// How a read-only file is guarded, disposition by disposition: any access that can
/// modify the file is denied; without such access, a create that would create,
/// supersede or overwrite the file (`FILE_CREATE`, `FILE_SUPERSEDE`, `FILE_OVERWRITE`,
/// `FILE_OVERWRITE_IF`) is denied, `FILE_OPEN_IF` is turned into an open of an existing
/// file, and a plain open (`FILE_OPEN`) goes on; the same holds of the verdict for the
/// read-only rule action.
pub proof fn lemma_read_only_guards_the_file(desired_access: u32, disposition: u8)
    ensures
        desired_access & WRITE_ACCESS_RIGHTS != 0 ==> spec_create_read_only(desired_access, disposition)
            == CreateVerdict::DenyAccess,
        desired_access & WRITE_ACCESS_RIGHTS == 0 ==> {
            &&& (disposition as u32 == FILE_CREATE || disposition as u32 == FILE_SUPERSEDE
                || disposition as u32 == FILE_OVERWRITE || disposition as u32 == FILE_OVERWRITE_IF)
                ==> spec_create_read_only(desired_access, disposition) == CreateVerdict::DenyAccess
            &&& disposition as u32 == FILE_OPEN_IF ==> spec_create_read_only(desired_access, disposition)
                == CreateVerdict::OpenExisting
            &&& disposition as u32 == FILE_OPEN ==> spec_create_read_only(desired_access, disposition)
                == CreateVerdict::Allow
            &&& disposition as u32 > FILE_OVERWRITE_IF ==> spec_create_read_only(desired_access, disposition)
                == CreateVerdict::Allow
        },
        spec_create_read_only(desired_access, disposition) == CreateVerdict::Allow ==> desired_access
            & WRITE_ACCESS_RIGHTS == 0 && (disposition as u32 == FILE_OPEN || disposition as u32
            > FILE_OVERWRITE_IF),
{
}

} // verus!
