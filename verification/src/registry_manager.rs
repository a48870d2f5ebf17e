use vstd::prelude::*;

use crate::constants::RULES_REGISTRY_KEY_PATH;
use crate::rules_manager::{
    outcome_is, rule_value_checkable, rule_value_completable, rules_wf, spec_delete_key_rules,
    spec_delete_key_value_rule, spec_rename_key_rules, spec_set_key_value_rule, RulesManager,
};
use crate::status::{nt_err, NtError, STATUS_INVALID_PARAMETER};
use crate::string_utils::{spec_starts_with, CaseTable};

verus! {

/// `RegNtPreRenameKey`: a key is about to be renamed.
pub const REG_NT_PRE_RENAME_KEY: i32 = 4;

/// `RegNtPostDeleteKey`: a key deletion has completed.
pub const REG_NT_POST_DELETE_KEY: i32 = 15;

/// `RegNtPostSetValueKey`: a value has been set.
pub const REG_NT_POST_SET_VALUE_KEY: i32 = 16;

/// `RegNtPostDeleteValueKey`: a value deletion has completed.
pub const REG_NT_POST_DELETE_VALUE_KEY: i32 = 17;

/// `RegNtPostRenameKey`: a key rename has completed.
pub const REG_NT_POST_RENAME_KEY: i32 = 19;

/// The registry operations that the filter follows. A value cannot be renamed, so
/// deleting and setting values is all that can change a value name.
#[derive(Debug, Clone, Copy, PartialEq, Eq, Structural)]
pub enum RegistryOperation {
    PreRenameKey,
    PostRenameKey,
    PostDeleteKey,
    PostDeleteValueKey,
    PostSetValueKey,
}

/// The operation that a registry notification class (`REG_NOTIFY_CLASS`) announces, or
/// `None` for one the filter does not follow.
pub fn registry_operation(class: i32) -> (r: Option<RegistryOperation>)
    ensures
        r == if class == REG_NT_PRE_RENAME_KEY {
            Some(RegistryOperation::PreRenameKey)
        } else if class == REG_NT_POST_RENAME_KEY {
            Some(RegistryOperation::PostRenameKey)
        } else if class == REG_NT_POST_DELETE_KEY {
            Some(RegistryOperation::PostDeleteKey)
        } else if class == REG_NT_POST_DELETE_VALUE_KEY {
            Some(RegistryOperation::PostDeleteValueKey)
        } else if class == REG_NT_POST_SET_VALUE_KEY {
            Some(RegistryOperation::PostSetValueKey)
        } else {
            None
        },
{
    if class == REG_NT_PRE_RENAME_KEY {
        Some(RegistryOperation::PreRenameKey)
    } else if class == REG_NT_POST_RENAME_KEY {
        Some(RegistryOperation::PostRenameKey)
    } else if class == REG_NT_POST_DELETE_KEY {
        Some(RegistryOperation::PostDeleteKey)
    } else if class == REG_NT_POST_DELETE_VALUE_KEY {
        Some(RegistryOperation::PostDeleteValueKey)
    } else if class == REG_NT_POST_SET_VALUE_KEY {
        Some(RegistryOperation::PostSetValueKey)
    } else {
        None
    }
}

/// Whether `key` lies under the protection rules key (ignoring case).
pub open spec fn under_rules_key(t: &CaseTable, key: Seq<u16>) -> bool {
    spec_starts_with(Some(t), key, RULES_REGISTRY_KEY_PATH@)
}

/// After the key `key_path` was deleted: when it lies under the protection rules key,
/// the rules it held are deleted ([`RulesManager::delete_key_rules`]); any other key
/// leaves the rules as they are.
pub fn post_delete_key(rules: &mut RulesManager, key_path: &[u16], t: &CaseTable) -> (r: Result<(), NtError>)
    requires
        rules_wf(old(rules)@),
    ensures
        rules_wf(final(rules)@),
        !under_rules_key(t, key_path@) ==> r is Ok && final(rules)@ == old(rules)@,
        under_rules_key(t, key_path@) ==> outcome_is(
            r,
            old(rules)@,
            final(rules)@,
            spec_delete_key_rules(t, old(rules)@, key_path@),
        ),
{
    if !RulesManager::is_protection_key(key_path, t) {
        return Ok(());
    }
    rules.delete_key_rules(key_path, t)
}

/// After the key `old_key_path` was renamed to `new_key_name`: when it lies under the
/// protection rules key, its rules follow the new name ([`RulesManager::rename_key_rules`]);
/// any other key leaves the rules as they are.
pub fn post_rename_key(
    rules: &mut RulesManager,
    old_key_path: &[u16],
    new_key_name: &[u16],
    t: &CaseTable,
) -> (r: Result<(), NtError>)
    requires
        rules_wf(old(rules)@),
    ensures
        rules_wf(final(rules)@),
        !under_rules_key(t, old_key_path@) ==> r is Ok && final(rules)@ == old(rules)@,
        under_rules_key(t, old_key_path@) ==> outcome_is(
            r,
            old(rules)@,
            final(rules)@,
            spec_rename_key_rules(t, old(rules)@, old_key_path@, new_key_name@),
        ),
{
    if !RulesManager::is_protection_key(old_key_path, t) {
        return Ok(());
    }
    rules.rename_key_rules(old_key_path, new_key_name, t)
}

/// After the value of a key was set: when the key lies under the protection rules key,
/// the value joins the rules it names ([`RulesManager::set_key_value_rule`]); any other
/// key leaves the rules as they are.
///
/// `value` is the value name of the notification with a drive name converted to nt
/// format: `None` when the notification carries no value information
/// (`STATUS_INVALID_PARAMETER`), the error when the conversion failed.
pub fn post_set_value(
    rules: &mut RulesManager,
    key_path: &[u16],
    value: Option<Result<Vec<u16>, NtError>>,
    t: &CaseTable,
) -> (r: Result<(), NtError>)
    requires
        rules_wf(old(rules)@),
        value matches Some(Ok(v)) ==> rule_value_completable(v@) && rule_value_checkable(t, v@),
    ensures
        rules_wf(final(rules)@),
        !under_rules_key(t, key_path@) ==> r is Ok && final(rules)@ == old(rules)@,
        under_rules_key(t, key_path@) ==> match value {
            None => r == nt_err::<()>(STATUS_INVALID_PARAMETER) && final(rules)@ == old(rules)@,
            Some(Err(e)) => r == Err::<(), NtError>(e) && final(rules)@ == old(rules)@,
            Some(Ok(v)) => outcome_is(r, old(rules)@, final(rules)@, spec_set_key_value_rule(t, old(rules)@, key_path@, v@)),
        },
{
    if !RulesManager::is_protection_key(key_path, t) {
        return Ok(());
    }
    match value {
        None => Err(NtError::from_ntstatus(STATUS_INVALID_PARAMETER)),
        Some(Err(e)) => Err(e),
        Some(Ok(v)) => rules.set_key_value_rule(key_path, v, t),
    }
}

/// After a value of a key was deleted: when the key lies under the protection rules key,
/// the value leaves the rules it names ([`RulesManager::delete_key_value_rule`]); any
/// other key leaves the rules as they are. `value` is as for [`post_set_value`].
pub fn post_delete_value(
    rules: &mut RulesManager,
    key_path: &[u16],
    value: Option<Result<Vec<u16>, NtError>>,
    t: &CaseTable,
) -> (r: Result<(), NtError>)
    requires
        rules_wf(old(rules)@),
        value matches Some(Ok(v)) ==> rule_value_completable(v@),
    ensures
        rules_wf(final(rules)@),
        !under_rules_key(t, key_path@) ==> r is Ok && final(rules)@ == old(rules)@,
        under_rules_key(t, key_path@) ==> match value {
            None => r == nt_err::<()>(STATUS_INVALID_PARAMETER) && final(rules)@ == old(rules)@,
            Some(Err(e)) => r == Err::<(), NtError>(e) && final(rules)@ == old(rules)@,
            Some(Ok(v)) => outcome_is(r, old(rules)@, final(rules)@, spec_delete_key_value_rule(t, old(rules)@, key_path@, v@)),
        },
{
    if !RulesManager::is_protection_key(key_path, t) {
        return Ok(());
    }
    match value {
        None => Err(NtError::from_ntstatus(STATUS_INVALID_PARAMETER)),
        Some(Err(e)) => Err(e),
        Some(Ok(v)) => rules.delete_key_value_rule(key_path, v, t),
    }
}

} // verus!
