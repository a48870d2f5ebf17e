use rust_minifilter::constants::{
    DENY_RULES_REGISTRY_KEY_NAME, DENY_RULES_REGISTRY_KEY_PATH, READ_ONLY_RULES_REGISTRY_KEY_NAME,
    READ_ONLY_RULES_REGISTRY_KEY_PATH, RULES_REGISTRY_KEY_PATH,
};
use rust_minifilter::registry_manager::{
    post_delete_key, post_delete_value, post_rename_key, post_set_value, registry_operation,
    RegistryOperation,
    REG_NT_POST_DELETE_KEY, REG_NT_POST_DELETE_VALUE_KEY, REG_NT_POST_RENAME_KEY,
    REG_NT_POST_SET_VALUE_KEY, REG_NT_PRE_RENAME_KEY,
};
use rust_minifilter::rules_manager::{
    add_file_to_process_rules_impl, clear_rules_for_process_impl, complete_rule_file_path,
    is_disk_specified, parse_protection_rule_key, remove_file_from_process_rules_impl,
    rename_process_rules_impl, rule_entry, rule_path_is_checkable, rule_value_is_checkable,
    search_rule_impl, FileAccessEntry, FileSystemRuleAction, RulesManager,
};
use rust_minifilter::status::{
    NtError, STATUS_ACCESS_DENIED, STATUS_BUFFER_OVERFLOW, STATUS_INFO_LENGTH_MISMATCH,
    STATUS_INVALID_PARAMETER, STATUS_OBJECT_NAME_NOT_FOUND,
};
use rust_minifilter::string_utils::CaseTable;

fn w(s: &str) -> Vec<u16> {
    s.encode_utf16().collect()
}

fn case_table() -> CaseTable {
    let mut upper = Vec::new();
    let mut lower = Vec::new();
    for c in 0..=0xFFFFu32 {
        let c = c as u16;
        let up = if (0x61..=0x7A).contains(&c) { c - 0x20 } else { c };
        let down = if (0x41..=0x5A).contains(&c) { c + 0x20 } else { c };
        upper.push(up);
        lower.push(down);
    }
    CaseTable::new(upper, lower).unwrap()
}

fn err(status: i32) -> NtError {
    NtError::from_ntstatus(status)
}

fn key(base: &[u16], tail: &str) -> Vec<u16> {
    let mut k = base.to_vec();
    k.extend(w(tail));
    k
}

fn entry(process: &str, paths: &[&str]) -> FileAccessEntry {
    FileAccessEntry::new(w(process), paths.iter().map(|p| w(p)).collect())
}

fn names(rules: &[FileAccessEntry]) -> Vec<Vec<u16>> {
    rules.iter().map(|e| e.process_name().to_vec()).collect()
}

#[test]
fn rule_types_from_key_names() {
    let t = case_table();
    assert_eq!(FileSystemRuleAction::try_from(&w("Deny"), &t), Ok(FileSystemRuleAction::Deny));
    assert_eq!(FileSystemRuleAction::try_from(&w("deny"), &t), Ok(FileSystemRuleAction::Deny));
    assert_eq!(FileSystemRuleAction::try_from(&w("READONLY"), &t), Ok(FileSystemRuleAction::ReadOnly));
    assert_eq!(FileSystemRuleAction::try_from(&w("Other"), &t), Err(err(STATUS_INVALID_PARAMETER)));
    assert_eq!(FileSystemRuleAction::Deny.to_key_name(), Ok(DENY_RULES_REGISTRY_KEY_NAME.to_vec()));
    assert_eq!(FileSystemRuleAction::ReadOnly.to_key_name(), Ok(READ_ONLY_RULES_REGISTRY_KEY_NAME.to_vec()));
    assert_eq!(FileSystemRuleAction::Bypass.to_key_name(), Err(err(STATUS_INVALID_PARAMETER)));
}

#[test]
fn detects_a_disk_in_a_path() {
    assert!(is_disk_specified(&w("C:\\Users\\user\\*")));
    assert!(is_disk_specified(&w("d:")));
    assert!(!is_disk_specified(&w("*user\\*")));
    assert!(!is_disk_specified(&w("C")));
    assert!(!is_disk_specified(&w("\\??\\C:\\x")));
}

#[test]
fn completes_rule_file_paths() {
    let t = case_table();
    let mut folder = w("\\device\\harddiskvolume3\\dir\\");
    assert_eq!(complete_rule_file_path(&mut folder, &t), Ok(()));
    assert_eq!(folder, w("\\DEVICE\\HARDDISKVOLUME3\\DIR\\*"));

    let mut file = w("\\device\\f.txt");
    assert_eq!(complete_rule_file_path(&mut file, &t), Ok(()));
    assert_eq!(file, w("\\DEVICE\\F.TXT"));

    let mut long = vec![0x61u16; 32765];
    long.push(0x5C);
    assert_eq!(complete_rule_file_path(&mut long, &t), Err(err(STATUS_BUFFER_OVERFLOW)));
    assert_eq!(long.len(), 32766);
    assert_eq!(long[32765], 0x5C);

    let mut fits = vec![0x61u16; 32764];
    fits.push(0x5C);
    assert_eq!(complete_rule_file_path(&mut fits, &t), Ok(()));
    assert_eq!(fits.len(), 32766);
    assert_eq!(fits[32765], 0x2A);
    assert_eq!(fits[0], 0x41);
}

#[test]
fn entries_keep_what_they_are_given() {
    let e = entry("NOTEPAD.EXE", &["C:\\A", "C:\\B\\*"]);
    assert_eq!(e.process_name(), &w("NOTEPAD.EXE")[..]);
    assert_eq!(e.file_paths(), &[w("C:\\A"), w("C:\\B\\*")][..]);
}

#[test]
fn searches_deny_rules() {
    let t = case_table();
    let mut rules = RulesManager::new();
    assert_eq!(
        rules.install_rules(&w("Deny"), vec![entry("NOTEPAD.EXE", &["C:\\SECRET\\*", "C:\\KEY.TXT"])], &t),
        Ok(())
    );
    assert_eq!(rules.search_rule_action(&w("notepad.exe"), &w("C:\\secret\\a.txt"), &t), FileSystemRuleAction::Deny);
    assert_eq!(rules.search_rule_action(&w("notepad.exe"), &w("c:\\key.txt"), &t), FileSystemRuleAction::Deny);
    // A folder rule covers the folder itself.
    assert_eq!(rules.search_rule_action(&w("notepad.exe"), &w("C:\\Secret"), &t), FileSystemRuleAction::Deny);
    assert_eq!(rules.search_rule_action(&w("notepad.exe"), &w("C:\\other.txt"), &t), FileSystemRuleAction::Bypass);
    assert_eq!(rules.search_rule_action(&w("calc.exe"), &w("C:\\secret\\a.txt"), &t), FileSystemRuleAction::Bypass);
}

#[test]
fn search_ignores_case() {
    let t = case_table();
    let mut rules = RulesManager::new();
    rules.install_rules(&w("ReadOnly"), vec![entry("WORD.EXE", &["C:\\DOCS\\*"])], &t).unwrap();
    let a = rules.search_rule_action(&w("WORD.EXE"), &w("C:\\DOCS\\X"), &t);
    let b = rules.search_rule_action(&w("word.exe"), &w("c:\\docs\\x"), &t);
    assert_eq!(a, FileSystemRuleAction::ReadOnly);
    assert_eq!(a, b);
}

#[test]
fn deny_wins_over_read_only() {
    let t = case_table();
    let mut rules = RulesManager::new();
    rules.install_rules(&w("ReadOnly"), vec![entry("APP.EXE", &["C:\\DATA\\*"])], &t).unwrap();
    assert_eq!(rules.search_rule_action(&w("app.exe"), &w("C:\\DATA\\F"), &t), FileSystemRuleAction::ReadOnly);
    rules.install_rules(&w("Deny"), vec![entry("APP.EXE", &["C:\\DATA\\F"])], &t).unwrap();
    assert_eq!(rules.search_rule_action(&w("app.exe"), &w("C:\\DATA\\F"), &t), FileSystemRuleAction::Deny);
    assert_eq!(rules.search_rule_action(&w("app.exe"), &w("C:\\DATA\\G"), &t), FileSystemRuleAction::ReadOnly);
}

#[test]
fn every_matching_entry_is_searched() {
    let t = case_table();
    let rules = vec![entry("*", &["C:\\A"]), entry("NOTEPAD.EXE", &["C:\\B"])];
    assert!(search_rule_impl(&rules, &w("notepad.exe"), &w("C:\\A"), &t));
    assert!(search_rule_impl(&rules, &w("notepad.exe"), &w("C:\\B"), &t));
    assert!(search_rule_impl(&rules, &w("anything"), &w("c:\\a"), &t));
    assert!(!search_rule_impl(&rules, &w("anything"), &w("c:\\b"), &t));
    let twice = vec![entry("A", &["G"]), entry("A", &["F"])];
    assert!(search_rule_impl(&twice, &w("A"), &w("F"), &t));
    assert!(search_rule_impl(&twice, &w("a"), &w("g"), &t));
    assert!(!search_rule_impl(&twice, &w("A"), &w("H"), &t));
}

#[test]
fn install_refuses_unknown_rule_types() {
    let t = case_table();
    let mut rules = RulesManager::new();
    assert_eq!(
        rules.install_rules(&w("Audit"), vec![entry("A.EXE", &["C:\\X"])], &t),
        Err(err(STATUS_INVALID_PARAMETER))
    );
    assert_eq!(rules.search_rule_action(&w("a.exe"), &w("C:\\X"), &t), FileSystemRuleAction::Bypass);
}

#[test]
fn init_status_forgives_a_missing_rules_key() {
    assert_eq!(RulesManager::init_status(Ok(())), Ok(()));
    assert_eq!(RulesManager::init_status(Err(err(STATUS_OBJECT_NAME_NOT_FOUND))), Ok(()));
    assert_eq!(RulesManager::init_status(Err(err(STATUS_ACCESS_DENIED))), Err(err(STATUS_ACCESS_DENIED)));
}

#[test]
fn parses_rule_key_paths() {
    let t = case_table();
    let root = parse_protection_rule_key(&RULES_REGISTRY_KEY_PATH, &t).unwrap();
    assert_eq!(root.rule_type, None);
    assert_eq!(root.process_name, None);

    let deny = parse_protection_rule_key(&DENY_RULES_REGISTRY_KEY_PATH, &t).unwrap();
    assert_eq!(deny.rule_type, Some(FileSystemRuleAction::Deny));
    assert_eq!(deny.process_name, None);

    let k = key(&READ_ONLY_RULES_REGISTRY_KEY_PATH, "\\app.exe");
    let ro = parse_protection_rule_key(&k, &t).unwrap();
    assert_eq!(ro.rule_type, Some(FileSystemRuleAction::ReadOnly));
    assert_eq!(ro.process_name, Some(&w("app.exe")[..]));

    let lower = key(&RULES_REGISTRY_KEY_PATH, "\\deny\\x.exe");
    assert_eq!(parse_protection_rule_key(&lower, &t).unwrap().rule_type, Some(FileSystemRuleAction::Deny));

    let unknown = key(&RULES_REGISTRY_KEY_PATH, "\\Audit\\x.exe");
    assert_eq!(parse_protection_rule_key(&unknown, &t).err(), Some(err(STATUS_INVALID_PARAMETER)));
    let unknown_type = key(&RULES_REGISTRY_KEY_PATH, "\\Audit");
    assert_eq!(parse_protection_rule_key(&unknown_type, &t).err(), Some(err(STATUS_INVALID_PARAMETER)));
    let no_slash = key(&RULES_REGISTRY_KEY_PATH, "Deny");
    assert_eq!(parse_protection_rule_key(&no_slash, &t).err(), Some(err(STATUS_INVALID_PARAMETER)));
    assert_eq!(parse_protection_rule_key(&w("\\REGISTRY"), &t).err(), Some(err(STATUS_INFO_LENGTH_MISMATCH)));
}

#[test]
fn recognizes_protection_keys() {
    let t = case_table();
    assert!(RulesManager::is_protection_key(&RULES_REGISTRY_KEY_PATH, &t));
    assert!(RulesManager::is_protection_key(&w("\\registry\\machine\\software\\filesystemfilter\\rules\\Deny"), &t));
    assert!(!RulesManager::is_protection_key(&w("\\REGISTRY\\MACHINE\\SOFTWARE\\Other"), &t));
}

#[test]
fn setting_a_key_value_adds_a_rule() {
    let t = case_table();
    let mut rules = RulesManager::new();
    let k = key(&DENY_RULES_REGISTRY_KEY_PATH, "\\notepad.exe");
    let file = w("\\device\\harddiskvolume3\\secret\\");
    assert_eq!(rules.set_key_value_rule(&k, file.clone(), &t), Ok(()));
    assert_eq!(
        rules.search_rule_action(&w("Notepad.exe"), &w("\\Device\\HarddiskVolume3\\Secret\\plan.txt"), &t),
        FileSystemRuleAction::Deny
    );
    // A second file joins the same entry.
    let other = w("\\device\\x.txt");
    assert_eq!(rules.set_key_value_rule(&k, other.clone(), &t), Ok(()));
    assert_eq!(rules.search_rule_action(&w("notepad.exe"), &w("\\DEVICE\\X.TXT"), &t), FileSystemRuleAction::Deny);

    // Deleting the value removes only that file.
    assert_eq!(rules.delete_key_value_rule(&k, file.clone(), &t), Ok(()));
    assert_eq!(
        rules.search_rule_action(&w("notepad.exe"), &w("\\DEVICE\\HARDDISKVOLUME3\\SECRET\\PLAN.TXT"), &t),
        FileSystemRuleAction::Bypass
    );
    assert_eq!(rules.search_rule_action(&w("notepad.exe"), &w("\\DEVICE\\X.TXT"), &t), FileSystemRuleAction::Deny);

    // Deleting the key removes the rest.
    assert_eq!(rules.delete_key_rules(&k, &t), Ok(()));
    assert_eq!(rules.search_rule_action(&w("notepad.exe"), &w("\\DEVICE\\X.TXT"), &t), FileSystemRuleAction::Bypass);
}

#[test]
fn key_values_of_a_type_key_change_nothing() {
    let t = case_table();
    let mut rules = RulesManager::new();
    assert_eq!(rules.set_key_value_rule(&DENY_RULES_REGISTRY_KEY_PATH, w("C:\\X"), &t), Ok(()));
    assert_eq!(rules.set_key_value_rule(&RULES_REGISTRY_KEY_PATH, w("C:\\X"), &t), Ok(()));
    assert_eq!(rules.search_rule_action(&w("any"), &w("C:\\X"), &t), FileSystemRuleAction::Bypass);
    let bad = key(&RULES_REGISTRY_KEY_PATH, "\\Audit\\a.exe");
    assert_eq!(rules.set_key_value_rule(&bad, w("C:\\X"), &t), Err(err(STATUS_INVALID_PARAMETER)));
    assert_eq!(rules.delete_key_rules(&bad, &t), Err(err(STATUS_INVALID_PARAMETER)));
}

#[test]
fn renaming_a_key_renames_its_rules() {
    let t = case_table();
    let mut rules = RulesManager::new();
    let k = key(&READ_ONLY_RULES_REGISTRY_KEY_PATH, "\\notepad.exe");
    rules.set_key_value_rule(&k, w("C:\\NOTES\\*"), &t).unwrap();
    assert_eq!(rules.rename_key_rules(&k, &w("wordpad.exe"), &t), Ok(()));
    assert_eq!(rules.search_rule_action(&w("wordpad.exe"), &w("C:\\NOTES\\A"), &t), FileSystemRuleAction::ReadOnly);
    assert_eq!(rules.search_rule_action(&w("notepad.exe"), &w("C:\\NOTES\\A"), &t), FileSystemRuleAction::Bypass);
    let too_long = vec![0x61u16; 32768];
    let k2 = key(&READ_ONLY_RULES_REGISTRY_KEY_PATH, "\\wordpad.exe");
    assert_eq!(rules.rename_key_rules(&k2, &too_long, &t), Err(err(STATUS_BUFFER_OVERFLOW)));
    assert_eq!(rules.search_rule_action(&w("wordpad.exe"), &w("C:\\NOTES\\A"), &t), FileSystemRuleAction::ReadOnly);
}

#[test]
fn manager_edits_by_rule_type() {
    let t = case_table();
    let mut rules = RulesManager::new();
    assert_eq!(rules.add_file_to_process_rules(FileSystemRuleAction::Deny, &w("a.exe"), w("C:\\F"), &t), Ok(()));
    assert_eq!(rules.add_file_to_process_rules(FileSystemRuleAction::Bypass, &w("b.exe"), w("C:\\F"), &t), Ok(()));
    assert_eq!(rules.search_rule_action(&w("b.exe"), &w("C:\\F"), &t), FileSystemRuleAction::Bypass);
    assert_eq!(
        rules.add_file_to_process_rules(FileSystemRuleAction::Deny, &vec![0x61u16; 32768], w("C:\\F"), &t),
        Err(err(STATUS_BUFFER_OVERFLOW))
    );
    assert_eq!(rules.rename_process_rules(FileSystemRuleAction::Deny, &w("A.EXE"), &w("c.exe"), &t), Ok(()));
    assert_eq!(rules.search_rule_action(&w("C.EXE"), &w("c:\\f"), &t), FileSystemRuleAction::Deny);
    rules.remove_file_from_process_rules(FileSystemRuleAction::Deny, &w("c.exe"), &w("c:\\f"), &t);
    assert_eq!(rules.search_rule_action(&w("c.exe"), &w("C:\\F"), &t), FileSystemRuleAction::Bypass);
    rules.add_file_to_process_rules(FileSystemRuleAction::ReadOnly, &w("d.exe"), w("C:\\G"), &t).unwrap();
    rules.clear_rules_for_process(FileSystemRuleAction::ReadOnly, &w("D.EXE"), &t);
    assert_eq!(rules.search_rule_action(&w("d.exe"), &w("C:\\G"), &t), FileSystemRuleAction::Bypass);
}

#[test]
fn rule_list_edits() {
    let t = case_table();
    let mut rules = vec![entry("A.EXE", &["C:\\1", "C:\\2"]), entry("B.EXE", &["C:\\3"])];
    add_file_to_process_rules_impl(&mut rules, &w("a.exe"), w("C:\\4"), &t).unwrap();
    assert_eq!(rules[0].file_paths(), &[w("C:\\1"), w("C:\\2"), w("C:\\4")][..]);
    add_file_to_process_rules_impl(&mut rules, &w("c.exe"), w("C:\\5"), &t).unwrap();
    assert_eq!(names(&rules), vec![w("A.EXE"), w("B.EXE"), w("C.EXE")]);
    assert_eq!(rules[2].file_paths(), &[w("C:\\5")][..]);

    remove_file_from_process_rules_impl(&mut rules, &w("a.exe"), &w("c:\\2"), &t);
    assert_eq!(rules[0].file_paths(), &[w("C:\\1"), w("C:\\4")][..]);
    remove_file_from_process_rules_impl(&mut rules, &w("z.exe"), &w("C:\\1"), &t);
    assert_eq!(rules.len(), 3);

    rename_process_rules_impl(&mut rules, &w("b.exe"), &w("d.exe"), &t).unwrap();
    assert_eq!(names(&rules), vec![w("A.EXE"), w("D.EXE"), w("C.EXE")]);
    assert_eq!(rules[1].file_paths(), &[w("C:\\3")][..]);

    clear_rules_for_process_impl(&mut rules, &w("a.EXE"), &t);
    assert_eq!(names(&rules), vec![w("D.EXE"), w("C.EXE")]);
    clear_rules_for_process_impl(&mut rules, &w("nobody"), &t);
    assert_eq!(rules.len(), 2);
}

#[test]
fn a_cleared_process_is_unprotected() {
    let t = case_table();
    let mut rules = vec![entry("A.EXE", &["*"]), entry("B.EXE", &["*"])];
    assert!(search_rule_impl(&rules, &w("a.exe"), &w("C:\\ANY"), &t));
    clear_rules_for_process_impl(&mut rules, &w("A.EXE"), &t);
    assert!(!search_rule_impl(&rules, &w("a.exe"), &w("C:\\ANY"), &t));
    assert!(search_rule_impl(&rules, &w("b.exe"), &w("C:\\ANY"), &t));
}

#[test]
fn registry_changes_outside_the_rules_key_are_ignored() {
    let t = case_table();
    let mut rules = RulesManager::new();
    let k = key(&DENY_RULES_REGISTRY_KEY_PATH, "\\app.exe");
    rules.set_key_value_rule(&k, w("C:\\P"), &t).unwrap();
    let elsewhere = w("\\REGISTRY\\MACHINE\\SOFTWARE\\Vendor\\Deny\\app.exe");
    assert_eq!(post_delete_key(&mut rules, &elsewhere, &t), Ok(()));
    assert_eq!(post_rename_key(&mut rules, &elsewhere, &w("x.exe"), &t), Ok(()));
    assert_eq!(rules.search_rule_action(&w("app.exe"), &w("C:\\P"), &t), FileSystemRuleAction::Deny);

    assert_eq!(post_rename_key(&mut rules, &k, &w("x.exe"), &t), Ok(()));
    assert_eq!(rules.search_rule_action(&w("x.exe"), &w("C:\\P"), &t), FileSystemRuleAction::Deny);
    let renamed = key(&DENY_RULES_REGISTRY_KEY_PATH, "\\x.exe");
    assert_eq!(post_delete_key(&mut rules, &renamed, &t), Ok(()));
    assert_eq!(rules.search_rule_action(&w("x.exe"), &w("C:\\P"), &t), FileSystemRuleAction::Bypass);
}

#[test]
fn classifies_registry_notifications() {
    assert_eq!(registry_operation(REG_NT_PRE_RENAME_KEY), Some(RegistryOperation::PreRenameKey));
    assert_eq!(registry_operation(REG_NT_POST_RENAME_KEY), Some(RegistryOperation::PostRenameKey));
    assert_eq!(registry_operation(REG_NT_POST_DELETE_KEY), Some(RegistryOperation::PostDeleteKey));
    assert_eq!(registry_operation(REG_NT_POST_DELETE_VALUE_KEY), Some(RegistryOperation::PostDeleteValueKey));
    assert_eq!(registry_operation(REG_NT_POST_SET_VALUE_KEY), Some(RegistryOperation::PostSetValueKey));
    assert_eq!(registry_operation(0), None);
    assert_eq!(registry_operation(12), None);
}

#[test]
fn key_values_are_completed_as_rule_paths() {
    let t = case_table();
    let mut rules = RulesManager::new();
    let k = key(&DENY_RULES_REGISTRY_KEY_PATH, "\\app.exe");
    assert_eq!(rules.set_key_value_rule(&k, w("*\\secret\\*"), &t), Ok(()));
    assert_eq!(
        rules.search_rule_action(&w("app.exe"), &w("\\Device\\HarddiskVolume3\\secret\\a.txt"), &t),
        FileSystemRuleAction::Deny
    );
    let folder = key(&READ_ONLY_RULES_REGISTRY_KEY_PATH, "\\app.exe");
    assert_eq!(rules.set_key_value_rule(&folder, w("\\device\\docs\\"), &t), Ok(()));
    assert_eq!(rules.search_rule_action(&w("APP.EXE"), &w("\\DEVICE\\DOCS\\X"), &t), FileSystemRuleAction::ReadOnly);
    assert_eq!(rules.search_rule_action(&w("APP.EXE"), &w("\\DEVICE\\DOCS"), &t), FileSystemRuleAction::ReadOnly);
    let mut long = vec![0x61u16; 32765];
    long.push(0x5C);
    assert_eq!(rules.set_key_value_rule(&k, long.clone(), &t), Err(err(STATUS_BUFFER_OVERFLOW)));
    assert_eq!(rules.delete_key_value_rule(&k, long, &t), Err(err(STATUS_BUFFER_OVERFLOW)));
}

#[test]
fn deleting_a_value_undoes_setting_it() {
    let t = case_table();
    assert!(t.upper_case_is_settled());
    let mut rules = RulesManager::new();
    rules.install_rules(&w("Deny"), vec![entry("APP.EXE", &["C:\\KEEP", "C:\\TMP\\*"])], &t).unwrap();
    let probes = [("app.exe", "C:\\KEEP"), ("app.exe", "C:\\TMP\\A"), ("app.exe", "C:\\NEW"), ("b.exe", "C:\\NEW")];
    let before: Vec<_> = probes.iter().map(|(p, f)| rules.search_rule_action(&w(p), &w(f), &t)).collect();
    for (proc_key, value) in [("\\app.exe", "c:\\new"), ("\\app.exe", "c:\\keep"), ("\\b.exe", "c:\\new")] {
        let k = key(&DENY_RULES_REGISTRY_KEY_PATH, proc_key);
        rules.set_key_value_rule(&k, w(value), &t).unwrap();
        rules.delete_key_value_rule(&k, w(value), &t).unwrap();
        let after: Vec<_> = probes.iter().map(|(p, f)| rules.search_rule_action(&w(p), &w(f), &t)).collect();
        assert_eq!(after, before);
    }
}

#[test]
fn rule_entries_from_registry_values() {
    let t = case_table();
    let e = rule_entry(w("notepad.exe"), vec![w("\\device\\a\\"), w("\\device\\b.txt")], &t).unwrap();
    assert_eq!(e.process_name(), &w("NOTEPAD.EXE")[..]);
    assert_eq!(e.file_paths(), &[w("\\DEVICE\\A\\*"), w("\\DEVICE\\B.TXT")][..]);
    let mut long = vec![0x61u16; 32765];
    long.push(0x5C);
    assert_eq!(rule_entry(w("x.exe"), vec![w("\\ok"), long], &t).err(), Some(err(STATUS_BUFFER_OVERFLOW)));
    let empty = rule_entry(w("y.exe"), vec![], &t).unwrap();
    assert!(empty.file_paths().is_empty());
}

#[test]
fn checks_key_values_before_they_become_rules() {
    let t = case_table();
    assert!(rule_value_is_checkable(&w("C:\\X"), &t));
    assert!(rule_value_is_checkable(&w(""), &t));
    assert!(rule_value_is_checkable(&w("C:\\DIR\\"), &t));
    assert!(!rule_value_is_checkable(&[0x61, 0xD800], &t));
    assert!(!rule_value_is_checkable(&[0x61, 0xD800, 0x2A], &t));
    assert!(rule_path_is_checkable(&w("C:\\DIR\\*")));
}

#[test]
fn registry_value_notifications() {
    let t = case_table();
    let mut rules = RulesManager::new();
    let k = key(&DENY_RULES_REGISTRY_KEY_PATH, "\\app.exe");
    let elsewhere = w("\\REGISTRY\\MACHINE\\SOFTWARE\\Vendor\\app.exe");
    assert_eq!(post_set_value(&mut rules, &elsewhere, None, &t), Ok(()));
    assert_eq!(post_set_value(&mut rules, &elsewhere, Some(Ok(w("C:\\X"))), &t), Ok(()));
    assert_eq!(rules.search_rule_action(&w("app.exe"), &w("C:\\X"), &t), FileSystemRuleAction::Bypass);
    assert_eq!(post_set_value(&mut rules, &k, None, &t), Err(err(STATUS_INVALID_PARAMETER)));
    assert_eq!(post_set_value(&mut rules, &k, Some(Err(err(STATUS_ACCESS_DENIED))), &t), Err(err(STATUS_ACCESS_DENIED)));
    assert_eq!(post_set_value(&mut rules, &k, Some(Ok(w("c:\\x"))), &t), Ok(()));
    assert_eq!(rules.search_rule_action(&w("app.exe"), &w("C:\\X"), &t), FileSystemRuleAction::Deny);
    assert_eq!(post_delete_value(&mut rules, &elsewhere, Some(Ok(w("c:\\x"))), &t), Ok(()));
    assert_eq!(rules.search_rule_action(&w("app.exe"), &w("C:\\X"), &t), FileSystemRuleAction::Deny);
    assert_eq!(post_delete_value(&mut rules, &k, None, &t), Err(err(STATUS_INVALID_PARAMETER)));
    assert_eq!(post_delete_value(&mut rules, &k, Some(Ok(w("c:\\x"))), &t), Ok(()));
    assert_eq!(rules.search_rule_action(&w("app.exe"), &w("C:\\X"), &t), FileSystemRuleAction::Bypass);
}
