use rust_minifilter::cm_key_object_path::CmKeyObjectPath;
use rust_minifilter::flt_utils::{
    create_file_disposition, is_modify_disposition, is_write_access_rights,
    set_create_file_disposition, DELETE, FILE_APPEND_DATA, FILE_CREATE, FILE_OPEN, FILE_OPEN_IF,
    FILE_OVERWRITE, FILE_OVERWRITE_IF, FILE_SUPERSEDE, FILE_WRITE_DATA, WRITE_ACCESS_RIGHTS,
    WRITE_DAC,
};
use rust_minifilter::minifilter::{
    create_read_only, create_verdict, is_rename_information, pre_create_verdict,
    pre_set_info_denied, protection_rule_exists, rename_denied, CreateVerdict, FILE_RENAME_INFORMATION, FILE_RENAME_INFORMATION_EX,
};
use rust_minifilter::path_utils::split_dos_path;
use rust_minifilter::registry::{enumerated_name, name_units, EnumStep, NameEnumeration};
use rust_minifilter::rules_manager::{FileAccessEntry, FileSystemRuleAction, RulesManager};
use rust_minifilter::status::{
    NtError, STATUS_ACCESS_DENIED, STATUS_BUFFER_OVERFLOW, STATUS_BUFFER_TOO_SMALL,
    STATUS_INFO_LENGTH_MISMATCH, STATUS_INTEGER_OVERFLOW, STATUS_NO_MORE_ENTRIES,
    STATUS_OBJECT_NAME_NOT_FOUND, STATUS_SUCCESS,
};
use rust_minifilter::string_utils::CaseTable;
use rust_minifilter::utils::is_any_flag_set;

const GENERIC_READ: u32 = 0x8000_0000;
const FILE_READ_DATA: u32 = 0x1;

fn w(s: &str) -> Vec<u16> {
    s.encode_utf16().collect()
}

fn case_table() -> CaseTable {
    let mut upper = Vec::new();
    let mut lower = Vec::new();
    for c in 0..=0xFFFFu32 {
        let c = c as u16;
        let up = if (0x61..=0x7A).contains(&c) { c - 0x20 } else { c };
        let down = if (0x41..=0x5A).contains(&c) { c + 0x20 } else { c };
        upper.push(up);
        lower.push(down);
    }
    CaseTable::new(upper, lower).unwrap()
}

fn err(status: i32) -> NtError {
    NtError::from_ntstatus(status)
}

#[test]
fn flags() {
    assert!(is_any_flag_set(0b1010, 0b0010));
    assert!(!is_any_flag_set(0b1010, 0b0101));
    assert!(!is_any_flag_set(0, u32::MAX));
}

#[test]
fn write_access_rights() {
    assert_eq!(WRITE_ACCESS_RIGHTS, 0xD0156);
    assert!(is_write_access_rights(FILE_WRITE_DATA));
    assert!(is_write_access_rights(FILE_APPEND_DATA | FILE_READ_DATA));
    assert!(is_write_access_rights(DELETE));
    assert!(is_write_access_rights(WRITE_DAC));
    assert!(!is_write_access_rights(FILE_READ_DATA));
    assert!(!is_write_access_rights(GENERIC_READ));
    assert!(!is_write_access_rights(0));
}

#[test]
fn modify_dispositions() {
    for d in [FILE_CREATE, FILE_SUPERSEDE, FILE_OVERWRITE, FILE_OVERWRITE_IF, FILE_OPEN_IF] {
        assert!(is_modify_disposition(d as u8));
    }
    assert!(!is_modify_disposition(FILE_OPEN as u8));
    assert!(!is_modify_disposition(6));
}

#[test]
fn disposition_lives_in_the_upper_byte() {
    let options = 0x0300_0040u32;
    assert_eq!(create_file_disposition(options), 3);
    let changed = set_create_file_disposition(options, FILE_OPEN as u8);
    assert_eq!(changed, 0x0100_0040);
    assert_eq!(create_file_disposition(changed), FILE_OPEN as u8);
    assert_eq!(set_create_file_disposition(options, create_file_disposition(options)), options);
    assert_eq!(set_create_file_disposition(set_create_file_disposition(options, 5), 2), set_create_file_disposition(options, 2));
    assert_eq!(create_file_disposition(0xFFFF_FFFF), 0xFF);
}

#[test]
fn read_only_files_are_opened_not_created() {
    assert_eq!(create_read_only(FILE_WRITE_DATA, FILE_OPEN as u8), CreateVerdict::DenyAccess);
    assert_eq!(create_read_only(FILE_READ_DATA, FILE_OPEN_IF as u8), CreateVerdict::OpenExisting);
    assert_eq!(create_read_only(FILE_READ_DATA, FILE_CREATE as u8), CreateVerdict::DenyAccess);
    assert_eq!(create_read_only(FILE_READ_DATA, FILE_SUPERSEDE as u8), CreateVerdict::DenyAccess);
    assert_eq!(create_read_only(FILE_READ_DATA, FILE_OPEN as u8), CreateVerdict::Allow);
    assert_eq!(create_read_only(FILE_WRITE_DATA, FILE_OPEN_IF as u8), CreateVerdict::DenyAccess);
}

#[test]
fn verdicts_by_rule_action() {
    assert_eq!(create_verdict(FileSystemRuleAction::Deny, FILE_READ_DATA, FILE_OPEN as u8), Some(CreateVerdict::DenyAccess));
    assert_eq!(create_verdict(FileSystemRuleAction::ReadOnly, FILE_READ_DATA, FILE_OPEN as u8), Some(CreateVerdict::Allow));
    assert_eq!(create_verdict(FileSystemRuleAction::ReadOnly, FILE_READ_DATA, FILE_OPEN_IF as u8), Some(CreateVerdict::OpenExisting));
    assert_eq!(create_verdict(FileSystemRuleAction::Bypass, FILE_WRITE_DATA, FILE_CREATE as u8), None);
}

#[test]
fn renames_are_checked_on_both_paths() {
    let t = case_table();
    let mut rules = RulesManager::new();
    rules
        .install_rules(&w("ReadOnly"), vec![FileAccessEntry::new(w("APP.EXE"), vec![w("C:\\KEEP\\*")])], &t)
        .unwrap();
    assert!(is_rename_information(FILE_RENAME_INFORMATION));
    assert!(is_rename_information(FILE_RENAME_INFORMATION_EX));
    assert!(!is_rename_information(13));
    assert!(protection_rule_exists(&rules, &w("app.exe"), &w("C:\\KEEP\\A"), &t));
    assert!(!protection_rule_exists(&rules, &w("app.exe"), &w("C:\\TMP\\A"), &t));
    assert!(rename_denied(&rules, &w("app.exe"), &w("C:\\KEEP\\A"), &w("C:\\TMP\\A"), &t));
    assert!(rename_denied(&rules, &w("app.exe"), &w("C:\\TMP\\A"), &w("C:\\KEEP\\A"), &t));
    assert!(!rename_denied(&rules, &w("app.exe"), &w("C:\\TMP\\A"), &w("C:\\TMP\\B"), &t));
    assert!(!rename_denied(&rules, &w("other.exe"), &w("C:\\KEEP\\A"), &w("C:\\TMP\\B"), &t));
}

#[test]
fn dos_paths_are_taken_apart() {
    let t = case_table();
    let regular = w("C:\\Users\\a.txt");
    let (drive, rest) = split_dos_path(&regular, &t).unwrap();
    assert_eq!(drive, w("\\??\\C:"));
    assert_eq!(rest, &w("\\Users\\a.txt")[..]);
    let object_manager = w("\\??\\d:\\x");
    let (drive, rest) = split_dos_path(&object_manager, &t).unwrap();
    assert_eq!(drive, w("\\??\\d:"));
    assert_eq!(rest, &w("\\x")[..]);
    let bare = w("C:");
    let (drive, rest) = split_dos_path(&bare, &t).unwrap();
    assert_eq!(drive, w("\\??\\C:"));
    assert!(rest.is_empty());
    assert_eq!(split_dos_path(&w("C"), &t).err(), Some(err(STATUS_INFO_LENGTH_MISMATCH)));
}

#[test]
fn key_object_paths() {
    let held = CmKeyObjectPath::from(Some(w("\\REGISTRY\\MACHINE\\X")));
    assert_eq!(held.path(), Ok(&w("\\REGISTRY\\MACHINE\\X")[..]));
    assert_eq!(held.leak(), Some(w("\\REGISTRY\\MACHINE\\X")));
    let none = CmKeyObjectPath::from(None);
    assert_eq!(none.path(), Err(err(STATUS_OBJECT_NAME_NOT_FOUND)));
    assert_eq!(none.leak(), None);
}

#[test]
fn enumeration_name_lengths() {
    assert_eq!(name_units(10), 5);
    assert_eq!(name_units(0), 0);
    assert_eq!(name_units(0x1_0004), 2);
    assert_eq!(name_units(7), 3);
}

#[test]
fn enumeration_statuses() {
    assert_eq!(enumerated_name(STATUS_NO_MORE_ENTRIES, None), Ok(None));
    assert_eq!(enumerated_name(STATUS_SUCCESS, Some(w("Deny"))), Ok(Some(w("Deny"))));
    assert_eq!(enumerated_name(STATUS_ACCESS_DENIED, None), Err(err(STATUS_ACCESS_DENIED)));
    assert_eq!(enumerated_name(STATUS_BUFFER_TOO_SMALL, None), Err(err(STATUS_BUFFER_TOO_SMALL)));
}

#[test]
fn enumeration_collects_names_in_order() {
    let mut e = NameEnumeration::new();
    assert_eq!(e.index(), 0);
    assert_eq!(e.next(Err(err(STATUS_BUFFER_TOO_SMALL)), 64, 0), EnumStep::GrowBuffer { additional: 64 });
    assert_eq!(e.index(), 0);
    assert_eq!(e.next(Err(err(STATUS_BUFFER_OVERFLOW)), 80, 16), EnumStep::GrowBuffer { additional: 64 });
    assert_eq!(e.next(Err(err(STATUS_BUFFER_OVERFLOW)), 8, 16), EnumStep::GrowBuffer { additional: 0 });
    assert_eq!(e.next(Ok(Some(w("Deny"))), 0, 0), EnumStep::Query { index: 1 });
    assert_eq!(e.next(Ok(Some(w("ReadOnly"))), 0, 0), EnumStep::Query { index: 2 });
    assert_eq!(e.next(Ok(None), 0, 0), EnumStep::Done);
    assert_eq!(e.into_names(), vec![w("Deny"), w("ReadOnly")]);
}

#[test]
fn enumeration_failures() {
    let mut e = NameEnumeration::new();
    assert_eq!(e.next(Err(err(STATUS_ACCESS_DENIED)), 0, 0), EnumStep::Failed(err(STATUS_ACCESS_DENIED)));
    assert_eq!(e.index(), 0);
    assert!(e.into_names().is_empty());
    let mut big = NameEnumeration::new();
    if usize::MAX as u128 > u32::MAX as u128 {
        let len = (u32::MAX as usize).wrapping_add(1);
        assert_eq!(big.next(Err(err(STATUS_BUFFER_TOO_SMALL)), 1, len), EnumStep::Failed(err(STATUS_INTEGER_OVERFLOW)));
    }
    assert_eq!(big.next(Ok(None), 0, 0), EnumStep::Done);
}

#[test]
fn own_verdict_first_then_the_parent_then_allow() {
    assert_eq!(pre_create_verdict(Some(CreateVerdict::DenyAccess), Some(CreateVerdict::Allow)), CreateVerdict::DenyAccess);
    assert_eq!(pre_create_verdict(Some(CreateVerdict::Allow), Some(CreateVerdict::DenyAccess)), CreateVerdict::Allow);
    assert_eq!(pre_create_verdict(None, Some(CreateVerdict::OpenExisting)), CreateVerdict::OpenExisting);
    assert_eq!(pre_create_verdict(None, None), CreateVerdict::Allow);
    assert!(pre_set_info_denied(true, None));
    assert!(pre_set_info_denied(false, Some(true)));
    assert!(!pre_set_info_denied(false, Some(false)));
    assert!(!pre_set_info_denied(false, None));
}

#[test]
fn both_dos_forms_split_alike() {
    let t = case_table();
    let regular = w("C:\\Path");
    let object_manager = w("\\??\\C:\\Path");
    let (d1, r1) = split_dos_path(&regular, &t).unwrap();
    let (d2, r2) = split_dos_path(&object_manager, &t).unwrap();
    assert_eq!(d1, d2);
    assert_eq!(r1, r2);
}
