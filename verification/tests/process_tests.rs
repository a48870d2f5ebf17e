use hashbrown::TryReserveError;
use rust_minifilter::process::{
    image_name_from_path, image_path_size_status, is_system_process_id, parent_process_id,
    SYSTEM_PROCESS_ID, SYSTEM_PROCESS_NAME, SYSTEM_PROCESS_PATH,
};
use rust_minifilter::process_manager::{into_nt_error, ProcessInfo, ProcessManager};
use rust_minifilter::status::{
    NtError, STATUS_ACCESS_DENIED, STATUS_INFO_LENGTH_MISMATCH, STATUS_INSUFFICIENT_RESOURCES,
    STATUS_INTEGER_OVERFLOW, STATUS_SUCCESS, STATUS_UNSUCCESSFUL,
};

fn w(s: &str) -> Vec<u16> {
    s.encode_utf16().collect()
}

fn err(status: i32) -> NtError {
    NtError::from_ntstatus(status)
}

fn info(name: &str, ppid: Option<u32>) -> ProcessInfo {
    ProcessInfo { name: w(name), ppid }
}

fn name_of(pm: &ProcessManager, pid: u32) -> Option<Vec<u16>> {
    pm.process_info(pid).map(|i| i.name)
}

fn parent_of(pm: &ProcessManager, pid: u32) -> Option<Option<u32>> {
    pm.process_info(pid).map(|i| i.ppid)
}

#[test]
fn system_process_identity() {
    assert!(is_system_process_id(SYSTEM_PROCESS_ID));
    assert!(is_system_process_id(4));
    assert!(!is_system_process_id(5));
    assert_eq!(image_name_from_path(&SYSTEM_PROCESS_PATH), Ok(SYSTEM_PROCESS_NAME.to_vec()));
}

#[test]
fn image_name_is_after_the_last_backslash() {
    assert_eq!(image_name_from_path(&w("\\Device\\HarddiskVolume3\\Windows\\notepad.exe")), Ok(w("notepad.exe")));
    assert_eq!(image_name_from_path(&w("C:\\dir\\")), Ok(w("")));
    assert_eq!(image_name_from_path(&w("notepad.exe")), Err(err(STATUS_UNSUCCESSFUL)));
}

#[test]
fn parent_identifiers() {
    assert_eq!(parent_process_id(SYSTEM_PROCESS_ID, 100), Ok(None));
    assert_eq!(parent_process_id(1234, 100), Ok(Some(100)));
    assert_eq!(parent_process_id(1234, 1 << 32), Err(err(STATUS_INTEGER_OVERFLOW)));
    assert_eq!(parent_process_id(1234, u32::MAX as u64), Ok(Some(u32::MAX)));
}

#[test]
fn image_path_size_query() {
    assert_eq!(image_path_size_status(STATUS_INFO_LENGTH_MISMATCH), Ok(()));
    assert_eq!(image_path_size_status(STATUS_ACCESS_DENIED), Err(err(STATUS_ACCESS_DENIED)));
    assert_eq!(image_path_size_status(STATUS_SUCCESS), Err(err(STATUS_SUCCESS)));
}

#[test]
fn added_process_is_found() {
    let mut pm = ProcessManager::new();
    assert!(pm.process_info(10).is_none());
    assert_eq!(pm.add_process(10, info("a.exe", Some(1))), Ok(()));
    assert_eq!(name_of(&pm, 10), Some(w("a.exe")));
    assert_eq!(parent_of(&pm, 10), Some(Some(1)));
    assert!(pm.process_info(11).is_none());
}

#[test]
fn adding_a_known_process_keeps_the_first() {
    let mut pm = ProcessManager::new();
    pm.add_process(10, info("first.exe", None)).unwrap();
    assert_eq!(pm.add_process(10, info("second.exe", Some(3))), Ok(()));
    assert_eq!(name_of(&pm, 10), Some(w("first.exe")));
    assert_eq!(parent_of(&pm, 10), Some(None));
}

#[test]
fn stopped_process_is_forgotten() {
    let mut pm = ProcessManager::new();
    pm.add_process(1, info("parent.exe", None)).unwrap();
    pm.add_process(2, info("child.exe", Some(1))).unwrap();
    pm.add_process(3, info("other.exe", Some(7))).unwrap();
    pm.remove_process(1);
    assert!(pm.process_info(1).is_none());
    assert_eq!(parent_of(&pm, 2), Some(None));
    assert_eq!(name_of(&pm, 2), Some(w("child.exe")));
    assert_eq!(parent_of(&pm, 3), Some(Some(7)));
    pm.remove_process(42);
    assert_eq!(name_of(&pm, 3), Some(w("other.exe")));
}

#[test]
fn process_callback_removes_only_on_exit() {
    let mut pm = ProcessManager::new();
    pm.add_process(5, info("p.exe", Some(4))).unwrap();
    pm.add_process(6, info("q.exe", Some(5))).unwrap();
    pm.process_callback(5, true);
    assert_eq!(name_of(&pm, 5), Some(w("p.exe")));
    pm.process_callback(5, false);
    assert!(pm.process_info(5).is_none());
    assert_eq!(parent_of(&pm, 6), Some(None));
}

#[test]
fn get_or_add_uses_the_known_information_first() {
    let mut pm = ProcessManager::new();
    pm.add_process(8, info("known.exe", None)).unwrap();
    let got = pm.get_or_add_process_info(8, Ok(info("fetched.exe", None))).unwrap();
    assert_eq!(got.name, w("known.exe"));
    let got = pm.get_or_add_process_info(8, Err(err(STATUS_ACCESS_DENIED))).unwrap();
    assert_eq!(got.name, w("known.exe"));

    let got = pm.get_or_add_process_info(9, Ok(info("new.exe", Some(8)))).unwrap();
    assert_eq!(got.name, w("new.exe"));
    assert_eq!(name_of(&pm, 9), Some(w("new.exe")));

    assert_eq!(
        pm.get_or_add_process_info(12, Err(err(STATUS_ACCESS_DENIED))).map(|i| i.name),
        Err(err(STATUS_ACCESS_DENIED))
    );
    assert!(pm.process_info(12).is_none());
}

#[test]
fn parent_information() {
    let mut pm = ProcessManager::new();
    let orphan = info("orphan.exe", None);
    assert!(pm.get_or_add_parent_process_info(&orphan, Ok(info("x.exe", None))).is_none());
    assert!(pm.process_info(0).is_none());

    let child = info("child.exe", Some(20));
    let parent = pm.get_or_add_parent_process_info(&child, Ok(info("parent.exe", None))).unwrap();
    assert_eq!(parent.name, w("parent.exe"));
    assert_eq!(name_of(&pm, 20), Some(w("parent.exe")));

    let other_child = info("c2.exe", Some(21));
    assert!(pm.get_or_add_parent_process_info(&other_child, Err(err(STATUS_ACCESS_DENIED))).is_none());
    assert!(pm.process_info(21).is_none());
}

#[test]
fn reservation_failure_becomes_insufficient_resources() {
    let e = into_nt_error(TryReserveError::CapacityOverflow);
    assert_eq!(e, err(STATUS_INSUFFICIENT_RESOURCES));
    assert_eq!(e.ntstatus(), STATUS_INSUFFICIENT_RESOURCES);
}
