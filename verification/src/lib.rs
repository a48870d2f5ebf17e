//! Rules engine of a filesystem filter.
//!
//! The library holds the protection rules that decide, for a process name and a
//! file path, whether a file operation is denied, allowed read-only or bypassed,
//! together with the string, path, flag and process bookkeeping that the filter
//! needs to apply those rules. Strings are UTF-16 code units, as in the kernel's
//! `UNICODE_STRING`.

pub mod status;
pub mod string_utils;
pub mod constants;
pub mod rules_manager;
pub mod path_utils;
pub mod utils;
pub mod flt_utils;
pub mod minifilter;
pub mod process;
pub mod process_manager;
pub mod cm_key_object_path;
pub mod registry;
pub mod registry_manager;
