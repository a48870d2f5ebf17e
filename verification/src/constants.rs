use vstd::prelude::*;

verus! {

/// The filter's own registry key. `\REGISTRY\MACHINE\SOFTWARE\FilesystemFilter`
pub const FILTER_REGISTRY_KEY_PATH: [u16; 43] = [0x5C, 0x52, 0x45, 0x47, 0x49, 0x53, 0x54, 0x52, 0x59, 0x5C, 0x4D, 0x41, 0x43, 0x48, 0x49, 0x4E, 0x45, 0x5C, 0x53, 0x4F, 0x46, 0x54, 0x57, 0x41, 0x52, 0x45, 0x5C, 0x46, 0x69, 0x6C, 0x65, 0x73, 0x79, 0x73, 0x74, 0x65, 0x6D, 0x46, 0x69, 0x6C, 0x74, 0x65, 0x72];

/// The registry key under which the protection rules are kept. `\REGISTRY\MACHINE\SOFTWARE\FilesystemFilter\Rules`
pub const RULES_REGISTRY_KEY_PATH: [u16; 49] = [0x5C, 0x52, 0x45, 0x47, 0x49, 0x53, 0x54, 0x52, 0x59, 0x5C, 0x4D, 0x41, 0x43, 0x48, 0x49, 0x4E, 0x45, 0x5C, 0x53, 0x4F, 0x46, 0x54, 0x57, 0x41, 0x52, 0x45, 0x5C, 0x46, 0x69, 0x6C, 0x65, 0x73, 0x79, 0x73, 0x74, 0x65, 0x6D, 0x46, 0x69, 0x6C, 0x74, 0x65, 0x72, 0x5C, 0x52, 0x75, 0x6C, 0x65, 0x73];

/// The name of the key that holds the deny rules. `Deny`
pub const DENY_RULES_REGISTRY_KEY_NAME: [u16; 4] = [0x44, 0x65, 0x6E, 0x79];

/// The key that holds the deny rules. `\REGISTRY\MACHINE\SOFTWARE\FilesystemFilter\Rules\Deny`
pub const DENY_RULES_REGISTRY_KEY_PATH: [u16; 54] = [0x5C, 0x52, 0x45, 0x47, 0x49, 0x53, 0x54, 0x52, 0x59, 0x5C, 0x4D, 0x41, 0x43, 0x48, 0x49, 0x4E, 0x45, 0x5C, 0x53, 0x4F, 0x46, 0x54, 0x57, 0x41, 0x52, 0x45, 0x5C, 0x46, 0x69, 0x6C, 0x65, 0x73, 0x79, 0x73, 0x74, 0x65, 0x6D, 0x46, 0x69, 0x6C, 0x74, 0x65, 0x72, 0x5C, 0x52, 0x75, 0x6C, 0x65, 0x73, 0x5C, 0x44, 0x65, 0x6E, 0x79];

/// The name of the key that holds the read-only rules. `ReadOnly`
pub const READ_ONLY_RULES_REGISTRY_KEY_NAME: [u16; 8] = [0x52, 0x65, 0x61, 0x64, 0x4F, 0x6E, 0x6C, 0x79];

/// The key that holds the read-only rules. `\REGISTRY\MACHINE\SOFTWARE\FilesystemFilter\Rules\ReadOnly`
pub const READ_ONLY_RULES_REGISTRY_KEY_PATH: [u16; 58] = [0x5C, 0x52, 0x45, 0x47, 0x49, 0x53, 0x54, 0x52, 0x59, 0x5C, 0x4D, 0x41, 0x43, 0x48, 0x49, 0x4E, 0x45, 0x5C, 0x53, 0x4F, 0x46, 0x54, 0x57, 0x41, 0x52, 0x45, 0x5C, 0x46, 0x69, 0x6C, 0x65, 0x73, 0x79, 0x73, 0x74, 0x65, 0x6D, 0x46, 0x69, 0x6C, 0x74, 0x65, 0x72, 0x5C, 0x52, 0x75, 0x6C, 0x65, 0x73, 0x5C, 0x52, 0x65, 0x61, 0x64, 0x4F, 0x6E, 0x6C, 0x79];

/// The ending of a rule path that covers a folder and everything below it. `\*`
pub const FOLDER_RULE_POSTFIX: [u16; 2] = [0x5C, 0x2A];

} // verus!
