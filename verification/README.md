# rust_minifilter

Rules engine of a Windows filesystem filter driver, verified with Verus.

The driver denies, or restricts to read-only, the file operations of processes
according to rules kept in the registry under
`\REGISTRY\MACHINE\SOFTWARE\FilesystemFilter\Rules\<Deny|ReadOnly>\<process>`, whose
value names are the protected file paths.

## Layout

- `src/` — the verified library.
  - `string_utils`: UTF-16 string comparison, prefix/suffix checks, wildcard
    matching (`*`, `?` and the DOS wildcards `<`, `>`, `"`), splitting and case conversion over a case table.
  - `rules_manager`: the deny and read-only rules, their search, their editing from
    registry changes, and the laws that relate them.
  - `minifilter`, `flt_utils`: verdicts on intercepted create and rename operations.
  - `process`, `process_manager`: process names and the table of known processes
    (a `hashbrown::HashMap` behind trusted wrappers).
  - `registry`, `registry_manager`, `cm_key_object_path`, `path_utils`: the decisions
    taken on registry enumeration and notifications, and on DOS path conversion.
- `tests/` — tests of the library on concrete values.
- `app/` — the kernel side: callbacks, system calls, locks and logging, which hand
  plain values to the library and apply what it returns.
