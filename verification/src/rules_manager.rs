use vstd::prelude::*;

use crate::constants::{
    DENY_RULES_REGISTRY_KEY_NAME, FOLDER_RULE_POSTFIX, READ_ONLY_RULES_REGISTRY_KEY_NAME,
    RULES_REGISTRY_KEY_PATH,
};
use crate::status::{
    nt_err, NtError, STATUS_BUFFER_OVERFLOW, STATUS_INVALID_PARAMETER,
    STATUS_OBJECT_NAME_NOT_FOUND,
};
use crate::string_utils::{
    ends_with, equals_no_case, mathes_no_case, rev_chars_decodable, rev_chars_match, spec_equals,
    spec_matches, spec_split_at, split_at, try_to_unicode_string, convert_to_upper, upcase_seq,
    CaseTable, MAX_UNICODE_UNITS, BACKSLASH, ASTERISK, COLON, QUESTION_MARK, mathes, fold_seq,
    try_push_units, lemma_drive_expression, last_index_of, slice, spec_last_index_of, spec_slice,
    spec_starts_with, starts_with_no_case, substr, lemma_match_sees_upper_case,
    lemma_matches_own_upper_case, decodable_from_end, upper_case_settled, fold, DOS_DOT,
};

verus! {

/// Action performed on a file operation
#[derive(Debug, Clone, Copy, PartialEq, Eq, Structural)]
pub enum FileSystemRuleAction {
    /// Bypass operation and do nothing
    Bypass,
    /// Block file operation
    Deny,
    /// Block a file operation if it can modify the file, bypass if not
    ReadOnly,
}

/// The rule type that a registry key name stands for: `Deny` or `ReadOnly`, whatever
/// the case of its letters; `Err(STATUS_INVALID_PARAMETER)` for any other name.
pub open spec fn spec_action_from_name(t: &CaseTable, name: Seq<u16>) -> Result<
    FileSystemRuleAction,
    NtError,
> {
    if spec_equals(Some(t), name, DENY_RULES_REGISTRY_KEY_NAME@) {
        Ok(FileSystemRuleAction::Deny)
    } else if spec_equals(Some(t), name, READ_ONLY_RULES_REGISTRY_KEY_NAME@) {
        Ok(FileSystemRuleAction::ReadOnly)
    } else {
        nt_err(STATUS_INVALID_PARAMETER)
    }
}

impl FileSystemRuleAction {
    /// Try to convert a registry key name to the [`FileSystemRuleAction`].
    ///
    /// Ignores string case.
    ///
    /// Returns `STATUS_INVALID_PARAMETER` error if `name` is an unknown rule type string.
    pub fn try_from(name: &[u16], t: &CaseTable) -> (r: Result<Self, NtError>)
        ensures
            r == spec_action_from_name(t, name@),
    {
        if equals_no_case(name, &DENY_RULES_REGISTRY_KEY_NAME, t) {
            Ok(FileSystemRuleAction::Deny)
        } else if equals_no_case(name, &READ_ONLY_RULES_REGISTRY_KEY_NAME, t) {
            Ok(FileSystemRuleAction::ReadOnly)
        } else {
            Err(NtError::from_ntstatus(STATUS_INVALID_PARAMETER))
        }
    }

    /// Try to convert a [`FileSystemRuleAction`] to its registry key name.
    ///
    /// Returns `STATUS_INVALID_PARAMETER` error if the action is not a supported rule type.
    pub fn to_key_name(self) -> (r: Result<Vec<u16>, NtError>)
        ensures
            match self {
                FileSystemRuleAction::Deny => r matches Ok(v) && v@ == DENY_RULES_REGISTRY_KEY_NAME@,
                FileSystemRuleAction::ReadOnly => r matches Ok(v) && v@
                    == READ_ONLY_RULES_REGISTRY_KEY_NAME@,
                FileSystemRuleAction::Bypass => r == nt_err::<Vec<u16>>(STATUS_INVALID_PARAMETER),
            },
    {
        match self {
            FileSystemRuleAction::Deny => Ok(vstd::slice::slice_to_vec(&DENY_RULES_REGISTRY_KEY_NAME)),
            FileSystemRuleAction::ReadOnly => Ok(
                vstd::slice::slice_to_vec(&READ_ONLY_RULES_REGISTRY_KEY_NAME),
            ),
            FileSystemRuleAction::Bypass => Err(NtError::from_ntstatus(STATUS_INVALID_PARAMETER)),
        }
    }
}

/// A file access entry, representing a combination of the process name
/// and file paths to which the rules should be applied
pub struct FileAccessEntry {
    process_name: Vec<u16>,
    file_paths: Vec<Vec<u16>>,
}

/// What a [`FileAccessEntry`] holds: the process name (an expression) and the file
/// paths (expressions too).
pub type EntryView = (Seq<u16>, Seq<Seq<u16>>);

/// The contents of each path.
pub open spec fn paths_view(paths: Seq<Vec<u16>>) -> Seq<Seq<u16>> {
    paths.map_values(|p: Vec<u16>| p@)
}

/// What each entry holds.
pub open spec fn rules_view(rules: Seq<FileAccessEntry>) -> Seq<EntryView> {
    rules.map_values(|e: FileAccessEntry| e@)
}

impl View for FileAccessEntry {
    type V = EntryView;

    closed spec fn view(&self) -> EntryView {
        (self.process_name@, paths_view(self.file_paths@))
    }
}

impl FileAccessEntry {
    /// An entry for `process_name` with the given file paths.
    pub fn new(process_name: Vec<u16>, file_paths: Vec<Vec<u16>>) -> (e: Self)
        ensures
            e@ == (process_name@, paths_view(file_paths@)),
    {
        FileAccessEntry { process_name, file_paths }
    }

    /// The process name (an expression).
    pub fn process_name(&self) -> (r: &[u16])
        ensures
            r@ == self@.0,
    {
        self.process_name.as_slice()
    }

    /// The file paths (expressions).
    pub fn file_paths(&self) -> (r: &[Vec<u16>])
        ensures
            paths_view(r@) == self@.1,
    {
        self.file_paths.as_slice()
    }
}

// ---------------------------------------------------------------------------
// Rule file paths

/// Check if `path` string is starts with specified disk name in dos format: whether it
/// matches the expression `?:*`.
///
/// # Examples
/// `C:\Users\user\*` is, `*user\*` is not.
pub fn is_disk_specified(path: &[u16]) -> (r: bool)
    ensures
        r == spec_matches(None, path@, seq![QUESTION_MARK, COLON, ASTERISK]),
        r == (path@.len() >= 2 && path@[1] == COLON),
{
    let expr: [u16; 3] = [QUESTION_MARK, COLON, ASTERISK];
    let r = mathes(path, &expr);
    proof {
        assert(fold_seq(None, path@) =~= path@);
        assert(expr@ =~= seq![QUESTION_MARK, COLON, ASTERISK]);
        lemma_drive_expression(path@);
    }
    r
}

/// A path of a folder ends with a backslash.
pub open spec fn ends_with_backslash(path: Seq<u16>) -> bool {
    path.len() >= 1 && rev_chars_match(None, path, seq![BACKSLASH])
}

/// What [`complete_rule_file_path`] makes of `path`: a path ending with `\` gets a `*`
/// (failing with `STATUS_BUFFER_OVERFLOW` when that would outgrow a `UNICODE_STRING`),
/// and the result is in upper case.
pub open spec fn spec_complete_rule_file_path(t: &CaseTable, path: Seq<u16>) -> Result<Seq<u16>, NtError> {
    if ends_with_backslash(path) {
        if path.len() + 2 > MAX_UNICODE_UNITS {
            nt_err(STATUS_BUFFER_OVERFLOW)
        } else {
            Ok(upcase_seq(t, path.push(ASTERISK)))
        }
    } else {
        Ok(upcase_seq(t, path))
    }
}

/// Prepare the `path` of a rule for the filtering process, once a path that names a
/// disk has been converted to nt format: if it ends with `\`, which indicates that it's
/// the path of a folder, add `*` to it; then convert it to upper case.
///
/// On an error the path is left as it was.
pub fn complete_rule_file_path(path: &mut Vec<u16>, t: &CaseTable) -> (r: Result<(), NtError>)
    requires
        1 > old(path)@.len() || rev_chars_decodable(None, old(path)@, seq![BACKSLASH]),
    ensures
        match spec_complete_rule_file_path(t, old(path)@) {
            Ok(p) => r is Ok && final(path)@ == p,
            Err(e) => r == Err::<(), NtError>(e) && final(path)@ == old(path)@,
        },
{
    let backslash: [u16; 1] = [BACKSLASH];
    assert(backslash@ =~= seq![BACKSLASH]);
    if ends_with(path.as_slice(), &backslash) {
        let star: [u16; 1] = [ASTERISK];
        assert(star@ =~= seq![ASTERISK]);
        try_push_units(path, &star)?;
        assert(path@ =~= old(path)@.push(ASTERISK));
    }
    convert_to_upper(path, t)
}

// ---------------------------------------------------------------------------
// Searching

/// A rule path can be checked for the folder ending `\*`: walking it from its end
/// decodes every character that the check compares.
pub open spec fn rule_path_checkable(path: Seq<u16>) -> bool {
    FOLDER_RULE_POSTFIX@.len() > path.len() || rev_chars_decodable(None, path, FOLDER_RULE_POSTFIX@)
}

/// Whether the rule path `path` can be checked for the folder ending `\*` (see
/// [`rule_path_checkable`]); the rules hold only such paths.
pub fn rule_path_is_checkable(path: &[u16]) -> (r: bool)
    ensures
        r == rule_path_checkable(path@),
{
    FOLDER_RULE_POSTFIX.len() > path.len() || decodable_from_end(path, &FOLDER_RULE_POSTFIX, None)
}

/// Whether the value `value` can be completed as a rule path and completes to one that
/// can be checked for the folder ending: what [`RulesManager::set_key_value_rule`] needs.
pub fn rule_value_is_checkable(value: &[u16], t: &CaseTable) -> (r: bool)
    ensures
        r == (rule_value_completable(value@) && rule_value_checkable(t, value@)),
{
    let backslash: [u16; 1] = [BACKSLASH];
    assert(backslash@ =~= seq![BACKSLASH]);
    if value.len() >= 1 && !decodable_from_end(value, &backslash, None) {
        return false;
    }
    let mut completed = vstd::slice::slice_to_vec(value);
    match complete_rule_file_path(&mut completed, t) {
        Ok(()) => rule_path_is_checkable(completed.as_slice()),
        Err(_) => true,
    }
}

/// The completion of each of `values` in order (see [`spec_complete_rule_file_path`]),
/// or the error of the first that cannot be completed.
pub open spec fn spec_complete_paths(t: &CaseTable, values: Seq<Seq<u16>>) -> Result<Seq<Seq<u16>>, NtError>
    decreases values.len(),
{
    if values.len() == 0 {
        Ok(Seq::empty())
    } else {
        match spec_complete_paths(t, values.drop_last()) {
            Err(e) => Err(e),
            Ok(done) => match spec_complete_rule_file_path(t, values.last()) {
                Err(e) => Err(e),
                Ok(p) => Ok(done.push(p)),
            },
        }
    }
}

/// Build the rule entry of a process from its registry key: the process name in upper
/// case, and each value name (with a drive name already converted to nt format)
/// completed as a rule path, in order. Fails with the error of the first value that
/// cannot be completed.
pub fn rule_entry(process_name: Vec<u16>, values: Vec<Vec<u16>>, t: &CaseTable) -> (r: Result<FileAccessEntry, NtError>)
    requires
        forall|i: int| 0 <= i < values@.len() ==> #[trigger] rule_value_completable(values@[i]@),
    ensures
        match spec_complete_paths(t, paths_view(values@)) {
            Ok(paths) => r matches Ok(e) && e@ == (upcase_seq(t, process_name@), paths),
            Err(err) => r == Err::<FileAccessEntry, NtError>(err),
        },
{
    let mut name = process_name;
    let _ = convert_to_upper(&mut name, t);
    let ghost vs = paths_view(values@);
    let mut file_paths: Vec<Vec<u16>> = Vec::new();
    let mut i: usize = 0;
    assert(vs.take(0) =~= Seq::<Seq<u16>>::empty());
    assert(paths_view(file_paths@) =~= Seq::<Seq<u16>>::empty());
    while i < values.len()
        invariant
            vs == paths_view(values@),
            0 <= i <= values@.len(),
            forall|k: int| 0 <= k < values@.len() ==> #[trigger] rule_value_completable(values@[k]@),
            spec_complete_paths(t, vs.take(i as int)) == Ok::<Seq<Seq<u16>>, NtError>(paths_view(file_paths@)),
        decreases values@.len() - i,
    {
        assert(vs.take(i + 1).drop_last() =~= vs.take(i as int));
        assert(vs.take(i + 1).last() == values@[i as int]@);
        assert(rule_value_completable(values@[i as int]@));
        let mut path = values[i].clone();
        assert(path@ == values@[i as int]@);
        match complete_rule_file_path(&mut path, t) {
            Ok(()) => {},
            Err(err) => {
                proof {
                    lemma_complete_paths_error(t, vs, i as int + 1);
                }
                return Err(err);
            },
        }
        let ghost before = file_paths@;
        file_paths.push(path);
        assert(paths_view(file_paths@) =~= paths_view(before).push(file_paths@.last()@));
        i += 1;
    }
    assert(vs.take(i as int) =~= vs);
    Ok(FileAccessEntry { process_name: name, file_paths })
}

/// Once a prefix of the values fails to complete, so do all the values.
proof fn lemma_complete_paths_error(t: &CaseTable, vs: Seq<Seq<u16>>, n: int)
    requires
        0 <= n <= vs.len(),
        spec_complete_paths(t, vs.take(n)) is Err,
    ensures
        spec_complete_paths(t, vs) == spec_complete_paths(t, vs.take(n)),
    decreases vs.len() - n,
{
    if n < vs.len() {
        assert(vs.take(n + 1).drop_last() =~= vs.take(n));
        lemma_complete_paths_error(t, vs, n + 1);
    } else {
        assert(vs.take(n) =~= vs);
    }
}

/// Every file path of every entry can be checked for the folder ending.
pub open spec fn rules_checkable(rules: Seq<EntryView>) -> bool {
    forall|i: int, j: int|
        0 <= i < rules.len() && 0 <= j < rules[i].1.len() ==> #[trigger] rule_path_checkable(
            rules[i].1[j],
        )
}

/// Whether `file` falls under the rule path `rule`: it matches `rule` (ignoring case),
/// or `rule` ends with `\*` and `file` matches `rule` without that ending.
pub open spec fn rule_path_matches(t: &CaseTable, rule: Seq<u16>, file: Seq<u16>) -> bool {
    ||| spec_matches(Some(t), file, rule)
    ||| {
        &&& FOLDER_RULE_POSTFIX@.len() <= rule.len()
        &&& rev_chars_match(None, rule, FOLDER_RULE_POSTFIX@)
        &&& match spec_split_at(rule, rule.len() - FOLDER_RULE_POSTFIX@.len()) {
            Ok((folder, _)) => spec_matches(Some(t), file, folder),
            Err(_) => false,
        }
    }
}

/// Whether the process name of `entry` (an expression) matches `name`, ignoring case.
pub open spec fn entry_matches(t: &CaseTable, entry: EntryView, name: Seq<u16>) -> bool {
    spec_matches(Some(t), name, entry.0)
}

/// Whether some file path of `entry` covers `file` (see [`rule_path_matches`]).
pub open spec fn entry_protects(t: &CaseTable, entry: EntryView, file: Seq<u16>) -> bool {
    exists|j: int| 0 <= j < entry.1.len() && #[trigger] rule_path_matches(t, entry.1[j], file)
}

/// Whether `rules` protect `file` from `process`: some entry whose process name matches
/// `process` has a file path that covers `file`.
pub open spec fn spec_search_rule(
    t: &CaseTable,
    rules: Seq<EntryView>,
    process: Seq<u16>,
    file: Seq<u16>,
) -> bool {
    exists|k: int|
        0 <= k < rules.len() && entry_matches(t, #[trigger] rules[k], process) && entry_protects(
            t,
            rules[k],
            file,
        )
}

fn rule_path_matches_exec(rule: &[u16], file_path: &[u16], t: &CaseTable) -> (r: bool)
    requires
        rule_path_checkable(rule@),
    ensures
        r == rule_path_matches(t, rule@, file_path@),
{
    if mathes_no_case(file_path, rule, t) {
        return true;
    }
    if ends_with(rule, &FOLDER_RULE_POSTFIX) {
        if rule.len() > 0xFFFF {
            return false;
        }
        let mid = (rule.len() - 2) as u16;
        match split_at(rule, mid) {
            Ok((folder, _)) => mathes_no_case(file_path, folder, t),
            Err(_) => false,
        }
    } else {
        false
    }
}

/// Check if protection rule for `process_name` and `file_path` exists in the `rules`
/// array.
pub fn search_rule_impl(
    rules: &[FileAccessEntry],
    process_name: &[u16],
    file_path: &[u16],
    t: &CaseTable,
) -> (r: bool)
    requires
        rules_checkable(rules_view(rules@)),
    ensures
        r == spec_search_rule(t, rules_view(rules@), process_name@, file_path@),
{
    let ghost rv = rules_view(rules@);
    let mut i: usize = 0;
    while i < rules.len()
        invariant
            rv == rules_view(rules@),
            rules_checkable(rv),
            0 <= i <= rules@.len(),
            forall|l: int|
                0 <= l < i ==> !(entry_matches(t, #[trigger] rv[l], process_name@) && entry_protects(
                    t,
                    rv[l],
                    file_path@,
                )),
        decreases rules@.len() - i,
    {
        let entry = &rules[i];
        if mathes_no_case(process_name, entry.process_name.as_slice(), t) {
            let paths = &entry.file_paths;
            let mut j: usize = 0;
            while j < paths.len()
                invariant
                    rv == rules_view(rules@),
                    rules_checkable(rv),
                    0 <= i < rules@.len(),
                    *entry == rules@[i as int],
                    *paths == entry.file_paths,
                    entry_matches(t, rv[i as int], process_name@),
                    0 <= j <= paths@.len(),
                    forall|l: int|
                        0 <= l < j ==> !#[trigger] rule_path_matches(t, rv[i as int].1[l], file_path@),
                decreases paths@.len() - j,
            {
                assert(rv[i as int] == rules@[i as int]@);
                assert(rv[i as int].1[j as int] == paths@[j as int]@);
                assert(rule_path_checkable(rv[i as int].1[j as int]));
                if rule_path_matches_exec(paths[j].as_slice(), file_path, t) {
                    assert(rule_path_matches(t, rv[i as int].1[j as int], file_path@));
                    assert(entry_protects(t, rv[i as int], file_path@));
                    return true;
                }
                j += 1;
            }
            assert(!entry_protects(t, rv[i as int], file_path@));
        }
        i += 1;
    }
    false
}

// ---------------------------------------------------------------------------
// Editing the rules of a process

/// `k` is the first of `names` that equals `name`, ignoring case.
pub open spec fn is_first_equal(t: &CaseTable, names: Seq<Seq<u16>>, name: Seq<u16>, k: int) -> bool {
    &&& 0 <= k < names.len()
    &&& spec_equals(Some(t), names[k], name)
    &&& forall|l: int| 0 <= l < k ==> !spec_equals(Some(t), #[trigger] names[l], name)
}

/// Some name of `names` equals `name`, ignoring case.
pub open spec fn has_equal(t: &CaseTable, names: Seq<Seq<u16>>, name: Seq<u16>) -> bool {
    exists|k: int| is_first_equal(t, names, name, k)
}

/// The first of `names` that equals `name`, ignoring case (see [`has_equal`]).
pub open spec fn first_equal(t: &CaseTable, names: Seq<Seq<u16>>, name: Seq<u16>) -> int {
    choose|k: int| is_first_equal(t, names, name, k)
}

/// The process name of each entry.
pub open spec fn names_of(rules: Seq<EntryView>) -> Seq<Seq<u16>> {
    rules.map_values(|e: EntryView| e.0)
}

/// There is at most one first equal name.
pub proof fn lemma_first_equal_unique(t: &CaseTable, names: Seq<Seq<u16>>, name: Seq<u16>, k: int)
    requires
        is_first_equal(t, names, name, k),
    ensures
        has_equal(t, names, name),
        first_equal(t, names, name) == k,
{
    let c = first_equal(t, names, name);
    assert(is_first_equal(t, names, name, c));
    if c < k {
        assert(!spec_equals(Some(t), names[c], name));
    } else if c > k {
        assert(!spec_equals(Some(t), names[k], name));
    }
}

/// `rules` without the entry of `process` (the first whose name equals it, ignoring case).
pub open spec fn spec_clear_rules(t: &CaseTable, rules: Seq<EntryView>, process: Seq<u16>) -> Seq<EntryView> {
    if has_equal(t, names_of(rules), process) {
        rules.remove(first_equal(t, names_of(rules), process))
    } else {
        rules
    }
}

/// `rules` with the entry of `old_process` (the first whose name equals it, ignoring case)
/// renamed to `new_name`.
pub open spec fn spec_rename_rules(
    t: &CaseTable,
    rules: Seq<EntryView>,
    old_process: Seq<u16>,
    new_name: Seq<u16>,
) -> Seq<EntryView> {
    if has_equal(t, names_of(rules), old_process) {
        let k = first_equal(t, names_of(rules), old_process);
        rules.update(k, (new_name, rules[k].1))
    } else {
        rules
    }
}

/// `rules` where the entry of `process` (the first whose name equals it, ignoring case)
/// no longer holds `file` (the first of its paths that equals it, ignoring case).
pub open spec fn spec_remove_rule_path(
    t: &CaseTable,
    rules: Seq<EntryView>,
    process: Seq<u16>,
    file: Seq<u16>,
) -> Seq<EntryView> {
    if has_equal(t, names_of(rules), process) {
        let k = first_equal(t, names_of(rules), process);
        if has_equal(t, rules[k].1, file) {
            rules.update(k, (rules[k].0, rules[k].1.remove(first_equal(t, rules[k].1, file))))
        } else {
            rules
        }
    } else {
        rules
    }
}

/// `rules` where the entry of `process` (the first whose name equals it, ignoring case)
/// also holds `file` at its end, or, if there is none, with a new last entry for
/// `process` holding `file` alone.
pub open spec fn spec_add_rule_path(
    t: &CaseTable,
    rules: Seq<EntryView>,
    process: Seq<u16>,
    file: Seq<u16>,
) -> Seq<EntryView> {
    if has_equal(t, names_of(rules), process) {
        let k = first_equal(t, names_of(rules), process);
        rules.update(k, (rules[k].0, rules[k].1.push(file)))
    } else {
        rules.push((process, seq![file]))
    }
}

/// The first entry whose process name equals `name`, ignoring case.
fn find_entry(rules: &Vec<FileAccessEntry>, name: &[u16], t: &CaseTable) -> (r: Option<usize>)
    ensures
        match r {
            Some(k) => is_first_equal(t, names_of(rules_view(rules@)), name@, k as int),
            None => !has_equal(t, names_of(rules_view(rules@)), name@),
        },
{
    let ghost names = names_of(rules_view(rules@));
    let mut i: usize = 0;
    while i < rules.len()
        invariant
            names == names_of(rules_view(rules@)),
            0 <= i <= rules@.len(),
            forall|l: int| 0 <= l < i ==> !spec_equals(Some(t), #[trigger] names[l], name@),
        decreases rules@.len() - i,
    {
        assert(names[i as int] == rules@[i as int].process_name@);
        if equals_no_case(rules[i].process_name.as_slice(), name, t) {
            return Some(i);
        }
        i += 1;
    }
    None
}

/// The first path that equals `file`, ignoring case.
fn find_path(paths: &Vec<Vec<u16>>, file: &[u16], t: &CaseTable) -> (r: Option<usize>)
    ensures
        match r {
            Some(k) => is_first_equal(t, paths_view(paths@), file@, k as int),
            None => !has_equal(t, paths_view(paths@), file@),
        },
{
    let ghost pv = paths_view(paths@);
    let mut i: usize = 0;
    while i < paths.len()
        invariant
            pv == paths_view(paths@),
            0 <= i <= paths@.len(),
            forall|l: int| 0 <= l < i ==> !spec_equals(Some(t), #[trigger] pv[l], file@),
        decreases paths@.len() - i,
    {
        if equals_no_case(paths[i].as_slice(), file, t) {
            return Some(i);
        }
        i += 1;
    }
    None
}

/// Remove the `process_name` from the `rules` array.
pub fn clear_rules_for_process_impl(rules: &mut Vec<FileAccessEntry>, process_name: &[u16], t: &CaseTable)
    ensures
        rules_view(final(rules)@) == spec_clear_rules(t, rules_view(old(rules)@), process_name@),
{
    let ghost old_view = rules_view(rules@);
    match find_entry(rules, process_name, t) {
        Some(pos) => {
            proof {
                lemma_first_equal_unique(t, names_of(old_view), process_name@, pos as int);
            }
            rules.remove(pos);
            assert(rules_view(rules@) =~= old_view.remove(pos as int));
        },
        None => {},
    }
}

/// Rename the `old_process_name` to the `new_process_name` in the `rules` array.
///
/// The new name is stored in upper case. It fails with `STATUS_BUFFER_OVERFLOW`, and
/// changes nothing, when the new name is too long for a `UNICODE_STRING`.
pub fn rename_process_rules_impl(
    rules: &mut Vec<FileAccessEntry>,
    old_process_name: &[u16],
    new_process_name: &[u16],
    t: &CaseTable,
) -> (r: Result<(), NtError>)
    ensures
        new_process_name@.len() > MAX_UNICODE_UNITS ==> r == nt_err::<()>(STATUS_BUFFER_OVERFLOW)
            && final(rules)@ == old(rules)@,
        new_process_name@.len() <= MAX_UNICODE_UNITS ==> r is Ok && rules_view(final(rules)@)
            == spec_rename_rules(
            t,
            rules_view(old(rules)@),
            old_process_name@,
            upcase_seq(t, new_process_name@),
        ),
{
    let mut new_name = try_to_unicode_string(new_process_name)?;
    let _ = convert_to_upper(&mut new_name, t);
    let ghost old_view = rules_view(rules@);
    match find_entry(rules, old_process_name, t) {
        Some(pos) => {
            proof {
                lemma_first_equal_unique(t, names_of(old_view), old_process_name@, pos as int);
            }
            let mut entry = rules.remove(pos);
            entry.process_name = new_name;
            rules.insert(pos, entry);
            assert(rules_view(rules@) =~= old_view.update(
                pos as int,
                (upcase_seq(t, new_process_name@), old_view[pos as int].1),
            ));
        },
        None => {},
    }
    Ok(())
}

/// Remove the `file_path` from the `process_name` rules in the `rules` array.
pub fn remove_file_from_process_rules_impl(
    rules: &mut Vec<FileAccessEntry>,
    process_name: &[u16],
    file_path: &[u16],
    t: &CaseTable,
)
    ensures
        rules_view(final(rules)@) == spec_remove_rule_path(
            t,
            rules_view(old(rules)@),
            process_name@,
            file_path@,
        ),
{
    let ghost old_view = rules_view(rules@);
    match find_entry(rules, process_name, t) {
        Some(pos) => {
            proof {
                lemma_first_equal_unique(t, names_of(old_view), process_name@, pos as int);
            }
            let mut entry = rules.remove(pos);
            assert(entry@ == old_view[pos as int]);
            match find_path(&entry.file_paths, file_path, t) {
                Some(p) => {
                    proof {
                        lemma_first_equal_unique(t, old_view[pos as int].1, file_path@, p as int);
                    }
                    entry.file_paths.remove(p);
                    assert(paths_view(entry.file_paths@) =~= old_view[pos as int].1.remove(p as int));
                    rules.insert(pos, entry);
                    assert(rules_view(rules@) =~= old_view.update(
                        pos as int,
                        (old_view[pos as int].0, old_view[pos as int].1.remove(p as int)),
                    ));
                },
                None => {
                    rules.insert(pos, entry);
                    assert(rules_view(rules@) =~= old_view);
                },
            }
        },
        None => {},
    }
}

/// Add the `file_path` to the `process_name` rules in the `rules` array.
///
/// The process name is kept in upper case. It fails with `STATUS_BUFFER_OVERFLOW`, and
/// changes nothing, when the process name is too long for a `UNICODE_STRING`.
pub fn add_file_to_process_rules_impl(
    rules: &mut Vec<FileAccessEntry>,
    process_name: &[u16],
    file_path: Vec<u16>,
    t: &CaseTable,
) -> (r: Result<(), NtError>)
    ensures
        process_name@.len() > MAX_UNICODE_UNITS ==> r == nt_err::<()>(STATUS_BUFFER_OVERFLOW)
            && final(rules)@ == old(rules)@,
        process_name@.len() <= MAX_UNICODE_UNITS ==> r is Ok && rules_view(final(rules)@)
            == spec_add_rule_path(
            t,
            rules_view(old(rules)@),
            upcase_seq(t, process_name@),
            file_path@,
        ),
{
    let mut process_name_upcase = try_to_unicode_string(process_name)?;
    let _ = convert_to_upper(&mut process_name_upcase, t);
    let ghost old_view = rules_view(rules@);
    let ghost up = upcase_seq(t, process_name@);
    let ghost file = file_path@;
    match find_entry(rules, process_name_upcase.as_slice(), t) {
        Some(pos) => {
            proof {
                lemma_first_equal_unique(t, names_of(old_view), up, pos as int);
            }
            let mut entry = rules.remove(pos);
            assert(entry@ == old_view[pos as int]);
            entry.file_paths.push(file_path);
            assert(paths_view(entry.file_paths@) =~= old_view[pos as int].1.push(file));
            rules.insert(pos, entry);
            assert(rules_view(rules@) =~= old_view.update(
                pos as int,
                (old_view[pos as int].0, old_view[pos as int].1.push(file)),
            ));
        },
        None => {
            let mut file_paths: Vec<Vec<u16>> = Vec::new();
            file_paths.push(file_path);
            assert(paths_view(file_paths@) =~= seq![file]);
            rules.push(FileAccessEntry { process_name: process_name_upcase, file_paths });
            assert(rules_view(rules@) =~= old_view.push((up, seq![file])));
        },
    }
    Ok(())
}

// ---------------------------------------------------------------------------
// Registry key paths of rules

/// A registry key path under the rules key, taken apart: the rule type and the process
/// name, either of which may be absent.
pub struct RuleKeyPath<'a> {
    pub rule_type: Option<FileSystemRuleAction>,
    pub process_name: Option<&'a [u16]>,
}

/// What [`parse_protection_rule_key`] gives for `key`: the part after the rules key path
/// is empty (neither part), `\<RuleType>` (the rule type alone) or
/// `\<RuleType>\<process>` (both), with the errors met on the way.
pub open spec fn spec_parse_rule_key(t: &CaseTable, key: Seq<u16>) -> Result<
    (Option<FileSystemRuleAction>, Option<Seq<u16>>),
    NtError,
> {
    let l = RULES_REGISTRY_KEY_PATH@.len() as int;
    match spec_split_at(key, l) {
        Err(e) => Err(e),
        Ok((_, rest)) => if rest.len() == 0 {
            Ok((None, None))
        } else {
            match spec_last_index_of(rest, BACKSLASH) {
                None => nt_err(STATUS_INVALID_PARAMETER),
                Some(s) => if s == 0 {
                    match spec_split_at(rest, 1) {
                        Err(e) => Err(e),
                        Ok((_, name)) => match spec_action_from_name(t, name) {
                            Err(e) => Err(e),
                            Ok(a) => Ok((Some(a), None)),
                        },
                    }
                } else {
                    match spec_slice(rest, 1, s) {
                        Err(e) => Err(e),
                        Ok(type_part) => match spec_action_from_name(t, type_part) {
                            Err(e) => Err(e),
                            Ok(a) => match spec_split_at(key, l + s + 1) {
                                Err(e) => Err(e),
                                Ok((_, process)) => Ok((Some(a), Some(process))),
                            },
                        },
                    }
                },
            }
        },
    }
}

/// Parse the `key_path` and convert it to the [`RuleKeyPath`] structure.
///
/// The [`RuleKeyPath`] can either contain:
/// 1) Both rule type and process name;
/// 2) Only rule type;
/// 3) None.
///
/// The first `RULES_REGISTRY_KEY_PATH.len()` code units of `key_path` are skipped
/// unread: callers pass a key path that [`RulesManager::is_protection_key`] accepted.
pub fn parse_protection_rule_key<'a>(key_path: &'a [u16], t: &CaseTable) -> (r: Result<
    RuleKeyPath<'a>,
    NtError,
>)
    ensures
        match (r, spec_parse_rule_key(t, key_path@)) {
            (Ok(p), Ok((a, n))) => p.rule_type == a && match p.process_name {
                Some(s) => n == Some(s@),
                None => n is None,
            },
            (Err(e), Err(f)) => e == f,
            _ => false,
        },
{
    let rules_path: &[u16] = &RULES_REGISTRY_KEY_PATH;
    let l = rules_path.len();
    assert(l == 49);
    let rules_type_key_path = substr(key_path, l as u16)?;
    if rules_type_key_path.len() == 0 {
        return Ok(RuleKeyPath { rule_type: None, process_name: None });
    }
    let last_slash_idx = match last_index_of(rules_type_key_path, BACKSLASH) {
        Some(i) => i,
        None => {
            return Err(NtError::from_ntstatus(STATUS_INVALID_PARAMETER));
        },
    };
    if last_slash_idx == 0 {
        let rule_type_str = substr(rules_type_key_path, 1)?;
        let rule_type = FileSystemRuleAction::try_from(rule_type_str, t)?;
        return Ok(RuleKeyPath { rule_type: Some(rule_type), process_name: None });
    }
    let rule_type_str = slice(rules_type_key_path, 1, last_slash_idx as u16)?;
    let rule_type = FileSystemRuleAction::try_from(rule_type_str, t)?;
    let process_name = substr(key_path, l as u16 + last_slash_idx as u16 + 1)?;
    Ok(RuleKeyPath { rule_type: Some(rule_type), process_name: Some(process_name) })
}

// ---------------------------------------------------------------------------
// The rules manager

/// The deny rules and the read-only rules.
pub type RulesView = (Seq<EntryView>, Seq<EntryView>);

/// The rules of type `action`: none for `Bypass`.
pub open spec fn rules_for(v: RulesView, action: FileSystemRuleAction) -> Seq<EntryView> {
    match action {
        FileSystemRuleAction::Deny => v.0,
        FileSystemRuleAction::ReadOnly => v.1,
        FileSystemRuleAction::Bypass => Seq::empty(),
    }
}

/// `v` with the rules of type `action` replaced by `rules`; `v` itself for `Bypass`.
pub open spec fn with_rules(v: RulesView, action: FileSystemRuleAction, rules: Seq<EntryView>) -> RulesView {
    match action {
        FileSystemRuleAction::Deny => (rules, v.1),
        FileSystemRuleAction::ReadOnly => (v.0, rules),
        FileSystemRuleAction::Bypass => v,
    }
}

/// Every rule path of both rule types can be checked for the folder ending.
pub open spec fn rules_wf(v: RulesView) -> bool {
    rules_checkable(v.0) && rules_checkable(v.1)
}

/// The action for `process` and `file`: `Deny` when a deny rule protects the file
/// from the process, else `ReadOnly` when a read-only rule does, else `Bypass`.
pub open spec fn spec_rule_action(t: &CaseTable, v: RulesView, process: Seq<u16>, file: Seq<u16>) -> FileSystemRuleAction {
    if spec_search_rule(t, v.0, process, file) {
        FileSystemRuleAction::Deny
    } else if spec_search_rule(t, v.1, process, file) {
        FileSystemRuleAction::ReadOnly
    } else {
        FileSystemRuleAction::Bypass
    }
}

/// The rules manager which contains all the protection rules.
pub struct RulesManager {
    deny_rules: Vec<FileAccessEntry>,
    readonly_rules: Vec<FileAccessEntry>,
}

impl View for RulesManager {
    type V = RulesView;

    closed spec fn view(&self) -> RulesView {
        (rules_view(self.deny_rules@), rules_view(self.readonly_rules@))
    }
}

proof fn lemma_remove_keeps_checkable(rules: Seq<EntryView>, k: int)
    requires
        rules_checkable(rules),
        0 <= k < rules.len(),
    ensures
        rules_checkable(rules.remove(k)),
{
    let r = rules.remove(k);
    assert forall|i: int, j: int| 0 <= i < r.len() && 0 <= j < r[i].1.len() implies #[trigger] rule_path_checkable(
        r[i].1[j],
    ) by {
        if i < k {
            assert(r[i] == rules[i]);
        } else {
            assert(r[i] == rules[i + 1]);
        }
    }
}

/// All paths of `e` can be checked for the folder ending.
pub open spec fn entry_checkable(e: EntryView) -> bool {
    forall|j: int| 0 <= j < e.1.len() ==> #[trigger] rule_path_checkable(e.1[j])
}

proof fn lemma_update_keeps_checkable(rules: Seq<EntryView>, k: int, e: EntryView)
    requires
        rules_checkable(rules),
        entry_checkable(e),
        0 <= k < rules.len(),
    ensures
        rules_checkable(rules.update(k, e)),
{
    let r = rules.update(k, e);
    assert forall|i: int, j: int| 0 <= i < r.len() && 0 <= j < r[i].1.len() implies #[trigger] rule_path_checkable(
        r[i].1[j],
    ) by {
        if i != k {
            assert(r[i] == rules[i]);
        }
    }
}

proof fn lemma_push_keeps_checkable(rules: Seq<EntryView>, e: EntryView)
    requires
        rules_checkable(rules),
        entry_checkable(e),
    ensures
        rules_checkable(rules.push(e)),
{
    let r = rules.push(e);
    assert forall|i: int, j: int| 0 <= i < r.len() && 0 <= j < r[i].1.len() implies #[trigger] rule_path_checkable(
        r[i].1[j],
    ) by {
        if i < rules.len() {
            assert(r[i] == rules[i]);
        }
    }
}

/// Each edit of the rules of a process keeps every rule path checkable, given that a
/// path it adds is.
proof fn lemma_edits_keep_checkable(t: &CaseTable, rules: Seq<EntryView>, process: Seq<u16>, name: Seq<u16>, file: Seq<u16>)
    requires
        rules_checkable(rules),
    ensures
        rules_checkable(spec_clear_rules(t, rules, process)),
        rules_checkable(spec_rename_rules(t, rules, process, name)),
        rules_checkable(spec_remove_rule_path(t, rules, process, file)),
        rule_path_checkable(file) ==> rules_checkable(spec_add_rule_path(t, rules, process, file)),
{
    if has_equal(t, names_of(rules), process) {
        let k = first_equal(t, names_of(rules), process);
        assert(is_first_equal(t, names_of(rules), process, k));
        lemma_remove_keeps_checkable(rules, k);
        let e = rules[k];
        assert(entry_checkable(e)) by {
            assert forall|j: int| 0 <= j < e.1.len() implies #[trigger] rule_path_checkable(e.1[j]) by {
                assert(rule_path_checkable(rules[k].1[j]));
            }
        }
        lemma_update_keeps_checkable(rules, k, (name, e.1));
        if has_equal(t, e.1, file) {
            let p = first_equal(t, e.1, file);
            assert(is_first_equal(t, e.1, file, p));
            let q = e.1.remove(p);
            assert(entry_checkable((e.0, q))) by {
                assert forall|j: int| 0 <= j < q.len() implies #[trigger] rule_path_checkable(q[j]) by {
                    if j < p {
                        assert(q[j] == e.1[j]);
                    } else {
                        assert(q[j] == e.1[j + 1]);
                    }
                }
            }
            lemma_update_keeps_checkable(rules, k, (e.0, q));
        }
        if rule_path_checkable(file) {
            let q = e.1.push(file);
            assert(entry_checkable((e.0, q))) by {
                assert forall|j: int| 0 <= j < q.len() implies #[trigger] rule_path_checkable(q[j]) by {
                    if j < e.1.len() {
                        assert(q[j] == e.1[j]);
                    }
                }
            }
            lemma_update_keeps_checkable(rules, k, (e.0, q));
        }
    } else {
        if rule_path_checkable(file) {
            let e = (process, seq![file]);
            assert(entry_checkable(e)) by {
                assert forall|j: int| 0 <= j < e.1.len() implies #[trigger] rule_path_checkable(e.1[j]) by {
                    assert(e.1[j] == file);
                }
            }
            lemma_push_keeps_checkable(rules, e);
        }
    }
}

/// The rules after renaming the key `key` to `new_name`: when `key` names the rules of
/// a process, that process's rules of that type take `new_name` (in upper case).
pub open spec fn spec_rename_key_rules(t: &CaseTable, v: RulesView, key: Seq<u16>, new_name: Seq<u16>) -> Result<
    RulesView,
    NtError,
> {
    match spec_parse_rule_key(t, key) {
        Err(e) => Err(e),
        Ok((Some(a), Some(process))) => if new_name.len() > MAX_UNICODE_UNITS {
            nt_err(STATUS_BUFFER_OVERFLOW)
        } else {
            Ok(with_rules(v, a, spec_rename_rules(t, rules_for(v, a), process, upcase_seq(t, new_name))))
        },
        Ok(_) => Ok(v),
    }
}

/// The rules after deleting the key `key`: when `key` names the rules of a process,
/// that process's rules of that type are gone.
pub open spec fn spec_delete_key_rules(t: &CaseTable, v: RulesView, key: Seq<u16>) -> Result<RulesView, NtError> {
    match spec_parse_rule_key(t, key) {
        Err(e) => Err(e),
        Ok((Some(a), Some(process))) => Ok(with_rules(v, a, spec_clear_rules(t, rules_for(v, a), process))),
        Ok(_) => Ok(v),
    }
}

/// The rules after deleting the value `value` of the key `key`: the value is completed
/// as a rule path ([`spec_complete_rule_file_path`]); when `key` names the rules of a
/// process, that process's rules of that type no longer hold it.
pub open spec fn spec_delete_key_value_rule(t: &CaseTable, v: RulesView, key: Seq<u16>, value: Seq<u16>) -> Result<
    RulesView,
    NtError,
> {
    match spec_complete_rule_file_path(t, value) {
        Err(e) => Err(e),
        Ok(file) => match spec_parse_rule_key(t, key) {
            Err(e) => Err(e),
            Ok((Some(a), Some(process))) => Ok(
                with_rules(v, a, spec_remove_rule_path(t, rules_for(v, a), process, file)),
            ),
            Ok(_) => Ok(v),
        },
    }
}

/// The rules after setting the value `value` of the key `key`: the value is completed
/// as a rule path ([`spec_complete_rule_file_path`]); when `key` names the rules of a
/// process, that process's rules of that type hold it too.
pub open spec fn spec_set_key_value_rule(t: &CaseTable, v: RulesView, key: Seq<u16>, value: Seq<u16>) -> Result<
    RulesView,
    NtError,
> {
    match spec_complete_rule_file_path(t, value) {
        Err(e) => Err(e),
        Ok(file) => match spec_parse_rule_key(t, key) {
            Err(e) => Err(e),
            Ok((Some(a), Some(process))) => if process.len() > MAX_UNICODE_UNITS {
                nt_err(STATUS_BUFFER_OVERFLOW)
            } else {
                Ok(with_rules(v, a, spec_add_rule_path(t, rules_for(v, a), upcase_seq(t, process), file)))
            },
            Ok(_) => Ok(v),
        },
    }
}

/// A value can be completed as a rule path: walking it from its end decodes the
/// character that the check for a trailing `\` compares.
pub open spec fn rule_value_completable(value: Seq<u16>) -> bool {
    1 > value.len() || rev_chars_decodable(None, value, seq![BACKSLASH])
}

/// A value completes to a rule path that can be checked for the folder ending.
pub open spec fn rule_value_checkable(t: &CaseTable, value: Seq<u16>) -> bool {
    spec_complete_rule_file_path(t, value) matches Ok(p) ==> rule_path_checkable(p)
}

/// `r` and the rules after the call are what `expected` says: the new rules and `Ok`,
/// or the error with the rules unchanged.
pub open spec fn outcome_is(r: Result<(), NtError>, before: RulesView, after: RulesView, expected: Result<RulesView, NtError>) -> bool {
    match expected {
        Ok(v) => r is Ok && after == v,
        Err(e) => r == Err::<(), NtError>(e) && after == before,
    }
}

proof fn lemma_parsed_action_not_bypass(t: &CaseTable, key: Seq<u16>)
    ensures
        spec_parse_rule_key(t, key) matches Ok((Some(a), _)) ==> a != FileSystemRuleAction::Bypass,
{
}

impl RulesManager {
    /// Create a [`RulesManager`] with empty rules.
    pub fn new() -> (r: Self)
        ensures
            r@ == (Seq::<EntryView>::empty(), Seq::<EntryView>::empty()),
            rules_wf(r@),
    {
        let r = RulesManager { deny_rules: Vec::new(), readonly_rules: Vec::new() };
        assert(r@.0 =~= Seq::<EntryView>::empty());
        assert(r@.1 =~= Seq::<EntryView>::empty());
        r
    }

    /// The outcome of initialization from the outcome of reading the rules from the
    /// registry: a missing rules key (`STATUS_OBJECT_NAME_NOT_FOUND`) is no failure,
    /// since rules can be added later; any other error is passed on.
    pub fn init_status(init_rules: Result<(), NtError>) -> (r: Result<(), NtError>)
        ensures
            r == match init_rules {
                Err(e) => if e.status == STATUS_OBJECT_NAME_NOT_FOUND {
                    Ok(())
                } else {
                    Err(e)
                },
                Ok(()) => Ok(()),
            },
    {
        if let Err(err) = init_rules {
            if err.ntstatus() == STATUS_OBJECT_NAME_NOT_FOUND {
                Ok(())
            } else {
                Err(err)
            }
        } else {
            Ok(())
        }
    }

    /// Replace the rules of the type that `rule_type` names (a rule type key name, see
    /// [`FileSystemRuleAction::try_from`]) with `rules`.
    pub fn install_rules(&mut self, rule_type: &[u16], rules: Vec<FileAccessEntry>, t: &CaseTable) -> (r: Result<(), NtError>)
        requires
            rules_wf(old(self)@),
            rules_checkable(rules_view(rules@)),
        ensures
            rules_wf(final(self)@),
            match spec_action_from_name(t, rule_type@) {
                Ok(a) => r is Ok && final(self)@ == with_rules(old(self)@, a, rules_view(rules@)),
                Err(e) => r == Err::<(), NtError>(e) && final(self)@ == old(self)@,
            },
    {
        let action = FileSystemRuleAction::try_from(rule_type, t)?;
        match action {
            FileSystemRuleAction::Deny => self.deny_rules = rules,
            FileSystemRuleAction::ReadOnly => self.readonly_rules = rules,
            FileSystemRuleAction::Bypass => (),
        }
        Ok(())
    }

    /// Search for [`FileSystemRuleAction`] for the specified
    /// `process_name` and `file_path` arguments.
    pub fn search_rule_action(&self, process_name: &[u16], file_path: &[u16], t: &CaseTable) -> (r: FileSystemRuleAction)
        requires
            rules_wf(self@),
        ensures
            r == spec_rule_action(t, self@, process_name@, file_path@),
    {
        if search_rule_impl(self.deny_rules.as_slice(), process_name, file_path, t) {
            FileSystemRuleAction::Deny
        } else if search_rule_impl(self.readonly_rules.as_slice(), process_name, file_path, t) {
            FileSystemRuleAction::ReadOnly
        } else {
            FileSystemRuleAction::Bypass
        }
    }

    /// Remove the specified `process_name` from the rules of type `rules_type`. Does
    /// nothing for [`FileSystemRuleAction::Bypass`].
    pub fn clear_rules_for_process(&mut self, rules_type: FileSystemRuleAction, process_name: &[u16], t: &CaseTable)
        requires
            rules_wf(old(self)@),
        ensures
            rules_wf(final(self)@),
            final(self)@ == with_rules(
                old(self)@,
                rules_type,
                spec_clear_rules(t, rules_for(old(self)@, rules_type), process_name@),
            ),
    {
        proof {
            lemma_edits_keep_checkable(t, self@.0, process_name@, Seq::empty(), Seq::empty());
            lemma_edits_keep_checkable(t, self@.1, process_name@, Seq::empty(), Seq::empty());
        }
        match rules_type {
            FileSystemRuleAction::Deny => clear_rules_for_process_impl(&mut self.deny_rules, process_name, t),
            FileSystemRuleAction::ReadOnly => clear_rules_for_process_impl(
                &mut self.readonly_rules,
                process_name,
                t,
            ),
            FileSystemRuleAction::Bypass => {},
        }
    }

    /// Rename `old_process_name` to `new_process_name` (stored in upper case) in the
    /// rules of type `rules_type`. Does nothing for [`FileSystemRuleAction::Bypass`].
    pub fn rename_process_rules(
        &mut self,
        rules_type: FileSystemRuleAction,
        old_process_name: &[u16],
        new_process_name: &[u16],
        t: &CaseTable,
    ) -> (r: Result<(), NtError>)
        requires
            rules_wf(old(self)@),
        ensures
            rules_wf(final(self)@),
            rules_type != FileSystemRuleAction::Bypass && new_process_name@.len() > MAX_UNICODE_UNITS
                ==> r == nt_err::<()>(STATUS_BUFFER_OVERFLOW) && final(self)@ == old(self)@,
            rules_type == FileSystemRuleAction::Bypass || new_process_name@.len() <= MAX_UNICODE_UNITS
                ==> r is Ok && final(self)@ == with_rules(
                old(self)@,
                rules_type,
                spec_rename_rules(
                    t,
                    rules_for(old(self)@, rules_type),
                    old_process_name@,
                    upcase_seq(t, new_process_name@),
                ),
            ),
    {
        proof {
            lemma_edits_keep_checkable(t, self@.0, old_process_name@, upcase_seq(t, new_process_name@), Seq::empty());
            lemma_edits_keep_checkable(t, self@.1, old_process_name@, upcase_seq(t, new_process_name@), Seq::empty());
        }
        match rules_type {
            FileSystemRuleAction::Deny => rename_process_rules_impl(
                &mut self.deny_rules,
                old_process_name,
                new_process_name,
                t,
            ),
            FileSystemRuleAction::ReadOnly => rename_process_rules_impl(
                &mut self.readonly_rules,
                old_process_name,
                new_process_name,
                t,
            ),
            FileSystemRuleAction::Bypass => Ok(()),
        }
    }

    /// Remove `file_path` from the `process_name` rules of type `rules_type`. Does
    /// nothing for [`FileSystemRuleAction::Bypass`].
    pub fn remove_file_from_process_rules(
        &mut self,
        rules_type: FileSystemRuleAction,
        process_name: &[u16],
        file_path: &[u16],
        t: &CaseTable,
    )
        requires
            rules_wf(old(self)@),
        ensures
            rules_wf(final(self)@),
            final(self)@ == with_rules(
                old(self)@,
                rules_type,
                spec_remove_rule_path(t, rules_for(old(self)@, rules_type), process_name@, file_path@),
            ),
    {
        proof {
            lemma_edits_keep_checkable(t, self@.0, process_name@, Seq::empty(), file_path@);
            lemma_edits_keep_checkable(t, self@.1, process_name@, Seq::empty(), file_path@);
        }
        match rules_type {
            FileSystemRuleAction::Deny => remove_file_from_process_rules_impl(
                &mut self.deny_rules,
                process_name,
                file_path,
                t,
            ),
            FileSystemRuleAction::ReadOnly => remove_file_from_process_rules_impl(
                &mut self.readonly_rules,
                process_name,
                file_path,
                t,
            ),
            FileSystemRuleAction::Bypass => {},
        }
    }

    /// Add `file_path` to the `process_name` rules (process name kept in upper case) of
    /// type `rules_type`. Does nothing for [`FileSystemRuleAction::Bypass`].
    pub fn add_file_to_process_rules(
        &mut self,
        rules_type: FileSystemRuleAction,
        process_name: &[u16],
        file_path: Vec<u16>,
        t: &CaseTable,
    ) -> (r: Result<(), NtError>)
        requires
            rules_wf(old(self)@),
            rule_path_checkable(file_path@),
        ensures
            rules_wf(final(self)@),
            rules_type != FileSystemRuleAction::Bypass && process_name@.len() > MAX_UNICODE_UNITS
                ==> r == nt_err::<()>(STATUS_BUFFER_OVERFLOW) && final(self)@ == old(self)@,
            rules_type == FileSystemRuleAction::Bypass || process_name@.len() <= MAX_UNICODE_UNITS
                ==> r is Ok && final(self)@ == with_rules(
                old(self)@,
                rules_type,
                spec_add_rule_path(
                    t,
                    rules_for(old(self)@, rules_type),
                    upcase_seq(t, process_name@),
                    file_path@,
                ),
            ),
    {
        proof {
            lemma_edits_keep_checkable(t, self@.0, upcase_seq(t, process_name@), Seq::empty(), file_path@);
            lemma_edits_keep_checkable(t, self@.1, upcase_seq(t, process_name@), Seq::empty(), file_path@);
        }
        match rules_type {
            FileSystemRuleAction::Deny => add_file_to_process_rules_impl(
                &mut self.deny_rules,
                process_name,
                file_path,
                t,
            ),
            FileSystemRuleAction::ReadOnly => add_file_to_process_rules_impl(
                &mut self.readonly_rules,
                process_name,
                file_path,
                t,
            ),
            FileSystemRuleAction::Bypass => Ok(()),
        }
    }

    /// Rename the old `key_path` to the `new_key_name`.
    ///
    /// Parses the `key_path` to get its parts and renames the process rules if both the
    /// rule type and the process name are present.
    pub fn rename_key_rules(&mut self, key_path: &[u16], new_key_name: &[u16], t: &CaseTable) -> (r: Result<(), NtError>)
        requires
            rules_wf(old(self)@),
        ensures
            rules_wf(final(self)@),
            outcome_is(r, old(self)@, final(self)@, spec_rename_key_rules(t, old(self)@, key_path@, new_key_name@)),
    {
        proof {
            lemma_parsed_action_not_bypass(t, key_path@);
        }
        let parsed_key_rule = parse_protection_rule_key(key_path, t)?;
        if let (Some(rules_type), Some(old_process_name)) = (parsed_key_rule.rule_type, parsed_key_rule.process_name) {
            self.rename_process_rules(rules_type, old_process_name, new_key_name, t)?;
            let _ = rules_type.to_key_name()?;
        }
        Ok(())
    }

    /// Deletes protection rules for the specified `key_path`.
    ///
    /// Parses the key path and deletes the process rules if both the rule type and the
    /// process name are present.
    pub fn delete_key_rules(&mut self, key_path: &[u16], t: &CaseTable) -> (r: Result<(), NtError>)
        requires
            rules_wf(old(self)@),
        ensures
            rules_wf(final(self)@),
            outcome_is(r, old(self)@, final(self)@, spec_delete_key_rules(t, old(self)@, key_path@)),
    {
        proof {
            lemma_parsed_action_not_bypass(t, key_path@);
        }
        let parsed_key_rule = parse_protection_rule_key(key_path, t)?;
        if let (Some(rules_type), Some(process_name)) = (parsed_key_rule.rule_type, parsed_key_rule.process_name) {
            self.clear_rules_for_process(rules_type, process_name, t);
            let _ = rules_type.to_key_name()?;
        }
        Ok(())
    }

    /// Delete the value `value` (a key value name, with a drive name already converted
    /// to nt format) from the process rules that `key_path` names. The value is first
    /// completed as a rule path with [`complete_rule_file_path`].
    pub fn delete_key_value_rule(&mut self, key_path: &[u16], value: Vec<u16>, t: &CaseTable) -> (r: Result<(), NtError>)
        requires
            rules_wf(old(self)@),
            rule_value_completable(value@),
        ensures
            rules_wf(final(self)@),
            outcome_is(r, old(self)@, final(self)@, spec_delete_key_value_rule(t, old(self)@, key_path@, value@)),
    {
        proof {
            lemma_parsed_action_not_bypass(t, key_path@);
        }
        let mut file_path = value;
        complete_rule_file_path(&mut file_path, t)?;
        let parsed_key_rule = parse_protection_rule_key(key_path, t)?;
        if let (Some(rules_type), Some(process_name)) = (parsed_key_rule.rule_type, parsed_key_rule.process_name) {
            self.remove_file_from_process_rules(rules_type, process_name, file_path.as_slice(), t);
            let _ = rules_type.to_key_name()?;
        }
        Ok(())
    }

    /// Add the value `value` (a key value name, with a drive name already converted to
    /// nt format) to the process rules that `key_path` names. The value is first
    /// completed as a rule path with [`complete_rule_file_path`].
    pub fn set_key_value_rule(&mut self, key_path: &[u16], value: Vec<u16>, t: &CaseTable) -> (r: Result<(), NtError>)
        requires
            rules_wf(old(self)@),
            rule_value_completable(value@),
            rule_value_checkable(t, value@),
        ensures
            rules_wf(final(self)@),
            outcome_is(r, old(self)@, final(self)@, spec_set_key_value_rule(t, old(self)@, key_path@, value@)),
    {
        proof {
            lemma_parsed_action_not_bypass(t, key_path@);
        }
        let mut file_path = value;
        complete_rule_file_path(&mut file_path, t)?;
        let parsed_key_rule = parse_protection_rule_key(key_path, t)?;
        if let (Some(rules_type), Some(process_name)) = (parsed_key_rule.rule_type, parsed_key_rule.process_name) {
            self.add_file_to_process_rules(rules_type, process_name, file_path, t)?;
            let _ = rules_type.to_key_name()?;
        }
        Ok(())
    }

    /// Check if the specified `key_path` starts with the rules registry key path.
    /// Ignores key path case.
    pub fn is_protection_key(key_path: &[u16], t: &CaseTable) -> (r: bool)
        ensures
            r == spec_starts_with(Some(t), key_path@, RULES_REGISTRY_KEY_PATH@),
    {
        starts_with_no_case(key_path, &RULES_REGISTRY_KEY_PATH, t)
    }
}

// ---------------------------------------------------------------------------
// Laws

/// Searching the rules ignores the case of the process name and of the file path:
/// names with the same upper-case form are protected alike.
pub proof fn lemma_search_ignores_case(
    t: &CaseTable,
    rules: Seq<EntryView>,
    p1: Seq<u16>,
    p2: Seq<u16>,
    f1: Seq<u16>,
    f2: Seq<u16>,
)
    requires
        upcase_seq(t, p1) == upcase_seq(t, p2),
        upcase_seq(t, f1) == upcase_seq(t, f2),
    ensures
        spec_search_rule(t, rules, p1, f1) == spec_search_rule(t, rules, p2, f2),
{
    assert forall|e: EntryView| #[trigger] entry_matches(t, e, p1) == entry_matches(t, e, p2) by {
        lemma_match_sees_upper_case(t, p1, p2, e.0);
    }
    assert forall|rule: Seq<u16>| #[trigger] rule_path_matches(t, rule, f1) == rule_path_matches(t, rule, f2) by {
        lemma_match_sees_upper_case(t, f1, f2, rule);
        match spec_split_at(rule, rule.len() - FOLDER_RULE_POSTFIX@.len()) {
            Ok((folder, _)) => lemma_match_sees_upper_case(t, f1, f2, folder),
            Err(_) => {},
        }
    }
    assert forall|e: EntryView| #[trigger] entry_protects(t, e, f1) == entry_protects(t, e, f2) by {
        if entry_protects(t, e, f1) {
            let j = choose|j: int| 0 <= j < e.1.len() && #[trigger] rule_path_matches(t, e.1[j], f1);
            assert(rule_path_matches(t, e.1[j], f2));
        }
        if entry_protects(t, e, f2) {
            let j = choose|j: int| 0 <= j < e.1.len() && #[trigger] rule_path_matches(t, e.1[j], f2);
            assert(rule_path_matches(t, e.1[j], f1));
        }
    }
    if spec_search_rule(t, rules, p1, f1) {
        let k = choose|k: int|
            0 <= k < rules.len() && entry_matches(t, #[trigger] rules[k], p1) && entry_protects(t, rules[k], f1);
        assert(entry_matches(t, rules[k], p2) && entry_protects(t, rules[k], f2));
    }
    if spec_search_rule(t, rules, p2, f2) {
        let k = choose|k: int|
            0 <= k < rules.len() && entry_matches(t, #[trigger] rules[k], p2) && entry_protects(t, rules[k], f2);
        assert(entry_matches(t, rules[k], p1) && entry_protects(t, rules[k], f1));
    }
}

/// The action for a process and a file ignores their case.
pub proof fn lemma_rule_action_ignores_case(
    t: &CaseTable,
    v: RulesView,
    p1: Seq<u16>,
    p2: Seq<u16>,
    f1: Seq<u16>,
    f2: Seq<u16>,
)
    requires
        upcase_seq(t, p1) == upcase_seq(t, p2),
        upcase_seq(t, f1) == upcase_seq(t, f2),
    ensures
        spec_rule_action(t, v, p1, f1) == spec_rule_action(t, v, p2, f2),
{
    lemma_search_ignores_case(t, v.0, p1, p2, f1, f2);
    lemma_search_ignores_case(t, v.1, p1, p2, f1, f2);
}

/// A deny rule wins: a file that a deny rule protects from a process is denied to it,
/// whatever the read-only rules say.
pub proof fn lemma_deny_wins(t: &CaseTable, v: RulesView, process: Seq<u16>, file: Seq<u16>)
    requires
        spec_search_rule(t, v.0, process, file),
    ensures
        spec_rule_action(t, v, process, file) == FileSystemRuleAction::Deny,
{
}

/// Adding a rule never takes protection away: what the rules protected before, they
/// still protect.
pub proof fn lemma_adding_keeps_protection(
    t: &CaseTable,
    rules: Seq<EntryView>,
    name: Seq<u16>,
    path: Seq<u16>,
    process: Seq<u16>,
    file: Seq<u16>,
)
    requires
        spec_search_rule(t, rules, process, file),
    ensures
        spec_search_rule(t, spec_add_rule_path(t, rules, name, path), process, file),
{
    let after = spec_add_rule_path(t, rules, name, path);
    let k = choose|k: int|
        0 <= k < rules.len() && entry_matches(t, #[trigger] rules[k], process) && entry_protects(t, rules[k], file);
    let j = choose|j: int| 0 <= j < rules[k].1.len() && #[trigger] rule_path_matches(t, rules[k].1[j], file);
    if has_equal(t, names_of(rules), name) {
        let e = first_equal(t, names_of(rules), name);
        assert(after == rules.update(e, (rules[e].0, rules[e].1.push(path))));
        assert(after[k].0 == rules[k].0);
        assert(after[k].1[j] == rules[k].1[j]);
    } else {
        assert(after == rules.push((name, seq![path])));
        assert(after[k] == rules[k]);
    }
    assert(entry_matches(t, after[k], process));
    assert(rule_path_matches(t, after[k].1[j], file));
}

/// Once a file is added (in upper case, as rules are stored) to the rules of a process,
/// the rules protect that file from that process, provided the entry that takes the
/// file names the process: a new entry for it, or the process's existing entry when
/// that entry's name matches it. (Names holding `"`, which file names never do, are
/// left out: a `"` in an expression matches only a `.`.)
pub proof fn lemma_added_rule_found(t: &CaseTable, rules: Seq<EntryView>, process: Seq<u16>, file: Seq<u16>)
    requires
        !upcase_seq(t, process).contains(DOS_DOT),
        !upcase_seq(t, file).contains(DOS_DOT),
        has_equal(t, names_of(rules), upcase_seq(t, process)) ==> entry_matches(
            t,
            rules[first_equal(t, names_of(rules), upcase_seq(t, process))],
            process,
        ),
    ensures
        spec_search_rule(
            t,
            spec_add_rule_path(t, rules, upcase_seq(t, process), upcase_seq(t, file)),
            process,
            file,
        ),
{
    let up = upcase_seq(t, process);
    let uf = upcase_seq(t, file);
    let after = spec_add_rule_path(t, rules, up, uf);
    lemma_matches_own_upper_case(t, process);
    lemma_matches_own_upper_case(t, file);
    if has_equal(t, names_of(rules), up) {
        let k = first_equal(t, names_of(rules), up);
        assert(is_first_equal(t, names_of(rules), up, k));
        assert(after == rules.update(k, (rules[k].0, rules[k].1.push(uf))));
        let j = rules[k].1.len() as int;
        assert(after[k].1[j] == uf);
        assert(rule_path_matches(t, after[k].1[j], file));
        assert(entry_matches(t, after[k], process));
    } else {
        let k = rules.len() as int;
        assert(after == rules.push((up, seq![uf])));
        assert(entry_matches(t, after[k], process));
        assert(after[k].1[0] == uf);
        assert(rule_path_matches(t, after[k].1[0], file));
    }
}

/// Once the rules of a process are cleared, no rule protects any file from it, when the
/// entry of that process was the only one whose name matches it.
pub proof fn lemma_cleared_process_unprotected(
    t: &CaseTable,
    rules: Seq<EntryView>,
    process: Seq<u16>,
    file: Seq<u16>,
)
    requires
        forall|k: int|
            0 <= k < rules.len() && entry_matches(t, #[trigger] rules[k], process) ==> is_first_equal(
                t,
                names_of(rules),
                process,
                k,
            ),
    ensures
        !spec_search_rule(t, spec_clear_rules(t, rules, process), process, file),
{
    let after = spec_clear_rules(t, rules, process);
    let names = names_of(rules);
    if has_equal(t, names, process) {
        let k0 = first_equal(t, names, process);
        assert(is_first_equal(t, names, process, k0));
        assert(after == rules.remove(k0));
        assert forall|k: int| 0 <= k < after.len() implies !entry_matches(t, #[trigger] after[k], process) by {
            let src = if k < k0 { k } else { k + 1 };
            assert(after[k] == rules[src]);
            if entry_matches(t, rules[src], process) {
                assert(is_first_equal(t, names, process, src));
                lemma_first_equal_unique(t, names, process, src);
            }
        }
    } else {
        assert forall|k: int| 0 <= k < after.len() implies !entry_matches(t, #[trigger] after[k], process) by {
            if entry_matches(t, rules[k], process) {
                assert(is_first_equal(t, names, process, k));
            }
        }
    }
}

/// Renaming the rules of a process hands them to the new name: a process that the new
/// name matches, and that no other entry matches, is protected from exactly the files
/// that the renamed entry lists.
pub proof fn lemma_renamed_rules_follow(
    t: &CaseTable,
    rules: Seq<EntryView>,
    old_process: Seq<u16>,
    new_name: Seq<u16>,
    process: Seq<u16>,
    file: Seq<u16>,
)
    requires
        has_equal(t, names_of(rules), old_process),
        spec_matches(Some(t), process, new_name),
        forall|l: int|
            0 <= l < rules.len() && l != first_equal(t, names_of(rules), old_process) ==> !entry_matches(
                t,
                #[trigger] rules[l],
                process,
            ),
    ensures
        spec_search_rule(t, spec_rename_rules(t, rules, old_process, new_name), process, file)
            == entry_protects(t, rules[first_equal(t, names_of(rules), old_process)], file),
{
    let k = first_equal(t, names_of(rules), old_process);
    let after = spec_rename_rules(t, rules, old_process, new_name);
    assert(is_first_equal(t, names_of(rules), old_process, k));
    assert(after == rules.update(k, (new_name, rules[k].1)));
    assert(entry_matches(t, after[k], process));
    assert(after[k].1 == rules[k].1);
    if spec_search_rule(t, after, process, file) {
        let m = choose|m: int|
            0 <= m < after.len() && entry_matches(t, #[trigger] after[m], process) && entry_protects(t, after[m], file);
        if m != k {
            assert(after[m] == rules[m]);
        }
    }
    if entry_protects(t, rules[k], file) {
        assert(entry_protects(t, after[k], file));
    }
}

/// Setting a file value (one that does not name a folder) under the deny rules key of a
/// process denies that file to that process, provided the entry that takes the file
/// names the process (see [`lemma_added_rule_found`]).
pub proof fn lemma_set_deny_rule_denies(
    t: &CaseTable,
    v: RulesView,
    key: Seq<u16>,
    process: Seq<u16>,
    file: Seq<u16>,
)
    requires
        spec_parse_rule_key(t, key) == Ok::<(Option<FileSystemRuleAction>, Option<Seq<u16>>), NtError>(
            (Some(FileSystemRuleAction::Deny), Some(process)),
        ),
        process.len() <= MAX_UNICODE_UNITS,
        !upcase_seq(t, process).contains(DOS_DOT),
        !upcase_seq(t, file).contains(DOS_DOT),
        !ends_with_backslash(file),
        has_equal(t, names_of(v.0), upcase_seq(t, process)) ==> entry_matches(
            t,
            v.0[first_equal(t, names_of(v.0), upcase_seq(t, process))],
            process,
        ),
    ensures
        spec_set_key_value_rule(t, v, key, file) matches Ok(after) && spec_rule_action(
            t,
            after,
            process,
            file,
        ) == FileSystemRuleAction::Deny,
{
    lemma_added_rule_found(t, v.0, process, file);
}

/// Setting a file value (one that does not name a folder) under the read-only rules key
/// of a process protects that file from that process (read-only, or denied when a deny
/// rule says so), provided the entry that takes the file names the process.
pub proof fn lemma_set_read_only_rule_protects(
    t: &CaseTable,
    v: RulesView,
    key: Seq<u16>,
    process: Seq<u16>,
    file: Seq<u16>,
)
    requires
        spec_parse_rule_key(t, key) == Ok::<(Option<FileSystemRuleAction>, Option<Seq<u16>>), NtError>(
            (Some(FileSystemRuleAction::ReadOnly), Some(process)),
        ),
        process.len() <= MAX_UNICODE_UNITS,
        !upcase_seq(t, process).contains(DOS_DOT),
        !upcase_seq(t, file).contains(DOS_DOT),
        !ends_with_backslash(file),
        has_equal(t, names_of(v.1), upcase_seq(t, process)) ==> entry_matches(
            t,
            v.1[first_equal(t, names_of(v.1), upcase_seq(t, process))],
            process,
        ),
    ensures
        spec_set_key_value_rule(t, v, key, file) matches Ok(after) && spec_rule_action(
            t,
            after,
            process,
            file,
        ) != FileSystemRuleAction::Bypass,
{
    lemma_added_rule_found(t, v.1, process, file);
}

/// Every file path of `rules` is kept in upper case, as the rules store them.
pub open spec fn paths_in_upper_case(t: &CaseTable, rules: Seq<EntryView>) -> bool {
    forall|i: int, j: int|
        0 <= i < rules.len() && 0 <= j < rules[i].1.len() ==> upcase_seq(t, #[trigger] rules[i].1[j])
            == rules[i].1[j]
}

/// Some name of `names` equal to `name` makes `name` have a first equal one.
proof fn lemma_has_equal_of(t: &CaseTable, names: Seq<Seq<u16>>, name: Seq<u16>, m: int)
    requires
        0 <= m < names.len(),
        spec_equals(Some(t), names[m], name),
    ensures
        has_equal(t, names, name),
        first_equal(t, names, name) <= m,
    decreases m,
{
    if exists|l: int| 0 <= l < m && spec_equals(Some(t), #[trigger] names[l], name) {
        let l = choose|l: int| 0 <= l < m && spec_equals(Some(t), #[trigger] names[l], name);
        lemma_has_equal_of(t, names, name, l);
    } else {
        assert(is_first_equal(t, names, name, m));
        lemma_first_equal_unique(t, names, name, m);
    }
}

/// With a settled table, a string compares equal to another exactly as it does to the
/// other's upper-case form.
proof fn lemma_equals_upper_case(t: &CaseTable, x: Seq<u16>, y: Seq<u16>)
    requires
        upper_case_settled(t),
    ensures
        spec_equals(Some(t), x, upcase_seq(t, y)) == spec_equals(Some(t), x, y),
{
    if x.len() == y.len() {
        assert forall|i: int| 0 <= i < x.len() implies fold(Some(t), upcase_seq(t, y)[i]) == fold(Some(t), y[i]) by {
            assert(t.up(t.up(y[i])) == t.up(y[i]));
        }
    }
}

/// With a settled table, the first name equal to a name is the first equal to its
/// upper-case form.
proof fn lemma_first_equal_upper_case(t: &CaseTable, names: Seq<Seq<u16>>, name: Seq<u16>)
    requires
        upper_case_settled(t),
    ensures
        has_equal(t, names, upcase_seq(t, name)) == has_equal(t, names, name),
        has_equal(t, names, name) ==> first_equal(t, names, upcase_seq(t, name)) == first_equal(t, names, name),
{
    assert forall|l: int| 0 <= l < names.len() implies #[trigger] spec_equals(Some(t), names[l], upcase_seq(t, name))
        == spec_equals(Some(t), names[l], name) by {
        lemma_equals_upper_case(t, names[l], name);
    }
    if has_equal(t, names, name) {
        let k = first_equal(t, names, name);
        assert(is_first_equal(t, names, name, k));
        assert(is_first_equal(t, names, upcase_seq(t, name), k));
        lemma_first_equal_unique(t, names, upcase_seq(t, name), k);
    }
    if has_equal(t, names, upcase_seq(t, name)) {
        let k = first_equal(t, names, upcase_seq(t, name));
        assert(is_first_equal(t, names, upcase_seq(t, name), k));
        assert(is_first_equal(t, names, name, k));
    }
}

/// Two upper-case strings that compare equal ignoring case are the same.
proof fn lemma_upper_case_equal(t: &CaseTable, x: Seq<u16>, y: Seq<u16>)
    requires
        upcase_seq(t, x) == x,
        upcase_seq(t, y) == y,
        spec_equals(Some(t), x, y),
    ensures
        x == y,
{
    assert forall|i: int| 0 <= i < x.len() implies x[i] == y[i] by {
        assert(fold(Some(t), x[i]) == fold(Some(t), y[i]));
        assert(upcase_seq(t, x)[i] == t.up(x[i]));
        assert(upcase_seq(t, y)[i] == t.up(y[i]));
    }
    assert(x =~= y);
}

/// Entries that match the same processes and protect the same files give the same
/// search, and entries beyond the common ones that protect nothing change nothing.
proof fn lemma_search_same(t: &CaseTable, a: Seq<EntryView>, b: Seq<EntryView>, process: Seq<u16>, file: Seq<u16>)
    requires
        a.len() <= b.len(),
        forall|k: int|
            0 <= k < a.len() ==> entry_matches(t, #[trigger] a[k], process) == entry_matches(t, b[k], process)
                && entry_protects(t, a[k], file) == entry_protects(t, b[k], file),
        forall|k: int| a.len() <= k < b.len() ==> !entry_protects(t, #[trigger] b[k], file),
    ensures
        spec_search_rule(t, a, process, file) == spec_search_rule(t, b, process, file),
{
    if spec_search_rule(t, a, process, file) {
        let k = choose|k: int|
            0 <= k < a.len() && entry_matches(t, #[trigger] a[k], process) && entry_protects(t, a[k], file);
        assert(entry_matches(t, b[k], process) && entry_protects(t, b[k], file));
    }
    if spec_search_rule(t, b, process, file) {
        let k = choose|k: int|
            0 <= k < b.len() && entry_matches(t, #[trigger] b[k], process) && entry_protects(t, b[k], file);
        if k >= a.len() {
            assert(!entry_protects(t, b[k], file));
        }
        assert(entry_matches(t, a[k], process) && entry_protects(t, a[k], file));
    }
}

/// Paths holding the same elements protect the same files.
proof fn lemma_same_paths_protect_alike(t: &CaseTable, n: Seq<u16>, p: Seq<Seq<u16>>, q: Seq<Seq<u16>>, file: Seq<u16>)
    requires
        forall|i: int| 0 <= i < p.len() ==> exists|j: int| 0 <= j < q.len() && q[j] == #[trigger] p[i],
        forall|j: int| 0 <= j < q.len() ==> exists|i: int| 0 <= i < p.len() && p[i] == #[trigger] q[j],
    ensures
        entry_protects(t, (n, p), file) == entry_protects(t, (n, q), file),
{
    let ep = (n, p);
    let eq = (n, q);
    if entry_protects(t, ep, file) {
        let i = choose|i: int| 0 <= i < ep.1.len() && #[trigger] rule_path_matches(t, ep.1[i], file);
        assert(0 <= i < p.len());
        let j = choose|j: int| 0 <= j < q.len() && q[j] == #[trigger] p[i];
        assert(rule_path_matches(t, eq.1[j], file));
    }
    if entry_protects(t, eq, file) {
        let j = choose|j: int| 0 <= j < eq.1.len() && #[trigger] rule_path_matches(t, eq.1[j], file);
        assert(0 <= j < q.len());
        let i = choose|i: int| 0 <= i < p.len() && p[i] == #[trigger] q[j];
        assert(rule_path_matches(t, ep.1[i], file));
    }
}

/// Adding `file` (in upper case) to the rules of `process` and then removing it again
/// leaves the search as it was, for rules whose paths are in upper case and a settled
/// case table.
#[verifier::rlimit(40)]
#[verifier::spinoff_prover]
proof fn lemma_remove_undoes_add(
    t: &CaseTable,
    rules: Seq<EntryView>,
    process: Seq<u16>,
    file: Seq<u16>,
    q: Seq<u16>,
    f: Seq<u16>,
)
    requires
        upper_case_settled(t),
        paths_in_upper_case(t, rules),
        upcase_seq(t, file) == file,
    ensures
        spec_search_rule(
            t,
            spec_remove_rule_path(t, spec_add_rule_path(t, rules, upcase_seq(t, process), file), process, file),
            q,
            f,
        ) == spec_search_rule(t, rules, q, f),
{
    let up = upcase_seq(t, process);
    let r1 = spec_add_rule_path(t, rules, up, file);
    let r2 = spec_remove_rule_path(t, r1, process, file);
    lemma_first_equal_upper_case(t, names_of(rules), process);
    if has_equal(t, names_of(rules), up) {
        let k = first_equal(t, names_of(rules), up);
        assert(is_first_equal(t, names_of(rules), up, k));
        let pk = rules[k].1;
        let pushed = pk.push(file);
        assert(r1 == rules.update(k, (rules[k].0, pushed)));
        assert(names_of(r1) =~= names_of(rules));
        assert(is_first_equal(t, names_of(rules), process, k));
        lemma_first_equal_unique(t, names_of(r1), process, k);
        assert(r1[k].1 == pushed);
        lemma_equals_upper_case(t, file, file);
        assert(spec_equals(Some(t), pushed[pk.len() as int], file));
        lemma_has_equal_of(t, pushed, file, pk.len() as int);
        let j = first_equal(t, pushed, file);
        assert(is_first_equal(t, pushed, file, j));
        let kept = pushed.remove(j);
        assert(r2 == r1.update(k, (rules[k].0, kept)));
        if j < pk.len() {
            assert(upcase_seq(t, pk[j]) == pk[j]);
            lemma_upper_case_equal(t, pk[j], file);
        }
        assert forall|i: int| 0 <= i < pk.len() implies exists|m: int| 0 <= m < kept.len() && kept[m] == #[trigger] pk[i] by {
            if i < j {
                assert(kept[i] == pk[i]);
            } else if i == j {
                assert(kept[kept.len() - 1] == file);
            } else {
                assert(kept[i - 1] == pushed[i]);
            }
        }
        assert forall|m: int| 0 <= m < kept.len() implies exists|i: int| 0 <= i < pk.len() && pk[i] == #[trigger] kept[m] by {
            if m < j {
                assert(kept[m] == pk[m]);
            } else if m + 1 < pushed.len() - 0 && m + 1 < pk.len() {
                assert(kept[m] == pk[m + 1]);
            } else {
                assert(kept[m] == file);
                assert(pk[j] == file);
            }
        }
        lemma_same_paths_protect_alike(t, rules[k].0, pk, kept, f);
        assert forall|l: int| 0 <= l < rules.len() implies entry_matches(t, #[trigger] rules[l], q) == entry_matches(
            t,
            r2[l],
            q,
        ) && entry_protects(t, rules[l], f) == entry_protects(t, r2[l], f) by {
            if l != k {
                assert(r2[l] == rules[l]);
            }
        }
        lemma_search_same(t, rules, r2, q, f);
    } else {
        let k = rules.len() as int;
        assert(r1 == rules.push((up, seq![file])));
        assert(names_of(r1) =~= names_of(rules).push(up));
        lemma_equals_upper_case(t, up, process);
        lemma_equals_upper_case(t, process, process);
        assert(spec_equals(Some(t), up, process)) by {
            assert forall|i: int| 0 <= i < up.len() implies fold(Some(t), up[i]) == fold(Some(t), process[i]) by {
                assert(t.up(t.up(process[i])) == t.up(process[i]));
            }
        }
        assert forall|l: int| 0 <= l < k implies !spec_equals(Some(t), #[trigger] names_of(r1)[l], process) by {
            assert(names_of(r1)[l] == names_of(rules)[l]);
            if spec_equals(Some(t), names_of(rules)[l], process) {
                lemma_has_equal_of(t, names_of(rules), process, l);
            }
        }
        assert(is_first_equal(t, names_of(r1), process, k));
        lemma_first_equal_unique(t, names_of(r1), process, k);
        let one = seq![file];
        lemma_equals_upper_case(t, file, file);
        assert(is_first_equal(t, one, file, 0));
        lemma_first_equal_unique(t, one, file, 0);
        assert(r2 == r1.update(k, (up, one.remove(0))));
        assert(r2[k].1.len() == 0);
        assert(!entry_protects(t, r2[k], f));
        assert forall|l: int| 0 <= l < rules.len() implies entry_matches(t, #[trigger] rules[l], q) == entry_matches(
            t,
            r2[l],
            q,
        ) && entry_protects(t, rules[l], f) == entry_protects(t, r2[l], f) by {
            assert(r2[l] == rules[l]);
        }
        assert forall|l: int| rules.len() <= l < r2.len() implies !entry_protects(t, #[trigger] r2[l], f) by {
            assert(l == k);
        }
        lemma_search_same(t, rules, r2, q, f);
    }
}

/// A completed rule path is in upper case when the case table is settled.
proof fn lemma_completed_path_upper_case(t: &CaseTable, value: Seq<u16>)
    requires
        upper_case_settled(t),
    ensures
        spec_complete_rule_file_path(t, value) matches Ok(p) ==> upcase_seq(t, p) == p,
{
    if spec_complete_rule_file_path(t, value) is Ok {
        let v = if ends_with_backslash(value) { value.push(ASTERISK) } else { value };
        let p = upcase_seq(t, v);
        assert(upcase_seq(t, p) =~= p) by {
            assert forall|i: int| 0 <= i < p.len() implies upcase_seq(t, p)[i] == p[i] by {
                assert(t.up(t.up(v[i])) == t.up(v[i]));
            }
        }
    }
}

/// Deleting a key value undoes setting it: after a value is set under a rules key and
/// then deleted again, every process is protected from every file exactly as before.
/// This holds for a settled case table and rules whose paths are in upper case, as the
/// rules store them.
pub proof fn lemma_delete_undoes_set(
    t: &CaseTable,
    v: RulesView,
    key: Seq<u16>,
    value: Seq<u16>,
    process: Seq<u16>,
    file: Seq<u16>,
)
    requires
        upper_case_settled(t),
        paths_in_upper_case(t, v.0),
        paths_in_upper_case(t, v.1),
        spec_set_key_value_rule(t, v, key, value) is Ok,
    ensures
        spec_set_key_value_rule(t, v, key, value) matches Ok(after_set) && spec_delete_key_value_rule(
            t,
            after_set,
            key,
            value,
        ) matches Ok(after_delete) && spec_rule_action(t, after_delete, process, file) == spec_rule_action(
            t,
            v,
            process,
            file,
        ),
{
    lemma_completed_path_upper_case(t, value);
    lemma_parsed_action_not_bypass(t, key);
    let p = spec_complete_rule_file_path(t, value)->Ok_0;
    match spec_parse_rule_key(t, key) {
        Ok((Some(a), Some(pr))) => {
            let rules = rules_for(v, a);
            lemma_remove_undoes_add(t, rules, pr, p, process, file);
            let r1 = spec_add_rule_path(t, rules, upcase_seq(t, pr), p);
            let v1 = with_rules(v, a, r1);
            assert(rules_for(v1, a) == r1);
            let r2 = spec_remove_rule_path(t, r1, pr, p);
            let v2 = with_rules(v1, a, r2);
            if a == FileSystemRuleAction::Deny {
                assert(v2.1 == v.1);
            } else {
                assert(v2.0 == v.0);
            }
        },
        _ => {},
    }
}

/// The other rule type of `a` (`Deny` for `ReadOnly` and the other way round).
pub open spec fn other_rule_type(a: FileSystemRuleAction) -> FileSystemRuleAction {
    match a {
        FileSystemRuleAction::Deny => FileSystemRuleAction::ReadOnly,
        _ => FileSystemRuleAction::Deny,
    }
}

/// Renaming the rules key of a process touches the rules of that key's type only: the
/// rules of the other type are the same afterwards, and so is what they protect; the
/// rules of the key's type keep their number of entries and every entry keeps its files.
pub proof fn lemma_rename_key_keeps_other_type(
    t: &CaseTable,
    v: RulesView,
    key: Seq<u16>,
    new_name: Seq<u16>,
    process: Seq<u16>,
    file: Seq<u16>,
)
    ensures
        spec_parse_rule_key(t, key) matches Ok((Some(a), Some(_))) ==> (spec_rename_key_rules(
            t,
            v,
            key,
            new_name,
        ) matches Ok(after) ==> {
            &&& after.0.len() == v.0.len()
            &&& after.1.len() == v.1.len()
            &&& rules_for(after, other_rule_type(a)) == rules_for(v, other_rule_type(a))
            &&& spec_search_rule(t, rules_for(after, other_rule_type(a)), process, file) == spec_search_rule(
                t,
                rules_for(v, other_rule_type(a)),
                process,
                file,
            )
            &&& forall|k: int| 0 <= k < v.0.len() ==> #[trigger] after.0[k].1 == v.0[k].1
            &&& forall|k: int| 0 <= k < v.1.len() ==> #[trigger] after.1[k].1 == v.1[k].1
        }),
{
    lemma_parsed_action_not_bypass(t, key);
    if let Ok((Some(a), Some(process_name))) = spec_parse_rule_key(t, key) {
        if let Ok(after) = spec_rename_key_rules(t, v, key, new_name) {
            let rules = rules_for(v, a);
            let names = names_of(rules);
            let up = upcase_seq(t, new_name);
            if has_equal(t, names, process_name) {
                let k = first_equal(t, names, process_name);
                assert(is_first_equal(t, names, process_name, k));
            }
            assert(spec_rename_rules(t, rules, process_name, up).len() == rules.len());
            assert forall|k: int| 0 <= k < rules.len() implies #[trigger] spec_rename_rules(
                t,
                rules,
                process_name,
                up,
            )[k].1 == rules[k].1 by {
                if has_equal(t, names, process_name) {
                    let e = first_equal(t, names, process_name);
                    assert(is_first_equal(t, names, process_name, e));
                }
            }
        }
    }
}

/// Deleting the rules key of a process touches the rules of that key's type only: the
/// rules of the other type are the same afterwards, and so is what they protect; the
/// rules of the key's type lose at most one entry, and every entry left was there.
pub proof fn lemma_delete_key_keeps_other_type(
    t: &CaseTable,
    v: RulesView,
    key: Seq<u16>,
    process: Seq<u16>,
    file: Seq<u16>,
)
    ensures
        spec_parse_rule_key(t, key) matches Ok((Some(a), Some(_))) ==> (spec_delete_key_rules(
            t,
            v,
            key,
        ) matches Ok(after) ==> {
            &&& rules_for(after, other_rule_type(a)) == rules_for(v, other_rule_type(a))
            &&& spec_search_rule(t, rules_for(after, other_rule_type(a)), process, file) == spec_search_rule(
                t,
                rules_for(v, other_rule_type(a)),
                process,
                file,
            )
            &&& rules_for(v, a).len() - 1 <= rules_for(after, a).len() <= rules_for(v, a).len()
            &&& forall|k: int|
                0 <= k < rules_for(after, a).len() ==> rules_for(v, a).contains(#[trigger] rules_for(after, a)[k])
        }),
{
    lemma_parsed_action_not_bypass(t, key);
    if let Ok((Some(a), Some(process_name))) = spec_parse_rule_key(t, key) {
        if let Ok(after) = spec_delete_key_rules(t, v, key) {
            let rules = rules_for(v, a);
            let names = names_of(rules);
            if has_equal(t, names, process_name) {
                let e = first_equal(t, names, process_name);
                assert(is_first_equal(t, names, process_name, e));
                let cleared = rules.remove(e);
                assert forall|k: int| 0 <= k < cleared.len() implies rules.contains(#[trigger] cleared[k]) by {
                    if k < e {
                        assert(cleared[k] == rules[k]);
                    } else {
                        assert(cleared[k] == rules[k + 1]);
                    }
                }
            } else {
                assert forall|k: int| 0 <= k < rules.len() implies rules.contains(#[trigger] rules[k]) by {
                }
            }
        }
    }
}

/// Renaming a deny key leaves every read-only protection as it was, and renaming a
/// read-only key leaves every deny protection: a process keeps the read-only
/// protection of its files after its deny key is renamed, and the other way round.
pub proof fn lemma_rename_key_keeps_other_protection(
    t: &CaseTable,
    v: RulesView,
    key: Seq<u16>,
    new_name: Seq<u16>,
    process: Seq<u16>,
    file: Seq<u16>,
)
    ensures
        spec_parse_rule_key(t, key) matches Ok((Some(FileSystemRuleAction::Deny), Some(_))) ==> (
        spec_rename_key_rules(t, v, key, new_name) matches Ok(after) ==> spec_search_rule(
            t,
            after.1,
            process,
            file,
        ) == spec_search_rule(t, v.1, process, file)),
        spec_parse_rule_key(t, key) matches Ok((Some(FileSystemRuleAction::ReadOnly), Some(_))) ==> (
        spec_rename_key_rules(t, v, key, new_name) matches Ok(after) ==> spec_search_rule(
            t,
            after.0,
            process,
            file,
        ) == spec_search_rule(t, v.0, process, file)),
{
    lemma_rename_key_keeps_other_type(t, v, key, new_name, process, file);
}

/// Deleting a deny key leaves every read-only protection as it was, and deleting a
/// read-only key leaves every deny protection.
pub proof fn lemma_delete_key_keeps_other_protection(
    t: &CaseTable,
    v: RulesView,
    key: Seq<u16>,
    process: Seq<u16>,
    file: Seq<u16>,
)
    ensures
        spec_parse_rule_key(t, key) matches Ok((Some(FileSystemRuleAction::Deny), Some(_))) ==> (
        spec_delete_key_rules(t, v, key) matches Ok(after) ==> spec_search_rule(t, after.1, process, file)
            == spec_search_rule(t, v.1, process, file)),
        spec_parse_rule_key(t, key) matches Ok((Some(FileSystemRuleAction::ReadOnly), Some(_))) ==> (
        spec_delete_key_rules(t, v, key) matches Ok(after) ==> spec_search_rule(t, after.0, process, file)
            == spec_search_rule(t, v.0, process, file)),
{
    lemma_delete_key_keeps_other_type(t, v, key, process, file);
}

} // verus!
