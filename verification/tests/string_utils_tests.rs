use rust_minifilter::status::{
    NtError, STATUS_BUFFER_OVERFLOW, STATUS_INFO_LENGTH_MISMATCH, STATUS_INTEGER_OVERFLOW,
};
use rust_minifilter::string_utils::{
    cmp_unicode_chars, cmp_unicode_chars_impl, cmp_unicode_chars_no_case, convert_to_lower,
    convert_to_upper, ends_with, ends_with_impl, ends_with_no_case, equals, equals_impl,
    equals_no_case, last_index_of, len_in_elements, matches_impl, mathes, mathes_no_case, slice,
    split_at, starts_with, starts_with_impl, starts_with_no_case, substr, substring,
    try_push_units, try_to_unicode_string, CaseTable,
};

fn w(s: &str) -> Vec<u16> {
    s.encode_utf16().collect()
}

fn case_table() -> CaseTable {
    let mut upper = Vec::new();
    let mut lower = Vec::new();
    for c in 0..=0xFFFFu32 {
        let c = c as u16;
        let up = if (0x61..=0x7A).contains(&c) { c - 0x20 } else { c };
        let down = if (0x41..=0x5A).contains(&c) { c + 0x20 } else { c };
        upper.push(up);
        lower.push(down);
    }
    CaseTable::new(upper, lower).unwrap()
}

fn err(status: i32) -> NtError {
    NtError::from_ntstatus(status)
}

#[test]
fn case_table_needs_a_full_table() {
    assert!(CaseTable::new(vec![0u16; 10], vec![0u16; 65536]).is_none());
    assert!(CaseTable::new(vec![0u16; 65536], vec![0u16; 65535]).is_none());
    let t = case_table();
    assert_eq!(t.upcase(0x61), 0x41);
    assert_eq!(t.downcase(0x41), 0x61);
    assert_eq!(t.upcase(0x31), 0x31);
}

#[test]
fn compares_characters() {
    let t = case_table();
    assert!(cmp_unicode_chars('a', 'a'));
    assert!(!cmp_unicode_chars('a', 'A'));
    assert!(cmp_unicode_chars_no_case('a', 'A', &t));
    assert!(!cmp_unicode_chars_no_case('a', 'b', &t));
    assert!(cmp_unicode_chars_impl('x', 'X', Some(&t)));
    assert!(!cmp_unicode_chars_impl('x', 'X', None));
}

#[test]
fn matches_wildcard_expressions() {
    assert!(mathes(&w("C:\\Users\\user"), &w("?:*")));
    assert!(!mathes(&w("\\Device\\X"), &w("?:*")));
    assert!(mathes(&w("abc"), &w("a?c")));
    assert!(!mathes(&w("abd"), &w("a?c")));
    assert!(mathes(&w("abc"), &w("*")));
    assert!(mathes(&w(""), &w("*")));
    assert!(mathes(&w(""), &w("")));
    assert!(!mathes(&w("a"), &w("")));
    assert!(mathes(&w("report.final.txt"), &w("*.txt")));
    assert!(!mathes(&w("report.txt.bak"), &w("*.txt")));
    assert!(mathes(&w("\\DEVICE\\HARDDISKVOLUME3\\DATA\\A.TXT"), &w("\\DEVICE\\*\\DATA\\*")));
}

#[test]
fn matching_ignores_case_of_the_name_only() {
    let t = case_table();
    assert!(!mathes(&w("ABC"), &w("abc")));
    assert!(mathes_no_case(&w("abc"), &w("ABC"), &t));
    assert!(mathes_no_case(&w("NotePad.exe"), &w("NOTEPAD.EXE"), &t));
    // The expression is expected in upper case already.
    assert!(!mathes_no_case(&w("ABC"), &w("abc"), &t));
    assert!(matches_impl(&w("abc"), &w("A*"), Some(&t)));
    assert!(!matches_impl(&w("abc"), &w("A*"), None));
}

#[test]
fn an_expression_matches_itself() {
    let t = case_table();
    for e in ["a*b?c", "*", "**", "?", "C:\\DIR\\*", ""] {
        assert!(mathes(&w(e), &w(e)));
    }
    let upper: Vec<u16> = w("c:\\dir\\*").iter().map(|c| t.upcase(*c)).collect();
    assert!(mathes_no_case(&w("c:\\dir\\*"), &upper, &t));
}

#[test]
fn checks_prefixes() {
    let t = case_table();
    assert!(starts_with(&w("abcdef"), &w("abc")));
    assert!(starts_with(&w("abc"), &w("")));
    assert!(!starts_with(&w("ab"), &w("abc")));
    assert!(!starts_with(&w("ABCdef"), &w("abc")));
    assert!(starts_with_no_case(&w("ABCdef"), &w("abc"), &t));
    assert!(starts_with_impl(&w("xyz"), &w("XY"), Some(&t)));
    assert!(!starts_with_impl(&w("xyz"), &w("XY"), None));
}

#[test]
fn checks_suffixes() {
    let t = case_table();
    assert!(ends_with(&w("file.txt"), &w(".txt")));
    assert!(!ends_with(&w("txt"), &w("file.txt")));
    assert!(!ends_with(&w("FILE.TXT"), &w(".txt")));
    assert!(ends_with_no_case(&w("FILE.TXT"), &w(".txt"), &t));
    assert!(ends_with(&w("C:\\dir\\"), &w("\\")));
    assert!(ends_with(&w("abc"), &w("")));
    assert!(ends_with_impl(&w("abc"), &w("BC"), Some(&t)));
    assert!(!ends_with_impl(&w("abc"), &w("BC"), None));
}

#[test]
fn suffixes_are_compared_by_characters() {
    // A surrogate pair is one character.
    let smile = [0x61u16, 0xD83D, 0xDE00];
    assert!(ends_with(&smile, &[0xD83D, 0xDE00]));
    assert!(!ends_with(&smile, &[0x62]));
    // The walk stops when the shorter string runs out.
    assert!(ends_with(&[0xD800u16, 0x62], &[0x62]));
}

#[test]
fn compares_whole_strings() {
    let t = case_table();
    assert!(equals(&w("abc"), &w("abc")));
    assert!(!equals(&w("abc"), &w("ABC")));
    assert!(!equals(&w("ab"), &w("abc")));
    assert!(equals_no_case(&w("abc"), &w("ABC"), &t));
    assert!(!equals_no_case(&w("abd"), &w("ABC"), &t));
    assert!(equals_impl(&w(""), &w(""), None));
}

#[test]
fn finds_the_last_index() {
    assert_eq!(last_index_of(&w("a\\b\\c"), 0x5C), Some(3));
    assert_eq!(last_index_of(&w("abc"), 0x5C), None);
    assert_eq!(last_index_of(&w(""), 0x5C), None);
    assert_eq!(len_in_elements(&w("abc")), 3);
}

#[test]
fn splits_strings() {
    let s = w("abcdef");
    let (a, b) = split_at(&s, 2).unwrap();
    assert_eq!(a, &w("ab")[..]);
    assert_eq!(b, &w("cdef")[..]);
    let (a, b) = split_at(&s, 6).unwrap();
    assert_eq!(a, &s[..]);
    assert!(b.is_empty());
    assert_eq!(split_at(&w("abc"), 4), Err(err(STATUS_INFO_LENGTH_MISMATCH)));
    assert_eq!(split_at(&vec![0x61u16; 0x10000], 1), Err(err(STATUS_INTEGER_OVERFLOW)));
    assert_eq!(split_at(&vec![0x61u16; 40000], 0), Err(err(STATUS_BUFFER_OVERFLOW)));
    assert_eq!(substr(&s, 3).unwrap(), &w("def")[..]);
    assert_eq!(substring(&s, 3).unwrap(), w("def"));
    assert_eq!(substring(&s, 7), Err(err(STATUS_INFO_LENGTH_MISMATCH)));
}

#[test]
fn slices_strings() {
    let s = w("abcdef");
    assert_eq!(slice(&s, 1, 4).unwrap(), &w("bcd")[..]);
    assert!(slice(&s, 2, 2).unwrap().is_empty());
    assert_eq!(slice(&s, 4, 1), Err(err(STATUS_INFO_LENGTH_MISMATCH)));
    assert_eq!(slice(&s, 0, 10), Err(err(STATUS_INFO_LENGTH_MISMATCH)));
    assert_eq!(slice(&vec![0x61u16; 0x10000], 0, 1), Err(err(STATUS_INTEGER_OVERFLOW)));
    assert_eq!(slice(&vec![0x61u16; 40000], 0, 33000), Err(err(STATUS_INTEGER_OVERFLOW)));
}

#[test]
fn copies_and_extends_strings() {
    assert_eq!(try_to_unicode_string(&w("abc")), Ok(w("abc")));
    assert_eq!(try_to_unicode_string(&vec![0x61u16; 32767]).map(|v| v.len()), Ok(32767));
    assert_eq!(try_to_unicode_string(&vec![0x61u16; 32768]), Err(err(STATUS_BUFFER_OVERFLOW)));

    let mut s = w("C:\\dir\\");
    assert_eq!(try_push_units(&mut s, &w("*")), Ok(()));
    assert_eq!(s, w("C:\\dir\\*"));

    let mut long = vec![0x61u16; 32765];
    assert_eq!(try_push_units(&mut long, &w("b")), Ok(()));
    assert_eq!(long.len(), 32766);
    assert_eq!(try_push_units(&mut long, &w("c")), Err(err(STATUS_BUFFER_OVERFLOW)));
    assert_eq!(long.len(), 32766);
}

#[test]
fn converts_case() {
    let t = case_table();
    let mut s = w("Notepad.exe 1");
    assert_eq!(convert_to_upper(&mut s, &t), Ok(()));
    assert_eq!(s, w("NOTEPAD.EXE 1"));
    assert_eq!(convert_to_lower(&mut s, &t), Ok(()));
    assert_eq!(s, w("notepad.exe 1"));
}

#[test]
fn dos_wildcards() {
    // `<` runs up to the last dot of the name.
    assert!(mathes(&w("FILE.TXT"), &w("<.TXT")));
    assert!(mathes(&w("A.B.TXT"), &w("<.TXT")));
    assert!(mathes(&w("NAME"), &w("<")));
    assert!(!mathes(&w("A.B"), &w("<")));
    assert!(mathes(&w("A.B"), &w("<.<")));
    // `>` takes one unit, or nothing at a dot or at the end.
    assert!(mathes(&w("AB.C"), &w(">>.C")));
    assert!(mathes(&w("A.C"), &w(">>.C")));
    assert!(!mathes(&w("ABC.C"), &w(">>.C")));
    assert!(mathes(&w("A"), &w("A>>")));
    // `"` takes a dot, or nothing at the end.
    assert!(mathes(&w("FILE"), &w("FILE\"")));
    assert!(mathes(&w("FILE."), &w("FILE\"")));
    assert!(!mathes(&w("FILEX"), &w("FILE\"")));
    assert!(!mathes(&w("\""), &w("\"")));
    // Case is ignored on the name only, as for the other wildcards.
    let t = case_table();
    assert!(mathes_no_case(&w("readme.txt"), &w("<.TXT"), &t));
}
