use vstd::prelude::*;

use crate::status::{
    nt_err, NtError, STATUS_BUFFER_OVERFLOW, STATUS_INFO_LENGTH_MISMATCH,
    STATUS_INTEGER_OVERFLOW,
};

verus! {

/// `\`
pub const BACKSLASH: u16 = 0x5C;

/// `*`, which matches any run of characters in an expression.
pub const ASTERISK: u16 = 0x2A;

/// `?`, which matches exactly one character in an expression.
pub const QUESTION_MARK: u16 = 0x3F;

/// `:`
pub const COLON: u16 = 0x3A;

/// `.`, which separates a file name from its extension.
pub const DOT: u16 = 0x2E;

/// `<` (`DOS_STAR`): matches any run of code units up to the last `.` of the name.
pub const DOS_STAR: u16 = 0x3C;

/// `>` (`DOS_QM`): matches one code unit, or nothing at a `.` or at the end of the name.
pub const DOS_QM: u16 = 0x3E;

/// `"` (`DOS_DOT`): matches a `.`, or nothing at the end of the name.
pub const DOS_DOT: u16 = 0x22;

/// The most UTF-16 code units a `UNICODE_STRING` holds: its length is a byte count kept in a `u16`.
pub const MAX_UNICODE_UNITS: usize = 32767;

/// The case mapping of the kernel's national language tables: for every UTF-16 code
/// unit, its upper-case and its lower-case form.
///
/// Each table holds one entry per code unit (65536 of them).
pub struct CaseTable {
    upper: Vec<u16>,
    lower: Vec<u16>,
}

impl CaseTable {
    #[verifier::type_invariant]
    spec fn complete(self) -> bool {
        &&& self.upper@.len() == 0x10000
        &&& self.lower@.len() == 0x10000
    }

    /// The upper-case form of `c`.
    pub closed spec fn up(self, c: u16) -> u16 {
        self.upper@[c as int]
    }

    /// The lower-case form of `c`.
    pub closed spec fn down(self, c: u16) -> u16 {
        self.lower@[c as int]
    }

    /// Build a table from the upper-case and lower-case form of each code unit,
    /// indexed by the code unit. `None` unless both hold exactly 65536 entries.
    pub fn new(upper: Vec<u16>, lower: Vec<u16>) -> (r: Option<Self>)
        ensures
            r is Some <==> (upper@.len() == 0x10000 && lower@.len() == 0x10000),
            r matches Some(t) ==> forall|c: u16|
                #![trigger t.up(c)]
                #![trigger t.down(c)]
                t.up(c) == upper@[c as int] && t.down(c) == lower@[c as int],
    {
        if upper.len() == 0x10000 && lower.len() == 0x10000 {
            Some(CaseTable { upper, lower })
        } else {
            None
        }
    }

    /// The upper-case form of `c` (what `RtlUpcaseUnicodeChar` returns).
    pub fn upcase(&self, c: u16) -> (r: u16)
        ensures
            r == self.up(c),
    {
        proof {
            use_type_invariant(self);
        }
        self.upper[c as usize]
    }

    /// The lower-case form of `c` (what `RtlDowncaseUnicodeChar` returns).
    pub fn downcase(&self, c: u16) -> (r: u16)
        ensures
            r == self.down(c),
    {
        proof {
            use_type_invariant(self);
        }
        self.lower[c as usize]
    }

    /// Whether the upper-case mapping is settled (see [`upper_case_settled`]).
    pub fn upper_case_is_settled(&self) -> (r: bool)
        ensures
            r == upper_case_settled(self),
    {
        let mut c: u32 = 0;
        while c < 0x10000
            invariant
                c <= 0x10000,
                forall|d: u16| d < c ==> #[trigger] self.up(self.up(d)) == self.up(d),
            decreases 0x10000 - c,
        {
            let u = self.upcase(c as u16);
            if self.upcase(u) != u {
                return false;
            }
            c += 1;
        }
        true
    }
}

/// `c` as compared: its upper-case form when a case table is given, `c` itself when not.
pub open spec fn fold(case_table: Option<&CaseTable>, c: u16) -> u16 {
    match case_table {
        Some(t) => t.up(c),
        None => c,
    }
}

/// The upper-case mapping of `t` is settled: the upper-case form of an upper-case form
/// is itself, as with the kernel's tables.
pub open spec fn upper_case_settled(t: &CaseTable) -> bool {
    forall|c: u16| #[trigger] t.up(t.up(c)) == t.up(c)
}

/// Every code unit of `s` as compared (see [`fold`]).
pub open spec fn fold_seq(case_table: Option<&CaseTable>, s: Seq<u16>) -> Seq<u16> {
    s.map_values(|c: u16| fold(case_table, c))
}

/// The upper-case form of every code unit of `s`.
pub open spec fn upcase_seq(t: &CaseTable, s: Seq<u16>) -> Seq<u16> {
    s.map_values(|c: u16| t.up(c))
}

/// The lower-case form of every code unit of `s`.
pub open spec fn downcase_seq(t: &CaseTable, s: Seq<u16>) -> Seq<u16> {
    s.map_values(|c: u16| t.down(c))
}

// ---------------------------------------------------------------------------
// Characters

/// A code point as the case table sees it: its low 16 bits (`ch as u16`).
pub open spec fn code_point_unit(c: u32) -> u16 {
    (c % 0x10000) as u16
}

/// Whether two code points compare equal: by their upper-case forms (of their low
/// 16 bits) when a case table is given, exactly when not.
pub open spec fn code_points_equal(case_table: Option<&CaseTable>, c1: u32, c2: u32) -> bool {
    match case_table {
        Some(t) => t.up(code_point_unit(c1)) == t.up(code_point_unit(c2)),
        None => c1 == c2,
    }
}

fn code_points_equal_exec(c1: u32, c2: u32, case_table: Option<&CaseTable>) -> (r: bool)
    ensures
        r == code_points_equal(case_table, c1, c2),
{
    match case_table {
        Some(t) => t.upcase((c1 % 0x10000) as u16) == t.upcase((c2 % 0x10000) as u16),
        None => c1 == c2,
    }
}

/// The code point of `c`.
pub open spec fn char_code(c: char) -> u32 {
    c as u32
}

fn char_code_exec(c: char) -> (r: u32)
    ensures
        r == char_code(c),
{
    c as u32
}

/// Compare two Unicode characters for equality.
pub fn cmp_unicode_chars(ch1: char, ch2: char) -> (r: bool)
    ensures
        r == (ch1 == ch2),
{
    cmp_unicode_chars_impl(ch1, ch2, None)
}

/// Compare two Unicode characters, ignoring case differences.
pub fn cmp_unicode_chars_no_case(ch1: char, ch2: char, t: &CaseTable) -> (r: bool)
    ensures
        r == (t.up(code_point_unit(char_code(ch1))) == t.up(code_point_unit(char_code(ch2)))),
{
    cmp_unicode_chars_impl(ch1, ch2, Some(t))
}

/// Compare two Unicode characters: by the upper-case forms of their low 16 bits when a
/// case table is given, exactly when not.
pub fn cmp_unicode_chars_impl(ch1: char, ch2: char, case_table: Option<&CaseTable>) -> (r: bool)
    ensures
        r == code_points_equal(case_table, char_code(ch1), char_code(ch2)),
        case_table is None ==> (r == (ch1 == ch2)),
{
    let r = code_points_equal_exec(char_code_exec(ch1), char_code_exec(ch2), case_table);
    proof {
        if case_table is None && r {
            assert(ch1 == ch2);
        }
    }
    r
}

// ---------------------------------------------------------------------------
// Equality and prefixes

/// Whether `s1` and `s2` are equal, unit by unit as compared (see [`fold`]).
pub open spec fn spec_equals(case_table: Option<&CaseTable>, s1: Seq<u16>, s2: Seq<u16>) -> bool {
    &&& s1.len() == s2.len()
    &&& forall|i: int| 0 <= i < s1.len() ==> fold(case_table, #[trigger] s1[i]) == fold(case_table, s2[i])
}

/// Whether `s2` is a prefix of `s1`, unit by unit as compared (see [`fold`]).
pub open spec fn spec_starts_with(case_table: Option<&CaseTable>, s1: Seq<u16>, s2: Seq<u16>) -> bool {
    &&& s2.len() <= s1.len()
    &&& forall|i: int| 0 <= i < s2.len() ==> fold(case_table, #[trigger] s1[i]) == fold(case_table, s2[i])
}

/// Check if two strings are equal (what `RtlCompareUnicodeString` reports as equal),
/// ignoring case when a case table is given.
pub fn equals_impl(str1: &[u16], str2: &[u16], case_table: Option<&CaseTable>) -> (r: bool)
    ensures
        r == spec_equals(case_table, str1@, str2@),
{
    if str1.len() != str2.len() {
        return false;
    }
    let mut i: usize = 0;
    while i < str1.len()
        invariant
            str1@.len() == str2@.len(),
            0 <= i <= str1@.len(),
            forall|k: int| 0 <= k < i ==> fold(case_table, #[trigger] str1@[k]) == fold(case_table, str2@[k]),
        decreases str1@.len() - i,
    {
        let a = match case_table {
            Some(t) => t.upcase(str1[i]),
            None => str1[i],
        };
        let b = match case_table {
            Some(t) => t.upcase(str2[i]),
            None => str2[i],
        };
        if a != b {
            return false;
        }
        i += 1;
    }
    true
}

/// Check if `str1` starts with `str2` (what `RtlPrefixUnicodeString` reports),
/// ignoring case when a case table is given.
pub fn starts_with_impl(str1: &[u16], str2: &[u16], case_table: Option<&CaseTable>) -> (r: bool)
    ensures
        r == spec_starts_with(case_table, str1@, str2@),
{
    if str2.len() > str1.len() {
        return false;
    }
    let mut i: usize = 0;
    while i < str2.len()
        invariant
            str2@.len() <= str1@.len(),
            0 <= i <= str2@.len(),
            forall|k: int| 0 <= k < i ==> fold(case_table, #[trigger] str1@[k]) == fold(case_table, str2@[k]),
        decreases str2@.len() - i,
    {
        let a = match case_table {
            Some(t) => t.upcase(str1[i]),
            None => str1[i],
        };
        let b = match case_table {
            Some(t) => t.upcase(str2[i]),
            None => str2[i],
        };
        if a != b {
            return false;
        }
        i += 1;
    }
    true
}

// ---------------------------------------------------------------------------
// UTF-16 decoding from the end

/// Whether `u` is a leading (high) surrogate.
pub open spec fn is_high_surrogate(u: u16) -> bool {
    0xD800 <= u && u <= 0xDBFF
}

/// Whether `u` is a trailing (low) surrogate.
pub open spec fn is_low_surrogate(u: u16) -> bool {
    0xDC00 <= u && u <= 0xDFFF
}

/// Whether `u` is a surrogate of either kind.
pub open spec fn is_surrogate(u: u16) -> bool {
    0xD800 <= u && u <= 0xDFFF
}

/// The code point that a surrogate pair encodes.
pub open spec fn pair_code_point(high: u16, low: u16) -> u32 {
    (0x10000 + (high - 0xD800) * 0x400 + (low - 0xDC00)) as u32
}

/// The last character of a non-empty `s`, decoded from the end as a reverse UTF-16
/// decoder does, and the number of code units it takes: a surrogate pair gives its
/// code point and takes two units, any other surrogate is unpaired (`None`) and takes
/// one, and any other unit is its own code point.
pub open spec fn last_code_point(s: Seq<u16>) -> (Option<u32>, int)
    recommends
        s.len() > 0,
{
    let u = s.last();
    if !is_surrogate(u) {
        (Some(u as u32), 1)
    } else if is_low_surrogate(u) && s.len() >= 2 && is_high_surrogate(s[s.len() - 2]) {
        (Some(pair_code_point(s[s.len() - 2], u)), 2)
    } else {
        (None, 1)
    }
}

/// Whether the characters of `s1` and `s2`, walked together from their ends until the
/// shorter one runs out, all compare equal (see [`code_points_equal`]); an unpaired
/// surrogate met on the way compares unequal.
pub open spec fn rev_chars_match(case_table: Option<&CaseTable>, s1: Seq<u16>, s2: Seq<u16>) -> bool
    decreases s1.len(),
{
    if s1.len() == 0 || s2.len() == 0 {
        true
    } else {
        let (c1, n1) = last_code_point(s1);
        let (c2, n2) = last_code_point(s2);
        match (c1, c2) {
            (Some(a), Some(b)) => code_points_equal(case_table, a, b) && rev_chars_match(
                case_table,
                s1.take(s1.len() - n1),
                s2.take(s2.len() - n2),
            ),
            _ => false,
        }
    }
}

/// Whether walking `s1` and `s2` together from their ends, as [`rev_chars_match`] does,
/// decodes a character on both sides at every step it takes: the walk stops at the first
/// unequal pair or when either string runs out.
pub open spec fn rev_chars_decodable(case_table: Option<&CaseTable>, s1: Seq<u16>, s2: Seq<u16>) -> bool
    decreases s1.len(),
{
    if s1.len() == 0 || s2.len() == 0 {
        true
    } else {
        let (c1, n1) = last_code_point(s1);
        let (c2, n2) = last_code_point(s2);
        match (c1, c2) {
            (Some(a), Some(b)) => code_points_equal(case_table, a, b) ==> rev_chars_decodable(
                case_table,
                s1.take(s1.len() - n1),
                s2.take(s2.len() - n2),
            ),
            _ => false,
        }
    }
}

/// Decode the last character of `s[..end]` from its end.
fn decode_last(s: &[u16], end: usize) -> (r: (Option<u32>, usize))
    requires
        0 < end <= s@.len(),
    ensures
        r.0 == last_code_point(s@.take(end as int)).0,
        r.1 as int == last_code_point(s@.take(end as int)).1,
{
    let u = s[end - 1];
    if u < 0xD800 || u > 0xDFFF {
        (Some(u as u32), 1)
    } else if u >= 0xDC00 && end >= 2 && s[end - 2] >= 0xD800 && s[end - 2] <= 0xDBFF {
        let high = s[end - 2];
        (Some((0x10000 + (high - 0xD800) as u32 * 0x400 + (u - 0xDC00) as u32)), 2)
    } else {
        (None, 1)
    }
}

/// Check if `str1` ends with `str2`, ignoring case when a case table is given.
///
/// Both strings are decoded into characters from their ends and compared character by
/// character until the shorter one runs out. If `str2` has more code units than `str1`
/// it returns false at once. An unpaired surrogate met while both strings still have
/// characters to compare cannot be decoded, and that input is left out.
pub fn ends_with_impl(str1: &[u16], str2: &[u16], case_table: Option<&CaseTable>) -> (r: bool)
    requires
        str2@.len() > str1@.len() || rev_chars_decodable(case_table, str1@, str2@),
    ensures
        r == (str2@.len() <= str1@.len() && rev_chars_match(case_table, str1@, str2@)),
{
    if str2.len() > str1.len() {
        return false;
    }
    let mut e1 = str1.len();
    let mut e2 = str2.len();
    assert(str1@.take(e1 as int) =~= str1@);
    assert(str2@.take(e2 as int) =~= str2@);
    while e1 > 0 && e2 > 0
        invariant
            e1 <= str1@.len(),
            e2 <= str2@.len(),
            rev_chars_decodable(case_table, str1@.take(e1 as int), str2@.take(e2 as int)),
            rev_chars_match(case_table, str1@, str2@) == rev_chars_match(
                case_table,
                str1@.take(e1 as int),
                str2@.take(e2 as int),
            ),
        decreases e1,
    {
        let (c1, n1) = decode_last(str1, e1);
        let (c2, n2) = decode_last(str2, e2);
        let a = c1.unwrap();
        let b = c2.unwrap();
        if !code_points_equal_exec(a, b, case_table) {
            return false;
        }
        assert(str1@.take(e1 as int).take(e1 - n1) =~= str1@.take(e1 - n1));
        assert(str2@.take(e2 as int).take(e2 - n2) =~= str2@.take(e2 - n2));
        e1 = e1 - n1;
        e2 = e2 - n2;
    }
    true
}

/// Whether walking `str1` and `str2` together from their ends, as [`ends_with_impl`]
/// does, decodes a character on both sides at every step it takes (see
/// [`rev_chars_decodable`]): what [`ends_with_impl`] needs of strings of which `str2` is
/// not the longer.
pub fn decodable_from_end(str1: &[u16], str2: &[u16], case_table: Option<&CaseTable>) -> (r: bool)
    ensures
        r == rev_chars_decodable(case_table, str1@, str2@),
{
    let mut e1 = str1.len();
    let mut e2 = str2.len();
    assert(str1@.take(e1 as int) =~= str1@);
    assert(str2@.take(e2 as int) =~= str2@);
    while e1 > 0 && e2 > 0
        invariant
            e1 <= str1@.len(),
            e2 <= str2@.len(),
            rev_chars_decodable(case_table, str1@, str2@) == rev_chars_decodable(
                case_table,
                str1@.take(e1 as int),
                str2@.take(e2 as int),
            ),
        decreases e1,
    {
        let (c1, n1) = decode_last(str1, e1);
        let (c2, n2) = decode_last(str2, e2);
        let (a, b) = match (c1, c2) {
            (Some(a), Some(b)) => (a, b),
            _ => {
                return false;
            },
        };
        if !code_points_equal_exec(a, b, case_table) {
            return true;
        }
        assert(str1@.take(e1 as int).take(e1 - n1) =~= str1@.take(e1 - n1));
        assert(str2@.take(e2 as int).take(e2 - n2) =~= str2@.take(e2 - n2));
        e1 = e1 - n1;
        e2 = e2 - n2;
    }
    true
}

// ---------------------------------------------------------------------------
// Wildcard expressions

/// Whether `s` holds a `.`.
pub open spec fn has_dot(s: Seq<u16>) -> bool {
    exists|k: int| 0 <= k < s.len() && s[k] == DOT
}

/// Whether `name` matches `expr` as `FsRtlIsNameInExpression` decides it, on the name
/// as compared. In `expr`:
/// - `*` matches any run of code units, the empty one too;
/// - `<` (`DOS_STAR`) matches any run of code units that does not take the last `.` of
///   the name;
/// - `>` (`DOS_QM`) matches one code unit, and nothing at a `.` or at the end of the name;
/// - `"` (`DOS_DOT`) matches a `.`, and nothing at the end of the name;
/// - `?` matches exactly one code unit;
/// - any other code unit matches itself.
pub open spec fn wildcard_match(expr: Seq<u16>, name: Seq<u16>) -> bool
    decreases expr.len(), name.len(),
{
    if expr.len() == 0 {
        name.len() == 0
    } else if expr[0] == ASTERISK {
        wildcard_match(expr.drop_first(), name) || (name.len() > 0 && wildcard_match(
            expr,
            name.drop_first(),
        ))
    } else if expr[0] == DOS_STAR {
        wildcard_match(expr.drop_first(), name) || (name.len() > 0 && (name[0] != DOT || has_dot(
            name.drop_first(),
        )) && wildcard_match(expr, name.drop_first()))
    } else if expr[0] == DOS_QM {
        if name.len() == 0 || name[0] == DOT {
            wildcard_match(expr.drop_first(), name)
        } else {
            wildcard_match(expr.drop_first(), name.drop_first())
        }
    } else if expr[0] == DOS_DOT {
        if name.len() == 0 {
            wildcard_match(expr.drop_first(), name)
        } else if name[0] == DOT {
            wildcard_match(expr.drop_first(), name.drop_first())
        } else {
            false
        }
    } else if name.len() == 0 {
        false
    } else if expr[0] == QUESTION_MARK || expr[0] == name[0] {
        wildcard_match(expr.drop_first(), name.drop_first())
    } else {
        false
    }
}

/// Whether `string` matches `regex` as `FsRtlIsNameInExpression` decides it (see
/// [`wildcard_match`]): when a case table is given, the upper-case form of `string` is
/// matched (and `regex` is expected in upper case already).
pub open spec fn spec_matches(case_table: Option<&CaseTable>, string: Seq<u16>, regex: Seq<u16>) -> bool {
    wildcard_match(regex, fold_seq(case_table, string))
}

/// `s` as compared (see [`fold`]), copied.
fn fold_copy(s: &[u16], case_table: Option<&CaseTable>) -> (r: Vec<u16>)
    ensures
        r@ == fold_seq(case_table, s@),
{
    let mut r: Vec<u16> = Vec::new();
    let mut i: usize = 0;
    while i < s.len()
        invariant
            0 <= i <= s@.len(),
            r@ =~= fold_seq(case_table, s@.take(i as int)),
        decreases s@.len() - i,
    {
        let c = match case_table {
            Some(t) => t.upcase(s[i]),
            None => s[i],
        };
        r.push(c);
        i += 1;
        assert(fold_seq(case_table, s@.take(i as int)) =~= fold_seq(case_table, s@.take(i - 1)).push(c));
    }
    assert(s@.take(i as int) =~= s@);
    r
}

/// A suffix holds a `.` when its first unit is one or the rest holds one.
proof fn lemma_has_dot_step(name: Seq<u16>, j: int)
    requires
        0 <= j < name.len(),
    ensures
        has_dot(name.subrange(j, name.len() as int)) == (name[j] == DOT || has_dot(
            name.subrange(j + 1, name.len() as int),
        )),
{
    let a = name.subrange(j, name.len() as int);
    let b = name.subrange(j + 1, name.len() as int);
    if name[j] == DOT {
        assert(a[0] == DOT);
    }
    if has_dot(b) {
        let k = choose|k: int| 0 <= k < b.len() && b[k] == DOT;
        assert(a[k + 1] == DOT);
    }
    if has_dot(a) {
        let k = choose|k: int| 0 <= k < a.len() && a[k] == DOT;
        if k > 0 {
            assert(b[k - 1] == DOT);
        }
    }
}

/// One step of [`wildcard_match`] on suffixes.
proof fn lemma_wildcard_step(expr: Seq<u16>, name: Seq<u16>, i: int, j: int)
    requires
        0 <= i < expr.len(),
        0 <= j <= name.len(),
    ensures
        wildcard_match(expr.subrange(i, expr.len() as int), name.subrange(j, name.len() as int)) == (
        if expr[i] == ASTERISK {
            wildcard_match(expr.subrange(i + 1, expr.len() as int), name.subrange(j, name.len() as int)) || (
            j < name.len() && wildcard_match(
                expr.subrange(i, expr.len() as int),
                name.subrange(j + 1, name.len() as int),
            ))
        } else if expr[i] == DOS_STAR {
            wildcard_match(expr.subrange(i + 1, expr.len() as int), name.subrange(j, name.len() as int)) || (
            j < name.len() && (name[j] != DOT || has_dot(name.subrange(j + 1, name.len() as int)))
                && wildcard_match(expr.subrange(i, expr.len() as int), name.subrange(j + 1, name.len() as int)))
        } else if expr[i] == DOS_QM {
            if j == name.len() || name[j] == DOT {
                wildcard_match(expr.subrange(i + 1, expr.len() as int), name.subrange(j, name.len() as int))
            } else {
                wildcard_match(expr.subrange(i + 1, expr.len() as int), name.subrange(j + 1, name.len() as int))
            }
        } else if expr[i] == DOS_DOT {
            if j == name.len() {
                wildcard_match(expr.subrange(i + 1, expr.len() as int), name.subrange(j, name.len() as int))
            } else if name[j] == DOT {
                wildcard_match(expr.subrange(i + 1, expr.len() as int), name.subrange(j + 1, name.len() as int))
            } else {
                false
            }
        } else if j == name.len() {
            false
        } else if expr[i] == QUESTION_MARK || expr[i] == name[j] {
            wildcard_match(expr.subrange(i + 1, expr.len() as int), name.subrange(j + 1, name.len() as int))
        } else {
            false
        }),
{
    let e = expr.subrange(i, expr.len() as int);
    let n = name.subrange(j, name.len() as int);
    assert(e.drop_first() =~= expr.subrange(i + 1, expr.len() as int));
    if j < name.len() {
        assert(n.drop_first() =~= name.subrange(j + 1, name.len() as int));
    }
}

/// Check if `string` matches the `regex` expression (see [`spec_matches`]), ignoring
/// case when a case table is given.
///
/// The wildcards are those of `FsRtlIsNameInExpression`: `*`, `?` and the DOS
/// wildcards `<`, `>` and `"` (see [`wildcard_match`]).
pub fn matches_impl(string: &[u16], regex: &[u16], case_table: Option<&CaseTable>) -> (r: bool)
    ensures
        r == spec_matches(case_table, string@, regex@),
{
    let name = fold_copy(string, case_table);
    let n = name.len();
    let m = regex.len();
    let ghost ns = name@;
    let ghost es = regex@;
    // Row `i` holds, for each `j`, whether `name[j..]` matches `regex[i..]`;
    // `next` is row `i + 1`, `next_end` its entry for the empty rest of the name.
    let mut next: Vec<bool> = Vec::new();
    let mut k: usize = 0;
    while k < n
        invariant
            n == ns.len(),
            m == es.len(),
            0 <= k <= n,
            next@.len() == k,
            forall|j: int| 0 <= j < k ==> next@[j] == wildcard_match(
                es.subrange(m as int, m as int),
                ns.subrange(j, n as int),
            ),
        decreases n - k,
    {
        proof {
            let rest = ns.subrange(k as int, n as int);
            assert(rest.len() > 0);
        }
        next.push(false);
        k += 1;
    }
    let mut next_end = true;
    proof {
        assert(ns.subrange(n as int, n as int).len() == 0);
    }
    // `dots[j]` tells whether `name[j..]` holds a `.`.
    let mut dots: Vec<bool> = Vec::new();
    let mut k2: usize = 0;
    while k2 < n
        invariant
            0 <= k2 <= n,
            dots@.len() == k2,
        decreases n - k2,
    {
        dots.push(false);
        k2 += 1;
    }
    let mut d = n;
    let mut later_dot = false;
    assert(!has_dot(ns.subrange(n as int, n as int)));
    while d > 0
        invariant
            n == ns.len(),
            name@ == ns,
            0 <= d <= n,
            dots@.len() == n,
            later_dot == has_dot(ns.subrange(d as int, n as int)),
            forall|jj: int| d <= jj < n ==> dots@[jj] == has_dot(ns.subrange(jj, n as int)),
        decreases d,
    {
        d -= 1;
        proof {
            lemma_has_dot_step(ns, d as int);
        }
        later_dot = name[d] == DOT || later_dot;
        dots.set(d, later_dot);
    }
    let mut i = m;
    while i > 0
        invariant
            n == ns.len(),
            m == es.len(),
            name@ == ns,
            regex@ == es,
            0 <= i <= m,
            next@.len() == n,
            forall|j: int| 0 <= j < n ==> next@[j] == wildcard_match(
                es.subrange(i as int, m as int),
                ns.subrange(j, n as int),
            ),
            next_end == wildcard_match(es.subrange(i as int, m as int), ns.subrange(n as int, n as int)),
            dots@.len() == n,
            forall|jj: int| 0 <= jj < n ==> dots@[jj] == has_dot(ns.subrange(jj, n as int)),
        decreases i,
    {
        i -= 1;
        let e = regex[i];
        proof {
            lemma_wildcard_step(es, ns, i as int, n as int);
        }
        let cur_end = (e == ASTERISK || e == DOS_STAR || e == DOS_QM || e == DOS_DOT) && next_end;
        let mut cur: Vec<bool> = next.clone();
        let mut j = n;
        while j > 0
            invariant
                n == ns.len(),
                m == es.len(),
                name@ == ns,
                regex@ == es,
                0 <= i < m,
                e == es[i as int],
                0 <= j <= n,
                next@.len() == n,
                cur@.len() == n,
                forall|jj: int| 0 <= jj < n ==> next@[jj] == wildcard_match(
                    es.subrange(i + 1, m as int),
                    ns.subrange(jj, n as int),
                ),
                next_end == wildcard_match(es.subrange(i + 1, m as int), ns.subrange(n as int, n as int)),
                cur_end == wildcard_match(es.subrange(i as int, m as int), ns.subrange(n as int, n as int)),
                forall|jj: int| j <= jj < n ==> cur@[jj] == wildcard_match(
                    es.subrange(i as int, m as int),
                    ns.subrange(jj, n as int),
                ),
                dots@.len() == n,
                forall|jj: int| 0 <= jj < n ==> dots@[jj] == has_dot(ns.subrange(jj, n as int)),
            decreases j,
        {
            j -= 1;
            proof {
                lemma_wildcard_step(es, ns, i as int, j as int);
            }
            let after = if j + 1 < n {
                cur[j + 1]
            } else {
                cur_end
            };
            let next_after = if j + 1 < n {
                next[j + 1]
            } else {
                next_end
            };
            let c = name[j];
            let v = if e == ASTERISK {
                next[j] || after
            } else if e == DOS_STAR {
                {
                    let dot_after = if j + 1 < n {
                        dots[j + 1]
                    } else {
                        false
                    };
                    next[j] || ((c != DOT || dot_after) && after)
                }
            } else if e == DOS_QM {
                if c == DOT {
                    next[j]
                } else {
                    next_after
                }
            } else if e == DOS_DOT {
                c == DOT && next_after
            } else if e == QUESTION_MARK || e == c {
                next_after
            } else {
                false
            };
            cur[j] = v;
        }
        next = cur;
        next_end = cur_end;
    }
    proof {
        assert(es.subrange(0, m as int) =~= es);
        assert(ns.subrange(0, n as int) =~= ns);
    }
    if n == 0 {
        next_end
    } else {
        next[0]
    }
}

/// `path` matches `?:*` exactly when its second code unit is a colon.
pub proof fn lemma_drive_expression(path: Seq<u16>)
    ensures
        wildcard_match(seq![QUESTION_MARK, COLON, ASTERISK], path) <==> (path.len() >= 2 && path[1]
            == COLON),
{
    let e = seq![QUESTION_MARK, COLON, ASTERISK];
    let e1 = e.drop_first();
    let e2 = e1.drop_first();
    assert(e1 =~= seq![COLON, ASTERISK]);
    assert(e2 =~= seq![ASTERISK]);
    assert(e[0] == QUESTION_MARK);
    assert(e1[0] == COLON);
    if path.len() >= 2 {
        let p1 = path.drop_first();
        let p2 = p1.drop_first();
        lemma_star_matches_all(p2);
        assert(p1[0] == path[1]);
        assert(wildcard_match(e1, p1) == (p1[0] == COLON && wildcard_match(e2, p2)));
        assert(wildcard_match(e, path) == wildcard_match(e1, p1));
    } else if path.len() == 1 {
        let p1 = path.drop_first();
        assert(p1.len() == 0);
        assert(!wildcard_match(e1, p1));
        assert(wildcard_match(e, path) == wildcard_match(e1, p1));
    }
}

/// A lone `*` matches every name.
pub proof fn lemma_star_matches_all(name: Seq<u16>)
    ensures
        wildcard_match(seq![ASTERISK], name),
    decreases name.len(),
{
    let e = seq![ASTERISK];
    assert(e[0] == ASTERISK);
    assert(e.drop_first().len() == 0);
    if name.len() > 0 {
        lemma_star_matches_all(name.drop_first());
        assert(wildcard_match(e, name.drop_first()));
    } else {
        assert(wildcard_match(e.drop_first(), name));
    }
}

/// Every expression without `"` matches itself: a `*` or `<` can take the unit it
/// faces, a `?` or `>` any unit, and any other unit itself. (A `"` matches only a `.`.)
pub proof fn lemma_expression_matches_itself(e: Seq<u16>)
    requires
        !e.contains(DOS_DOT),
    ensures
        wildcard_match(e, e),
    decreases e.len(),
{
    if e.len() > 0 {
        let rest = e.drop_first();
        assert(!rest.contains(DOS_DOT)) by {
            if rest.contains(DOS_DOT) {
                let k = choose|k: int| 0 <= k < rest.len() && rest[k] == DOS_DOT;
                assert(e[k + 1] == DOS_DOT);
            }
        }
        assert(e[0] != DOS_DOT) by {
            if e[0] == DOS_DOT {
                assert(e.contains(DOS_DOT));
            }
        }
        lemma_expression_matches_itself(rest);
        if e[0] == ASTERISK || e[0] == DOS_STAR {
            assert(wildcard_match(e, rest));
        }
    }
}

/// Matching ignoring case sees a name only through its upper-case form.
pub proof fn lemma_match_sees_upper_case(t: &CaseTable, s1: Seq<u16>, s2: Seq<u16>, regex: Seq<u16>)
    requires
        upcase_seq(t, s1) == upcase_seq(t, s2),
    ensures
        spec_matches(Some(t), s1, regex) == spec_matches(Some(t), s2, regex),
{
    assert(fold_seq(Some(t), s1) =~= upcase_seq(t, s1));
    assert(fold_seq(Some(t), s2) =~= upcase_seq(t, s2));
}

/// A name matches, ignoring case, its own upper-case form taken as an expression, when
/// that form holds no `"`.
pub proof fn lemma_matches_own_upper_case(t: &CaseTable, s: Seq<u16>)
    requires
        !upcase_seq(t, s).contains(DOS_DOT),
    ensures
        spec_matches(Some(t), s, upcase_seq(t, s)),
{
    assert(fold_seq(Some(t), s) =~= upcase_seq(t, s));
    lemma_expression_matches_itself(upcase_seq(t, s));
}

/// A string starts with a prefix exactly when it is that prefix followed by more units,
/// all compared in their compared form (see [`fold`]): every unit of the prefix counts.
pub proof fn lemma_starts_with_is_prefix(case_table: Option<&CaseTable>, s: Seq<u16>, prefix: Seq<u16>)
    ensures
        spec_starts_with(case_table, s, prefix) == (prefix.len() <= s.len() && fold_seq(case_table, s)
            == fold_seq(case_table, prefix) + fold_seq(case_table, s).skip(prefix.len() as int)),
        spec_starts_with(case_table, s, prefix) ==> spec_equals(case_table, s.take(prefix.len() as int), prefix),
        spec_starts_with(None, s, prefix) == (exists|rest: Seq<u16>| s == prefix + rest),
{
    let fs = fold_seq(case_table, s);
    let fp = fold_seq(case_table, prefix);
    if prefix.len() <= s.len() {
        if spec_starts_with(case_table, s, prefix) {
            assert(fs =~= fp + fs.skip(prefix.len() as int));
            assert forall|i: int| 0 <= i < prefix.len() implies fold(case_table, #[trigger] s.take(prefix.len() as int)[i])
                == fold(case_table, prefix[i]) by {
                assert(s.take(prefix.len() as int)[i] == s[i]);
            }
        }
        if fs == fp + fs.skip(prefix.len() as int) {
            assert forall|i: int| 0 <= i < prefix.len() implies fold(case_table, #[trigger] s[i]) == fold(
                case_table,
                prefix[i],
            ) by {
                assert(fs[i] == (fp + fs.skip(prefix.len() as int))[i]);
            }
        }
    }
    if spec_starts_with(None, s, prefix) {
        let rest = s.skip(prefix.len() as int);
        assert(s =~= prefix + rest);
    }
    if exists|rest: Seq<u16>| s == prefix + rest {
        let rest = choose|rest: Seq<u16>| s == prefix + rest;
        assert forall|i: int| 0 <= i < prefix.len() implies fold(None, #[trigger] s[i]) == fold(None, prefix[i]) by {
            assert(s[i] == (prefix + rest)[i]);
        }
    }
}

/// Whether `s` holds no surrogate: each of its units is a character.
pub open spec fn no_surrogates(s: Seq<u16>) -> bool {
    forall|i: int| 0 <= i < s.len() ==> !is_surrogate(#[trigger] s[i])
}

/// A unit that is no surrogate compares as itself (see [`fold`]).
proof fn lemma_unit_code_point(case_table: Option<&CaseTable>, a: u16, b: u16)
    requires
        !is_surrogate(a),
        !is_surrogate(b),
    ensures
        code_points_equal(case_table, a as u32, b as u32) == (fold(case_table, a) == fold(case_table, b)),
{
    assert(code_point_unit(a as u32) == a);
    assert(code_point_unit(b as u32) == b);
}

/// Walking strings of characters from their ends compares their last units one by one.
proof fn lemma_rev_match_suffix(case_table: Option<&CaseTable>, s: Seq<u16>, suffix: Seq<u16>)
    requires
        no_surrogates(s),
        no_surrogates(suffix),
    ensures
        (suffix.len() <= s.len() && rev_chars_match(case_table, s, suffix)) == (suffix.len() <= s.len()
            && spec_equals(case_table, s.skip(s.len() - suffix.len()), suffix)),
    decreases s.len(),
{
    let n = s.len();
    let m = suffix.len();
    if m <= n {
        if n > 0 && m > 0 {
            let s1 = s.take(n - 1);
            let x1 = suffix.take(m - 1);
            assert(no_surrogates(s1));
            assert(no_surrogates(x1));
            lemma_rev_match_suffix(case_table, s1, x1);
            assert(!is_surrogate(s.last()));
            assert(!is_surrogate(suffix.last()));
            lemma_unit_code_point(case_table, s.last(), suffix.last());
            let tail = s.skip(n - m);
            let tail1 = s1.skip((n - 1) - (m - 1));
            assert(tail1 =~= tail.take(m - 1));
            assert(tail[m - 1] == s.last());
            if spec_equals(case_table, tail, suffix) {
                assert(fold(case_table, tail[m - 1]) == fold(case_table, suffix[m - 1]));
                assert forall|i: int| 0 <= i < m - 1 implies fold(case_table, #[trigger] tail1[i]) == fold(
                    case_table,
                    x1[i],
                ) by {
                    assert(tail1[i] == tail[i]);
                }
            }
            if code_points_equal(case_table, s.last() as u32, suffix.last() as u32) && spec_equals(
                case_table,
                tail1,
                x1,
            ) {
                assert forall|i: int| 0 <= i < m implies fold(case_table, #[trigger] tail[i]) == fold(
                    case_table,
                    suffix[i],
                ) by {
                    if i < m - 1 {
                        assert(tail1[i] == tail[i]);
                    }
                }
            }
        } else {
            assert(s.skip(n - m).len() == 0 || m > 0);
        }
    }
}

/// For strings of characters (no surrogates), a string ends with a suffix exactly when
/// its last units, as many as the suffix has, compare equal to the suffix unit by unit:
/// every character of the suffix counts. Without a case table, that is when the string
/// is some front followed by the suffix.
pub proof fn lemma_ends_with_is_suffix(case_table: Option<&CaseTable>, s: Seq<u16>, suffix: Seq<u16>)
    requires
        no_surrogates(s),
        no_surrogates(suffix),
    ensures
        (suffix.len() <= s.len() && rev_chars_match(case_table, s, suffix)) == (suffix.len() <= s.len()
            && spec_equals(case_table, s.skip(s.len() - suffix.len()), suffix)),
        (suffix.len() <= s.len() && rev_chars_match(None, s, suffix)) == (exists|front: Seq<u16>|
            s == front + suffix),
{
    lemma_rev_match_suffix(case_table, s, suffix);
    lemma_rev_match_suffix(None, s, suffix);
    let n = s.len();
    let m = suffix.len();
    if m <= n {
        if spec_equals(None, s.skip(n - m), suffix) {
            let front = s.take(n - m);
            assert(s.skip(n - m) =~= suffix);
            assert(s =~= front + suffix);
        }
        if exists|front: Seq<u16>| s == front + suffix {
            let front = choose|front: Seq<u16>| s == front + suffix;
            assert(s.skip(n - m) =~= suffix);
        }
    } else {
        if exists|front: Seq<u16>| s == front + suffix {
            let front = choose|front: Seq<u16>| s == front + suffix;
            assert(s.len() == front.len() + suffix.len());
        }
    }
}

// ---------------------------------------------------------------------------
// String checks as the filter uses them

/// Check if the string matches the `regex` expression.
pub fn mathes(s: &[u16], regex: &[u16]) -> (r: bool)
    ensures
        r == spec_matches(None, s@, regex@),
{
    matches_impl(s, regex, None)
}

/// Check if the string matches the `regex` expression. Ignores case.
pub fn mathes_no_case(s: &[u16], regex: &[u16], t: &CaseTable) -> (r: bool)
    ensures
        r == spec_matches(Some(t), s@, regex@),
{
    matches_impl(s, regex, Some(t))
}

/// Check if the string starts with `prefix`.
pub fn starts_with(s: &[u16], prefix: &[u16]) -> (r: bool)
    ensures
        r == spec_starts_with(None, s@, prefix@),
{
    starts_with_impl(s, prefix, None)
}

/// Check if the string starts with `prefix`. Ignores case.
pub fn starts_with_no_case(s: &[u16], prefix: &[u16], t: &CaseTable) -> (r: bool)
    ensures
        r == spec_starts_with(Some(t), s@, prefix@),
{
    starts_with_impl(s, prefix, Some(t))
}

/// Check if the string ends with `suffix`.
pub fn ends_with(s: &[u16], suffix: &[u16]) -> (r: bool)
    requires
        suffix@.len() > s@.len() || rev_chars_decodable(None, s@, suffix@),
    ensures
        r == (suffix@.len() <= s@.len() && rev_chars_match(None, s@, suffix@)),
{
    ends_with_impl(s, suffix, None)
}

/// Check if the string ends with `suffix`. Ignores case.
pub fn ends_with_no_case(s: &[u16], suffix: &[u16], t: &CaseTable) -> (r: bool)
    requires
        suffix@.len() > s@.len() || rev_chars_decodable(Some(t), s@, suffix@),
    ensures
        r == (suffix@.len() <= s@.len() && rev_chars_match(Some(t), s@, suffix@)),
{
    ends_with_impl(s, suffix, Some(t))
}

/// Check if the string equals `other`.
pub fn equals(s: &[u16], other: &[u16]) -> (r: bool)
    ensures
        r == spec_equals(None, s@, other@),
{
    equals_impl(s, other, None)
}

/// Check if the string equals `other`. Ignores case.
pub fn equals_no_case(s: &[u16], other: &[u16], t: &CaseTable) -> (r: bool)
    ensures
        r == spec_equals(Some(t), s@, other@),
{
    equals_impl(s, other, Some(t))
}

// ---------------------------------------------------------------------------
// Searching and splitting

/// The index of the last `ch` in `s`, if any.
pub open spec fn spec_last_index_of(s: Seq<u16>, ch: u16) -> Option<int>
    decreases s.len(),
{
    if s.len() == 0 {
        None
    } else if s.last() == ch {
        Some(s.len() - 1)
    } else {
        spec_last_index_of(s.drop_last(), ch)
    }
}

/// Get the last index of the `ch_to_find` code unit in `s`.
pub fn last_index_of(s: &[u16], ch_to_find: u16) -> (r: Option<usize>)
    ensures
        match r {
            Some(i) => {
                &&& spec_last_index_of(s@, ch_to_find) == Some(i as int)
                &&& i < s@.len()
                &&& s@[i as int] == ch_to_find
                &&& forall|k: int| i < k < s@.len() ==> s@[k] != ch_to_find
            },
            None => {
                &&& spec_last_index_of(s@, ch_to_find) is None
                &&& forall|k: int| 0 <= k < s@.len() ==> s@[k] != ch_to_find
            },
        },
{
    let mut i = s.len();
    assert(s@.take(i as int) =~= s@);
    while i > 0
        invariant
            i <= s@.len(),
            forall|k: int| i <= k < s@.len() ==> s@[k] != ch_to_find,
            spec_last_index_of(s@, ch_to_find) == spec_last_index_of(s@.take(i as int), ch_to_find),
        decreases i,
    {
        i -= 1;
        assert(s@.take(i + 1).last() == s@[i as int]);
        if s[i] == ch_to_find {
            return Some(i);
        }
        assert(s@.take(i + 1).drop_last() =~= s@.take(i as int));
    }
    None
}

/// Get the length of the string in 2-byte code units.
pub fn len_in_elements(s: &[u16]) -> (r: usize)
    ensures
        r == s@.len(),
{
    s.len()
}

/// What [`split_at`] gives: `Err(STATUS_INTEGER_OVERFLOW)` when the length of `s` does
/// not fit a `u16`, `Err(STATUS_INFO_LENGTH_MISMATCH)` when `mid` is beyond the end,
/// `Err(STATUS_BUFFER_OVERFLOW)` when either part is too long for a `UNICODE_STRING`,
/// and otherwise the two parts.
pub open spec fn spec_split_at(s: Seq<u16>, mid: int) -> Result<(Seq<u16>, Seq<u16>), NtError> {
    if s.len() > 0xFFFF {
        nt_err(STATUS_INTEGER_OVERFLOW)
    } else if mid > s.len() {
        nt_err(STATUS_INFO_LENGTH_MISMATCH)
    } else if mid > MAX_UNICODE_UNITS || s.len() - mid > MAX_UNICODE_UNITS {
        nt_err(STATUS_BUFFER_OVERFLOW)
    } else {
        Ok((s.take(mid), s.skip(mid)))
    }
}

/// Splits the string at the specified index and returns the two resulting substrings.
/// Returns an error if the index is out of bounds.
pub fn split_at(s: &[u16], mid: u16) -> (r: Result<(&[u16], &[u16]), NtError>)
    ensures
        match (r, spec_split_at(s@, mid as int)) {
            (Ok((a, b)), Ok((x, y))) => a@ == x && b@ == y,
            (Err(e), Err(f)) => e == f,
            _ => false,
        },
{
    if s.len() > 0xFFFF {
        return Err(NtError::from_ntstatus(STATUS_INTEGER_OVERFLOW));
    }
    let mid = mid as usize;
    if mid > s.len() {
        return Err(NtError::from_ntstatus(STATUS_INFO_LENGTH_MISMATCH));
    }
    if mid > MAX_UNICODE_UNITS || s.len() - mid > MAX_UNICODE_UNITS {
        return Err(NtError::from_ntstatus(STATUS_BUFFER_OVERFLOW));
    }
    let left = vstd::slice::slice_subrange(s, 0, mid);
    let right = vstd::slice::slice_subrange(s, mid, s.len());
    proof {
        assert(left@ =~= s@.take(mid as int));
        assert(right@ =~= s@.skip(mid as int));
    }
    Ok((left, right))
}

/// The two parts of a split, put back together, give the string.
pub proof fn lemma_split_rejoins(s: Seq<u16>, mid: int)
    requires
        0 <= mid,
    ensures
        spec_split_at(s, mid) matches Ok((a, b)) ==> a + b == s && a.len() == mid,
{
    if spec_split_at(s, mid) is Ok {
        assert(s.take(mid) + s.skip(mid) =~= s);
    }
}

/// Returns the second half of the string split at the given index.
pub fn substr(s: &[u16], idx: u16) -> (r: Result<&[u16], NtError>)
    ensures
        match (r, spec_split_at(s@, idx as int)) {
            (Ok(b), Ok((_, y))) => b@ == y,
            (Err(e), Err(f)) => e == f,
            _ => false,
        },
{
    let (_, right) = split_at(s, idx)?;
    Ok(right)
}

/// Splits the string at the given index and copies the second half into a new string.
pub fn substring(s: &[u16], idx: u16) -> (r: Result<Vec<u16>, NtError>)
    ensures
        match (r, spec_split_at(s@, idx as int)) {
            (Ok(b), Ok((_, y))) => b@ == y,
            (Err(e), Err(f)) => e == f,
            _ => false,
        },
{
    let right = substr(s, idx)?;
    Ok(vstd::slice::slice_to_vec(right))
}

/// What [`slice`] gives: `Err(STATUS_INFO_LENGTH_MISMATCH)` when `start > end`,
/// `Err(STATUS_INTEGER_OVERFLOW)` when the length of `s` does not fit a `u16`,
/// `Err(STATUS_INFO_LENGTH_MISMATCH)` when `end` is beyond the end,
/// `Err(STATUS_INTEGER_OVERFLOW)` when the slice's byte length does not fit a `u16`,
/// and otherwise the units from `start` up to `end`.
pub open spec fn spec_slice(s: Seq<u16>, start: int, end: int) -> Result<Seq<u16>, NtError> {
    if start > end {
        nt_err(STATUS_INFO_LENGTH_MISMATCH)
    } else if s.len() > 0xFFFF {
        nt_err(STATUS_INTEGER_OVERFLOW)
    } else if end > s.len() {
        nt_err(STATUS_INFO_LENGTH_MISMATCH)
    } else if (end - start) * 2 > 0xFFFF {
        nt_err(STATUS_INTEGER_OVERFLOW)
    } else {
        Ok(s.subrange(start, end))
    }
}

/// Extracts a slice of the string between the given start and end indices.
/// Ensures indices are valid and within bounds before extracting the substring.
pub fn slice(s: &[u16], idx_start: u16, idx_end: u16) -> (r: Result<&[u16], NtError>)
    ensures
        match (r, spec_slice(s@, idx_start as int, idx_end as int)) {
            (Ok(a), Ok(x)) => a@ == x,
            (Err(e), Err(f)) => e == f,
            _ => false,
        },
{
    if idx_start > idx_end {
        return Err(NtError::from_ntstatus(STATUS_INFO_LENGTH_MISMATCH));
    }
    if s.len() > 0xFFFF {
        return Err(NtError::from_ntstatus(STATUS_INTEGER_OVERFLOW));
    }
    if idx_end as usize > s.len() {
        return Err(NtError::from_ntstatus(STATUS_INFO_LENGTH_MISMATCH));
    }
    let byte_length = (idx_end - idx_start) as usize * 2;
    if byte_length > 0xFFFF {
        return Err(NtError::from_ntstatus(STATUS_INTEGER_OVERFLOW));
    }
    Ok(vstd::slice::slice_subrange(s, idx_start as usize, idx_end as usize))
}

// ---------------------------------------------------------------------------
// Owned strings

/// Copy `s` into a new string: `Err(STATUS_BUFFER_OVERFLOW)` when it is too long for a
/// `UNICODE_STRING`.
pub fn try_to_unicode_string(s: &[u16]) -> (r: Result<Vec<u16>, NtError>)
    ensures
        s@.len() > MAX_UNICODE_UNITS ==> r == nt_err::<Vec<u16>>(STATUS_BUFFER_OVERFLOW),
        s@.len() <= MAX_UNICODE_UNITS ==> (r matches Ok(v) && v@ == s@),
{
    if s.len() > MAX_UNICODE_UNITS {
        Err(NtError::from_ntstatus(STATUS_BUFFER_OVERFLOW))
    } else {
        Ok(vstd::slice::slice_to_vec(s))
    }
}

/// Append the code units of `tail` to `s`.
///
/// A `UNICODE_STRING` reserves one more unit for a terminating NUL, so this fails with
/// `STATUS_BUFFER_OVERFLOW`, and leaves `s` as it was, when `s`, `tail` and that NUL
/// together would outgrow it.
pub fn try_push_units(s: &mut Vec<u16>, tail: &[u16]) -> (r: Result<(), NtError>)
    ensures
        old(s)@.len() + tail@.len() + 1 > MAX_UNICODE_UNITS ==> r == nt_err::<()>(STATUS_BUFFER_OVERFLOW)
            && final(s)@ == old(s)@,
        old(s)@.len() + tail@.len() + 1 <= MAX_UNICODE_UNITS ==> r is Ok && final(s)@ == old(s)@ + tail@,
{
    if s.len() >= MAX_UNICODE_UNITS || tail.len() >= MAX_UNICODE_UNITS - s.len() {
        return Err(NtError::from_ntstatus(STATUS_BUFFER_OVERFLOW));
    }
    let ghost s0 = s@;
    let mut i: usize = 0;
    while i < tail.len()
        invariant
            0 <= i <= tail@.len(),
            s@ =~= s0 + tail@.take(i as int),
        decreases tail@.len() - i,
    {
        s.push(tail[i]);
        i += 1;
        assert(s0 + tail@.take(i as int) =~= (s0 + tail@.take(i - 1)).push(tail@[i - 1]));
    }
    assert(tail@.take(i as int) =~= tail@);
    Ok(())
}

/// Convert the string to upper case in place (what `RtlUpcaseUnicodeString` does when
/// it writes into the string it reads). It cannot fail.
pub fn convert_to_upper(s: &mut Vec<u16>, t: &CaseTable) -> (r: Result<(), NtError>)
    ensures
        r is Ok,
        final(s)@ == upcase_seq(t, old(s)@),
{
    let ghost s0 = s@;
    let mut i: usize = 0;
    while i < s.len()
        invariant
            s@.len() == s0.len(),
            0 <= i <= s@.len(),
            forall|k: int| 0 <= k < i ==> s@[k] == t.up(s0[k]),
            forall|k: int| i <= k < s@.len() ==> s@[k] == s0[k],
        decreases s@.len() - i,
    {
        let c = t.upcase(s[i]);
        s[i] = c;
        i += 1;
    }
    assert(s@ =~= upcase_seq(t, s0));
    Ok(())
}

/// Convert the string to lower case in place (what `RtlDowncaseUnicodeString` does when
/// it writes into the string it reads). It cannot fail.
pub fn convert_to_lower(s: &mut Vec<u16>, t: &CaseTable) -> (r: Result<(), NtError>)
    ensures
        r is Ok,
        final(s)@ == downcase_seq(t, old(s)@),
{
    let ghost s0 = s@;
    let mut i: usize = 0;
    while i < s.len()
        invariant
            s@.len() == s0.len(),
            0 <= i <= s@.len(),
            forall|k: int| 0 <= k < i ==> s@[k] == t.down(s0[k]),
            forall|k: int| i <= k < s@.len() ==> s@[k] == s0[k],
        decreases s@.len() - i,
    {
        let c = t.downcase(s[i]);
        s[i] = c;
        i += 1;
    }
    assert(s@ =~= downcase_seq(t, s0));
    Ok(())
}

} // verus!
