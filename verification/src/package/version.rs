//! Versions and version constraints: their grammar, their order and the
//! predicate that says which versions a constraint admits.

use crate::result::OpenCliError;
use crate::result::join2;
use crate::text::{
    all_digits, chars_of, decimal, decimal_of, decimal_value, digit, has_char, in_class, is_digit,
    is_space, lemma_decimal_digits, lemma_run_end, lemma_run_end_is, push_all, run_end, same, scan,
    string_of, trim_bounds, trim_end, trimmed, CharClass,
};
use core::cmp::Ordering;
use vstd::prelude::*;

verus! {

/// A version: three numbers and whatever text followed them.
///
/// Two versions are ordered, and matched against constraints, by their
/// numbers alone. The suffix is kept for display.
#[derive(Debug, Clone)]
pub struct Version {
    pub major: u32,
    pub minor: u32,
    pub patch: u32,
    pub suffix: String,
}

/// A version as a mathematical value.
pub struct VersionView {
    pub major: nat,
    pub minor: nat,
    pub patch: nat,
    pub suffix: Seq<char>,
}

impl View for Version {
    type V = VersionView;

    open spec fn view(&self) -> VersionView {
        VersionView {
            major: self.major as nat,
            minor: self.minor as nat,
            patch: self.patch as nat,
            suffix: self.suffix@,
        }
    }
}

/// A condition on versions.
#[derive(Debug, Clone)]
pub enum VersionConstraint {
    Exact(Version),
    Caret(Version),
    Tilde(Version),
    GreaterThan(Version),
    GreaterEqual(Version),
    LessThan(Version),
    LessEqual(Version),
    Range(Version, Version),
}

/// A constraint as a mathematical value.
pub enum ConstraintView {
    Exact(VersionView),
    Caret(VersionView),
    Tilde(VersionView),
    GreaterThan(VersionView),
    GreaterEqual(VersionView),
    LessThan(VersionView),
    LessEqual(VersionView),
    Range(VersionView, VersionView),
}

impl View for VersionConstraint {
    type V = ConstraintView;

    open spec fn view(&self) -> ConstraintView {
        match self {
            VersionConstraint::Exact(v) => ConstraintView::Exact(v@),
            VersionConstraint::Caret(v) => ConstraintView::Caret(v@),
            VersionConstraint::Tilde(v) => ConstraintView::Tilde(v@),
            VersionConstraint::GreaterThan(v) => ConstraintView::GreaterThan(v@),
            VersionConstraint::GreaterEqual(v) => ConstraintView::GreaterEqual(v@),
            VersionConstraint::LessThan(v) => ConstraintView::LessThan(v@),
            VersionConstraint::LessEqual(v) => ConstraintView::LessEqual(v@),
            VersionConstraint::Range(lo, hi) => ConstraintView::Range(lo@, hi@),
        }
    }
}

/// `a` is an older release than `b`: its numbers come first in the
/// lexicographic order on (major, minor, patch).
pub open spec fn precedes(a: VersionView, b: VersionView) -> bool {
    a.major < b.major || (a.major == b.major && (a.minor < b.minor || (a.minor == b.minor
        && a.patch < b.patch)))
}

/// `a` and `b` have the same three numbers.
pub open spec fn same_release(a: VersionView, b: VersionView) -> bool {
    a.major == b.major && a.minor == b.minor && a.patch == b.patch
}

/// The constraint `c` admits the version `v`.
pub open spec fn satisfies(c: ConstraintView, v: VersionView) -> bool {
    match c {
        ConstraintView::Exact(w) => same_release(v, w),
        ConstraintView::Caret(w) => if w.major == 0 {
            v.major == 0 && v.minor == w.minor && v.patch >= w.patch
        } else {
            v.major == w.major && (v.minor > w.minor || (v.minor == w.minor && v.patch
                >= w.patch))
        },
        ConstraintView::Tilde(w) => v.major == w.major && v.minor == w.minor && v.patch
            >= w.patch,
        ConstraintView::GreaterThan(w) => precedes(w, v),
        ConstraintView::GreaterEqual(w) => !precedes(v, w),
        ConstraintView::LessThan(w) => precedes(v, w),
        ConstraintView::LessEqual(w) => !precedes(w, v),
        ConstraintView::Range(lo, hi) => !precedes(v, lo) && precedes(v, hi),
    }
}

/// `vs[i]` is the newest version of `vs` that `c` admits: it is admitted, no
/// admitted version is newer, and every admitted version after it is older.
pub open spec fn is_latest(c: ConstraintView, vs: Seq<Version>, i: int) -> bool {
    &&& 0 <= i < vs.len()
    &&& satisfies(c, vs[i]@)
    &&& forall|j: int| 0 <= j < vs.len() && satisfies(c, #[trigger] vs[j]@) ==> !precedes(vs[i]@, vs[j]@)
    &&& forall|j: int| i < j < vs.len() && satisfies(c, #[trigger] vs[j]@) ==> precedes(vs[j]@, vs[i]@)
}

/// One of the letters that may stand before a version.
pub open spec fn is_marker(c: char) -> bool {
    c == 'v' || c == 'V' || c == 'r' || c == 'R'
}

/// Where the numeric component that may begin at `i` ends. A component is a
/// `.` followed by a run of digits; where none begins at `i`, the result is
/// `i`.
pub open spec fn component_end(s: Seq<char>, i: int) -> int {
    if 0 <= i && i + 1 < s.len() && s[i] == '.' && is_digit(s[i + 1]) {
        run_end(s, i + 1, CharClass::Digit)
    } else {
        i
    }
}

/// The number that the component at `i` stands for, 0 where there is none.
pub open spec fn component_value(s: Seq<char>, i: int) -> nat {
    if component_end(s, i) > i {
        decimal_value(s.subrange(i + 1, component_end(s, i)))
    } else {
        0
    }
}

/// What a text means as a version, `None` where it is not one.
///
/// Whitespace around the text is ignored. An optional marker letter comes
/// first, then the digits of the major number, which must be there. A `.` with
/// digits behind it gives the minor number, and another the patch number;
/// each is 0 where it is missing. The rest is the suffix. A number above
/// `u32::MAX` makes the text invalid.
pub open spec fn parse_version(input: Seq<char>) -> Option<VersionView> {
    let s = trimmed(input);
    let start = if s.len() > 0 && is_marker(s[0]) {
        1int
    } else {
        0int
    };
    let e1 = run_end(s, start, CharClass::Digit);
    let e2 = component_end(s, e1);
    let e3 = component_end(s, e2);
    let major = decimal_value(s.subrange(start, e1));
    let minor = component_value(s, e1);
    let patch = component_value(s, e2);
    if e1 == start || major > u32::MAX || minor > u32::MAX || patch > u32::MAX {
        None
    } else {
        Some(VersionView { major, minor, patch, suffix: s.subrange(e3, s.len() as int) })
    }
}

/// The constraint that an operator makes of a version, `None` where the text
/// is no operator. No operator at all asks for that very release.
pub open spec fn apply_operator(op: Seq<char>, v: VersionView) -> Option<ConstraintView> {
    if op == seq!['^'] {
        Some(ConstraintView::Caret(v))
    } else if op == seq!['~'] {
        Some(ConstraintView::Tilde(v))
    } else if op == seq!['>', '='] {
        Some(ConstraintView::GreaterEqual(v))
    } else if op == seq!['>'] {
        Some(ConstraintView::GreaterThan(v))
    } else if op == seq!['<', '='] {
        Some(ConstraintView::LessEqual(v))
    } else if op == seq!['<'] {
        Some(ConstraintView::LessThan(v))
    } else if op.len() == 0 {
        Some(ConstraintView::Exact(v))
    } else {
        None
    }
}

/// The constraint that a comparison operator makes of a version.
pub open spec fn apply_comparator(op: Seq<char>, v: VersionView) -> Option<ConstraintView> {
    if op == seq!['>', '='] {
        Some(ConstraintView::GreaterEqual(v))
    } else if op == seq!['>'] {
        Some(ConstraintView::GreaterThan(v))
    } else if op == seq!['<', '='] {
        Some(ConstraintView::LessEqual(v))
    } else if op == seq!['<'] {
        Some(ConstraintView::LessThan(v))
    } else {
        None
    }
}

/// The two operators may bound a range: `>=` or `>` below, `<` above, or `>=`
/// below and `<=` above.
pub open spec fn range_operators(lo: Seq<char>, hi: Seq<char>) -> bool {
    ||| (lo == seq!['>', '='] && hi == seq!['<'])
    ||| (lo == seq!['>'] && hi == seq!['<'])
    ||| (lo == seq!['>', '='] && hi == seq!['<', '='])
}

/// What a text means as a comparison or as a range, `None` where it is
/// neither.
///
/// A comparison is a comparison operator and a version, with optional
/// whitespace between them. A range is two of them with a comma between,
/// and optional whitespace around the comma. A version in either is written
/// in ASCII letters and digits, `.` and `-`.
pub open spec fn parse_range_text(s: Seq<char>) -> Option<ConstraintView> {
    let a1 = run_end(s, 0, CharClass::Comparator);
    let b1 = run_end(s, a1, CharClass::Space);
    let c1 = run_end(s, b1, CharClass::VersionChar);
    if a1 == 0 || c1 == b1 {
        None
    } else if c1 == s.len() {
        match parse_version(s.subrange(b1, c1)) {
            Some(v) => apply_comparator(s.subrange(0, a1), v),
            None => None,
        }
    } else {
        let d = run_end(s, c1, CharClass::Space);
        let e = run_end(s, d + 1, CharClass::Space);
        let a2 = run_end(s, e, CharClass::Comparator);
        let b2 = run_end(s, a2, CharClass::Space);
        let c2 = run_end(s, b2, CharClass::VersionChar);
        if d >= s.len() || s[d] != ',' || a2 == e || c2 == b2 || c2 != s.len() {
            None
        } else {
            match (parse_version(s.subrange(b1, c1)), parse_version(s.subrange(b2, c2))) {
                (Some(lo), Some(hi)) => if range_operators(
                    s.subrange(0, a1),
                    s.subrange(e, a2),
                ) {
                    Some(ConstraintView::Range(lo, hi))
                } else {
                    None
                },
                _ => None,
            }
        }
    }
}

/// The version 0.0.0.
pub open spec fn zero_version() -> VersionView {
    VersionView { major: 0, minor: 0, patch: 0, suffix: Seq::empty() }
}

/// What a text means as a constraint, `None` where it is not one.
///
/// Whitespace around the text is ignored. `*` and `latest` admit every
/// version. A text with a comma is a range. Any other text is an operator,
/// made of the characters `~ ^ > = <`, and a version.
pub open spec fn parse_constraint(input: Seq<char>) -> Option<ConstraintView> {
    let s = trimmed(input);
    if s == "*"@ || s == "latest"@ {
        Some(ConstraintView::GreaterEqual(zero_version()))
    } else if s.contains(',') {
        parse_range_text(s)
    } else {
        let k = run_end(s, 0, CharClass::Operator);
        match parse_version(s.subrange(k, s.len() as int)) {
            Some(v) => apply_operator(s.subrange(0, k), v),
            None => None,
        }
    }
}

/// The text of a version: the three numbers with dots between them, then the
/// suffix.
pub open spec fn display(v: VersionView) -> Seq<char> {
    decimal(v.major) + seq!['.'] + decimal(v.minor) + seq!['.'] + decimal(v.patch) + v.suffix
}

/// Reads the run of digits at `i`. Returns where it ends and the number it
/// stands for, `None` where that number is above `u32::MAX`.
fn scan_number(s: &[char], i: usize) -> (r: (usize, Option<u32>))
    requires
        i <= s.len(),
    ensures
        r.0 == run_end(s@, i as int, CharClass::Digit),
        i <= r.0 <= s.len(),
        r.1 is Some <==> decimal_value(s@.subrange(i as int, r.0 as int)) <= u32::MAX,
        r.1 matches Some(n) ==> n == decimal_value(s@.subrange(i as int, r.0 as int)),
{
    let mut j: usize = i;
    let mut acc: u64 = 0;
    let mut fits: bool = true;
    assert(s@.subrange(i as int, i as int) =~= Seq::<char>::empty());
    while j < s.len() && digit(s[j])
        invariant
            i <= j <= s.len(),
            run_end(s@, i as int, CharClass::Digit) == run_end(s@, j as int, CharClass::Digit),
            fits ==> acc == decimal_value(s@.subrange(i as int, j as int)) && acc <= u32::MAX,
            !fits ==> decimal_value(s@.subrange(i as int, j as int)) > u32::MAX,
        decreases s.len() - j,
    {
        proof {
            let next = s@.subrange(i as int, j + 1);
            assert(next.drop_last() =~= s@.subrange(i as int, j as int));
            assert(next.last() == s@[j as int]);
        }
        if fits {
            acc = acc * 10 + ((s[j] as u32) - ('0' as u32)) as u64;
            if acc > 0xffff_ffff {
                fits = false;
            }
        }
        j += 1;
    }
    if fits {
        (j, Some(acc as u32))
    } else {
        (j, None)
    }
}

/// Reads the numeric component that may begin at `i`.
fn scan_component(s: &[char], i: usize) -> (r: (usize, Option<u32>))
    requires
        i <= s.len(),
    ensures
        r.0 == component_end(s@, i as int),
        i <= r.0 <= s.len(),
        r.1 is Some <==> component_value(s@, i as int) <= u32::MAX,
        r.1 matches Some(n) ==> n == component_value(s@, i as int),
{
    if i < s.len() && s.len() - i > 1 && s[i] == '.' && digit(s[i + 1]) {
        proof {
            lemma_run_end(s@, i + 1, CharClass::Digit);
        }
        scan_number(s, i + 1)
    } else {
        (i, Some(0))
    }
}

/// The version that the characters of `chars` spell.
fn parse_chars(chars: &[char]) -> (r: Option<Version>)
    ensures
        match r {
            Some(v) => parse_version(chars@) == Some(v@),
            None => parse_version(chars@) is None,
        },
{
    let (lo, hi) = trim_bounds(chars);
    let s = &chars[lo..hi];
    let start: usize = if s.len() > 0 && (s[0] == 'v' || s[0] == 'V' || s[0] == 'r' || s[0]
        == 'R') {
        1
    } else {
        0
    };
    let (e1, major) = scan_number(s, start);
    let (e2, minor) = scan_component(s, e1);
    let (e3, patch) = scan_component(s, e2);
    if e1 == start {
        return None;
    }
    match (major, minor, patch) {
        (Some(major), Some(minor), Some(patch)) => {
            let suffix = string_of(&s[e3..s.len()]);
            Some(Version { major, minor, patch, suffix })
        },
        _ => None,
    }
}

impl Version {
    /// Reads a version.
    ///
    /// Fails with a `Config` error where the text is not a version.
    pub fn parse(input: &str) -> (r: Result<Version, OpenCliError>)
        ensures
            match r {
                Ok(v) => parse_version(input@) == Some(v@),
                Err(e) => parse_version(input@) is None && e is Config && e.message()
                    == "Invalid version format: "@ + input@,
            },
    {
        let chars = chars_of(input);
        match parse_chars(chars.as_slice()) {
            Some(v) => Ok(v),
            None => Err(
                OpenCliError::Config(join2("Invalid version format: ", input)),
            ),
        }
    }

    /// The version with the given numbers and no suffix.
    pub fn new(major: u32, minor: u32, patch: u32) -> (v: Version)
        ensures
            v@ == (VersionView {
                major: major as nat,
                minor: minor as nat,
                patch: patch as nat,
                suffix: Seq::empty(),
            }),
    {
        Version { major, minor, patch, suffix: String::new() }
    }

    /// The version with the given numbers and suffix.
    pub fn with_suffix(major: u32, minor: u32, patch: u32, suffix: String) -> (v: Version)
        ensures
            v@ == (VersionView {
                major: major as nat,
                minor: minor as nat,
                patch: patch as nat,
                suffix: suffix@,
            }),
    {
        Version { major, minor, patch, suffix }
    }

    /// `self` is an older release than `other`.
    pub fn is_before(&self, other: &Version) -> (r: bool)
        ensures
            r == precedes(self@, other@),
    {
        self.major < other.major || (self.major == other.major && (self.minor < other.minor || (
        self.minor == other.minor && self.patch < other.patch)))
    }

    /// The text of the version.
    pub fn to_string(&self) -> (s: String)
        ensures
            s@ == display(self@),
    {
        let mut out = decimal_of(self.major);
        out.push('.');
        let minor = decimal_of(self.minor);
        push_all(&mut out, minor.as_slice());
        out.push('.');
        let patch = decimal_of(self.patch);
        push_all(&mut out, patch.as_slice());
        let suffix = chars_of(self.suffix.as_str());
        push_all(&mut out, suffix.as_slice());
        string_of(out.as_slice())
    }
}

impl PartialEq for Version {
    fn eq(&self, other: &Self) -> (r: bool) {
        self.major == other.major && self.minor == other.minor && self.patch == other.patch
            && self.suffix == other.suffix
    }
}

impl vstd::std_specs::cmp::PartialEqSpecImpl for Version {
    open spec fn obeys_eq_spec() -> bool {
        true
    }

    open spec fn eq_spec(&self, other: &Self) -> bool {
        self@ == other@
    }
}

impl PartialOrd for Version {
    fn partial_cmp(&self, other: &Self) -> (r: Option<Ordering>) {
        if self.is_before(other) {
            Some(Ordering::Less)
        } else if other.is_before(self) {
            Some(Ordering::Greater)
        } else {
            Some(Ordering::Equal)
        }
    }
}

impl vstd::std_specs::cmp::PartialOrdSpecImpl for Version {
    open spec fn obeys_partial_cmp_spec() -> bool {
        true
    }

    open spec fn partial_cmp_spec(&self, other: &Self) -> Option<Ordering> {
        if precedes(self@, other@) {
            Some(Ordering::Less)
        } else if precedes(other@, self@) {
            Some(Ordering::Greater)
        } else {
            Some(Ordering::Equal)
        }
    }
}

/// The constraint that the operator `op` makes of `v`.
fn operator_constraint(op: &[char], v: Version) -> (r: Option<VersionConstraint>)
    ensures
        match r {
            Some(c) => apply_operator(op@, v@) == Some(c@),
            None => apply_operator(op@, v@) is None,
        },
{
    if op.len() == 0 {
        Some(VersionConstraint::Exact(v))
    } else if op.len() == 1 {
        assert(op@ =~= seq![op@[0]]);
        if op[0] == '^' {
            Some(VersionConstraint::Caret(v))
        } else if op[0] == '~' {
            Some(VersionConstraint::Tilde(v))
        } else if op[0] == '>' {
            Some(VersionConstraint::GreaterThan(v))
        } else if op[0] == '<' {
            Some(VersionConstraint::LessThan(v))
        } else {
            assert(seq!['^'][0] == '^' && seq!['~'][0] == '~' && seq!['>'][0] == '>' && seq!['<'][0]
                == '<');
            None
        }
    } else if op.len() == 2 {
        assert(op@ =~= seq![op@[0], op@[1]]);
        if op[0] == '>' && op[1] == '=' {
            Some(VersionConstraint::GreaterEqual(v))
        } else if op[0] == '<' && op[1] == '=' {
            Some(VersionConstraint::LessEqual(v))
        } else {
            assert(seq!['>', '='][0] == '>' && seq!['>', '='][1] == '=' && seq!['<', '='][0] == '<'
                && seq!['<', '='][1] == '=');
            None
        }
    } else {
        None
    }
}

/// The comparison operator that `op` spells: 1 for `>`, 2 for `>=`, 3 for
/// `<`, 4 for `<=`, 0 for anything else.
fn comparator_code(op: &[char]) -> (r: u8)
    ensures
        r <= 4,
        r == 1 <==> op@ == seq!['>'],
        r == 2 <==> op@ == seq!['>', '='],
        r == 3 <==> op@ == seq!['<'],
        r == 4 <==> op@ == seq!['<', '='],
{
    assert(seq!['>'][0] == '>' && seq!['<'][0] == '<');
    assert(seq!['>', '='][0] == '>' && seq!['>', '='][1] == '=' && seq!['<', '='][0] == '<' && seq![
        '<',
        '=',
    ][1] == '=');
    if op.len() == 1 {
        assert(op@ =~= seq![op@[0]]);
        if op[0] == '>' {
            1
        } else if op[0] == '<' {
            3
        } else {
            0
        }
    } else if op.len() == 2 {
        assert(op@ =~= seq![op@[0], op@[1]]);
        if op[0] == '>' && op[1] == '=' {
            2
        } else if op[0] == '<' && op[1] == '=' {
            4
        } else {
            0
        }
    } else {
        0
    }
}

/// The constraint that the characters of `s` spell as a comparison or range.
fn parse_range_chars(s: &[char]) -> (r: Option<VersionConstraint>)
    ensures
        match r {
            Some(c) => parse_range_text(s@) == Some(c@),
            None => parse_range_text(s@) is None,
        },
{
    let a1 = scan(s, 0, CharClass::Comparator);
    let b1 = scan(s, a1, CharClass::Space);
    let c1 = scan(s, b1, CharClass::VersionChar);
    if a1 == 0 || c1 == b1 {
        return None;
    }
    let op1 = comparator_code(&s[0..a1]);
    let lo = match parse_chars(&s[b1..c1]) {
        Some(v) => v,
        None => {
            return None;
        },
    };
    if c1 == s.len() {
        return if op1 == 1 {
            Some(VersionConstraint::GreaterThan(lo))
        } else if op1 == 2 {
            Some(VersionConstraint::GreaterEqual(lo))
        } else if op1 == 3 {
            Some(VersionConstraint::LessThan(lo))
        } else if op1 == 4 {
            Some(VersionConstraint::LessEqual(lo))
        } else {
            None
        };
    }
    let d = scan(s, c1, CharClass::Space);
    if d >= s.len() || s[d] != ',' {
        return None;
    }
    let e = scan(s, d + 1, CharClass::Space);
    let a2 = scan(s, e, CharClass::Comparator);
    let b2 = scan(s, a2, CharClass::Space);
    let c2 = scan(s, b2, CharClass::VersionChar);
    if a2 == e || c2 == b2 || c2 != s.len() {
        return None;
    }
    let op2 = comparator_code(&s[e..a2]);
    let hi = match parse_chars(&s[b2..c2]) {
        Some(v) => v,
        None => {
            return None;
        },
    };
    if (op1 == 2 && op2 == 3) || (op1 == 1 && op2 == 3) || (op1 == 2 && op2 == 4) {
        Some(VersionConstraint::Range(lo, hi))
    } else {
        None
    }
}

/// The constraint that the characters of `chars` spell.
fn parse_constraint_chars(chars: &[char]) -> (r: Option<VersionConstraint>)
    ensures
        match r {
            Some(c) => parse_constraint(chars@) == Some(c@),
            None => parse_constraint(chars@) is None,
        },
{
    let (lo, hi) = trim_bounds(chars);
    let s = &chars[lo..hi];
    let star = chars_of("*");
    let latest = chars_of("latest");
    if same(s, star.as_slice()) || same(s, latest.as_slice()) {
        return Some(VersionConstraint::GreaterEqual(Version::new(0, 0, 0)));
    }
    if has_char(s, ',') {
        return parse_range_chars(s);
    }
    let k = scan(s, 0, CharClass::Operator);
    match parse_chars(&s[k..s.len()]) {
        Some(v) => operator_constraint(&s[0..k], v),
        None => None,
    }
}

impl VersionConstraint {
    /// Reads a constraint.
    ///
    /// Fails with a `Config` error where the text is not a constraint.
    pub fn parse(input: &str) -> (r: Result<VersionConstraint, OpenCliError>)
        ensures
            match r {
                Ok(c) => parse_constraint(input@) == Some(c@),
                Err(e) => parse_constraint(input@) is None && e is Config && e.message()
                    == "Invalid version constraint: "@ + input@,
            },
    {
        let chars = chars_of(input);
        match parse_constraint_chars(chars.as_slice()) {
            Some(c) => Ok(c),
            None => Err(
                OpenCliError::Config(
                    join2("Invalid version constraint: ", input),
                ),
            ),
        }
    }

    /// Reads a comparison (`>= 1.2.0`) or a range (`>= 1.0.0, < 2.0.0`).
    ///
    /// Fails with a `Config` error where the text is neither, or where the two
    /// operators of a range are not a lower and an upper bound.
    pub fn parse_range(input: &str) -> (r: Result<VersionConstraint, OpenCliError>)
        ensures
            match r {
                Ok(c) => parse_range_text(input@) == Some(c@),
                Err(e) => parse_range_text(input@) is None && e is Config && e.message()
                    == "Invalid range constraint"@,
            },
    {
        let chars = chars_of(input);
        match parse_range_chars(chars.as_slice()) {
            Some(c) => Ok(c),
            None => Err(OpenCliError::config("Invalid range constraint")),
        }
    }

    /// Whether the constraint admits `version`.
    pub fn matches(&self, version: &Version) -> (r: bool)
        ensures
            r == satisfies(self@, version@),
    {
        match self {
            VersionConstraint::Exact(v) => version.major == v.major && version.minor == v.minor
                && version.patch == v.patch,
            VersionConstraint::Caret(v) => if v.major == 0 {
                version.major == 0 && version.minor == v.minor && version.patch >= v.patch
            } else {
                version.major == v.major && (version.minor > v.minor || (version.minor
                    == v.minor && version.patch >= v.patch))
            },
            VersionConstraint::Tilde(v) => version.major == v.major && version.minor == v.minor
                && version.patch >= v.patch,
            VersionConstraint::GreaterThan(v) => v.is_before(version),
            VersionConstraint::GreaterEqual(v) => !version.is_before(v),
            VersionConstraint::LessThan(v) => version.is_before(v),
            VersionConstraint::LessEqual(v) => !v.is_before(version),
            VersionConstraint::Range(lo, hi) => !version.is_before(lo) && version.is_before(hi),
        }
    }

    /// The index of the newest version of `versions` that the constraint
    /// admits. Of several releases with the same numbers it is the last.
    pub fn latest_matching_index(&self, versions: &[Version]) -> (r: Option<usize>)
        ensures
            match r {
                Some(i) => is_latest(self@, versions@, i as int),
                None => forall|j: int|
                    0 <= j < versions.len() ==> !satisfies(self@, #[trigger] versions[j]@),
            },
    {
        let mut best: Option<usize> = None;
        let mut j: usize = 0;
        while j < versions.len()
            invariant
                j <= versions.len(),
                match best {
                    Some(i) => is_latest(self@, versions@.take(j as int), i as int),
                    None => forall|k: int|
                        0 <= k < j ==> !satisfies(self@, #[trigger] versions[k]@),
                },
            decreases versions.len() - j,
        {
            let ghost before = versions@.take(j as int);
            let ghost after = versions@.take(j + 1);
            assert(forall|k: int| 0 <= k < j ==> before[k] == after[k]);
            assert(after[j as int] == versions[j as int]);
            if self.matches(&versions[j]) {
                match best {
                    Some(i) => {
                        if !versions[j].is_before(&versions[i]) {
                            assert(is_latest(self@, after, j as int));
                            best = Some(j);
                        } else {
                            assert(is_latest(self@, after, i as int));
                        }
                    },
                    None => {
                        assert(is_latest(self@, after, j as int));
                        best = Some(j);
                    },
                }
            } else {
                if let Some(i) = best {
                    assert(is_latest(self@, after, i as int));
                }
            }
            j += 1;
        }
        assert(versions@.take(versions.len() as int) == versions@);
        best
    }

    /// The newest version of `versions` that the constraint admits, `None`
    /// where it admits none of them.
    pub fn latest_matching<'a>(&self, versions: &'a [Version]) -> (r: Option<&'a Version>)
        ensures
            match r {
                Some(v) => exists|i: int| is_latest(self@, versions@, i) && *v == versions[i],
                None => forall|j: int|
                    0 <= j < versions.len() ==> !satisfies(self@, #[trigger] versions[j]@),
            },
    {
        match self.latest_matching_index(versions) {
            Some(i) => Some(&versions[i]),
            None => None,
        }
    }
}

/// The order of releases is strict and total up to the suffix: of two
/// versions exactly one comes first, unless they have the same numbers.
pub proof fn lemma_release_order(a: VersionView, b: VersionView, c: VersionView)
    ensures
        !precedes(a, a),
        precedes(a, b) && precedes(b, c) ==> precedes(a, c),
        precedes(a, b) ==> !precedes(b, a),
        same_release(a, b) <==> !precedes(a, b) && !precedes(b, a),
{
}

/// A caret constraint on a version below 1.0.0 admits exactly the versions
/// with major number 0, the same minor number and at least the same patch
/// number.
pub proof fn lemma_caret_below_one(w: VersionView, v: VersionView)
    requires
        w.major == 0,
    ensures
        satisfies(ConstraintView::Caret(w), v) <==> v.major == 0 && v.minor == w.minor && v.patch
            >= w.patch,
{
}

/// A caret constraint on a version from 1.0.0 on admits exactly the versions
/// with the same major number that are not older.
pub proof fn lemma_caret_from_one(w: VersionView, v: VersionView)
    requires
        w.major > 0,
    ensures
        satisfies(ConstraintView::Caret(w), v) <==> v.major == w.major && !precedes(v, w),
{
}

/// A range admits exactly the versions from its lower bound on that are older
/// than its upper bound.
pub proof fn lemma_range_half_open(lo: VersionView, hi: VersionView, v: VersionView)
    ensures
        satisfies(ConstraintView::Range(lo, hi), v) <==> satisfies(
            ConstraintView::GreaterEqual(lo),
            v,
        ) && satisfies(ConstraintView::LessThan(hi), v),
        !satisfies(ConstraintView::Range(lo, hi), hi),
{
}

/// The newest admitted version is determined by the list: no two indices
/// qualify.
pub proof fn lemma_latest_unique(c: ConstraintView, vs: Seq<Version>, i: int, j: int)
    requires
        is_latest(c, vs, i),
        is_latest(c, vs, j),
    ensures
        i == j,
{
}

/// A text that neither begins nor ends with whitespace is its own trimmed
/// form.
proof fn lemma_trimmed_identity(t: Seq<char>)
    requires
        t.len() > 0,
        !is_space(t[0]),
        !is_space(t.last()),
    ensures
        trimmed(t) == t,
{
    assert(run_end(t, 0, CharClass::Space) == 0);
    assert(trim_end(t, 0, t.len() as int) == t.len());
    assert(t.subrange(0, t.len() as int) =~= t);
}

/// Where `run`, made of digits, stands in `t` at `i` and no digit follows
/// it, the digits that start at `i` are those of `run`.
proof fn lemma_digits_at(t: Seq<char>, i: int, run: Seq<char>)
    requires
        0 <= i,
        i + run.len() <= t.len(),
        t.subrange(i, i + run.len()) == run,
        all_digits(run),
        i + run.len() < t.len() ==> !is_digit(t[i + run.len()]),
    ensures
        run_end(t, i, CharClass::Digit) == i + run.len(),
{
    let j = i + run.len();
    assert forall|k: int| i <= k < j implies in_class(#[trigger] t[k], CharClass::Digit) by {
        assert(t[k] == t.subrange(i, j)[k - i]);
    }
    lemma_run_end_is(t, i, j, CharClass::Digit);
}

/// Where a `.` stands in `t` at `i` and `run`, made of at least one digit,
/// behind it, with no digit after, the component at `i` is that number.
proof fn lemma_component_at(t: Seq<char>, i: int, run: Seq<char>)
    requires
        0 <= i,
        i + 1 + run.len() <= t.len(),
        t[i] == '.',
        t.subrange(i + 1, i + 1 + run.len()) == run,
        run.len() >= 1,
        all_digits(run),
        i + 1 + run.len() < t.len() ==> !is_digit(t[i + 1 + run.len()]),
    ensures
        component_end(t, i) == i + 1 + run.len(),
        component_value(t, i) == decimal_value(run),
{
    lemma_digits_at(t, i + 1, run);
    assert(t[i + 1] == t.subrange(i + 1, i + 1 + run.len())[0]);
}

/// The text made of a marker, three runs of digits with dots between them
/// and a suffix lies in `t` in the places that the indices name.
spec fn laid_out(
    t: Seq<char>,
    marker: Seq<char>,
    d1: Seq<char>,
    d2: Seq<char>,
    d3: Seq<char>,
    suffix: Seq<char>,
) -> bool {
    let m = marker.len() as int;
    let e1 = m + d1.len();
    let e2 = e1 + 1 + d2.len();
    let e3 = e2 + 1 + d3.len();
    &&& t.len() == e3 + suffix.len()
    &&& t.subrange(0, m) == marker
    &&& t.subrange(m, e1) == d1
    &&& t[e1] == '.'
    &&& t.subrange(e1 + 1, e2) == d2
    &&& t[e2] == '.'
    &&& t.subrange(e2 + 1, e3) == d3
    &&& t.subrange(e3, t.len() as int) == suffix
}

proof fn lemma_layout(
    marker: Seq<char>,
    d1: Seq<char>,
    d2: Seq<char>,
    d3: Seq<char>,
    suffix: Seq<char>,
)
    ensures
        laid_out(
            marker + (d1 + seq!['.'] + d2 + seq!['.'] + d3 + suffix),
            marker,
            d1,
            d2,
            d3,
            suffix,
        ),
{
    let t = marker + (d1 + seq!['.'] + d2 + seq!['.'] + d3 + suffix);
    let m = marker.len() as int;
    let e1 = m + d1.len();
    let e2 = e1 + 1 + d2.len();
    let e3 = e2 + 1 + d3.len();
    assert(t.subrange(0, m) =~= marker);
    assert(t.subrange(m, e1) =~= d1);
    assert(t.subrange(e1 + 1, e2) =~= d2);
    assert(t.subrange(e2 + 1, e3) =~= d3);
    assert(t.subrange(e3, t.len() as int) =~= suffix);
}

/// A text laid out as a version is read as that version.
proof fn lemma_parse_laid_out(
    t: Seq<char>,
    marker: Seq<char>,
    d1: Seq<char>,
    d2: Seq<char>,
    d3: Seq<char>,
    suffix: Seq<char>,
)
    requires
        laid_out(t, marker, d1, d2, d3, suffix),
        marker.len() == 0 || (marker.len() == 1 && is_marker(marker[0])),
        d1.len() >= 1 && all_digits(d1) && decimal_value(d1) <= u32::MAX,
        d2.len() >= 1 && all_digits(d2) && decimal_value(d2) <= u32::MAX,
        d3.len() >= 1 && all_digits(d3) && decimal_value(d3) <= u32::MAX,
        suffix.len() > 0 ==> !is_digit(suffix[0]) && !is_space(suffix.last()),
    ensures
        parse_version(t) == Some(
            VersionView {
                major: decimal_value(d1),
                minor: decimal_value(d2),
                patch: decimal_value(d3),
                suffix,
            },
        ),
{
    let m = marker.len() as int;
    let e1 = m + d1.len();
    let e2 = e1 + 1 + d2.len();
    let e3 = e2 + 1 + d3.len();
    let n = t.len() as int;
    assert(is_digit(d1[0]) && is_digit(d3[d3.len() - 1]));
    assert(t[m] == t.subrange(m, e1)[0]);
    assert(m == 1 ==> t[0] == t.subrange(0, m)[0]);
    assert(t[e3 - 1] == t.subrange(e2 + 1, e3)[d3.len() - 1]);
    assert(e3 < n ==> t[e3] == t.subrange(e3, n)[0] && t[n - 1] == t.subrange(e3, n)[n - 1 - e3]);
    assert(trimmed(t) == t) by {
        lemma_trimmed_identity(t);
    }
    assert(run_end(t, m, CharClass::Digit) == e1) by {
        lemma_digits_at(t, m, d1);
    }
    assert(component_end(t, e1) == e2 && component_value(t, e1) == decimal_value(d2)) by {
        lemma_component_at(t, e1, d2);
    }
    assert(component_end(t, e2) == e3 && component_value(t, e2) == decimal_value(d3)) by {
        lemma_component_at(t, e2, d3);
    }
}

/// Reading the text of a version gives the version back: for a version whose
/// suffix does not begin with a digit nor end with whitespace, `parse` reads
/// its text, with or without a marker letter before it, as that version, and
/// so `parse` followed by `to_string` gives the text without the marker.
pub proof fn lemma_parse_display(marker: Seq<char>, v: VersionView)
    requires
        v.major <= u32::MAX,
        v.minor <= u32::MAX,
        v.patch <= u32::MAX,
        marker.len() == 0 || (marker.len() == 1 && is_marker(marker[0])),
        v.suffix.len() > 0 ==> !is_digit(v.suffix[0]) && !is_space(v.suffix.last()),
    ensures
        parse_version(marker + display(v)) == Some(v),
        display(parse_version(marker + display(v))->0) == display(v),
{
    lemma_decimal_digits(v.major);
    lemma_decimal_digits(v.minor);
    lemma_decimal_digits(v.patch);
    lemma_layout(marker, decimal(v.major), decimal(v.minor), decimal(v.patch), v.suffix);
    lemma_parse_laid_out(
        marker + display(v),
        marker,
        decimal(v.major),
        decimal(v.minor),
        decimal(v.patch),
        v.suffix,
    );
}

} // verus!
