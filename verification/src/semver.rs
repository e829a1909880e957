//! Semantic version parsing, rendering and ordering.
//!
//! Accepted text: `vMAJOR.MINOR.PATCH[-LABEL[.N]]`, surrounding whitespace
//! ignored, the leading `v` optional.

use std::cmp::Ordering;

use vstd::prelude::*;

use crate::error::EngitError;
use crate::text::{
    chars_of, decimal, decimal_number, extend_chars, extend_str, find_char, find_char_index,
    is_decimal_number, is_ascii_digit, parse_u64, parsed_u64, push_decimal, slice_chars,
    split_chars, split_on, split_once, string_of, trim, trim_chars, lemma_split_on_nonempty,
    lemma_find_char, is_ws, lemma_decimal_roundtrip, lemma_split_on_absent, lemma_split_on_concat,
    lemma_trim_start_skip, lemma_trim_end_take, trim_start, all_ascii_digits, sign_of_difference,
    text_order, text_compare, lemma_text_order_props, lemma_text_order_transitive, lemma_text_order_step,
};

verus! {

// ---------------------------------------------------------------------------
// The accepted text
// ---------------------------------------------------------------------------

/// An ASCII letter.
pub open spec fn is_ascii_alpha(c: char) -> bool {
    ('a' <= c <= 'z') || ('A' <= c <= 'Z')
}

/// An ASCII letter or digit.
pub open spec fn is_ascii_alnum(c: char) -> bool {
    is_ascii_alpha(c) || is_ascii_digit(c)
}

/// A version number field: `0`, or a digit `1`-`9` followed by decimal
/// digits (`0|[1-9]\d*`, where `\d` is any Unicode decimal digit).
pub open spec fn is_number_field(s: Seq<char>) -> bool {
    &&& s.len() >= 1
    &&& if s[0] == '0' {
        s.len() == 1
    } else {
        &&& '1' <= s[0] <= '9'
        &&& forall|i: int| 1 <= i < s.len() ==> is_decimal_number(#[trigger] s[i])
    }
}

/// A prerelease label: an ASCII letter followed by ASCII letters and digits.
pub open spec fn is_label(s: Seq<char>) -> bool {
    &&& s.len() >= 1
    &&& is_ascii_alpha(s[0])
    &&& forall|i: int| 0 <= i < s.len() ==> is_ascii_alnum(#[trigger] s[i])
}

/// One or more Unicode decimal digits.
pub open spec fn is_decimal_run(s: Seq<char>) -> bool {
    &&& s.len() >= 1
    &&& forall|i: int| 0 <= i < s.len() ==> is_decimal_number(#[trigger] s[i])
}

/// A prerelease identifier: a label, optionally followed by `.` and digits.
pub open spec fn is_prerelease_text(p: Seq<char>) -> bool {
    match split_once(p, '.') {
        None => is_label(p),
        Some((label, number)) => is_label(label) && is_decimal_run(number),
    }
}

/// The textual fields `(major, minor, patch, prerelease)` of `t`, when `t` is
/// a semantic version: an optional `v`, three number fields separated by
/// `.`, and optionally `-` and a prerelease identifier.
pub open spec fn version_fields(t: Seq<char>) -> Option<
    (Seq<char>, Seq<char>, Seq<char>, Option<Seq<char>>),
> {
    let body = if t.len() > 0 && t[0] == 'v' {
        t.drop_first()
    } else {
        t
    };
    let parts = split_on(body, '.');
    if parts.len() < 3 || parts.len() > 4 {
        None
    } else {
        let tail = split_on(parts[2], '-');
        if tail.len() > 2 || (parts.len() == 4 && tail.len() != 2) {
            None
        } else {
            let pre: Option<Seq<char>> = if tail.len() == 2 {
                if parts.len() == 4 {
                    Some(tail[1] + seq!['.'] + parts[3])
                } else {
                    Some(tail[1])
                }
            } else {
                None
            };
            if is_number_field(parts[0]) && is_number_field(parts[1]) && is_number_field(tail[0])
                && (tail.len() == 2 ==> is_label(tail[1])) && (parts.len() == 4
                ==> is_decimal_run(parts[3])) {
                Some((parts[0], parts[1], tail[0], pre))
            } else {
                None
            }
        }
    }
}

/// Inputs on which parsing has no defined result: the text is shaped like a
/// version, but a number field is not plain ASCII digits or does not fit in
/// `u64`.
pub open spec fn parse_is_undefined(value: Seq<char>) -> bool {
    match version_fields(trim(value)) {
        Some((a, b, c, _)) => parsed_u64(a) is None || parsed_u64(b) is None || parsed_u64(c)
            is None,
        None => false,
    }
}

/// The message of the error for text that is not a semantic version.
pub open spec fn invalid_version_text(value: Seq<char>) -> Seq<char> {
    seq!['\''] + value
        + "' is not a valid semantic version. Expected MAJOR.MINOR.PATCH or MAJOR.MINOR.PATCH-LABEL[.N] (e.g. 1.2.3, v1.2.3, 1.2.3-alpha, v0.0.1-alpha.3)."@
}

// ---------------------------------------------------------------------------
// The version type
// ---------------------------------------------------------------------------

/// Semantic version with optional prerelease identifier.
#[derive(Clone, Debug, PartialEq, Eq)]
pub struct SemVer {
    /// Breaking change increment.
    pub major: u64,
    /// Backwards-compatible feature increment.
    pub minor: u64,
    /// Backwards-compatible bug-fix increment.
    pub patch: u64,
    /// Optional prerelease identifier such as `alpha` or `alpha.3`.
    pub prerelease: Option<String>,
}

/// The prerelease identifier of `v` as text.
pub open spec fn pre_text(v: SemVer) -> Option<Seq<char>> {
    match v.prerelease {
        Some(p) => Some(p@),
        None => None,
    }
}

/// The version denoted by textual fields whose numbers fit.
pub open spec fn version_of_fields(
    f: (Seq<char>, Seq<char>, Seq<char>, Option<Seq<char>>),
    v: SemVer,
) -> bool {
    &&& parsed_u64(f.0) == Some(v.major)
    &&& parsed_u64(f.1) == Some(v.minor)
    &&& parsed_u64(f.2) == Some(v.patch)
    &&& pre_text(v) == f.3
}

/// The label part of a prerelease identifier (text before the first `.`).
pub open spec fn label_of(p: Seq<char>) -> Seq<char> {
    split_on(p, '.')[0]
}

/// The numeric suffix of a prerelease identifier, when the text after the
/// first `.` reads as a `u64`.
pub open spec fn number_of(p: Seq<char>) -> Option<u64> {
    match split_once(p, '.') {
        Some((_, n)) => parsed_u64(n),
        None => None,
    }
}

/// `MAJOR.MINOR.PATCH[-PRERELEASE]`.
pub open spec fn version_text(v: SemVer) -> Seq<char> {
    let base = decimal(v.major as nat) + seq!['.'] + decimal(v.minor as nat) + seq!['.'] + decimal(
        v.patch as nat,
    );
    match pre_text(v) {
        Some(p) => base + seq!['-'] + p,
        None => base,
    }
}

/// The git tag for a version: `v` followed by [`version_text`].
pub open spec fn tag_text(v: SemVer) -> Seq<char> {
    seq!['v'] + version_text(v)
}

// ---------------------------------------------------------------------------
// Ordering
// ---------------------------------------------------------------------------

/// The label and optional number that prerelease identifiers are ordered by.
pub open spec fn prerelease_key(p: Seq<char>) -> (Seq<char>, Option<u64>) {
    match split_once(p, '.') {
        Some((label, number)) => (label, parsed_u64(number)),
        None => (p, None),
    }
}

/// Order of optional prerelease numbers: absent before present.
pub open spec fn number_order(a: Option<u64>, b: Option<u64>) -> int {
    match (a, b) {
        (None, None) => 0,
        (None, Some(_)) => -1,
        (Some(_), None) => 1,
        (Some(x), Some(y)) => sign_of_difference(x as int, y as int),
    }
}

/// Order of optional prerelease identifiers: a release (no identifier)
/// comes after every prerelease of the same version.
pub open spec fn prerelease_order(a: Option<Seq<char>>, b: Option<Seq<char>>) -> int {
    match (a, b) {
        (None, None) => 0,
        (None, Some(_)) => 1,
        (Some(_), None) => -1,
        (Some(x), Some(y)) => {
            let kx = prerelease_key(x);
            let ky = prerelease_key(y);
            let l = text_order(kx.0, ky.0);
            if l != 0 {
                l
            } else {
                number_order(kx.1, ky.1)
            }
        },
    }
}

/// Order of versions: by major, minor, patch, then prerelease.
pub open spec fn version_order(a: SemVer, b: SemVer) -> int {
    if a.major != b.major {
        sign_of_difference(a.major as int, b.major as int)
    } else if a.minor != b.minor {
        sign_of_difference(a.minor as int, b.minor as int)
    } else if a.patch != b.patch {
        sign_of_difference(a.patch as int, b.patch as int)
    } else {
        prerelease_order(pre_text(a), pre_text(b))
    }
}

// ---------------------------------------------------------------------------
// Executable checks of the accepted text
// ---------------------------------------------------------------------------

fn ascii_alpha(c: char) -> (r: bool)
    ensures
        r == is_ascii_alpha(c),
{
    ('a' <= c && c <= 'z') || ('A' <= c && c <= 'Z')
}

fn number_field(s: &Vec<char>) -> (r: bool)
    ensures
        r == is_number_field(s@),
{
    if s.len() == 0 {
        return false;
    }
    if s[0] == '0' {
        return s.len() == 1;
    }
    if !('1' <= s[0] && s[0] <= '9') {
        return false;
    }
    let mut i: usize = 1;
    while i < s.len()
        invariant
            1 <= i <= s.len(),
            forall|k: int| 1 <= k < i ==> is_decimal_number(#[trigger] s@[k]),
        decreases s.len() - i,
    {
        if !decimal_number(s[i]) {
            return false;
        }
        i = i + 1;
    }
    true
}

fn label(s: &Vec<char>) -> (r: bool)
    ensures
        r == is_label(s@),
{
    if s.len() == 0 || !ascii_alpha(s[0]) {
        return false;
    }
    let mut i: usize = 0;
    while i < s.len()
        invariant
            i <= s.len(),
            forall|k: int| 0 <= k < i ==> is_ascii_alnum(#[trigger] s@[k]),
        decreases s.len() - i,
    {
        let c = s[i];
        if !(ascii_alpha(c) || ('0' <= c && c <= '9')) {
            return false;
        }
        i = i + 1;
    }
    true
}

pub fn decimal_run(s: &Vec<char>) -> (r: bool)
    ensures
        r == is_decimal_run(s@),
{
    if s.len() == 0 {
        return false;
    }
    let mut i: usize = 0;
    while i < s.len()
        invariant
            i <= s.len(),
            forall|k: int| 0 <= k < i ==> is_decimal_number(#[trigger] s@[k]),
        decreases s.len() - i,
    {
        if !decimal_number(s[i]) {
            return false;
        }
        i = i + 1;
    }
    true
}

/// The textual fields of `t` (see [`version_fields`]).
fn fields_of(t: &Vec<char>) -> (r: Option<(Vec<char>, Vec<char>, Vec<char>, Option<Vec<char>>)>)
    ensures
        match r {
            Some(f) => version_fields(t@) == Some(
                (f.0@, f.1@, f.2@, match f.3 { Some(p) => Some(p@), None => None }),
            ),
            None => version_fields(t@) is None,
        },
{
    let body = if t.len() > 0 && t[0] == 'v' {
        slice_chars(t, 1, t.len())
    } else {
        slice_chars(t, 0, t.len())
    };
    proof {
        assert(t@.subrange(1, t@.len() as int) =~= t@.drop_first());
        assert(t@.subrange(0, t@.len() as int) =~= t@);
    }
    let parts = split_chars(&body, '.');
    let ghost pv = parts@.map_values(|p: Vec<char>| p@);
    assert(pv.len() == parts.len());
    if parts.len() < 3 || parts.len() > 4 {
        return None;
    }
    assert(pv[2] == parts@[2]@);
    let tail = split_chars(&parts[2], '-');
    let ghost tv = tail@.map_values(|p: Vec<char>| p@);
    proof {
        lemma_split_on_nonempty(parts@[2]@, '-');
    }
    assert(tv.len() == tail.len());
    if tail.len() > 2 || (parts.len() == 4 && tail.len() != 2) {
        return None;
    }
    assert(tv[0] == tail@[0]@);
    assert(pv[0] == parts@[0]@);
    assert(pv[1] == parts@[1]@);
    if !number_field(&parts[0]) || !number_field(&parts[1]) || !number_field(&tail[0]) {
        return None;
    }
    if tail.len() == 2 {
        assert(tv[1] == tail@[1]@);
        if !label(&tail[1]) {
            return None;
        }
    }
    if parts.len() == 4 {
        assert(pv[3] == parts@[3]@);
        if !decimal_run(&parts[3]) {
            return None;
        }
    }
    let pre: Option<Vec<char>> = if tail.len() == 2 {
        let mut p = slice_chars(&tail[1], 0, tail[1].len());
        assert(tail@[1]@.subrange(0, tail@[1]@.len() as int) =~= tail@[1]@);
        if parts.len() == 4 {
            p.push('.');
            extend_chars(&mut p, &parts[3]);
        }
        Some(p)
    } else {
        None
    };
    let a = slice_chars(&parts[0], 0, parts[0].len());
    let b = slice_chars(&parts[1], 0, parts[1].len());
    let c = slice_chars(&tail[0], 0, tail[0].len());
    proof {
        assert(parts@[0]@.subrange(0, parts@[0]@.len() as int) =~= parts@[0]@);
        assert(parts@[1]@.subrange(0, parts@[1]@.len() as int) =~= parts@[1]@);
        assert(tail@[0]@.subrange(0, tail@[0]@.len() as int) =~= tail@[0]@);
    }
    Some((a, b, c, pre))
}

impl SemVer {
    /// Whether [`SemVer::parse`] has a defined result for `value`: false
    /// exactly when the text is shaped like a version but one of its number
    /// fields is not plain ASCII digits or exceeds `u64`.
    pub fn parse_is_defined(value: &str) -> (r: bool)
        ensures
            r == !parse_is_undefined(value@),
    {
        let cs = chars_of(value);
        let t = trim_chars(&cs);
        match fields_of(&t) {
            None => true,
            Some((a, b, c, _)) => parse_u64(&a).is_some() && parse_u64(&b).is_some() && parse_u64(
                &c,
            ).is_some(),
        }
    }

    /// Parse a version string with or without a leading `v`; surrounding
    /// whitespace is ignored.
    pub fn parse(value: &str) -> (r: Result<SemVer, EngitError>)
        requires
            !parse_is_undefined(value@),
        ensures
            match version_fields(trim(value@)) {
                Some(f) => r matches Ok(v) && version_of_fields(f, v),
                None => r matches Err(EngitError::SemVer(m)) && m@ == invalid_version_text(value@),
            },
    {
        let cs = chars_of(value);
        let t = trim_chars(&cs);
        match fields_of(&t) {
            None => {
                let mut m: Vec<char> = Vec::new();
                m.push('\'');
                extend_str(&mut m, value);
                extend_str(
                    &mut m,
                    "' is not a valid semantic version. Expected MAJOR.MINOR.PATCH or MAJOR.MINOR.PATCH-LABEL[.N] (e.g. 1.2.3, v1.2.3, 1.2.3-alpha, v0.0.1-alpha.3).",
                );
                proof {
                    assert(m@ =~= invalid_version_text(value@));
                }
                Err(EngitError::SemVer(string_of(&m)))
            },
            Some((a, b, c, pre)) => {
                let major = parse_u64(&a);
                let minor = parse_u64(&b);
                let patch = parse_u64(&c);
                match (major, minor, patch) {
                    (Some(major), Some(minor), Some(patch)) => {
                        let prerelease = match pre {
                            Some(p) => Some(string_of(&p)),
                            None => None,
                        };
                        Ok(SemVer { major, minor, patch, prerelease })
                    },
                    _ => Err(EngitError::SemVer(String::new())),
                }
            },
        }
    }

    /// The prerelease label without the numeric suffix: the text before the
    /// first `.` of the prerelease identifier.
    pub fn prerelease_label(&self) -> (r: Option<&str>)
        ensures
            match pre_text(*self) {
                Some(p) => r matches Some(l) && l@ == label_of(p),
                None => r is None,
            },
    {
        match &self.prerelease {
            None => None,
            Some(p) => {
                let cs = chars_of(p.as_str());
                proof {
                    crate::text::lemma_split_on_find(p@, '.');
                    lemma_find_char(p@, '.');
                }
                match find_char_index(&cs, '.') {
                    Some(k) => Some(p.as_str().substring_char(0, k)),
                    None => {
                        let n = cs.len();
                        proof {
                            assert(p@.subrange(0, n as int) =~= p@);
                        }
                        Some(p.as_str().substring_char(0, n))
                    },
                }
            },
        }
    }

    /// The numeric prerelease suffix: the text after the first `.` of the
    /// prerelease identifier, read as a `u64`.
    pub fn prerelease_number(&self) -> (r: Option<u64>)
        ensures
            r == match pre_text(*self) {
                Some(p) => number_of(p),
                None => None,
            },
    {
        match &self.prerelease {
            None => None,
            Some(p) => {
                let cs = chars_of(p.as_str());
                proof {
                    lemma_find_char(p@, '.');
                }
                match find_char_index(&cs, '.') {
                    Some(k) => {
                        assert(k < cs.len());
                        let rest = slice_chars(&cs, k + 1, cs.len());
                        proof {
                            lemma_find_char(p@, '.');
                            assert(p@.subrange(k + 1, p@.len() as int) =~= p@.skip(k + 1));
                        }
                        parse_u64(&rest)
                    },
                    None => None,
                }
            },
        }
    }

    /// A copy with `major` incremented and lower parts reset.
    pub fn bump_major(&self) -> (r: SemVer)
        requires
            self.major < u64::MAX,
        ensures
            r.major == self.major + 1,
            r.minor == 0,
            r.patch == 0,
            r.prerelease is None,
    {
        SemVer { major: self.major + 1, minor: 0, patch: 0, prerelease: None }
    }

    /// A copy with `minor` incremented and lower parts reset.
    pub fn bump_minor(&self) -> (r: SemVer)
        requires
            self.minor < u64::MAX,
        ensures
            r.major == self.major,
            r.minor == self.minor + 1,
            r.patch == 0,
            r.prerelease is None,
    {
        SemVer { major: self.major, minor: self.minor + 1, patch: 0, prerelease: None }
    }

    /// A copy with `patch` incremented and the prerelease cleared.
    pub fn bump_patch(&self) -> (r: SemVer)
        requires
            self.patch < u64::MAX,
        ensures
            r.major == self.major,
            r.minor == self.minor,
            r.patch == self.patch + 1,
            r.prerelease is None,
    {
        SemVer { major: self.major, minor: self.minor, patch: self.patch + 1, prerelease: None }
    }

    fn push_text(&self, out: &mut Vec<char>)
        ensures
            final(out)@ == old(out)@ + version_text(*self),
    {
        push_decimal(out, self.major);
        out.push('.');
        push_decimal(out, self.minor);
        out.push('.');
        push_decimal(out, self.patch);
        if let Some(p) = &self.prerelease {
            out.push('-');
            extend_str(out, p.as_str());
        }
        assert(out@ =~= old(out)@ + version_text(*self));
    }

    /// The version as `MAJOR.MINOR.PATCH[-PRERELEASE]` (its `Display` text).
    pub fn version_string(&self) -> (r: String)
        ensures
            r@ == version_text(*self),
    {
        let mut out: Vec<char> = Vec::new();
        self.push_text(&mut out);
        assert(out@ =~= version_text(*self));
        string_of(&out)
    }

    /// The version as a git tag string with a leading `v`.
    pub fn to_tag(&self) -> (r: String)
        ensures
            r@ == tag_text(*self),
    {
        let mut out: Vec<char> = Vec::new();
        out.push('v');
        self.push_text(&mut out);
        assert(out@ =~= tag_text(*self));
        string_of(&out)
    }
}


// ---------------------------------------------------------------------------
// Executable ordering
// ---------------------------------------------------------------------------

/// The `Ordering` for a three-way comparison result.
pub open spec fn ordering_from(i: int) -> Ordering {
    if i < 0 {
        Ordering::Less
    } else if i > 0 {
        Ordering::Greater
    } else {
        Ordering::Equal
    }
}

fn sign_u64(a: u64, b: u64) -> (r: i8)
    ensures
        r as int == sign_of_difference(a as int, b as int),
{
    if a < b {
        -1
    } else if a > b {
        1
    } else {
        0
    }
}

fn split_prerelease(p: &Vec<char>) -> (r: (Vec<char>, Option<u64>))
    ensures
        (r.0@, r.1) == prerelease_key(p@),
{
    proof {
        lemma_find_char(p@, '.');
    }
    match find_char_index(p, '.') {
        Some(k) => {
            assert(k < p.len());
            let label = slice_chars(p, 0, k);
            let rest = slice_chars(p, k + 1, p.len());
            proof {
                assert(p@.subrange(0, k as int) =~= p@.take(k as int));
                assert(p@.subrange(k + 1, p@.len() as int) =~= p@.skip(k + 1));
            }
            (label, parse_u64(&rest))
        },
        None => {
            let all = slice_chars(p, 0, p.len());
            assert(p@.subrange(0, p@.len() as int) =~= p@);
            (all, None)
        },
    }
}

fn compare_prerelease(a: &Option<String>, b: &Option<String>) -> (r: i8)
    ensures
        r as int == prerelease_order(
            match a { Some(p) => Some(p@), None => None },
            match b { Some(p) => Some(p@), None => None },
        ),
{
    match (a, b) {
        (None, None) => 0,
        (None, Some(_)) => 1,
        (Some(_), None) => -1,
        (Some(x), Some(y)) => {
            let xc = chars_of(x.as_str());
            let yc = chars_of(y.as_str());
            let kx = split_prerelease(&xc);
            let ky = split_prerelease(&yc);
            let l = text_compare(&kx.0, &ky.0);
            if l != 0 {
                l
            } else {
                match (kx.1, ky.1) {
                    (None, None) => 0,
                    (None, Some(_)) => -1,
                    (Some(_), None) => 1,
                    (Some(m), Some(n)) => sign_u64(m, n),
                }
            }
        },
    }
}

impl SemVer {
    /// Three-way comparison of two versions (see [`version_order`]).
    pub fn compare(&self, other: &SemVer) -> (r: Ordering)
        ensures
            r == ordering_from(version_order(*self, *other)),
    {
        let c = if self.major != other.major {
            sign_u64(self.major, other.major)
        } else if self.minor != other.minor {
            sign_u64(self.minor, other.minor)
        } else if self.patch != other.patch {
            sign_u64(self.patch, other.patch)
        } else {
            compare_prerelease(&self.prerelease, &other.prerelease)
        };
        if c < 0 {
            Ordering::Less
        } else if c > 0 {
            Ordering::Greater
        } else {
            Ordering::Equal
        }
    }
}

impl SemVer {
    /// Whether this version comes strictly after `other`.
    pub fn is_newer_than(&self, other: &SemVer) -> (r: bool)
        ensures
            r == (version_order(*self, *other) > 0),
    {
        match self.compare(other) {
            Ordering::Greater => true,
            Ordering::Less => false,
            Ordering::Equal => false,
        }
    }
}

impl PartialOrd for SemVer {
    fn partial_cmp(&self, other: &SemVer) -> (r: Option<Ordering>) {
        Some(self.compare(other))
    }
}

impl vstd::std_specs::cmp::PartialOrdSpecImpl for SemVer {
    open spec fn obeys_partial_cmp_spec() -> bool {
        true
    }

    open spec fn partial_cmp_spec(&self, other: &SemVer) -> Option<Ordering> {
        Some(ordering_from(version_order(*self, *other)))
    }
}


// ---------------------------------------------------------------------------
// Laws of the ordering
// ---------------------------------------------------------------------------

proof fn lemma_prerelease_order_props(a: Option<Seq<char>>, b: Option<Seq<char>>)
    ensures
        prerelease_order(a, b) == -prerelease_order(b, a),
        -1 <= prerelease_order(a, b) <= 1,
{
    if let (Some(x), Some(y)) = (a, b) {
        lemma_text_order_props(prerelease_key(x).0, prerelease_key(y).0);
    }
}

proof fn lemma_prerelease_order_transitive(a: Option<Seq<char>>, b: Option<Seq<char>>, c: Option<Seq<char>>)
    requires
        prerelease_order(a, b) <= 0,
        prerelease_order(b, c) <= 0,
    ensures
        prerelease_order(a, c) <= 0,
        (prerelease_order(a, b) < 0 || prerelease_order(b, c) < 0) ==> prerelease_order(a, c) < 0,
{
    if let (Some(x), Some(y), Some(z)) = (a, b, c) {
        let (kx, ky, kz) = (prerelease_key(x), prerelease_key(y), prerelease_key(z));
        lemma_text_order_props(kx.0, ky.0);
        lemma_text_order_props(ky.0, kz.0);
        lemma_text_order_props(kx.0, kz.0);
        if text_order(kx.0, ky.0) <= 0 && text_order(ky.0, kz.0) <= 0 {
            lemma_text_order_transitive(kx.0, ky.0, kz.0);
        }
    }
}

/// Every version is equivalent to itself.
pub proof fn law_order_reflexive(a: SemVer)
    ensures
        version_order(a, a) == 0,
{
    if let Some(p) = pre_text(a) {
        lemma_text_order_props(prerelease_key(p).0, prerelease_key(p).0);
    }
}

/// Swapping the operands negates the comparison.
pub proof fn law_order_antisymmetric(a: SemVer, b: SemVer)
    ensures
        version_order(a, b) == -version_order(b, a),
        -1 <= version_order(a, b) <= 1,
{
    lemma_prerelease_order_props(pre_text(a), pre_text(b));
}

/// The order is transitive, and strictly so when either step is strict.
pub proof fn law_order_transitive(a: SemVer, b: SemVer, c: SemVer)
    requires
        version_order(a, b) <= 0,
        version_order(b, c) <= 0,
    ensures
        version_order(a, c) <= 0,
        (version_order(a, b) < 0 || version_order(b, c) < 0) ==> version_order(a, c) < 0,
{
    if a.major == b.major && b.major == c.major && a.minor == b.minor && b.minor == c.minor
        && a.patch == b.patch && b.patch == c.patch {
        lemma_prerelease_order_transitive(pre_text(a), pre_text(b), pre_text(c));
    }
}

/// A prerelease number, when there is one, is a `u64` written without
/// leading zeros.
pub open spec fn has_canonical_number(v: SemVer) -> bool {
    match pre_text(v) {
        Some(p) => match split_once(p, '.') {
            Some((_, n)) => parsed_u64(n) matches Some(x) && n == decimal(x as nat),
            None => true,
        },
        None => true,
    }
}

proof fn lemma_split_once_rejoins(p: Seq<char>)
    requires
        split_once(p, '.') is Some,
    ensures
        p == (split_once(p, '.')->0).0 + seq!['.'] + (split_once(p, '.')->0).1,
{
    lemma_find_char(p, '.');
    let k = find_char(p, '.')->0;
    assert(p =~= p.take(k) + seq!['.'] + p.skip(k + 1));
}

/// Two versions compare equal exactly when they have the same numbers and
/// the same prerelease identifier, when prerelease numbers are written
/// canonically (`1.0.0-a.01` and `1.0.0-a.1` compare equal otherwise).
pub proof fn law_order_equal_means_same(a: SemVer, b: SemVer)
    requires
        has_canonical_number(a),
        has_canonical_number(b),
    ensures
        (version_order(a, b) == 0) <==> (a.major == b.major && a.minor == b.minor && a.patch
            == b.patch && pre_text(a) == pre_text(b)),
{
    law_order_reflexive(a);
    if version_order(a, b) == 0 && a.major == b.major && a.minor == b.minor && a.patch == b.patch {
        match (pre_text(a), pre_text(b)) {
            (Some(x), Some(y)) => {
                let kx = prerelease_key(x);
                let ky = prerelease_key(y);
                lemma_text_order_props(kx.0, ky.0);
                assert(kx.0 == ky.0);
                assert(kx.1 == ky.1);
                match (split_once(x, '.'), split_once(y, '.')) {
                    (Some(sx), Some(sy)) => {
                        lemma_split_once_rejoins(x);
                        lemma_split_once_rejoins(y);
                        assert(sx.1 == sy.1);
                    },
                    (None, None) => {},
                    (Some(sx), None) => {
                        assert(kx.1 is Some);
                    },
                    (None, Some(sy)) => {
                        assert(ky.1 is Some);
                    },
                }
            },
            _ => {},
        }
    }
}

/// A release comes after every prerelease of the same version.
pub proof fn law_release_after_prerelease(release: SemVer, pre: SemVer)
    requires
        release.major == pre.major,
        release.minor == pre.minor,
        release.patch == pre.patch,
        release.prerelease is None,
        pre.prerelease is Some,
    ensures
        version_order(release, pre) == 1,
{
}

/// Bumping the major version yields a newer version.
pub proof fn law_bump_major_is_newer(v: SemVer, bumped: SemVer)
    requires
        v.major < u64::MAX,
        bumped.major == v.major + 1,
        bumped.minor == 0,
        bumped.patch == 0,
        bumped.prerelease is None,
    ensures
        version_order(bumped, v) == 1,
{
}

/// Bumping the minor version yields a newer version.
pub proof fn law_bump_minor_is_newer(v: SemVer, bumped: SemVer)
    requires
        v.minor < u64::MAX,
        bumped.major == v.major,
        bumped.minor == v.minor + 1,
        bumped.patch == 0,
        bumped.prerelease is None,
    ensures
        version_order(bumped, v) == 1,
{
}

/// Bumping the patch version yields a newer version.
pub proof fn law_bump_patch_is_newer(v: SemVer, bumped: SemVer)
    requires
        v.patch < u64::MAX,
        bumped.major == v.major,
        bumped.minor == v.minor,
        bumped.patch == v.patch + 1,
        bumped.prerelease is None,
    ensures
        version_order(bumped, v) == 1,
{
}


// ---------------------------------------------------------------------------
// Laws of rendering and parsing
// ---------------------------------------------------------------------------

/// A version whose prerelease identifier, if any, is one the parser accepts.
pub open spec fn has_valid_prerelease(v: SemVer) -> bool {
    match pre_text(v) {
        Some(p) => is_prerelease_text(p),
        None => true,
    }
}

proof fn lemma_concat_lacks(a: Seq<char>, b: Seq<char>, c: char)
    requires
        !a.contains(c),
        !b.contains(c),
    ensures
        !(a + b).contains(c),
{
    if (a + b).contains(c) {
        let k = choose|k: int| 0 <= k < (a + b).len() && (a + b)[k] == c;
        if k < a.len() {
            assert(a[k] == c);
        } else {
            assert(b[k - a.len()] == c);
        }
    }
}

proof fn lemma_decimal_field(n: nat)
    ensures
        is_number_field(decimal(n)),
        !decimal(n).contains('.'),
        !decimal(n).contains('-'),
        decimal(n).len() > 0,
        !is_ws(decimal(n)[0]),
        !is_ws(decimal(n).last()),
        decimal(n)[0] != 'v',
{
    lemma_decimal_roundtrip(n);
    let d = decimal(n);
    assert(all_ascii_digits(d));
    assert(is_ascii_digit(d[0]));
    assert(is_ascii_digit(d.last()));
    if d[0] == '0' {
        assert(d =~= seq!['0']);
    }
    assert forall|i: int| 1 <= i < d.len() implies is_decimal_number(#[trigger] d[i]) by {
        assert(is_ascii_digit(d[i]));
    }
    assert(!d.contains('.')) by {
        if d.contains('.') {
            let k = choose|k: int| 0 <= k < d.len() && d[k] == '.';
            assert(is_ascii_digit(d[k]));
        }
    }
    assert(!d.contains('-')) by {
        if d.contains('-') {
            let k = choose|k: int| 0 <= k < d.len() && d[k] == '-';
            assert(is_ascii_digit(d[k]));
        }
    }
}

proof fn lemma_label_shape(l: Seq<char>)
    requires
        is_label(l),
    ensures
        !l.contains('.'),
        !l.contains('-'),
        !is_ws(l[0]),
        !is_ws(l.last()),
{
    assert(is_ascii_alnum(l[l.len() - 1]));
    assert(!l.contains('.')) by {
        if l.contains('.') {
            let k = choose|k: int| 0 <= k < l.len() && l[k] == '.';
            assert(is_ascii_alnum(l[k]));
        }
    }
    assert(!l.contains('-')) by {
        if l.contains('-') {
            let k = choose|k: int| 0 <= k < l.len() && l[k] == '-';
            assert(is_ascii_alnum(l[k]));
        }
    }
}

proof fn lemma_run_shape(n: Seq<char>)
    requires
        is_decimal_run(n),
    ensures
        !n.contains('.'),
        !n.contains('-'),
        !is_ws(n.last()),
{
    assert(is_decimal_number(n[n.len() - 1]));
    assert(!n.contains('.')) by {
        if n.contains('.') {
            let k = choose|k: int| 0 <= k < n.len() && n[k] == '.';
            assert(is_decimal_number(n[k]));
        }
    }
    assert(!n.contains('-')) by {
        if n.contains('-') {
            let k = choose|k: int| 0 <= k < n.len() && n[k] == '-';
            assert(is_decimal_number(n[k]));
        }
    }
}

proof fn lemma_fields_of_version_text(v: SemVer)
    requires
        has_valid_prerelease(v),
    ensures
        version_fields(version_text(v)) == Some(
            (decimal(v.major as nat), decimal(v.minor as nat), decimal(v.patch as nat), pre_text(v)),
        ),
        version_fields(tag_text(v)) == version_fields(version_text(v)),
        !is_ws(version_text(v)[0]),
        !is_ws(version_text(v).last()),
{
    let a = decimal(v.major as nat);
    let b = decimal(v.minor as nat);
    let c = decimal(v.patch as nat);
    lemma_decimal_field(v.major as nat);
    lemma_decimal_field(v.minor as nat);
    lemma_decimal_field(v.patch as nat);
    let vt = version_text(v);
    let sfx: Seq<char> = match pre_text(v) {
        Some(p) => seq!['-'] + p,
        None => Seq::empty(),
    };
    let cs = c + sfx;
    assert(vt =~= a + seq!['.'] + (b + seq!['.'] + cs));
    lemma_split_on_concat(a, '.', b + seq!['.'] + cs);
    lemma_split_on_concat(b, '.', cs);
    assert(vt[0] == a[0]);
    assert(tag_text(v).drop_first() =~= vt);
    match pre_text(v) {
        None => {
            assert(cs =~= c);
            lemma_split_on_absent(c, '.');
            lemma_split_on_absent(c, '-');
            assert(split_on(vt, '.') =~= seq![a, b, c]);
            assert(vt.last() == c.last());
        },
        Some(p) => {
            lemma_find_char(p, '.');
            match split_once(p, '.') {
                None => {
                    lemma_label_shape(p);
                    lemma_concat_lacks(c, seq!['-'], '.');
                    lemma_concat_lacks(c + seq!['-'], p, '.');
                    assert(cs =~= c + seq!['-'] + p);
                    lemma_split_on_absent(cs, '.');
                    lemma_split_on_concat(c, '-', p);
                    lemma_split_on_absent(p, '-');
                    assert(split_on(vt, '.') =~= seq![a, b, cs]);
                    assert(split_on(cs, '-') =~= seq![c, p]);
                    assert(vt.last() == p.last());
                },
                Some((l, n)) => {
                    let k = find_char(p, '.')->0;
                    lemma_label_shape(l);
                    lemma_run_shape(n);
                    assert(p =~= l + seq!['.'] + n);
                    let head = c + seq!['-'] + l;
                    lemma_concat_lacks(c, seq!['-'], '.');
                    lemma_concat_lacks(c + seq!['-'], l, '.');
                    assert(cs =~= head + seq!['.'] + n);
                    lemma_split_on_concat(head, '.', n);
                    lemma_split_on_absent(n, '.');
                    lemma_split_on_concat(c, '-', l);
                    lemma_split_on_absent(l, '-');
                    assert(split_on(vt, '.') =~= seq![a, b, head, n]);
                    assert(split_on(head, '-') =~= seq![c, l]);
                    assert(vt.last() == n.last());
                },
            }
        },
    }
}

proof fn lemma_trim_unchanged(s: Seq<char>)
    requires
        s.len() > 0,
        !is_ws(s[0]),
        !is_ws(s.last()),
    ensures
        trim(s) == s,
{
    lemma_trim_start_skip(s, 0);
    assert(s.skip(0) =~= s);
    lemma_trim_end_take(s, s.len() as int);
    assert(s.take(s.len() as int) =~= s);
}

/// The tag of a version parses back to the same version.
pub proof fn law_tag_parses_back(v: SemVer)
    requires
        has_valid_prerelease(v),
    ensures
        !parse_is_undefined(tag_text(v)),
        version_fields(trim(tag_text(v))) matches Some(f) && version_of_fields(f, v),
{
    lemma_fields_of_version_text(v);
    let t = tag_text(v);
    assert(t.last() == version_text(v).last());
    lemma_trim_unchanged(t);
    lemma_decimal_roundtrip(v.major as nat);
    lemma_decimal_roundtrip(v.minor as nat);
    lemma_decimal_roundtrip(v.patch as nat);
}

/// The rendered version parses back to the same version.
pub proof fn law_version_text_parses_back(v: SemVer)
    requires
        has_valid_prerelease(v),
    ensures
        !parse_is_undefined(version_text(v)),
        version_fields(trim(version_text(v))) matches Some(f) && version_of_fields(f, v),
{
    lemma_fields_of_version_text(v);
    lemma_trim_unchanged(version_text(v));
    lemma_decimal_roundtrip(v.major as nat);
    lemma_decimal_roundtrip(v.minor as nat);
    lemma_decimal_roundtrip(v.patch as nat);
}

/// Every version the parser produces has a valid prerelease identifier, so
/// its tag parses back to it.
pub proof fn law_parsed_versions_are_valid(t: Seq<char>, v: SemVer)
    requires
        version_fields(t) matches Some(f) && version_of_fields(f, v),
    ensures
        has_valid_prerelease(v),
{
    let body = if t.len() > 0 && t[0] == 'v' { t.drop_first() } else { t };
    let parts = split_on(body, '.');
    let tail = split_on(parts[2], '-');
    lemma_split_on_nonempty(parts[2], '-');
    if tail.len() == 2 {
        let l = tail[1];
        lemma_label_shape(l);
        if parts.len() == 4 {
            let n = parts[3];
            let p = l + seq!['.'] + n;
            assert forall|j: int| 0 <= j < l.len() implies p[j] != '.' by {
                assert(p[j] == l[j]);
                if l[j] == '.' {
                    assert(l.contains('.'));
                }
            }
            crate::text::lemma_find_char_at(p, '.', l.len() as int);
            assert(p.take(l.len() as int) =~= l);
            assert(p.skip(l.len() as int + 1) =~= n);
        } else {
            crate::text::lemma_find_char_none(l, '.');
        }
    }
}


// ---------------------------------------------------------------------------
// Ordering version texts
// ---------------------------------------------------------------------------

/// The order of two versions given by their textual fields (the order of
/// the versions they denote).
pub open spec fn fields_order(
    f: (Seq<char>, Seq<char>, Seq<char>, Option<Seq<char>>),
    g: (Seq<char>, Seq<char>, Seq<char>, Option<Seq<char>>),
) -> int {
    let (fa, fb, fc) = (parsed_u64(f.0)->0, parsed_u64(f.1)->0, parsed_u64(f.2)->0);
    let (ga, gb, gc) = (parsed_u64(g.0)->0, parsed_u64(g.1)->0, parsed_u64(g.2)->0);
    if fa != ga {
        sign_of_difference(fa as int, ga as int)
    } else if fb != gb {
        sign_of_difference(fb as int, gb as int)
    } else if fc != gc {
        sign_of_difference(fc as int, gc as int)
    } else {
        prerelease_order(f.3, g.3)
    }
}

/// The order of two version strings that parse (see [`fields_order`]).
pub open spec fn tag_order(a: Seq<char>, b: Seq<char>) -> int {
    fields_order(version_fields(trim(a))->0, version_fields(trim(b))->0)
}

/// Comparing parsed versions is comparing their texts.
pub proof fn lemma_fields_order(
    f: (Seq<char>, Seq<char>, Seq<char>, Option<Seq<char>>),
    v: SemVer,
    g: (Seq<char>, Seq<char>, Seq<char>, Option<Seq<char>>),
    w: SemVer,
)
    requires
        version_of_fields(f, v),
        version_of_fields(g, w),
    ensures
        fields_order(f, g) == version_order(v, w),
{
}


/// The text of the version that fields denote (its `Display` text).
pub open spec fn fields_text(f: (Seq<char>, Seq<char>, Seq<char>, Option<Seq<char>>)) -> Seq<char> {
    let base = decimal(parsed_u64(f.0)->0 as nat) + seq!['.'] + decimal(parsed_u64(f.1)->0 as nat)
        + seq!['.'] + decimal(parsed_u64(f.2)->0 as nat);
    match f.3 {
        Some(p) => base + seq!['-'] + p,
        None => base,
    }
}

/// A parsed version renders as the text of its fields.
pub proof fn lemma_fields_text(f: (Seq<char>, Seq<char>, Seq<char>, Option<Seq<char>>), v: SemVer)
    requires
        version_of_fields(f, v),
    ensures
        version_text(v) == fields_text(f),
{
}

} // verus!
