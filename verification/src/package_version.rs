//! Package versions `major.minor.patch[-prerelease]`, their text and their order.
use vstd::prelude::*;

use std::cmp::Ordering;

use crate::errors::MycoError;
use crate::numbers::{
    decimal, int_error_message, int_error_text, lemma_decimal_digits, lemma_parse_decimal,
    parse_unsigned, parse_unsigned_chars, push_decimal, IntErrorKind,
};
use crate::text::{
    compare_text, lemma_text_order_flip, lemma_text_order_trans, text_order, Order3,
    find_char, first_index, lemma_first_index_props, lemma_split_append_free, lemma_split_nonempty,
    slice_chars, split_chars, split_seq, str_chars, string_from_chars,
};
use vstd::std_specs::cmp::{PartialEqSpecImpl, PartialOrdSpecImpl};
use vstd::string::StringExecFns;

verus! {

/// A package version. A version with a prerelease sorts before the same
/// version without one.
#[derive(Debug, Clone, Eq, Hash)]
pub struct PackageVersion {
    pub major: u16,
    pub minor: u16,
    pub patch: u16,
    pub prerelease: Option<String>,
}

/// The mathematical content of a version.
pub struct VersionModel {
    pub major: int,
    pub minor: int,
    pub patch: int,
    pub prerelease: Option<Seq<char>>,
}

pub open spec fn opt_string_view(o: Option<String>) -> Option<Seq<char>> {
    match o {
        Some(s) => Some(s@),
        None => None,
    }
}

impl View for PackageVersion {
    type V = VersionModel;

    open spec fn view(&self) -> VersionModel {
        VersionModel {
            major: self.major as int,
            minor: self.minor as int,
            patch: self.patch as int,
            prerelease: opt_string_view(self.prerelease),
        }
    }
}

/// The message that reports a version string with too few dot-separated parts.
pub open spec fn missing_part_text() -> Seq<char> {
    "Invalid version string"@
}

/// The message that reports a part that is not a `u16`.
pub open spec fn bad_part_text(k: IntErrorKind) -> Seq<char> {
    "Invalid version string: "@ + int_error_text(k)
}

/// Drops one leading `v`.
pub open spec fn strip_v(s: Seq<char>) -> Seq<char> {
    if s.len() > 0 && s[0] == 'v' {
        s.drop_first()
    } else {
        s
    }
}

/// Parses the patch part: digits, optionally followed by `-` and the prerelease.
pub open spec fn parse_patch(p: Seq<char>) -> Result<(int, Option<Seq<char>>), Seq<char>> {
    match first_index(p, '-') {
        Some(i) => match parse_unsigned(p.take(i), 65535) {
            Ok(v) => Ok((v, Some(p.skip(i + 1)))),
            Err(k) => Err(bad_part_text(k)),
        },
        None => match parse_unsigned(p, 65535) {
            Ok(v) => Ok((v, None)),
            Err(k) => Err(bad_part_text(k)),
        },
    }
}

/// What `PackageVersion::from_str` gives for `s`: the version, or the error
/// message. After an optional leading `v`, the text is split at `.`; the first
/// three parts are major, minor and patch, and any further parts are ignored.
pub open spec fn parse_version(s: Seq<char>) -> Result<VersionModel, Seq<char>> {
    let parts = split_seq(strip_v(s), '.');
    match parse_unsigned(parts[0], 65535) {
        Err(k) => Err(bad_part_text(k)),
        Ok(major) => if parts.len() < 2 {
            Err(missing_part_text())
        } else {
            match parse_unsigned(parts[1], 65535) {
                Err(k) => Err(bad_part_text(k)),
                Ok(minor) => if parts.len() < 3 {
                    Err(missing_part_text())
                } else {
                    match parse_patch(parts[2]) {
                        Err(m) => Err(m),
                        Ok((patch, prerelease)) => Ok(
                            VersionModel { major, minor, patch, prerelease },
                        ),
                    }
                },
            }
        },
    }
}

/// The text of a version: `major.minor.patch`, then `-prerelease` if there is one.
pub open spec fn version_text(v: VersionModel) -> Seq<char> {
    let base = decimal(v.major as nat).push('.') + decimal(v.minor as nat).push('.') + decimal(
        v.patch as nat,
    );
    match v.prerelease {
        Some(p) => base.push('-') + p,
        None => base,
    }
}

pub open spec fn int_order(a: int, b: int) -> Order3 {
    if a < b {
        Order3::Less
    } else if a > b {
        Order3::Greater
    } else {
        Order3::Equal
    }
}

/// Prereleases compare by text; a prerelease sorts before no prerelease.
pub open spec fn prerelease_order(a: Option<Seq<char>>, b: Option<Seq<char>>) -> Order3 {
    match (a, b) {
        (Some(x), Some(y)) => text_order(x, y),
        (Some(_), None) => Order3::Less,
        (None, Some(_)) => Order3::Greater,
        (None, None) => Order3::Equal,
    }
}

/// The order of versions: major, then minor, then patch, then prerelease.
pub open spec fn version_order(a: VersionModel, b: VersionModel) -> Order3 {
    if int_order(a.major, b.major) != Order3::Equal {
        int_order(a.major, b.major)
    } else if int_order(a.minor, b.minor) != Order3::Equal {
        int_order(a.minor, b.minor)
    } else if int_order(a.patch, b.patch) != Order3::Equal {
        int_order(a.patch, b.patch)
    } else {
        prerelease_order(a.prerelease, b.prerelease)
    }
}

/// The standard ordering that an outcome stands for.
pub open spec fn std_ordering(o: Order3) -> Ordering {
    match o {
        Order3::Less => Ordering::Less,
        Order3::Equal => Ordering::Equal,
        Order3::Greater => Ordering::Greater,
    }
}

pub open spec fn same_version(a: VersionModel, b: VersionModel) -> bool {
    a.major == b.major && a.minor == b.minor && a.patch == b.patch && a.prerelease == b.prerelease
}

fn compare_u16(a: u16, b: u16) -> (r: Order3)
    ensures
        r == int_order(a as int, b as int),
{
    if a < b {
        Order3::Less
    } else if a > b {
        Order3::Greater
    } else {
        Order3::Equal
    }
}

fn parse_part(part: &Vec<char>) -> (r: Result<u16, MycoError>)
    ensures
        match (r, parse_unsigned(part@, 65535)) {
            (Ok(v), Ok(w)) => v as int == w,
            (Err(MycoError::InvalidVersionString(m)), Err(k)) => m@ == bad_part_text(k),
            _ => false,
        },
{
    match parse_unsigned_chars(part.as_slice(), 65535) {
        Ok(v) => Ok(v as u16),
        Err(k) => {
            let mut m = "Invalid version string: ".to_owned();
            let t = int_error_message(k);
            m.append(t.as_str());
            Err(MycoError::InvalidVersionString(m))
        },
    }
}

fn missing_part() -> (e: MycoError)
    ensures
        e matches MycoError::InvalidVersionString(m) && m@ == missing_part_text(),
{
    MycoError::InvalidVersionString("Invalid version string".to_owned())
}

impl PackageVersion {
    /// Parses `[v]major.minor.patch[-prerelease]`.
    pub fn from_str(string: &str) -> (r: Result<Self, MycoError>)
        ensures
            match (r, parse_version(string@)) {
                (Ok(v), Ok(m)) => same_version(v@, m),
                (Err(MycoError::InvalidVersionString(msg)), Err(m)) => msg@ == m,
                _ => false,
            },
    {
        let all = str_chars(string);
        let body = if all.len() > 0 && all[0] == 'v' {
            slice_chars(all.as_slice(), 1, all.len())
        } else {
            all
        };
        proof {
            assert(body@ =~= strip_v(string@));
        }
        let parts = split_chars(body.as_slice(), '.');
        proof {
            lemma_split_nonempty(body@, '.');
        }
        let major = parse_part(&parts[0])?;
        if parts.len() < 2 {
            return Err(missing_part());
        }
        let minor = parse_part(&parts[1])?;
        if parts.len() < 3 {
            return Err(missing_part());
        }
        let patch_string = &parts[2];
        match find_char(patch_string.as_slice(), '-') {
            Some(index) => {
                let digits = slice_chars(patch_string.as_slice(), 0, index);
                let pre = slice_chars(patch_string.as_slice(), index + 1, patch_string.len());
                proof {
                    assert(digits@ =~= patch_string@.take(index as int));
                    assert(pre@ =~= patch_string@.skip(index + 1));
                }
                let patch = parse_part(&digits)?;
                Ok(PackageVersion {
                    major,
                    minor,
                    patch,
                    prerelease: Some(string_from_chars(pre.as_slice())),
                })
            },
            None => {
                let patch = parse_part(patch_string)?;
                Ok(PackageVersion { major, minor, patch, prerelease: None })
            },
        }
    }

    /// The text `major.minor.patch[-prerelease]`.
    pub fn to_string(&self) -> (r: String)
        ensures
            r@ == version_text(self@),
    {
        let mut out: Vec<char> = Vec::new();
        push_decimal(&mut out, self.major as u64);
        out.push('.');
        push_decimal(&mut out, self.minor as u64);
        out.push('.');
        push_decimal(&mut out, self.patch as u64);
        let ghost base = out@;
        match &self.prerelease {
            Some(p) => {
                out.push('-');
                let chars = str_chars(p.as_str());
                let ghost dash = out@;
                let mut j: usize = 0;
                while j < chars.len()
                    invariant
                        j <= chars@.len(),
                        out@ == dash + chars@.take(j as int),
                    decreases chars.len() - j,
                {
                    out.push(chars[j]);
                    proof {
                        assert(chars@.take(j + 1) =~= chars@.take(j as int).push(chars@[j as int]));
                    }
                    j = j + 1;
                }
                proof {
                    assert(chars@.take(chars@.len() as int) =~= chars@);
                }
            },
            None => {},
        }
        proof {
            assert(out@ =~= version_text(self@));
        }
        string_from_chars(out.as_slice())
    }

    /// Compares two versions: major, minor and patch numerically, then the
    /// prerelease, where a prerelease sorts before none.
    pub fn compare(&self, other: &Self) -> (r: Ordering)
        ensures
            r == std_ordering(version_order(self@, other@)),
    {
        let o = self.order(other);
        match o {
            Order3::Less => Ordering::Less,
            Order3::Equal => Ordering::Equal,
            Order3::Greater => Ordering::Greater,
        }
    }

    /// The outcome of comparing two versions.
    pub fn order(&self, other: &Self) -> (r: Order3)
        ensures
            r == version_order(self@, other@),
    {
        let major = compare_u16(self.major, other.major);
        if major != Order3::Equal {
            return major;
        }
        let minor = compare_u16(self.minor, other.minor);
        if minor != Order3::Equal {
            return minor;
        }
        let patch = compare_u16(self.patch, other.patch);
        if patch != Order3::Equal {
            return patch;
        }
        match (&self.prerelease, &other.prerelease) {
            (Some(a), Some(b)) => compare_text(a.as_str(), b.as_str()),
            (Some(_), None) => Order3::Less,
            (None, Some(_)) => Order3::Greater,
            (None, None) => Order3::Equal,
        }
    }

    /// Whether both versions have the same numbers and prerelease.
    pub fn same(&self, other: &Self) -> (r: bool)
        ensures
            r == same_version(self@, other@),
    {
        if self.major != other.major || self.minor != other.minor || self.patch != other.patch {
            return false;
        }
        match (&self.prerelease, &other.prerelease) {
            (Some(a), Some(b)) => a.eq(b),
            (None, None) => true,
            _ => false,
        }
    }

    /// A copy of this version.
    pub fn duplicate(&self) -> (r: Self)
        ensures
            r@ == self@,
    {
        PackageVersion {
            major: self.major,
            minor: self.minor,
            patch: self.patch,
            prerelease: match &self.prerelease {
                Some(p) => Some(p.clone()),
                None => None,
            },
        }
    }

    /// The next major version: major + 1, with minor and patch reset and no prerelease.
    pub fn next_major(&self) -> (r: Self)
        requires
            self.major < u16::MAX,
        ensures
            r@ == (VersionModel {
                major: self.major + 1,
                minor: 0,
                patch: 0,
                prerelease: None,
            }),
    {
        PackageVersion { major: self.major + 1, minor: 0, patch: 0, prerelease: None }
    }

    /// The next minor version: minor + 1, with patch reset and no prerelease.
    pub fn next_minor(&self) -> (r: Self)
        requires
            self.minor < u16::MAX,
        ensures
            r@ == (VersionModel {
                major: self.major as int,
                minor: self.minor + 1,
                patch: 0,
                prerelease: None,
            }),
    {
        PackageVersion { major: self.major, minor: self.minor + 1, patch: 0, prerelease: None }
    }

    /// The next patch version: patch + 1, without prerelease.
    pub fn next_patch(&self) -> (r: Self)
        requires
            self.patch < u16::MAX,
        ensures
            r@ == (VersionModel {
                major: self.major as int,
                minor: self.minor as int,
                patch: self.patch + 1,
                prerelease: None,
            }),
    {
        PackageVersion {
            major: self.major,
            minor: self.minor,
            patch: self.patch + 1,
            prerelease: None,
        }
    }
}

impl PartialEq for PackageVersion {
    fn eq(&self, other: &Self) -> (r: bool) {
        self.same(other)
    }
}

impl PartialEqSpecImpl for PackageVersion {
    open spec fn obeys_eq_spec() -> bool {
        true
    }

    open spec fn eq_spec(&self, other: &Self) -> bool {
        same_version(self@, other@)
    }
}

impl PartialOrd for PackageVersion {
    fn partial_cmp(&self, other: &Self) -> (r: Option<Ordering>) {
        Some(self.compare(other))
    }
}

impl PartialOrdSpecImpl for PackageVersion {
    open spec fn obeys_partial_cmp_spec() -> bool {
        true
    }

    open spec fn partial_cmp_spec(&self, other: &Self) -> Option<Ordering> {
        Some(std_ordering(version_order(self@, other@)))
    }
}

/// A version model whose numbers fit in `u16` and whose prerelease holds no `.`.
pub open spec fn representable(v: VersionModel) -> bool {
    &&& 0 <= v.major <= 65535
    &&& 0 <= v.minor <= 65535
    &&& 0 <= v.patch <= 65535
    &&& v.prerelease matches Some(p) ==> !p.contains('.')
}

proof fn lemma_decimal_free(n: nat, c: char)
    requires
        c == '.' || c == '-',
    ensures
        !decimal(n).contains(c),
{
    lemma_decimal_digits(n);
    assert forall|i: int| 0 <= i < decimal(n).len() implies decimal(n)[i] != c by {
        assert(crate::numbers::is_digit(decimal(n)[i]));
    }
}

/// Parsing the text of a version gives the version back.
pub proof fn law_version_text_roundtrip(v: VersionModel)
    requires
        representable(v),
    ensures
        parse_version(version_text(v)) matches Ok(w) && same_version(w, v),
{
    let a = decimal(v.major as nat);
    let b = decimal(v.minor as nat);
    let d = decimal(v.patch as nat);
    let c = match v.prerelease {
        Some(p) => d.push('-') + p,
        None => d,
    };
    lemma_decimal_free(v.major as nat, '.');
    lemma_decimal_free(v.minor as nat, '.');
    lemma_decimal_free(v.patch as nat, '.');
    lemma_decimal_free(v.patch as nat, '-');
    lemma_decimal_digits(v.major as nat);
    assert(!c.contains('.')) by {
        if let Some(p) = v.prerelease {
            assert forall|i: int| 0 <= i < c.len() implies c[i] != '.' by {
                if i < d.len() {
                    assert(c[i] == d[i]);
                } else if i > d.len() {
                    assert(c[i] == p[i - d.len() - 1]);
                }
            }
        }
    }
    let parts = seq![a, b, c];
    let t = version_text(v);
    assert(parts.drop_last().drop_last() =~= seq![a]);
    assert(parts.drop_last() =~= seq![a, b]);
    assert(crate::text::join_seq(seq![a], '.') == a);
    assert(crate::text::join_seq(seq![a, b], '.') == a.push('.') + b);
    assert(crate::text::join_seq(parts, '.') == (a.push('.') + b).push('.') + c);
    assert(crate::text::join_seq(parts, '.') =~= t);
    crate::text::lemma_split_join(parts, '.');
    assert(t[0] == a[0]);
    assert(strip_v(t) == t);
    lemma_parse_decimal(v.major as nat, 65535);
    lemma_parse_decimal(v.minor as nat, 65535);
    lemma_parse_decimal(v.patch as nat, 65535);
    lemma_first_index_props(c, '-');
    match v.prerelease {
        Some(p) => {
            assert(c[d.len() as int] == '-');
            assert(first_index(c, '-') == Some(d.len() as int)) by {
                match first_index(c, '-') {
                    Some(k) => {
                        if k < d.len() {
                            assert(c[k] == d[k]);
                        }
                    },
                    None => {
                        assert(c.contains('-'));
                    },
                }
            }
            assert(c.take(d.len() as int) =~= d);
            assert(c.skip(d.len() as int + 1) =~= p);
        },
        None => {},
    }
}

/// The order of versions is antisymmetric, and two versions compare equal
/// exactly when they are the same version.
pub proof fn law_version_order_antisymmetric(a: VersionModel, b: VersionModel)
    ensures
        (version_order(a, b) == Order3::Less) <==> (version_order(b, a) == Order3::Greater),
        (version_order(a, b) == Order3::Equal) <==> same_version(a, b),
{
    match (a.prerelease, b.prerelease) {
        (Some(x), Some(y)) => {
            lemma_text_order_flip(x, y);
        },
        _ => {},
    }
}

/// The order of versions is transitive.
pub proof fn law_version_order_transitive(a: VersionModel, b: VersionModel, c: VersionModel)
    requires
        version_order(a, b) == Order3::Less,
        version_order(b, c) == Order3::Less,
    ensures
        version_order(a, c) == Order3::Less,
{
    if a.major == b.major && b.major == c.major && a.minor == b.minor && b.minor == c.minor
        && a.patch == b.patch && b.patch == c.patch {
        match (a.prerelease, b.prerelease, c.prerelease) {
            (Some(x), Some(y), Some(z)) => {
                lemma_text_order_trans(x, y, z);
            },
            _ => {},
        }
    }
}

/// Versions order by major number first, then minor, then patch, and a
/// prerelease sorts before the release of the same numbers.
pub proof fn law_version_order_by_parts(a: VersionModel, b: VersionModel)
    ensures
        a.major < b.major ==> version_order(a, b) == Order3::Less,
        a.major == b.major && a.minor < b.minor ==> version_order(a, b) == Order3::Less,
        a.major == b.major && a.minor == b.minor && a.patch < b.patch ==> version_order(a, b) == Order3::Less,
        a.major == b.major && a.minor == b.minor && a.patch == b.patch && a.prerelease is Some && b.prerelease is None
            ==> version_order(a, b) == Order3::Less,
        a.major > b.major ==> version_order(a, b) == Order3::Greater,
{
}

/// Each of the next versions sorts after the version it was made from.
pub proof fn law_next_versions_increase(v: VersionModel)
    ensures
        version_order(v, VersionModel { major: v.major + 1, minor: 0, patch: 0, prerelease: None })
            == Order3::Less,
        version_order(v, VersionModel { major: v.major, minor: v.minor + 1, patch: 0, prerelease: None })
            == Order3::Less,
        version_order(
            v,
            VersionModel { major: v.major, minor: v.minor, patch: v.patch + 1, prerelease: None },
        ) == Order3::Less,
{
}

} // verus!
