//! Package specifications `@namespace/name:major.minor.patch`, their
//! textual form and their order.

use crate::text::{
    chars_of, compare_chars, decimal, is_space, decimal_chars, lemma_lex_lt_asymmetric,
    lemma_lex_lt_irreflexive, lemma_lex_lt_transitive, lex_lt, push_all, push_str, string_of,
};
use std::str::FromStr;
use vstd::prelude::*;

verus! {

/// A package version `major.minor.patch`.
#[derive(Clone, Copy, Debug, PartialEq, Eq, Structural)]
pub struct PackageVersion {
    pub major: u32,
    pub minor: u32,
    pub patch: u32,
}

/// A versioned package: `@namespace/name:version`.
#[derive(Debug)]
pub struct PackageSpec {
    pub namespace: String,
    pub name: String,
    pub version: PackageVersion,
}

/// The mathematical value of a package specification.
pub type SpecTuple = (Seq<char>, Seq<char>, (u32, u32, u32));

impl PackageVersion {
    /// The version as a triple.
    pub open spec fn triple(self) -> (u32, u32, u32) {
        (self.major, self.minor, self.patch)
    }
}

impl PackageSpec {
    /// The specification as plain values.
    pub open spec fn tuple(self) -> SpecTuple {
        (self.namespace@, self.name@, self.version.triple())
    }
}

/// `major.minor.patch` in decimal.
pub open spec fn version_text(v: (u32, u32, u32)) -> Seq<char> {
    decimal(v.0 as nat) + seq!['.'] + decimal(v.1 as nat) + seq!['.'] + decimal(v.2 as nat)
}

/// `@namespace/name:major.minor.patch`.
pub open spec fn spec_text(p: SpecTuple) -> Seq<char> {
    seq!['@'] + p.0 + seq!['/'] + p.1 + seq![':'] + version_text(p.2)
}

/// What `typst_syntax::package::PackageSpec::from_str` gives for a text:
/// the namespace, the name and the version numbers, or `None` where it
/// returns an error.
pub uninterp spec fn parsed_package_spec(s: Seq<char>) -> Option<SpecTuple>;

/// The shape of every specification the parser accepts: a non-empty
/// namespace without `/` and a non-empty name without `:`, both without
/// whitespace (they are identifiers).
pub open spec fn spec_shape(t: SpecTuple) -> bool {
    &&& t.0.len() > 0
    &&& !t.0.contains('/')
    &&& t.1.len() > 0
    &&& !t.1.contains(':')
    &&& forall|i: int| 0 <= i < t.0.len() ==> !is_space(#[trigger] t.0[i])
    &&& forall|i: int| 0 <= i < t.1.len() ==> !is_space(#[trigger] t.1[i])
}

/// Parses a package specification with `typst_syntax`'s
/// `PackageSpec::from_str`. Its result is named by `parsed_package_spec`;
/// beside that, the contract states what the parser's source shows of every
/// accepted text: it is `@`, a non-empty namespace without `/`, `/`, a
/// non-empty name without `:`, `:`, and a non-empty version part; namespace
/// and name are identifiers (`is_ident`: XID characters, `_` and `-`), so
/// they hold no whitespace. The identifier rules beyond that and the version
/// grammar are left unsaid.
#[verifier::external_body]
pub(crate) fn parse_package_spec(s: &str) -> (r: Option<PackageSpec>)
    ensures
        match r {
            Some(p) => parsed_package_spec(s@) == Some(p.tuple()),
            None => parsed_package_spec(s@) is None,
        },
        r matches Some(p) ==> {
            &&& spec_shape(p.tuple())
            &&& exists|rest: Seq<char>|
                rest.len() > 0 && s@ == seq!['@'] + p.namespace@ + seq!['/'] + p.name@ + seq![':']
                    + rest
        },
{
    match typst_syntax::package::PackageSpec::from_str(s) {
        Ok(p) => Some(
            PackageSpec {
                namespace: p.namespace.to_string(),
                name: p.name.to_string(),
                version: PackageVersion {
                    major: p.version.major,
                    minor: p.version.minor,
                    patch: p.version.patch,
                },
            },
        ),
        Err(_) => None,
    }
}

impl PackageVersion {
    /// `major.minor.patch`.
    pub fn text_chars(&self) -> (v: Vec<char>)
        ensures
            v@ == version_text(self.triple()),
    {
        let mut v = decimal_chars(self.major as u64);
        v.push('.');
        let minor = decimal_chars(self.minor as u64);
        push_all(&mut v, &minor);
        v.push('.');
        let patch = decimal_chars(self.patch as u64);
        push_all(&mut v, &patch);
        v
    }

    /// `major.minor.patch`, as `Display` writes the version.
    pub fn to_string(&self) -> (s: String)
        ensures
            s@ == version_text(self.triple()),
    {
        string_of(&self.text_chars())
    }
}

impl PackageSpec {
    /// `@namespace/name:major.minor.patch`.
    pub fn text_chars(&self) -> (v: Vec<char>)
        ensures
            v@ == spec_text(self.tuple()),
    {
        let mut v: Vec<char> = Vec::new();
        v.push('@');
        push_str(&mut v, self.namespace.as_str());
        v.push('/');
        push_str(&mut v, self.name.as_str());
        v.push(':');
        let ver = self.version.text_chars();
        push_all(&mut v, &ver);
        v
    }

    /// `@namespace/name:major.minor.patch`, as `Display` writes the specification.
    pub fn to_string(&self) -> (s: String)
        ensures
            s@ == spec_text(self.tuple()),
    {
        string_of(&self.text_chars())
    }
}

/// Version `a` is lower than version `b` (major, then minor, then patch).
pub open spec fn version_lt(a: (u32, u32, u32), b: (u32, u32, u32)) -> bool {
    ||| a.0 < b.0
    ||| a.0 == b.0 && a.1 < b.1
    ||| a.0 == b.0 && a.1 == b.1 && a.2 < b.2
}

/// Versions are ordered as the numbers `major * 2^64 + minor * 2^32 + patch`:
/// major first, then minor, then patch, whatever the later parts hold.
pub proof fn lemma_version_lt_numeric(a: (u32, u32, u32), b: (u32, u32, u32))
    ensures
        version_lt(a, b) <==> (a.0 as int) * 0x1_0000_0000_0000_0000 + (a.1 as int) * 0x1_0000_0000
            + (a.2 as int) < (b.0 as int) * 0x1_0000_0000_0000_0000 + (b.1 as int) * 0x1_0000_0000
            + (b.2 as int),
        a.0 < b.0 ==> version_lt(a, b),
        a.0 == b.0 && a.1 < b.1 ==> version_lt(a, b),
        a.0 == b.0 && a.1 == b.1 && a.2 < b.2 ==> version_lt(a, b),
        version_lt(a, b) ==> a.0 <= b.0,
        a.0 == b.0 && version_lt(a, b) ==> a.1 <= b.1,
        a == b ==> !version_lt(a, b),
{
    let a0 = a.0 as int;
    let a1 = a.1 as int;
    let a2 = a.2 as int;
    let b0 = b.0 as int;
    let b1 = b.1 as int;
    let b2 = b.2 as int;
    let x = a1 * 0x1_0000_0000 + a2;
    let y = b1 * 0x1_0000_0000 + b2;
    assert(0 <= x < 0x1_0000_0000_0000_0000) by (nonlinear_arith)
        requires x == a1 * 0x1_0000_0000 + a2, 0 <= a1 < 0x1_0000_0000, 0 <= a2 < 0x1_0000_0000;
    assert(0 <= y < 0x1_0000_0000_0000_0000) by (nonlinear_arith)
        requires y == b1 * 0x1_0000_0000 + b2, 0 <= b1 < 0x1_0000_0000, 0 <= b2 < 0x1_0000_0000;
    if a0 < b0 {
        assert(a0 * 0x1_0000_0000_0000_0000 + 0x1_0000_0000_0000_0000 <= b0 * 0x1_0000_0000_0000_0000) by (nonlinear_arith)
            requires a0 < b0;
    } else if b0 < a0 {
        assert(b0 * 0x1_0000_0000_0000_0000 + 0x1_0000_0000_0000_0000 <= a0 * 0x1_0000_0000_0000_0000) by (nonlinear_arith)
            requires b0 < a0;
    } else {
        if a1 < b1 {
            assert(a1 * 0x1_0000_0000 + 0x1_0000_0000 <= b1 * 0x1_0000_0000) by (nonlinear_arith)
                requires a1 < b1;
        } else if b1 < a1 {
            assert(b1 * 0x1_0000_0000 + 0x1_0000_0000 <= a1 * 0x1_0000_0000) by (nonlinear_arith)
                requires b1 < a1;
        }
    }
    assert((a.0 as int) * 0x1_0000_0000_0000_0000 + (a.1 as int) * 0x1_0000_0000 + (a.2 as int)
        == a0 * 0x1_0000_0000_0000_0000 + x);
    assert((b.0 as int) * 0x1_0000_0000_0000_0000 + (b.1 as int) * 0x1_0000_0000 + (b.2 as int)
        == b0 * 0x1_0000_0000_0000_0000 + y);
}

/// The listing order: a smaller namespace comes first whatever the names and
/// versions; within a namespace a smaller name comes first whatever the
/// versions; within a name the higher version comes first; equal
/// specifications are not ordered.
pub proof fn lemma_listed_lt_by_parts(a: SpecTuple, b: SpecTuple)
    ensures
        lex_lt(a.0, b.0) ==> listed_lt(a, b),
        a.0 == b.0 && lex_lt(a.1, b.1) ==> listed_lt(a, b),
        a.0 == b.0 && a.1 == b.1 && version_lt(b.2, a.2) ==> listed_lt(a, b),
        a == b ==> !listed_lt(a, b),
        listed_lt(a, b) ==> lex_lt(a.0, b.0) || (a.0 == b.0 && lex_lt(a.1, b.1)) || (a.0 == b.0
            && a.1 == b.1 && version_lt(b.2, a.2)),
{
    lemma_listed_lt_strict(a, b, a);
}

/// The listing order of package specifications: by namespace, then by
/// name, then from the highest version down.
pub open spec fn listed_lt(a: SpecTuple, b: SpecTuple) -> bool {
    ||| lex_lt(a.0, b.0)
    ||| a.0 == b.0 && lex_lt(a.1, b.1)
    ||| a.0 == b.0 && a.1 == b.1 && version_lt(b.2, a.2)
}

/// The listing order is a strict order.
pub proof fn lemma_listed_lt_strict(a: SpecTuple, b: SpecTuple, c: SpecTuple)
    ensures
        !listed_lt(a, a),
        listed_lt(a, b) ==> !listed_lt(b, a),
        listed_lt(a, b) && listed_lt(b, c) ==> listed_lt(a, c),
{
    lemma_lex_lt_irreflexive(a.0);
    lemma_lex_lt_irreflexive(a.1);
    lemma_lex_lt_asymmetric(a.0, b.0);
    lemma_lex_lt_asymmetric(a.1, b.1);
    if lex_lt(a.0, b.0) && lex_lt(b.0, c.0) {
        lemma_lex_lt_transitive(a.0, b.0, c.0);
    }
    if lex_lt(a.1, b.1) && lex_lt(b.1, c.1) {
        lemma_lex_lt_transitive(a.1, b.1, c.1);
    }
}

impl PackageSpec {
    /// A copy with the same contents.
    pub fn duplicate(&self) -> (r: PackageSpec)
        ensures
            r.tuple() == self.tuple(),
    {
        PackageSpec {
            namespace: self.namespace.clone(),
            name: self.name.clone(),
            version: self.version,
        }
    }
}

/// Compares two versions: `-1`, `0` or `1`.
pub fn compare_versions(a: &PackageVersion, b: &PackageVersion) -> (r: i8)
    ensures
        -1 <= r <= 1,
        r == -1 <==> version_lt(a.triple(), b.triple()),
        r == 0 <==> a.triple() == b.triple(),
        r == 1 <==> version_lt(b.triple(), a.triple()),
{
    if a.major != b.major {
        if a.major < b.major { -1 } else { 1 }
    } else if a.minor != b.minor {
        if a.minor < b.minor { -1 } else { 1 }
    } else if a.patch != b.patch {
        if a.patch < b.patch { -1 } else { 1 }
    } else {
        0
    }
}

/// Compares two specifications in listing order: `-1`, `0` or `1`.
pub fn compare_listed(a: &PackageSpec, b: &PackageSpec) -> (r: i8)
    ensures
        -1 <= r <= 1,
        r == -1 <==> listed_lt(a.tuple(), b.tuple()),
        r == 0 <==> a.tuple() == b.tuple(),
        r == 1 <==> listed_lt(b.tuple(), a.tuple()),
{
    proof {
        lemma_listed_lt_strict(a.tuple(), b.tuple(), a.tuple());
        lemma_listed_lt_strict(b.tuple(), a.tuple(), b.tuple());
    }
    let ns = compare_chars(&chars_of(a.namespace.as_str()), &chars_of(b.namespace.as_str()));
    if ns != 0 {
        return ns;
    }
    let name = compare_chars(&chars_of(a.name.as_str()), &chars_of(b.name.as_str()));
    if name != 0 {
        return name;
    }
    let ver = compare_versions(&a.version, &b.version);
    if ver == 0 {
        assert(a.tuple() == b.tuple());
    }
    -ver
}

} // verus!
