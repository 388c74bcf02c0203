//! Format versions of dictionary files, and which of them this library reads.

use vstd::prelude::*;

verus! {

/// The format version that a dictionary file declares: major, minor, patch.
#[derive(Clone, Copy, Debug, PartialEq, Eq, Structural)]
pub struct Version {
    pub major: u64,
    pub minor: u64,
    pub patch: u64,
}

/// Major number of the oldest format that is read.
pub const MINIMAL_MAJOR: u64 = 2;

/// Minor number of the oldest format that is read.
pub const MINIMAL_MINOR: u64 = 8;

/// Patch number of the oldest format that is read.
pub const MINIMAL_PATCH: u64 = 0;

/// `a` is `b` or comes after it: the major numbers decide, then the minor
/// numbers, then the patch numbers.
pub open spec fn version_ge(a: Version, b: Version) -> bool {
    ||| a.major > b.major
    ||| a.major == b.major && a.minor > b.minor
    ||| a.major == b.major && a.minor == b.minor && a.patch >= b.patch
}

/// The oldest format version that is read.
pub open spec fn minimal_version() -> Version {
    Version { major: MINIMAL_MAJOR, minor: MINIMAL_MINOR, patch: MINIMAL_PATCH }
}

/// A file that declares `declared` is read: any version from the oldest
/// supported one on, later major versions included.
pub open spec fn compatible(declared: Version) -> bool {
    version_ge(declared, minimal_version())
}

impl Version {
    #[must_use]
    pub fn new(major: u64, minor: u64, patch: u64) -> (version: Self)
        ensures
            version == (Version { major, minor, patch }),
    {
        Version { major, minor, patch }
    }

    /// Whether this version is `other` or a later one.
    #[must_use]
    pub fn at_least(&self, other: &Version) -> (yes: bool)
        ensures
            yes == version_ge(*self, *other),
    {
        if self.major != other.major {
            self.major > other.major
        } else if self.minor != other.minor {
            self.minor > other.minor
        } else {
            self.patch >= other.patch
        }
    }

    /// Whether a file that declares this version is read.
    #[must_use]
    pub fn is_compatible(&self) -> (yes: bool)
        ensures
            yes == compatible(*self),
    {
        self.at_least(&minimal_odict_version())
    }
}

/// The oldest format version that is read.
#[must_use]
pub fn minimal_odict_version() -> (version: Version)
    ensures
        version == minimal_version(),
{
    Version { major: MINIMAL_MAJOR, minor: MINIMAL_MINOR, patch: MINIMAL_PATCH }
}

/// Of two versions, one is at least the other.
pub proof fn lemma_version_ge_total(a: Version, b: Version)
    ensures
        version_ge(a, b) || version_ge(b, a),
{
}

/// Two versions that are each at least the other are the same version.
pub proof fn lemma_version_ge_antisymmetric(a: Version, b: Version)
    requires
        version_ge(a, b),
        version_ge(b, a),
    ensures
        a == b,
{
}

/// What is at least a version that is at least a third is at least the third.
pub proof fn lemma_version_ge_transitive(a: Version, b: Version, c: Version)
    requires
        version_ge(a, b),
        version_ge(b, c),
    ensures
        version_ge(a, c),
{
}

/// Whatever is at least a version that is read is read too.
pub proof fn lemma_later_versions_compatible(older: Version, newer: Version)
    requires
        compatible(older),
        version_ge(newer, older),
    ensures
        compatible(newer),
{
}

} // verus!
