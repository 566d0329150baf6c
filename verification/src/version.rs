//! API revision numbers with a total order.

use vstd::prelude::*;

verus! {

/// A major/minor/patch revision number.
///
/// Versions are ordered lexicographically: first by major, then by minor,
/// then by patch.
#[derive(Clone, Copy, Debug, PartialEq, Eq, Structural, Hash)]
pub struct Version {
    pub major: u32,
    pub minor: u32,
    pub patch: u32,
}

/// Lexicographic order on versions: `a` is no later than `b`.
pub open spec fn version_le(a: Version, b: Version) -> bool {
    if a.major != b.major {
        a.major < b.major
    } else if a.minor != b.minor {
        a.minor < b.minor
    } else {
        a.patch <= b.patch
    }
}

impl Version {
    pub fn new(major: u32, minor: u32, patch: u32) -> (r: Self)
        ensures
            r.major == major,
            r.minor == minor,
            r.patch == patch,
    {
        Self { major, minor, patch }
    }

    /// Unpack a version packed into one word: ten bits of major, ten of
    /// minor, twelve of patch.
    pub fn from_vk_version(version: u32) -> (r: Self)
        ensures
            r.major == (version >> 22) & 0x3FF,
            r.minor == (version >> 12) & 0x3FF,
            r.patch == version & 0xFFF,
    {
        let major = (version >> 22) & 0x3FF;
        let minor = (version >> 12) & 0x3FF;
        let patch = version & 0xFFF;
        Self { major, minor, patch }
    }

    /// The version lowered to an optional cap, each of major, minor and
    /// patch clamped on its own, as the connection-setup path caps the
    /// driver's offer.
    pub fn capped(&self, max_api_version: Option<Version>) -> (r: Self)
        ensures
            r == match max_api_version {
                None => *self,
                Some(m) => Version {
                    major: if self.major <= m.major {
                        self.major
                    } else {
                        m.major
                    },
                    minor: if self.minor <= m.minor {
                        self.minor
                    } else {
                        m.minor
                    },
                    patch: if self.patch <= m.patch {
                        self.patch
                    } else {
                        m.patch
                    },
                },
            },
    {
        match max_api_version {
            None => *self,
            Some(m) => Version {
                major: if self.major <= m.major {
                    self.major
                } else {
                    m.major
                },
                minor: if self.minor <= m.minor {
                    self.minor
                } else {
                    m.minor
                },
                patch: if self.patch <= m.patch {
                    self.patch
                } else {
                    m.patch
                },
            },
        }
    }

    /// Whether `self` is no later than `other`.
    pub fn le(&self, other: &Self) -> (r: bool)
        ensures
            r == version_le(*self, *other),
    {
        if self.major != other.major {
            self.major < other.major
        } else if self.minor != other.minor {
            self.minor < other.minor
        } else {
            self.patch <= other.patch
        }
    }

    /// Whether `self` is at least `other`.
    pub fn ge(&self, other: &Self) -> (r: bool)
        ensures
            r == version_le(*other, *self),
    {
        other.le(self)
    }
}

} // verus!
