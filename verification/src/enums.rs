//! The file-format versions of drawings.

use vstd::prelude::*;

verus! {

/// The file-format version of a drawing.
#[derive(Clone, Copy, Debug, PartialEq, Eq, Structural)]
pub enum AcadVersion {
    R10,
    R11,
    R12,
    R13,
    R14,
    R2000,
    R2004,
    R2007,
    R2010,
    R2013,
    R2018,
}

/// The position of a version in release order.
pub open spec fn version_rank(v: AcadVersion) -> int {
    match v {
        AcadVersion::R10 => 0,
        AcadVersion::R11 => 1,
        AcadVersion::R12 => 2,
        AcadVersion::R13 => 3,
        AcadVersion::R14 => 4,
        AcadVersion::R2000 => 5,
        AcadVersion::R2004 => 6,
        AcadVersion::R2007 => 7,
        AcadVersion::R2010 => 8,
        AcadVersion::R2013 => 9,
        AcadVersion::R2018 => 10,
    }
}

/// Whether version `v` is `w` or a later one.
pub open spec fn version_at_least(v: AcadVersion, w: AcadVersion) -> bool {
    version_rank(v) >= version_rank(w)
}

impl AcadVersion {
    /// The position of this version in release order.
    pub fn rank(self) -> (r: u8)
        ensures
            r == version_rank(self),
    {
        match self {
            AcadVersion::R10 => 0,
            AcadVersion::R11 => 1,
            AcadVersion::R12 => 2,
            AcadVersion::R13 => 3,
            AcadVersion::R14 => 4,
            AcadVersion::R2000 => 5,
            AcadVersion::R2004 => 6,
            AcadVersion::R2007 => 7,
            AcadVersion::R2010 => 8,
            AcadVersion::R2013 => 9,
            AcadVersion::R2018 => 10,
        }
    }

    /// Whether this version is `other` or a later one.
    pub fn at_least(self, other: AcadVersion) -> (b: bool)
        ensures
            b == version_at_least(self, other),
    {
        self.rank() >= other.rank()
    }
}

/// The version a new drawing is written in.
pub open spec fn default_version() -> AcadVersion {
    AcadVersion::R2018
}

} // verus!
