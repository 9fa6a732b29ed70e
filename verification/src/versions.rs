//! Version registry: maps a numeric protocol version to a supported-version
//! bucket and validates support.

use vstd::prelude::*;

verus! {

/// A coarse protocol-era classification derived from a numeric protocol
/// version. Buckets are ordered: `Old < V1_7 < V1_8 < ... < V1_16 < New`;
/// `Other` is reserved for numeric values that fall in none of the declared
/// ranges. Use [`Version::index`] to compare two buckets.
#[derive(Clone, Copy, Debug, PartialEq, Eq, Structural, Hash, PartialOrd, Ord)]
pub enum Version {
    Other,
    Old,
    V1_7,
    V1_8,
    V1_9,
    V1_10,
    V1_11,
    V1_12,
    V1_13,
    V1_14,
    V1_15,
    V1_16,
    New,
}

/// The bucket a numeric protocol version falls into, by disjoint ranges.
pub open spec fn spec_version_from_id(protocol_version: u32) -> Version {
    if protocol_version <= 4 {
        Version::Old
    } else if protocol_version == 5 {
        Version::V1_7
    } else if protocol_version == 47 {
        Version::V1_8
    } else if 107 <= protocol_version <= 110 {
        Version::V1_9
    } else if protocol_version == 210 {
        Version::V1_10
    } else if 315 <= protocol_version <= 316 {
        Version::V1_11
    } else if 335 <= protocol_version <= 340 {
        Version::V1_12
    } else if 393 <= protocol_version <= 404 {
        Version::V1_13
    } else if 477 <= protocol_version <= 498 {
        Version::V1_14
    } else if 573 <= protocol_version <= 578 {
        Version::V1_15
    } else if 735 <= protocol_version <= 754 {
        Version::V1_16
    } else if protocol_version >= 755 {
        Version::New
    } else {
        Version::Other
    }
}

/// Position of a bucket in the era order (`Old` is oldest, `New` newest;
/// `Other` sorts below everything).
pub open spec fn spec_version_index(v: Version) -> int {
    match v {
        Version::Other => 0,
        Version::Old => 1,
        Version::V1_7 => 2,
        Version::V1_8 => 3,
        Version::V1_9 => 4,
        Version::V1_10 => 5,
        Version::V1_11 => 6,
        Version::V1_12 => 7,
        Version::V1_13 => 8,
        Version::V1_14 => 9,
        Version::V1_15 => 10,
        Version::V1_16 => 11,
        Version::New => 12,
    }
}

impl Version {
    /// Maps a numeric protocol version onto its bucket via ordered disjoint
    /// numeric ranges; unmapped values yield `Version::Other`.
    pub fn from_id(protocol_version: u32) -> (v: Version)
        ensures
            v == spec_version_from_id(protocol_version),
    {
        if protocol_version <= 4 {
            Version::Old
        } else if protocol_version == 5 {
            Version::V1_7
        } else if protocol_version == 47 {
            Version::V1_8
        } else if 107 <= protocol_version && protocol_version <= 110 {
            Version::V1_9
        } else if protocol_version == 210 {
            Version::V1_10
        } else if 315 <= protocol_version && protocol_version <= 316 {
            Version::V1_11
        } else if 335 <= protocol_version && protocol_version <= 340 {
            Version::V1_12
        } else if 393 <= protocol_version && protocol_version <= 404 {
            Version::V1_13
        } else if 477 <= protocol_version && protocol_version <= 498 {
            Version::V1_14
        } else if 573 <= protocol_version && protocol_version <= 578 {
            Version::V1_15
        } else if 735 <= protocol_version && protocol_version <= 754 {
            Version::V1_16
        } else if protocol_version >= 755 {
            Version::New
        } else {
            Version::Other
        }
    }

    /// True exactly for the buckets the engine supports: every bucket but
    /// `Old`, `New` and `Other`.
    pub fn is_supported(&self) -> (r: bool)
        ensures
            r == !(*self == Version::Old || *self == Version::New || *self == Version::Other),
    {
        match self {
            Version::Old => false,
            Version::New => false,
            Version::Other => false,
            _ => true,
        }
    }

    /// Position of this bucket in the era order; `a.index() < b.index()`
    /// means `a` is an older era than `b`.
    pub fn index(&self) -> (r: u8)
        ensures
            r == spec_version_index(*self),
    {
        match self {
            Version::Other => 0,
            Version::Old => 1,
            Version::V1_7 => 2,
            Version::V1_8 => 3,
            Version::V1_9 => 4,
            Version::V1_10 => 5,
            Version::V1_11 => 6,
            Version::V1_12 => 7,
            Version::V1_13 => 8,
            Version::V1_14 => 9,
            Version::V1_15 => 10,
            Version::V1_16 => 11,
            Version::New => 12,
        }
    }
}

/// The exact protocol versions declared supported, sorted descending by
/// recency; the first entry is the default/current version.
pub open spec fn spec_supported_protocols() -> Seq<i32> {
    seq![754, 753, 751, 736, 735, 578, 575, 498, 490, 485, 480, 477, 452, 451, 404, 340, 316, 315,
        210, 109, 107, 74, 47, 5]
}

/// The supported-version whitelist, sorted descending; the first entry is the
/// default/current protocol version.
pub fn supported_protocols() -> (r: Vec<i32>)
    ensures
        r@ == spec_supported_protocols(),
        r@.len() > 0,
{
    let r: Vec<i32> = vec![754, 753, 751, 736, 735, 578, 575, 498, 490, 485, 480, 477, 452, 451,
        404, 340, 316, 315, 210, 109, 107, 74, 47, 5];
    assert(r@ =~= spec_supported_protocols());
    r
}

/// The default protocol version: the most recent supported one.
pub fn default_protocol_version() -> (r: i32)
    ensures
        r == spec_supported_protocols()[0],
{
    754
}

/// The whitelist is sorted strictly descending by recency and its first
/// entry is the default/current protocol version.
pub proof fn lemma_supported_protocols_sorted()
    ensures
        forall|i: int, j: int|
            0 <= i < j < spec_supported_protocols().len() ==> spec_supported_protocols()[i]
                > spec_supported_protocols()[j],
        spec_supported_protocols()[0] == 754,
{
    assert forall|i: int, j: int|
        0 <= i < j < spec_supported_protocols().len() implies spec_supported_protocols()[i]
        > spec_supported_protocols()[j] by {}
}


/// Checks that a numeric protocol version falls in a supported bucket;
/// an unsupported one is the categorized error, carrying the version.
pub fn check_protocol_supported(protocol_version: i32) -> (res: Result<(), crate::error::Error>)
    ensures
        ({
            let v = spec_version_from_id(crate::serialize::u32_of_i32(protocol_version));
            if v == Version::Old || v == Version::New || v == Version::Other {
                res == Err::<(), crate::error::Error>(
                    crate::error::Error::UnsupportedVersion { protocol_version },
                )
            } else {
                res == Ok::<(), crate::error::Error>(())
            }
        }),
{
    let pv: u32 = if protocol_version >= 0 {
        protocol_version as u32
    } else {
        (protocol_version as i64 + 0x100000000) as u32
    };
    if Version::from_id(pv).is_supported() {
        Ok(())
    } else {
        Err(crate::error::Error::UnsupportedVersion { protocol_version })
    }
}

} // verus!
