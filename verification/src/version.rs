use vstd::prelude::*;

verus! {

/// One historical revision of the binary format, ordered oldest to newest.
/// Each revision carries a numeric code and a display label; the codec
/// consults the active revision at every version-sensitive field.
#[derive(Clone, Copy, Debug, PartialEq, Eq, Structural, Hash)]
pub enum Version {
    /// First version.
    V19_00,
    /// Mass and moment of inertia introduced.
    V19_03,
    /// Bounding box added to the spatial partition chunks.
    V20_00,
    /// Path parent names added.
    V20_02,
    /// The textured-polygon chunk's normal point became a center point.
    V20_03,
    /// Glow point radius introduced after this.
    V20_04,
    /// Muzzle flash introduced.
    V20_07,
    /// Area mass conversion.
    V20_09,
    /// Cross sections introduced.
    V20_14,
    /// Variant produced by an early converter.
    V20_16,
    /// Editor-compatible revision.
    V21_16,
    /// Thruster properties added.
    V21_17,
    /// External weapon angle offset added.
    V21_18,
    /// Second-generation shield collision chunk; no weapon offset.
    V22_00,
    /// External weapon angle offset compatible again.
    V22_01,
    /// Extended vertex and normal limits per subobject.
    V23_00,
    /// Submodel translation support added.
    V23_01,
}

/// The numeric code of each revision (major times one hundred plus minor).
pub open spec fn version_code(v: Version) -> int {
    match v {
        Version::V19_00 => 1900,
        Version::V19_03 => 1903,
        Version::V20_00 => 2000,
        Version::V20_02 => 2002,
        Version::V20_03 => 2003,
        Version::V20_04 => 2004,
        Version::V20_07 => 2007,
        Version::V20_09 => 2009,
        Version::V20_14 => 2014,
        Version::V20_16 => 2016,
        Version::V21_16 => 2116,
        Version::V21_17 => 2117,
        Version::V21_18 => 2118,
        Version::V22_00 => 2200,
        Version::V22_01 => 2201,
        Version::V23_00 => 2300,
        Version::V23_01 => 2301,
    }
}

impl Version {
    /// The newest revision.
    pub fn latest() -> (r: Version)
        ensures
            r == Version::V23_01,
    {
        Version::V23_01
    }

    /// The revision's numeric code; codes order revisions oldest to newest.
    pub fn code(self) -> (r: i32)
        ensures
            r == version_code(self),
    {
        match self {
            Version::V19_00 => 1900,
            Version::V19_03 => 1903,
            Version::V20_00 => 2000,
            Version::V20_02 => 2002,
            Version::V20_03 => 2003,
            Version::V20_04 => 2004,
            Version::V20_07 => 2007,
            Version::V20_09 => 2009,
            Version::V20_14 => 2014,
            Version::V20_16 => 2016,
            Version::V21_16 => 2116,
            Version::V21_17 => 2117,
            Version::V21_18 => 2118,
            Version::V22_00 => 2200,
            Version::V22_01 => 2201,
            Version::V23_00 => 2300,
            Version::V23_01 => 2301,
        }
    }

    /// The revision with the given numeric code, if any.
    pub fn from_code(code: i32) -> (r: Option<Version>)
        ensures
            (match r {
                Some(v) => version_code(v) == code,
                None => forall|v: Version| version_code(v) != code,
            }),
    {
        match code {
            1900 => Some(Version::V19_00),
            1903 => Some(Version::V19_03),
            2000 => Some(Version::V20_00),
            2002 => Some(Version::V20_02),
            2003 => Some(Version::V20_03),
            2004 => Some(Version::V20_04),
            2007 => Some(Version::V20_07),
            2009 => Some(Version::V20_09),
            2014 => Some(Version::V20_14),
            2016 => Some(Version::V20_16),
            2116 => Some(Version::V21_16),
            2117 => Some(Version::V21_17),
            2118 => Some(Version::V21_18),
            2200 => Some(Version::V22_00),
            2201 => Some(Version::V22_01),
            2300 => Some(Version::V23_00),
            2301 => Some(Version::V23_01),
            _ => None,
        }
    }

    /// The revision's display label.
    pub fn to_str(self) -> (r: &'static str)
        ensures
            r@ == version_label(self),
    {
        match self {
            Version::V19_00 => "19.00",
            Version::V19_03 => "19.03",
            Version::V20_00 => "20.00",
            Version::V20_02 => "20.02",
            Version::V20_03 => "20.03",
            Version::V20_04 => "20.04",
            Version::V20_07 => "20.07",
            Version::V20_09 => "20.09",
            Version::V20_14 => "20.14",
            Version::V20_16 => "20.16",
            Version::V21_16 => "21.16",
            Version::V21_17 => "21.17",
            Version::V21_18 => "21.18",
            Version::V22_00 => "22.00",
            Version::V22_01 => "22.01",
            Version::V23_00 => "23.00",
            Version::V23_01 => "23.01",
        }
    }
}

/// The display label of each revision.
pub open spec fn version_label(v: Version) -> Seq<char> {
    match v {
        Version::V19_00 => "19.00"@,
        Version::V19_03 => "19.03"@,
        Version::V20_00 => "20.00"@,
        Version::V20_02 => "20.02"@,
        Version::V20_03 => "20.03"@,
        Version::V20_04 => "20.04"@,
        Version::V20_07 => "20.07"@,
        Version::V20_09 => "20.09"@,
        Version::V20_14 => "20.14"@,
        Version::V20_16 => "20.16"@,
        Version::V21_16 => "21.16"@,
        Version::V21_17 => "21.17"@,
        Version::V21_18 => "21.18"@,
        Version::V22_00 => "22.00"@,
        Version::V22_01 => "22.01"@,
        Version::V23_00 => "23.00"@,
        Version::V23_01 => "23.01"@,
    }
}

impl Default for Version {
    /// The default revision is the newest.
    fn default() -> (r: Self)
        ensures
            r == Version::V23_01,
    {
        Version::V23_01
    }
}

} // verus!
