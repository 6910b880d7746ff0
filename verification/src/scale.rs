//! Time scales and weekdays.
use vstd::prelude::*;

verus! {

/// A time scale on which a [`crate::dt::Dt`] counts its attoseconds.
#[derive(Clone, Copy, PartialEq, Eq, Structural, Debug, Hash)]
pub enum Scale {
    /// International Atomic Time.
    TAI,
    /// Terrestrial Time.
    TT,
    /// Coordinated Universal Time (leap seconds).
    UTC,
    /// UTC as handled by SPICE (leap seconds).
    UTCSpice,
    /// UTC as handled by SOFA (leap seconds).
    UTCSofa,
    /// GPS time.
    GPS,
    /// QZSS time.
    QZSS,
    /// Galileo System Time.
    GST,
    /// BeiDou Time.
    BDT,
    /// Barycentric Dynamical Time.
    TDB,
    /// Ephemeris Time.
    ET,
    /// Geocentric Coordinate Time.
    TCG,
    /// Barycentric Coordinate Time.
    TCB,
    /// Coordinated Lunar Time.
    LTC,
    /// Lunar Coordinate Time.
    TCL,
    /// Universal Time (UT1).
    UT,
    /// A user-defined scale.
    Custom,
}

/// The wire code of each scale, in declaration order.
pub open spec fn scale_code(s: Scale) -> u8 {
    match s {
        Scale::TAI => 0,
        Scale::TT => 1,
        Scale::UTC => 2,
        Scale::UTCSpice => 3,
        Scale::UTCSofa => 4,
        Scale::GPS => 5,
        Scale::QZSS => 6,
        Scale::GST => 7,
        Scale::BDT => 8,
        Scale::TDB => 9,
        Scale::ET => 10,
        Scale::TCG => 11,
        Scale::TCB => 12,
        Scale::LTC => 13,
        Scale::TCL => 14,
        Scale::UT => 15,
        Scale::Custom => 16,
    }
}

/// The scale with wire code `b`; unknown codes read as [`Scale::Custom`].
pub open spec fn scale_of_code(b: u8) -> Scale {
    if b == 0 { Scale::TAI }
    else if b == 1 { Scale::TT }
    else if b == 2 { Scale::UTC }
    else if b == 3 { Scale::UTCSpice }
    else if b == 4 { Scale::UTCSofa }
    else if b == 5 { Scale::GPS }
    else if b == 6 { Scale::QZSS }
    else if b == 7 { Scale::GST }
    else if b == 8 { Scale::BDT }
    else if b == 9 { Scale::TDB }
    else if b == 10 { Scale::ET }
    else if b == 11 { Scale::TCG }
    else if b == 12 { Scale::TCB }
    else if b == 13 { Scale::LTC }
    else if b == 14 { Scale::TCL }
    else if b == 15 { Scale::UT }
    else { Scale::Custom }
}

impl Scale {
    /// The wire code of this scale.
    pub fn to_u8(&self) -> (r: u8)
        ensures
            r == scale_code(*self),
            r == *self as u8,
    {
        match self {
            Scale::TAI => 0,
            Scale::TT => 1,
            Scale::UTC => 2,
            Scale::UTCSpice => 3,
            Scale::UTCSofa => 4,
            Scale::GPS => 5,
            Scale::QZSS => 6,
            Scale::GST => 7,
            Scale::BDT => 8,
            Scale::TDB => 9,
            Scale::ET => 10,
            Scale::TCG => 11,
            Scale::TCB => 12,
            Scale::LTC => 13,
            Scale::TCL => 14,
            Scale::UT => 15,
            Scale::Custom => 16,
        }
    }

    /// The scale with wire code `b`; an unknown code gives [`Scale::Custom`].
    pub fn from_u8(b: u8) -> (r: Scale)
        ensures
            r == scale_of_code(b),
            b <= 16 ==> r as u8 == b,
            b > 16 ==> r == Scale::Custom,
    {
        match b {
            0 => Scale::TAI,
            1 => Scale::TT,
            2 => Scale::UTC,
            3 => Scale::UTCSpice,
            4 => Scale::UTCSofa,
            5 => Scale::GPS,
            6 => Scale::QZSS,
            7 => Scale::GST,
            8 => Scale::BDT,
            9 => Scale::TDB,
            10 => Scale::ET,
            11 => Scale::TCG,
            12 => Scale::TCB,
            13 => Scale::LTC,
            14 => Scale::TCL,
            15 => Scale::UT,
            _ => Scale::Custom,
        }
    }

    /// `true` for the scales that insert leap seconds (the UTC variants).
    pub fn uses_leap_seconds(&self) -> (r: bool)
        ensures
            r == (*self == Scale::UTC || *self == Scale::UTCSpice || *self == Scale::UTCSofa),
    {
        match self {
            Scale::UTC | Scale::UTCSpice | Scale::UTCSofa => true,
            _ => false,
        }
    }
}

/// The wire code of a scale is its position in the declaration of `Scale`
/// (TAI 0, TT 1, UTC 2, ..., Custom 16), and each code up to 16 reads back
/// as the scale declared at that position; higher codes read as `Custom`.
pub proof fn lemma_scale_code_is_declaration_index(s: Scale, b: u8)
    ensures
        scale_code(s) == s as u8,
        scale_code(s) <= 16,
        b <= 16 ==> scale_of_code(b) as u8 == b,
        b > 16 ==> scale_of_code(b) == Scale::Custom,
{
}

/// Every scale survives a trip through its wire code.
pub proof fn lemma_scale_code_roundtrip(s: Scale)
    ensures
        scale_of_code(scale_code(s)) == s,
{
}

/// A day of the week.
#[derive(Clone, Copy, PartialEq, Eq, Structural, Debug, Hash)]
pub enum Weekday {
    Monday,
    Tuesday,
    Wednesday,
    Thursday,
    Friday,
    Saturday,
    Sunday,
}

/// Days after Monday: Monday is 0, Sunday is 6.
pub open spec fn mon0(w: Weekday) -> int {
    match w {
        Weekday::Monday => 0,
        Weekday::Tuesday => 1,
        Weekday::Wednesday => 2,
        Weekday::Thursday => 3,
        Weekday::Friday => 4,
        Weekday::Saturday => 5,
        Weekday::Sunday => 6,
    }
}

/// Days after Sunday: Sunday is 0, Saturday is 6.
pub open spec fn sun0(w: Weekday) -> int {
    (mon0(w) + 1) % 7
}

impl Weekday {
    /// The weekday numbered 1 (Monday) to 7 (Sunday); `None` outside that range.
    pub fn from_monday_1_based(n: u8) -> (r: Option<Weekday>)
        ensures
            r.is_some() == (1 <= n <= 7),
            r.is_some() ==> mon0(r.unwrap()) == n - 1,
    {
        match n {
            1 => Some(Weekday::Monday),
            2 => Some(Weekday::Tuesday),
            3 => Some(Weekday::Wednesday),
            4 => Some(Weekday::Thursday),
            5 => Some(Weekday::Friday),
            6 => Some(Weekday::Saturday),
            7 => Some(Weekday::Sunday),
            _ => None,
        }
    }

    /// Days after Monday (Monday is 0).
    pub fn wkday_mon_0_based(&self) -> (r: u8)
        ensures
            r == mon0(*self),
    {
        match self {
            Weekday::Monday => 0,
            Weekday::Tuesday => 1,
            Weekday::Wednesday => 2,
            Weekday::Thursday => 3,
            Weekday::Friday => 4,
            Weekday::Saturday => 5,
            Weekday::Sunday => 6,
        }
    }

    /// Days after Sunday (Sunday is 0).
    pub fn wkday_sun_0_based(&self) -> (r: u8)
        ensures
            r == sun0(*self),
    {
        match self {
            Weekday::Monday => 1,
            Weekday::Tuesday => 2,
            Weekday::Wednesday => 3,
            Weekday::Thursday => 4,
            Weekday::Friday => 5,
            Weekday::Saturday => 6,
            Weekday::Sunday => 0,
        }
    }
}

} // verus!
