//! What the sky is doing.
//!
//! One packet carries a state, an intensity and whether the change was abrupt.
//! Weather belongs to the zone and the server owns it; nothing here is ever
//! sent.
use crate::protocol::Error;
use crate::wire::{le32, read32};
use vstd::prelude::*;

verus! {

/// What the sky is doing, as the wire reports it.
///
/// The numbers are sparse. One that is not named keeps its value.
#[derive(Clone, Copy, Debug, PartialEq, Eq, Structural)]
pub enum Weather {
    /// Clear. The state a zone sits in unless something says otherwise.
    Fine,
    Fog,
    LightRain,
    MediumRain,
    HeavyRain,
    LightSnow,
    MediumSnow,
    HeavySnow,
    LightSandstorm,
    MediumSandstorm,
    HeavySandstorm,
    Thunders,
    BlackRain,
    BlackSnow,
    /// A state without a name.
    Unknown(u32),
}

/// The state a number stands for.
pub open spec fn weather_of(raw: u32) -> Weather {
    match raw {
        0 => Weather::Fine,
        1 => Weather::Fog,
        3 => Weather::LightRain,
        4 => Weather::MediumRain,
        5 => Weather::HeavyRain,
        6 => Weather::LightSnow,
        7 => Weather::MediumSnow,
        8 => Weather::HeavySnow,
        22 => Weather::LightSandstorm,
        41 => Weather::MediumSandstorm,
        42 => Weather::HeavySandstorm,
        86 => Weather::Thunders,
        90 => Weather::BlackRain,
        106 => Weather::BlackSnow,
        other => Weather::Unknown(other),
    }
}

impl Default for Weather {
    fn default() -> (r: Self)
        ensures
            r == Weather::Fine,
    {
        Weather::Fine
    }
}

impl Weather {
    /// Reads the state number off the wire.
    pub fn from_raw(raw: u32) -> (r: Self)
        ensures
            r == weather_of(raw),
    {
        match raw {
            0 => Self::Fine,
            1 => Self::Fog,
            3 => Self::LightRain,
            4 => Self::MediumRain,
            5 => Self::HeavyRain,
            6 => Self::LightSnow,
            7 => Self::MediumSnow,
            8 => Self::HeavySnow,
            22 => Self::LightSandstorm,
            41 => Self::MediumSandstorm,
            42 => Self::HeavySandstorm,
            86 => Self::Thunders,
            90 => Self::BlackRain,
            106 => Self::BlackSnow,
            other => Self::Unknown(other),
        }
    }

    /// Whether this state should be lit as a storm rather than as clear
    /// weather. Fog counts as a storm; a state without a name does not.
    pub fn is_storm(self) -> (r: bool)
        ensures
            r == !(self is Fine || self is Unknown),
    {
        match self {
            Self::Fine => false,
            Self::Unknown(_) => false,
            _ => true,
        }
    }
}

/// A parsed `SMSG_WEATHER`.
#[derive(Clone, Copy, Debug, PartialEq, Eq, Structural)]
pub struct WeatherChange {
    pub weather: Weather,
    /// How hard it is coming down, 0 to 1, as a floating-point bit pattern.
    pub intensity: u32,
    /// Whether the change was instant rather than eased in.
    pub abrupt: bool,
}

impl Default for WeatherChange {
    fn default() -> (r: Self)
        ensures
            r == (WeatherChange { weather: Weather::Fine, intensity: 0, abrupt: false }),
    {
        WeatherChange { weather: Weather::Fine, intensity: 0, abrupt: false }
    }
}

/// The bit pattern of one.
pub const ONE_BITS: u32 = 0x3F80_0000;

/// The bit pattern of negative zero. A pattern above it is a negative number,
/// or none.
pub const NEGATIVE_ZERO_BITS: u32 = 0x8000_0000;

/// The exponent bits. A pattern that has all of them set is no finite number.
pub const EXPONENT_BITS: u32 = 0x7F80_0000;

/// Whether a bit pattern is that of a finite number: its exponent, the eight
/// bits below the sign, is not all ones.
pub open spec fn finite_bits(bits: u32) -> bool {
    bits % NEGATIVE_ZERO_BITS < EXPONENT_BITS
}

/// An intensity brought into the range from zero to one, on bit patterns:
/// those of positive numbers are ordered as the numbers are, and zero, of
/// either sign, is kept. What is no finite number counts as zero.
pub open spec fn clamped(bits: u32) -> u32 {
    if !finite_bits(bits) {
        0
    } else if bits > NEGATIVE_ZERO_BITS {
        0
    } else if bits == NEGATIVE_ZERO_BITS {
        bits
    } else if bits > ONE_BITS {
        ONE_BITS
    } else {
        bits
    }
}

/// What [`parse`] makes of a body: nine bytes, no more and no less.
pub open spec fn weather_change(body: Seq<u8>) -> Result<WeatherChange, Error> {
    if body.len() < 9 {
        Err(
            Error::Truncated {
                what: "SMSG_WEATHER",
                at: 0,
                need: 9,
                len: body.len() as usize,
            },
        )
    } else if body.len() > 9 {
        Err(Error::Trailing { what: "SMSG_WEATHER", got: (body.len() - 9) as usize })
    } else {
        Ok(
            WeatherChange {
                weather: weather_of(le32(body, 0)),
                intensity: clamped(le32(body, 4)),
                abrupt: body[8] != 0,
            },
        )
    }
}

fn clamp_bits(bits: u32) -> (r: u32)
    ensures
        r == clamped(bits),
{
    if bits % NEGATIVE_ZERO_BITS >= EXPONENT_BITS {
        0
    } else if bits > NEGATIVE_ZERO_BITS {
        0
    } else if bits == NEGATIVE_ZERO_BITS {
        bits
    } else if bits > ONE_BITS {
        ONE_BITS
    } else {
        bits
    }
}

/// Parses `SMSG_WEATHER`: a state, an intensity and an abruptness.
///
/// The intensity is brought into its range rather than trusted, since it
/// scales a blend between two sets of light curves.
pub fn parse(body: &[u8]) -> (r: Result<WeatherChange, Error>)
    ensures
        r == weather_change(body@),
{
    if body.len() < 9 {
        return Err(
            Error::Truncated { what: "SMSG_WEATHER", at: 0, need: 9, len: body.len() },
        );
    }
    if body.len() > 9 {
        return Err(Error::Trailing { what: "SMSG_WEATHER", got: body.len() - 9 });
    }
    let raw: u32 = read32(body, 0);
    let bits: u32 = read32(body, 4);
    Ok(
        WeatherChange {
            weather: Weather::from_raw(raw),
            intensity: clamp_bits(bits),
            abrupt: body[8] != 0,
        },
    )
}

/// An intensity never leaves the range from zero to one, whatever arrived.
pub proof fn lemma_intensity_stays_in_range(body: Seq<u8>)
    requires
        weather_change(body) is Ok,
    ensures
        weather_change(body)->Ok_0.intensity <= ONE_BITS || weather_change(body)->Ok_0.intensity
            == NEGATIVE_ZERO_BITS,
{
}

/// Every number keeps apart from every other: what is not named keeps its
/// value, and no two numbers read as the same state.
pub proof fn lemma_weather_is_injective(a: u32, b: u32)
    requires
        weather_of(a) == weather_of(b),
    ensures
        a == b,
{
}

} // verus!
