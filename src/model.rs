use vstd::prelude::*;
use crate::date::{CalendarDate, DateError, parse_custom_time, date_text_ok, date_of, date_error_of};

verus! {

// Readings are carried as IEEE-754 binary32 encodings (the bits of an `f32`), so that
// a value passes through the library unchanged and its sign and size can be read exactly.

/// Encoding of the binary32 number 100.
pub const HUNDRED_BITS: u32 = 0x42C8_0000;

/// Encoding of negative zero.
pub const SIGN_BIT: u32 = 0x8000_0000;

/// The binary32 value encoded by `bits` is a number in `[0, 100]`. Non-negative
/// encodings order as their numbers do, so these are `+0` to `100` and `-0`;
/// negative numbers, numbers above 100, the infinities and every NaN are not.
pub open spec fn humidity_in_range(bits: u32) -> bool {
    bits <= HUNDRED_BITS || bits == SIGN_BIT
}

/// A measurement as it is stored and broadcast: one record per calendar day.
#[derive(Clone, Copy, Debug, PartialEq, Eq, Structural)]
pub struct WeatherData {
    /// Relative humidity in percent, as binary32 bits.
    pub humidity: u32,
    /// Temperature, as binary32 bits; any value is accepted.
    pub temperature: u32,
    pub time: CalendarDate,
}

/// A measurement as submitted, before it is checked.
#[derive(Clone, Debug)]
pub struct CreateWeatherData {
    /// Relative humidity in percent, as binary32 bits.
    pub humidity: u32,
    /// Temperature, as binary32 bits.
    pub temperature: u32,
    /// The day, as text that should read `YYYY-MM-DD`.
    pub date: String,
}

impl CreateWeatherData {
    /// True exactly when the humidity is a number in `[0, 100]`; both bounds are valid,
    /// NaN is not.
    pub fn is_valid(&self) -> (r: bool)
        ensures
            r == humidity_in_range(self.humidity),
    {
        let h = self.humidity;
        h <= HUNDRED_BITS || h == SIGN_BIT
    }
}

impl WeatherData {
    /// Turns a submission into a measurement by reading its date; the readings are kept.
    pub fn try_from(value: CreateWeatherData) -> (r: Result<WeatherData, DateError>)
        ensures
            r == if date_text_ok(value.date@) {
                Ok::<WeatherData, DateError>(accepted(value))
            } else {
                Err(date_error_of(value.date@))
            },
    {
        let time = parse_custom_time(value.date)?;
        Ok(WeatherData { humidity: value.humidity, temperature: value.temperature, time })
    }
}

/// The measurement that an accepted submission becomes.
pub open spec fn accepted(value: CreateWeatherData) -> WeatherData {
    WeatherData {
        humidity: value.humidity,
        temperature: value.temperature,
        time: date_of(value.date@),
    }
}

} // verus!
