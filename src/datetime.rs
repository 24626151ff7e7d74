//! Packed 16-bit FAT date and time values.
//!
//! Date: bits 15..9 hold `year - 1980`, bits 8..5 the month, bits 4..0 the day.
//! Time: bits 15..11 hold the hour, bits 10..5 the minute, bits 4..0 the
//! seconds divided by two.
use vstd::arithmetic::div_mod::lemma_fundamental_div_mod_converse;
use vstd::prelude::*;

verus! {

/// A calendar date: year, month, day.
#[derive(Clone, Copy, Debug)]
pub struct Date(pub u16, pub u8, pub u8);

/// A time of day: hour, minute, second.
#[derive(Clone, Copy, Debug)]
pub struct Time(pub u8, pub u8, pub u8);

/// A date together with a time of day.
#[derive(Clone, Copy, Debug)]
pub struct DateTime(pub Date, pub Time);

/// The packed form of a date whose year is at least 1980.
pub open spec fn date_bits(year: u16, month: u8, day: u8) -> int {
    ((year - 1980) % 128) * 512 + (month % 16) * 32 + day % 32
}

/// The packed form of a time of day.
pub open spec fn time_bits(hour: u8, minute: u8, second: u8) -> int {
    (hour % 32) * 2048 + (minute % 64) * 32 + (second / 2) % 32
}

/// A date that the packed form can hold exactly.
pub open spec fn valid_date(year: u16, month: u8, day: u8) -> bool {
    1980 <= year <= 2107 && 1 <= month <= 12 && 1 <= day <= 31
}

/// A time of day that the packed form can hold, the second rounded down to even.
pub open spec fn valid_time(hour: u8, minute: u8, second: u8) -> bool {
    hour <= 23 && minute <= 59 && second <= 59
}

impl Date {
    /// Packs the date into its 16-bit FAT form.
    pub fn to_u16(&self) -> (r: u16)
        requires
            self.0 >= 1980,
        ensures
            r == date_bits(self.0, self.1, self.2),
    {
        let y: u16 = self.0 - 1980;
        let m: u16 = self.1 as u16;
        let d: u16 = self.2 as u16;
        let r: u16 = (y << 9u16) | ((m & 0xF) << 5u16) | (d & 0x1F);
        assert(r == (y % 128) * 512 + (m % 16) * 32 + d % 32) by (bit_vector)
            requires
                r == (y << 9u16) | ((m & 0xF) << 5u16) | (d & 0x1F),
        ;
        r
    }
}

impl Time {
    /// Packs the time of day into its 16-bit FAT form.
    pub fn to_u16(&self) -> (r: u16)
        ensures
            r == time_bits(self.0, self.1, self.2),
    {
        let h: u16 = self.0 as u16;
        let m: u16 = self.1 as u16;
        let s: u16 = self.2 as u16 / 2;
        let r: u16 = (h << 11u16) | ((m & 0x3F) << 5u16) | (s & 0x1F);
        assert(r == (h % 32) * 2048 + (m % 64) * 32 + s % 32) by (bit_vector)
            requires
                r == (h << 11u16) | ((m & 0x3F) << 5u16) | (s & 0x1F),
        ;
        r
    }
}

impl vstd::std_specs::convert::FromSpecImpl<u16> for Date {
    open spec fn obeys_from_spec() -> bool {
        true
    }

    open spec fn from_spec(v: u16) -> Date {
        Date((v / 512 + 1980) as u16, ((v / 32) % 16) as u8, (v % 32) as u8)
    }
}

impl From<u16> for Date {
    /// Unpacks a 16-bit FAT date.
    fn from(value: u16) -> (r: Date)
        ensures
            r == Date((value / 512 + 1980) as u16, ((value / 32) % 16) as u8, (value % 32) as u8),
    {
        assert(value >> 9u16 == value / 512 && (value >> 5u16) & 0xF == (value / 32) % 16
            && value & 0x1F == value % 32) by (bit_vector);
        let years: u16 = (value >> 9u16) + 1980;
        let months: u8 = ((value >> 5u16) & 0xF) as u8;
        let days: u8 = (value & 0x1F) as u8;
        Date(years, months, days)
    }
}

impl vstd::std_specs::convert::FromSpecImpl<u16> for Time {
    open spec fn obeys_from_spec() -> bool {
        true
    }

    open spec fn from_spec(v: u16) -> Time {
        Time((v / 2048) as u8, ((v / 32) % 64) as u8, ((v % 32) * 2) as u8)
    }
}

impl From<u16> for Time {
    /// Unpacks a 16-bit FAT time of day.
    fn from(value: u16) -> (r: Time)
        ensures
            r == Time((value / 2048) as u8, ((value / 32) % 64) as u8, ((value % 32) * 2) as u8),
    {
        assert(value >> 11u16 == value / 2048 && (value >> 5u16) & 0x3F == (value / 32) % 64
            && value & 0x1F == value % 32) by (bit_vector);
        let hours: u8 = (value >> 11u16) as u8;
        let minutes: u8 = ((value >> 5u16) & 0x3F) as u8;
        let seconds: u8 = (value & 0x1F) as u8 * 2;
        Time(hours, minutes, seconds)
    }
}

/// Unpacking a packed valid date gives the date back.
pub proof fn lemma_date_round_trip(year: u16, month: u8, day: u8)
    requires
        valid_date(year, month, day),
    ensures
        ({
            let v = date_bits(year, month, day) as u16;
            &&& 0 <= date_bits(year, month, day) < 65536
            &&& v / 512 + 1980 == year
            &&& (v / 32) % 16 == month
            &&& v % 32 == day
        }),
{
    let y = year - 1980;
    let b = date_bits(year, month, day);
    assert(b == y * 512 + month * 32 + day);
    assert((y * 16 + month) * 32 == y * 512 + month * 32) by (nonlinear_arith);
    lemma_fundamental_div_mod_converse(b, 512, y, month * 32 + day);
    lemma_fundamental_div_mod_converse(b, 32, y * 16 + month, day as int);
    lemma_fundamental_div_mod_converse(y * 16 + month, 16, y, month as int);
}

/// Unpacking a packed valid time of day gives it back, with the second
/// rounded down to an even number.
pub proof fn lemma_time_round_trip(hour: u8, minute: u8, second: u8)
    requires
        valid_time(hour, minute, second),
    ensures
        ({
            let v = time_bits(hour, minute, second) as u16;
            &&& 0 <= time_bits(hour, minute, second) < 65536
            &&& v / 2048 == hour
            &&& (v / 32) % 64 == minute
            &&& (v % 32) * 2 == second - second % 2
        }),
{
    let b = time_bits(hour, minute, second);
    let h = hour as int;
    let s2 = (second / 2) as int;
    assert(b == h * 2048 + minute * 32 + s2);
    assert((h * 64 + minute) * 32 == h * 2048 + minute * 32) by (nonlinear_arith);
    lemma_fundamental_div_mod_converse(b, 2048, h, minute * 32 + s2);
    lemma_fundamental_div_mod_converse(b, 32, h * 64 + minute, s2);
    lemma_fundamental_div_mod_converse(h * 64 + minute, 64, h, minute as int);
}

} // verus!
