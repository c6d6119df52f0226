//! Option contracts and the day on which they expire.
use crate::pricing::OptionType;
use vstd::prelude::*;

verus! {

/// What tells one contract from another.
#[derive(Debug, Clone, Copy, PartialEq, Eq, Hash, Structural)]
pub struct OptionContractKey {
    pub underlying: u64,
    pub expiry_date: u32,
    pub strike_price: u64,
    pub option_type: OptionType,
}

#[derive(Debug, Clone, Copy, PartialEq, Eq, Structural)]
pub struct OptionContract {
    pub key: OptionContractKey,
    pub underlying: u64,
    pub expiry_date: u32,
    pub strike_price: u64,
    pub option_type: OptionType,
    pub lot_size: u32,
    pub creation_timestamp: u64,
}

/// `a / b` for a positive `b`, rounded towards zero.
pub open spec fn quotient(a: int, b: int) -> int {
    if a >= 0 {
        a / b
    } else {
        -((-a) / b)
    }
}

/// The number of the day `year-month-day`, counted from the first of January 1970,
/// in the Gregorian calendar. The count is that of Julian days: the year starts in
/// March, and from there five months take 153 days.
pub open spec fn day_number(year: int, month: int, day: int) -> int {
    let a = quotient(14 - month, 12);
    let y = year + 4800 - a;
    let m = month + 12 * a - 3;
    day + (153 * m + 2) / 5 + 365 * y + y / 4 - y / 100 + y / 400 - 32045 - 2440588
}

/// The day that a date of the form `yyyymmdd` names.
pub open spec fn day_of_date(date: u32) -> int {
    day_number(date as int / 10000, date as int % 10000 / 100, date as int % 100)
}

/// The second at which a date begins, counted from 1970 in 64 bits. Earlier days
/// count down from the largest number.
pub open spec fn date_seconds(date: u32) -> u64 {
    ((day_of_date(date) * 86400) % 0x1_0000_0000_0000_0000) as u64
}

/// The second at which a date of the form `yyyymmdd` begins.
pub fn date_to_unix_secs(date: u32) -> (secs: u64)
    ensures
        secs == date_seconds(date),
{
    let year: u32 = date / 10000;
    let month: u32 = (date % 10000) / 100;
    let day: u32 = date % 100;

    let y: i64 = year as i64;
    let m: i64 = month as i64;
    let d: i64 = day as i64;

    let a: i64 = if m <= 14 { (14 - m) / 12 } else { 0 - (m - 14) / 12 };
    let y_adj: i64 = y + 4800 - a;
    let m_adj: i64 = m + 12 * a - 3;
    let jdn: i64 = d + (153 * m_adj + 2) / 5 + 365 * y_adj + y_adj / 4 - y_adj / 100 + y_adj / 400
        - 32045;
    let unix_jdn: i64 = 2440588;
    let secs: i64 = (jdn - unix_jdn) * 86400;
    assert(secs == day_of_date(date) * 86400);
    if secs >= 0 {
        secs as u64
    } else {
        u64::MAX - ((0 - (secs + 1)) as u64)
    }
}

impl OptionContract {
    /// A contract that was created at the given time.
    pub fn new(
        underlying: u64,
        expiry_date: u32,
        strike_price: u64,
        option_type: OptionType,
        lot_size: u32,
        creation_timestamp: u64,
    ) -> (c: Self)
        ensures
            c == (OptionContract {
                key: OptionContractKey { underlying, expiry_date, strike_price, option_type },
                underlying,
                expiry_date,
                strike_price,
                option_type,
                lot_size,
                creation_timestamp,
            }),
    {
        OptionContract {
            key: OptionContractKey { underlying, expiry_date, strike_price, option_type },
            underlying,
            expiry_date,
            strike_price,
            option_type,
            lot_size,
            creation_timestamp,
        }
    }

    /// The seconds that are left until the expiry date begins.
    pub open spec fn seconds_left(self, now: u64) -> u64 {
        let expiry = date_seconds(self.expiry_date);
        if expiry <= now {
            0
        } else {
            (expiry - now) as u64
        }
    }

    /// The time to maturity in seconds.
    pub fn time_to_maturity(&self, current_timestamp_secs: u64) -> (left: u64)
        ensures
            left == self.seconds_left(current_timestamp_secs),
    {
        let expiry_ts: u64 = date_to_unix_secs(self.expiry_date);
        if expiry_ts <= current_timestamp_secs {
            return 0;
        }
        expiry_ts - current_timestamp_secs
    }
}

pub open spec fn is_leap_year(year: int) -> bool {
    year % 4 == 0 && (year % 100 != 0 || year % 400 == 0)
}

pub open spec fn days_in_month(year: int, month: int) -> int {
    if month == 2 {
        if is_leap_year(year) {
            29
        } else {
            28
        }
    } else if month == 4 || month == 6 || month == 9 || month == 11 {
        30
    } else {
        31
    }
}

/// Whether a date exists in the Gregorian calendar.
pub open spec fn is_calendar_date(year: int, month: int, day: int) -> bool {
    year >= 0 && 1 <= month <= 12 && 1 <= day <= days_in_month(year, month)
}

/// The date one day on.
pub open spec fn next_date(year: int, month: int, day: int) -> (int, int, int) {
    if day < days_in_month(year, month) {
        (year, month, day + 1)
    } else if month < 12 {
        (year, month + 1, 1)
    } else {
        (year + 1, 1, 1)
    }
}

/// Days are numbered as the calendar counts them: the first of January 1970 is
/// day zero, and every date's successor is one day later.
pub proof fn lemma_days_follow_the_calendar(year: int, month: int, day: int)
    requires
        is_calendar_date(year, month, day),
    ensures
        day_number(1970, 1, 1) == 0,
        ({
            let (y, m, d) = next_date(year, month, day);
            day_number(y, m, d) == day_number(year, month, day) + 1
        }),
{
    if day == days_in_month(year, month) && month == 2 {
        let y = year + 4799;
        assert(y + 1 == year + 4800);
        assert((y + 1) / 4 - y / 4 == if year % 4 == 0 { 1int } else { 0int });
        assert((y + 1) / 100 - y / 100 == if year % 100 == 0 { 1int } else { 0int });
        assert((y + 1) / 400 - y / 400 == if year % 400 == 0 { 1int } else { 0int });
    }
}

/// The time left to maturity never grows as time goes on, and shrinks second by
/// second until it is zero.
pub proof fn lemma_maturity_approaches(contract: OptionContract, now: u64, later: u64)
    requires
        now <= later,
    ensures
        contract.seconds_left(later) <= contract.seconds_left(now),
        contract.seconds_left(later) > 0 ==> contract.seconds_left(now) - contract.seconds_left(
            later,
        ) == later - now,
{
}

/// A date of the form `yyyymmdd`, from 1970 on, begins as many whole days of 86400
/// seconds after the first of January 1970 as the calendar counts.
pub proof fn lemma_dates_begin_with_their_day(year: int, month: int, day: int)
    requires
        is_calendar_date(year, month, day),
        1970 <= year <= 9999,
    ensures
        date_seconds((10000 * year + 100 * month + day) as u32) == 86400 * day_number(
            year,
            month,
            day,
        ),
        day_number(year, month, day) >= 0,
{
    let date = (10000 * year + 100 * month + day) as u32;
    assert(date as int / 10000 == year);
    assert(date as int % 10000 / 100 == month);
    assert(date as int % 100 == day);
    let a = quotient(14 - month, 12);
    assert(a == 0 || a == 1);
    let y = year + 4800 - a;
    let m = month + 12 * a - 3;
    assert(0 <= m <= 11);
    assert(0 <= (153 * m + 2) / 5 <= 340);
    assert(0 <= day_number(year, month, day) <= 4_000_000) by {
        assert(y >= 6769);
        assert(y <= 14799);
        assert(y == 6769 ==> m >= 10);
    }
    assert(day_number(year, month, day) * 86400 == 86400 * day_number(year, month, day));
    assert((day_of_date(date) * 86400) % 0x1_0000_0000_0000_0000 == day_of_date(date) * 86400)
        by {
        vstd::arithmetic::div_mod::lemma_small_mod(
            (day_of_date(date) * 86400) as nat,
            0x1_0000_0000_0000_0000,
        );
    }
}

/// The time to maturity runs from now to the second at which the expiry date begins,
/// and is zero from then on.
pub proof fn lemma_maturity_is_the_expiry_date(contract: OptionContract, now: u64)
    ensures
        now < date_seconds(contract.expiry_date) ==> contract.seconds_left(now) + now
            == date_seconds(contract.expiry_date),
        now >= date_seconds(contract.expiry_date) ==> contract.seconds_left(now) == 0,
{
}

/// The Julian day count holds of every number read as a date, also of one that names no
/// day of the calendar: a year of 365 days and a quarter, less the leap days of the
/// centuries that have none, in months of 153 days for five from March on. Days before
/// 1970 count down from 2^64 seconds.
pub proof fn lemma_every_number_has_a_day(date: u32)
    ensures
        ({
            let y = date as int / 10000;
            let m = date as int / 100 % 100;
            let d = date as int % 100;
            let a: int = if m <= 2 {
                1
            } else if m <= 25 {
                0
            } else if m <= 37 {
                -1
            } else if m <= 49 {
                -2
            } else if m <= 61 {
                -3
            } else if m <= 73 {
                -4
            } else if m <= 85 {
                -5
            } else if m <= 97 {
                -6
            } else {
                -7
            };
            let years = y + 4800 - a;
            let months = m + 12 * a - 3;
            let day = 365 * years + years / 4 - years / 100 + years / 400 + (153 * months + 2) / 5
                + d - 2472633;
            &&& day >= 0 ==> date_seconds(date) == day * 86400
            &&& day < 0 ==> date_seconds(date) == 0x1_0000_0000_0000_0000 + day * 86400
        }),
{
    assert(date as int % 10000 / 100 == date as int / 100 % 100);
}

} // verus!
