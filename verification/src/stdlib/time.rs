//! Points in time, durations and time zones.
use vstd::prelude::*;
use crate::text::{decimal, padded, push_padded, push_signed_decimal, push_spadded, signed_decimal, spadded, string_push, string_push_str, tdiv, trem, owned, i64_to_string};

verus! {

/// A calendar date and time of day.
pub struct Time {
    year: i64,
    month: i64,
    day: i64,
    hour: i64,
    minute: i64,
    second: i64,
    millis: i64,
    weekday: i64,
}

/// Day of the week (0 = Monday) of a proleptic Gregorian date, by Sakamoto's method.
pub open spec fn weekday_of(year: int, month: int, day: int) -> int {
    let t = seq![0int, 3, 2, 5, 0, 3, 5, 1, 4, 6, 2, 4];
    let y = if month < 3 { year - 1 } else { year };
    let sunday_based = (y + y / 4 - y / 100 + y / 400 + t[month - 1] + day) % 7;
    (sunday_based + 6) % 7
}

/// Abbreviated weekday names, Monday first.
pub open spec fn weekday_name(w: int) -> Seq<char> {
    if w == 0 { "Mon"@ } else if w == 1 { "Tue"@ } else if w == 2 { "Wed"@ } else if w == 3 { "Thu"@ }
    else if w == 4 { "Fri"@ } else if w == 5 { "Sat"@ } else { "Sun"@ }
}

/// Abbreviated month names, January first.
pub open spec fn month_name(m: int) -> Seq<char> {
    if m == 1 { "Jan"@ } else if m == 2 { "Feb"@ } else if m == 3 { "Mar"@ } else if m == 4 { "Apr"@ }
    else if m == 5 { "May"@ } else if m == 6 { "Jun"@ } else if m == 7 { "Jul"@ } else if m == 8 { "Aug"@ }
    else if m == 9 { "Sep"@ } else if m == 10 { "Oct"@ } else if m == 11 { "Nov"@ } else { "Dec"@ }
}

fn weekday_name_exec(w: i64) -> (r: &'static str)
    ensures
        r@ == weekday_name(w as int),
{
    if w == 0 { "Mon" } else if w == 1 { "Tue" } else if w == 2 { "Wed" } else if w == 3 { "Thu" }
    else if w == 4 { "Fri" } else if w == 5 { "Sat" } else { "Sun" }
}

fn month_name_exec(m: i64) -> (r: &'static str)
    ensures
        r@ == month_name(m as int),
{
    if m == 1 { "Jan" } else if m == 2 { "Feb" } else if m == 3 { "Mar" } else if m == 4 { "Apr" }
    else if m == 5 { "May" } else if m == 6 { "Jun" } else if m == 7 { "Jul" } else if m == 8 { "Aug" }
    else if m == 9 { "Sep" } else if m == 10 { "Oct" } else if m == 11 { "Nov" } else { "Dec" }
}

impl Time {
    /// Components are within their calendar ranges.
    pub closed spec fn wf(&self) -> bool {
        &&& 1 <= self.year <= 1_000_000
        &&& 1 <= self.month <= 12
        &&& 1 <= self.day <= 31
        &&& 0 <= self.hour < 24
        &&& 0 <= self.minute < 60
        &&& 0 <= self.second < 61
        &&& 0 <= self.millis < 1000
        &&& 0 <= self.weekday < 7
    }

    pub closed spec fn spec_year(&self) -> int { self.year as int }
    pub closed spec fn spec_month(&self) -> int { self.month as int }
    pub closed spec fn spec_day(&self) -> int { self.day as int }
    pub closed spec fn spec_hour(&self) -> int { self.hour as int }
    pub closed spec fn spec_minute(&self) -> int { self.minute as int }
    pub closed spec fn spec_second(&self) -> int { self.second as int }
    pub closed spec fn spec_millis(&self) -> int { self.millis as int }
    pub closed spec fn spec_weekday(&self) -> int { self.weekday as int }

    /// The UTC time with the given components (milliseconds zero).
    pub fn utc(year: i64, month: i64, day: i64, hour: i64, minute: i64, second: i64) -> (r: Time)
        requires
            1 <= year <= 1_000_000,
            1 <= month <= 12,
            1 <= day <= 31,
            0 <= hour < 24,
            0 <= minute < 60,
            0 <= second < 61,
        ensures
            r.wf(),
            r.spec_year() == year && r.spec_month() == month && r.spec_day() == day,
            r.spec_hour() == hour && r.spec_minute() == minute && r.spec_second() == second,
            r.spec_millis() == 0,
            r.spec_weekday() == weekday_of(year as int, month as int, day as int),
    {
        let t: [i64; 12] = [0, 3, 2, 5, 0, 3, 5, 1, 4, 6, 2, 4];
        let y = if month < 3 { year - 1 } else { year };
        let idx = (month - 1) as usize;
        let tm = t[idx];
        assert(tm == seq![0int, 3, 2, 5, 0, 3, 5, 1, 4, 6, 2, 4][month - 1]);
        let sunday_based = (y + y / 4 - y / 100 + y / 400 + tm + day) % 7;
        let weekday = (sunday_based + 6) % 7;
        Time { year, month, day, hour, minute, second, millis: 0, weekday }
    }

    pub fn year(&self) -> (r: i64) ensures r == self.spec_year() { self.year }
    pub fn month(&self) -> (r: i64) ensures r == self.spec_month() { self.month }
    pub fn day(&self) -> (r: i64) ensures r == self.spec_day() { self.day }
    pub fn hour(&self) -> (r: i64) ensures r == self.spec_hour() { self.hour }
    pub fn minute(&self) -> (r: i64) ensures r == self.spec_minute() { self.minute }
    pub fn second(&self) -> (r: i64) ensures r == self.spec_second() { self.second }
    pub fn millis(&self) -> (r: i64) ensures r == self.spec_millis() { self.millis }
    pub fn weekday(&self) -> (r: i64) ensures r == self.spec_weekday() { self.weekday }

    /// `YYYY-MM-DD HH:MM:SS`.
    pub fn to_string(&self) -> (r: String)
        requires
            self.wf(),
        ensures
            r@ == decimal(self.spec_year() as nat) + "-"@ + padded(self.spec_month() as nat, 2) + "-"@ + padded(self.spec_day() as nat, 2)
                + " "@ + padded(self.spec_hour() as nat, 2) + ":"@ + padded(self.spec_minute() as nat, 2) + ":"@ + padded(self.spec_second() as nat, 2),
    {
        let mut s = String::new();
        crate::text::push_decimal(&mut s, self.year as u64);
        string_push_str(&mut s, "-");
        push_padded(&mut s, self.month as u64, 2);
        string_push_str(&mut s, "-");
        push_padded(&mut s, self.day as u64, 2);
        string_push_str(&mut s, " ");
        push_padded(&mut s, self.hour as u64, 2);
        string_push_str(&mut s, ":");
        push_padded(&mut s, self.minute as u64, 2);
        string_push_str(&mut s, ":");
        push_padded(&mut s, self.second as u64, 2);
        assert(s@ =~= decimal(self.spec_year() as nat) + "-"@ + padded(self.spec_month() as nat, 2) + "-"@ + padded(self.spec_day() as nat, 2)
                + " "@ + padded(self.spec_hour() as nat, 2) + ":"@ + padded(self.spec_minute() as nat, 2) + ":"@ + padded(self.spec_second() as nat, 2));
        s
    }

    /// `YYYY-MM-DDTHH:MM:SS.mmmZ`.
    pub fn to_iso8601(&self) -> (r: String)
        requires
            self.wf(),
        ensures
            r@ == decimal(self.spec_year() as nat) + "-"@ + padded(self.spec_month() as nat, 2) + "-"@ + padded(self.spec_day() as nat, 2)
                + "T"@ + padded(self.spec_hour() as nat, 2) + ":"@ + padded(self.spec_minute() as nat, 2) + ":"@ + padded(self.spec_second() as nat, 2)
                + "."@ + padded(self.spec_millis() as nat, 3) + "Z"@,
    {
        let mut s = String::new();
        crate::text::push_decimal(&mut s, self.year as u64);
        string_push_str(&mut s, "-");
        push_padded(&mut s, self.month as u64, 2);
        string_push_str(&mut s, "-");
        push_padded(&mut s, self.day as u64, 2);
        string_push_str(&mut s, "T");
        push_padded(&mut s, self.hour as u64, 2);
        string_push_str(&mut s, ":");
        push_padded(&mut s, self.minute as u64, 2);
        string_push_str(&mut s, ":");
        push_padded(&mut s, self.second as u64, 2);
        string_push_str(&mut s, ".");
        push_padded(&mut s, self.millis as u64, 3);
        string_push_str(&mut s, "Z");
        assert(s@ =~= decimal(self.spec_year() as nat) + "-"@ + padded(self.spec_month() as nat, 2) + "-"@ + padded(self.spec_day() as nat, 2)
                + "T"@ + padded(self.spec_hour() as nat, 2) + ":"@ + padded(self.spec_minute() as nat, 2) + ":"@ + padded(self.spec_second() as nat, 2)
                + "."@ + padded(self.spec_millis() as nat, 3) + "Z"@);
        s
    }

    /// `Www, DD Mmm YYYY HH:MM:SS +0000`.
    pub fn to_rfc2822(&self) -> (r: String)
        requires
            self.wf(),
        ensures
            r@ == weekday_name(self.spec_weekday() as int) + ", "@ + padded(self.spec_day() as nat, 2) + " "@ + month_name(self.spec_month() as int)
                + " "@ + decimal(self.spec_year() as nat) + " "@ + padded(self.spec_hour() as nat, 2) + ":"@ + padded(self.spec_minute() as nat, 2)
                + ":"@ + padded(self.spec_second() as nat, 2) + " +0000"@,
    {
        let mut s = String::new();
        string_push_str(&mut s, weekday_name_exec(self.weekday));
        string_push_str(&mut s, ", ");
        push_padded(&mut s, self.day as u64, 2);
        string_push_str(&mut s, " ");
        string_push_str(&mut s, month_name_exec(self.month));
        string_push_str(&mut s, " ");
        crate::text::push_decimal(&mut s, self.year as u64);
        string_push_str(&mut s, " ");
        push_padded(&mut s, self.hour as u64, 2);
        string_push_str(&mut s, ":");
        push_padded(&mut s, self.minute as u64, 2);
        string_push_str(&mut s, ":");
        push_padded(&mut s, self.second as u64, 2);
        string_push_str(&mut s, " +0000");
        assert(s@ =~= weekday_name(self.spec_weekday() as int) + ", "@ + padded(self.spec_day() as nat, 2) + " "@ + month_name(self.spec_month() as int)
                + " "@ + decimal(self.spec_year() as nat) + " "@ + padded(self.spec_hour() as nat, 2) + ":"@ + padded(self.spec_minute() as nat, 2)
                + ":"@ + padded(self.spec_second() as nat, 2) + " +0000"@);
        s
    }
}

/// A span of time in milliseconds.
#[derive(Debug, Clone, Copy, PartialEq, Eq, Structural)]
pub struct Duration {
    millis: i64,
}

/// Milliseconds in a second, a minute, an hour and a day.
pub open spec fn ms_per_sec() -> int { 1000 }
pub open spec fn ms_per_min() -> int { 60000 }
pub open spec fn ms_per_hour() -> int { 3600000 }
pub open spec fn ms_per_day() -> int { 86400000 }

/// Text of a duration (see `Duration::to_string`).
pub open spec fn duration_text(ms: int) -> Seq<char> {
    let secs = tdiv(ms, 1000);
    let millis = trem(ms, 1000);
    if secs < 60 {
        signed_decimal(secs) + "."@ + spadded(millis, 3) + "s"@
    } else if secs < 3600 {
        decimal((secs / 60) as nat) + "m "@ + padded((secs % 60) as nat, 2) + "."@ + spadded(millis, 3) + "s"@
    } else if secs < 86400 {
        decimal((secs / 3600) as nat) + "h "@ + padded(((secs % 3600) / 60) as nat, 2) + "m "@ + padded((secs % 60) as nat, 2)
            + "."@ + spadded(millis, 3) + "s"@
    } else {
        decimal((secs / 86400) as nat) + "d "@ + padded(((secs % 86400) / 3600) as nat, 2) + "h "@
            + padded(((secs % 3600) / 60) as nat, 2) + "m"@
    }
}

impl Duration {
    pub closed spec fn ms(&self) -> int { self.millis as int }

    pub fn from_millis(ms: i64) -> (r: Duration)
        ensures
            r.ms() == ms,
    {
        Duration { millis: ms }
    }

    pub fn from_secs(s: i64) -> (r: Duration)
        requires
            i64::MIN <= s * 1000 <= i64::MAX,
        ensures
            r.ms() == s * 1000,
    {
        Duration { millis: s * 1000 }
    }

    pub fn from_mins(m: i64) -> (r: Duration)
        requires
            i64::MIN <= m * 60000 <= i64::MAX,
        ensures
            r.ms() == m * ms_per_min(),
    {
        Duration { millis: m * 60 * 1000 }
    }

    pub fn from_hours(h: i64) -> (r: Duration)
        requires
            i64::MIN <= h * 3600000 <= i64::MAX,
        ensures
            r.ms() == h * ms_per_hour(),
    {
        Duration { millis: h * 60 * 60 * 1000 }
    }

    pub fn from_days(d: i64) -> (r: Duration)
        requires
            i64::MIN <= d * 86400000 <= i64::MAX,
        ensures
            r.ms() == d * ms_per_day(),
    {
        Duration { millis: d * 24 * 60 * 60 * 1000 }
    }

    pub fn zero() -> (r: Duration)
        ensures
            r.ms() == 0,
    {
        Duration { millis: 0 }
    }

    pub fn millis(&self) -> (r: i64) ensures r == self.ms() { self.millis }

    pub fn secs(&self) -> (r: i64) ensures r == tdiv(self.ms(), 1000) { self.millis / 1000 }

    pub fn mins(&self) -> (r: i64) ensures r == tdiv(self.ms(), ms_per_min()) { self.millis / (60 * 1000) }

    pub fn hours(&self) -> (r: i64) ensures r == tdiv(self.ms(), ms_per_hour()) { self.millis / (60 * 60 * 1000) }

    pub fn days(&self) -> (r: i64) ensures r == tdiv(self.ms(), ms_per_day()) { self.millis / (24 * 60 * 60 * 1000) }

    pub fn subsec_millis(&self) -> (r: i64) ensures r == trem(self.ms(), 1000) { self.millis % 1000 }

    pub fn subsec_micros(&self) -> (r: i64) ensures r == trem(self.ms(), 1000) * 1000 { (self.millis % 1000) * 1000 }

    /// The sum, when it is not negative.
    pub fn checked_add(&self, other: &Duration) -> (r: Option<Duration>)
        requires
            i64::MIN <= self.ms() + other.ms() <= i64::MAX,
        ensures
            r is Some == (self.ms() + other.ms() >= 0),
            r matches Some(d) ==> d.ms() == self.ms() + other.ms(),
    {
        let result = self.millis + other.millis;
        if result >= 0 { Some(Duration { millis: result }) } else { None }
    }

    /// The difference, when it is not negative.
    pub fn checked_sub(&self, other: &Duration) -> (r: Option<Duration>)
        requires
            i64::MIN <= self.ms() - other.ms() <= i64::MAX,
        ensures
            r is Some == (self.ms() - other.ms() >= 0),
            r matches Some(d) ==> d.ms() == self.ms() - other.ms(),
    {
        let result = self.millis - other.millis;
        if result >= 0 { Some(Duration { millis: result }) } else { None }
    }

    pub fn mul(&self, n: i64) -> (r: Duration)
        requires
            i64::MIN <= self.ms() * n <= i64::MAX,
        ensures
            r.ms() == self.ms() * n,
    {
        Duration { millis: self.millis * n }
    }

    pub fn div(&self, n: i64) -> (r: Duration)
        requires
            n != 0,
            !(self.ms() == i64::MIN && n == -1),
        ensures
            r.ms() == tdiv(self.ms(), n as int),
    {
        let q = if n > 0 {
            self.millis / n
        } else if n == i64::MIN {
            if self.millis == i64::MIN { 1 } else { 0 }
        } else if n == -1 {
            -self.millis
        } else {
            let d = -n;
            let p = self.millis / d;
            assert(p == tdiv(self.ms(), d as int));
            proof {
                if self.millis < 0 {
                    let x = -(self.millis as int);
                    assert(x / (d as int) <= x / 2) by (nonlinear_arith)
                        requires
                            x >= 0,
                            d >= 2,
                    {
                    }
                }
            }
            -p
        };
        Duration { millis: q }
    }

    /// Human-readable text: `S.mmms`, `Mm SS.mmms`, `Hh MMm SS.mmms` or `Dd HHh MMm`.
    pub fn to_string(&self) -> (r: String)
        ensures
            r@ == duration_text(self.ms()),
    {
        let secs = self.millis / 1000;
        let millis = self.millis % 1000;
        let mut s = String::new();
        if secs < 60 {
            push_signed_decimal(&mut s, secs);
            string_push_str(&mut s, ".");
            push_spadded(&mut s, millis, 3);
            string_push_str(&mut s, "s");
            assert(s@ =~= duration_text(self.ms()));
        } else if secs < 3600 {
            crate::text::push_decimal(&mut s, (secs / 60) as u64);
            string_push_str(&mut s, "m ");
            push_padded(&mut s, (secs % 60) as u64, 2);
            string_push_str(&mut s, ".");
            push_spadded(&mut s, millis, 3);
            string_push_str(&mut s, "s");
            assert(s@ =~= duration_text(self.ms()));
        } else if secs < 86400 {
            crate::text::push_decimal(&mut s, (secs / 3600) as u64);
            string_push_str(&mut s, "h ");
            push_padded(&mut s, ((secs % 3600) / 60) as u64, 2);
            string_push_str(&mut s, "m ");
            push_padded(&mut s, (secs % 60) as u64, 2);
            string_push_str(&mut s, ".");
            push_spadded(&mut s, millis, 3);
            string_push_str(&mut s, "s");
            assert(s@ =~= duration_text(self.ms()));
        } else {
            crate::text::push_decimal(&mut s, (secs / 86400) as u64);
            string_push_str(&mut s, "d ");
            push_padded(&mut s, ((secs % 86400) / 3600) as u64, 2);
            string_push_str(&mut s, "h ");
            push_padded(&mut s, ((secs % 3600) / 60) as u64, 2);
            string_push_str(&mut s, "m");
            assert(s@ =~= duration_text(self.ms()));
        }
        s
    }
}

/// A time zone given by its offset from UTC in whole hours.
pub struct TimeZone {
    name: String,
    offset_hours: i64,
}

impl TimeZone {
    pub closed spec fn spec_name(&self) -> Seq<char> { self.name@ }
    pub closed spec fn spec_offset(&self) -> int { self.offset_hours as int }

    pub fn utc() -> (r: TimeZone)
        ensures
            r.spec_name() == "UTC"@,
            r.spec_offset() == 0,
    {
        TimeZone { name: owned("UTC"), offset_hours: 0 }
    }

    /// `UTC+h` for a non-negative offset, `UTC-h` otherwise.
    pub fn from_offset(offset_hours: i64) -> (r: TimeZone)
        ensures
            r.spec_name() == "UTC"@ + (if offset_hours >= 0 { "+"@ } else { ""@ }) + signed_decimal(offset_hours as int),
            r.spec_offset() == offset_hours,
    {
        let mut name = owned("UTC");
        if offset_hours >= 0 {
            string_push_str(&mut name, "+");
        }
        push_signed_decimal(&mut name, offset_hours);
        proof {
            if offset_hours < 0 {
                assert(""@ =~= Seq::<char>::empty()) by {
                    reveal_strlit("");
                }
            }
        }
        assert(name@ =~= "UTC"@ + (if offset_hours >= 0 { "+"@ } else { ""@ }) + signed_decimal(offset_hours as int));
        TimeZone { name, offset_hours }
    }

    pub fn name(&self) -> (r: String)
        ensures
            r@ == self.spec_name(),
    {
        self.name.clone()
    }

    pub fn offset_hours(&self) -> (r: i64)
        ensures
            r == self.spec_offset(),
    {
        self.offset_hours
    }

    pub fn offset_secs(&self) -> (r: i64)
        requires
            i64::MIN <= self.spec_offset() * 3600 <= i64::MAX,
        ensures
            r == self.spec_offset() * 3600,
    {
        self.offset_hours * 3600
    }
}

} // verus!
