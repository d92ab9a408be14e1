//! Moments in time and their text form.
use vstd::prelude::*;

verus! {

/// The first second that has a calendar date: January 1st of the year -262143.
pub const FIRST_SECOND: i64 = -8_334_601_228_800;

/// The last second that has a calendar date: December 31st of the year 262142.
pub const LAST_SECOND: i64 = 8_210_266_876_799;

/// A moment in time, counted from January 1st 1970 in UTC. Within the last second of a minute the
/// nanoseconds may run on through a leap second.
#[derive(Debug, Clone, Copy)]
pub struct Timestamp {
    pub seconds: i64,
    pub nanos: u32,
}

impl Timestamp {
    pub open spec fn wf(self) -> bool {
        &&& FIRST_SECOND <= self.seconds <= LAST_SECOND
        &&& self.nanos < 2_000_000_000
        &&& self.nanos >= 1_000_000_000 ==> self.seconds as int % 60 == 59
    }

    /// The moment has a calendar date in a time zone that is `offset` seconds ahead of UTC.
    pub open spec fn has_date_at(self, offset: i32) -> bool {
        &&& self.wf()
        &&& -86_400 < offset < 86_400
        &&& FIRST_SECOND <= self.seconds + offset <= LAST_SECOND
    }

    /// Whether the moment has a calendar date in a time zone that is `offset` seconds ahead of UTC.
    pub fn check_date_at(&self, offset: i32) -> (r: bool)
        ensures
            r == self.has_date_at(offset),
    {
        if self.seconds < FIRST_SECOND || self.seconds > LAST_SECOND || self.nanos >= 2_000_000_000
            || offset <= -86_400 || offset >= 86_400 {
            return false;
        }
        let in_minute: i64 = (self.seconds - FIRST_SECOND) % 60;
        if self.nanos >= 1_000_000_000 && in_minute != 59 {
            return false;
        }
        let local: i64 = self.seconds + offset as i64;
        FIRST_SECOND <= local && local <= LAST_SECOND
    }
}

/// A date and time of day in the Gregorian calendar.
pub struct CivilTime {
    pub year: int,
    pub month: int,
    pub day: int,
    pub hour: int,
    pub minute: int,
    pub second: int,
}

pub open spec fn is_leap_year(year: int) -> bool {
    year % 4 == 0 && (year % 100 != 0 || year % 400 == 0)
}

pub open spec fn days_in_month(year: int, month: int) -> int {
    if month == 2 {
        if is_leap_year(year) {
            29
        } else {
            28
        }
    } else if month == 4 || month == 6 || month == 9 || month == 11 {
        30
    } else {
        31
    }
}

/// Days from January 1st to the beginning of the month.
pub open spec fn days_before_month(year: int, month: int) -> int
    decreases month,
{
    if month <= 1 {
        0
    } else {
        days_before_month(year, month - 1) + days_in_month(year, month - 1)
    }
}

/// Days from January 1st of the year 0 to the beginning of the year.
pub open spec fn days_before_year(year: int) -> int {
    365 * year + (year + 3) / 4 - (year + 99) / 100 + (year + 399) / 400
}

impl CivilTime {
    /// There is such a date and time of day, in a year of four digits.
    pub open spec fn wf(self) -> bool {
        &&& 0 <= self.year <= 9999
        &&& 1 <= self.month <= 12
        &&& 1 <= self.day <= days_in_month(self.year, self.month)
        &&& 0 <= self.hour < 24
        &&& 0 <= self.minute < 60
        &&& 0 <= self.second < 60
    }

    /// Seconds from January 1st 1970 to this date and time of day.
    pub open spec fn seconds(self) -> int {
        86_400 * (days_before_year(self.year) - days_before_year(1970) + days_before_month(
            self.year,
            self.month,
        ) + self.day - 1) + 3_600 * self.hour + 60 * self.minute + self.second
    }

    /// The date, the time of day and the offset of the time zone, as `YYYY-MM-DDThh:mm:ss+hh:mm`.
    pub open spec fn text(self, offset: int) -> Seq<char> {
        seq![
            digit(self.year / 100 / 10),
            digit(self.year / 100),
            digit(self.year % 100 / 10),
            digit(self.year % 100),
            '-',
            digit(self.month / 10),
            digit(self.month),
            '-',
            digit(self.day / 10),
            digit(self.day),
            'T',
            digit(self.hour / 10),
            digit(self.hour),
            ':',
            digit(self.minute / 10),
            digit(self.minute),
            ':',
            digit(self.second / 10),
            digit(self.second),
            if offset < 0 {
                '-'
            } else {
                '+'
            },
            digit(magnitude(offset) / 3_600 / 10),
            digit(magnitude(offset) / 3_600),
            ':',
            digit(magnitude(offset) / 60 % 60 / 10),
            digit(magnitude(offset) / 60 % 60),
        ]
    }
}

pub open spec fn magnitude(n: int) -> int {
    if n < 0 {
        -n
    } else {
        n
    }
}

/// The last decimal digit of a number.
#[verifier::opaque]
pub open spec fn digit(n: int) -> char {
    ('0' as int + n % 10) as char
}

/// The text is the date and time of day of the second `second`, counted from January 1st 1970 in
/// UTC, in a time zone that is `offset` seconds ahead of UTC.
pub open spec fn tells(text: Seq<char>, second: int, offset: int) -> bool {
    &&& -86_400 < offset < 86_400
    &&& offset % 60 == 0
    &&& exists|civil: CivilTime|
        civil.wf() && civil.seconds() == second + offset && text == #[trigger] civil.text(offset)
}

/// The second that a date and time tells.
pub open spec fn second_told(text: Seq<char>) -> int {
    (choose|second: int, offset: int| tells(text, second, offset)).0
}

/// The first second of the year 0.
pub const FIRST_PLAIN_SECOND: i64 = -62_167_219_200;

/// The last second of the year 9999.
pub const LAST_PLAIN_SECOND: i64 = 253_402_300_799;

impl Timestamp {
    /// The moment is not in a leap second, its local year has four digits, and the offset is a
    /// number of minutes.
    pub open spec fn is_plain_at(self, offset: i32) -> bool {
        &&& self.nanos < 1_000_000_000
        &&& FIRST_PLAIN_SECOND <= self.seconds + offset <= LAST_PLAIN_SECOND
        &&& offset as int % 60 == 0
    }
}

/// The moment as an RFC 3339 date and time, to the second, with the offset as `+hh:mm` or `-hh:mm`.
pub uninterp spec fn rfc3339_of(seconds: i64, nanos: u32, offset: i32) -> Seq<char>;

/// Calls `chrono::DateTime::to_rfc3339_opts` with `SecondsFormat::Secs` and no `Z`, on the moment
/// in a `chrono::FixedOffset`. The result depends on the moment and the offset alone; UTC is the
/// offset zero. Outside leap seconds, in years of four digits and with an offset of whole minutes,
/// it is the local date and time of day, followed by the offset. How other years, leap seconds and
/// offsets with seconds are written is left unsaid. The call panics where the local date is out of
/// range.
#[verifier::external_body]
fn rfc3339(seconds: i64, nanos: u32, offset: i32) -> (r: String)
    requires
        (Timestamp { seconds, nanos }).has_date_at(offset),
    ensures
        r@ == rfc3339_of(seconds, nanos, offset),
        (Timestamp { seconds, nanos }).is_plain_at(offset) ==> tells(
            r@,
            seconds as int,
            offset as int,
        ),
{
    chrono::DateTime::from_timestamp(seconds, nanos)
        .unwrap()
        .with_timezone(&chrono::FixedOffset::east_opt(offset).unwrap())
        .to_rfc3339_opts(chrono::SecondsFormat::Secs, false)
}

proof fn lemma_digit(a: int, b: int)
    requires
        digit(a) == digit(b),
    ensures
        a % 10 == b % 10,
{
    reveal(digit);
}

proof fn lemma_two_digits(a: int, b: int)
    requires
        0 <= a < 100,
        0 <= b < 100,
        digit(a / 10) == digit(b / 10),
        digit(a) == digit(b),
    ensures
        a == b,
{
    lemma_digit(a / 10, b / 10);
    lemma_digit(a, b);
}

proof fn lemma_offset_digits(a: int, b: int)
    requires
        0 <= a < 86_400,
        0 <= b < 86_400,
        a % 60 == b % 60,
        digit(a / 3_600 / 10) == digit(b / 3_600 / 10),
        digit(a / 3_600) == digit(b / 3_600),
        digit(a / 60 % 60 / 10) == digit(b / 60 % 60 / 10),
        digit(a / 60 % 60) == digit(b / 60 % 60),
    ensures
        a == b,
{
    lemma_two_digits(a / 3_600, b / 3_600);
    lemma_two_digits(a / 60 % 60, b / 60 % 60);
}

proof fn lemma_same_text(a: CivilTime, offset: int, b: CivilTime, other_offset: int)
    requires
        a.wf(),
        b.wf(),
        -86_400 < offset < 86_400,
        -86_400 < other_offset < 86_400,
        offset % 60 == 0,
        other_offset % 60 == 0,
        a.text(offset) == b.text(other_offset),
    ensures
        a == b,
        offset == other_offset,
{
    let t = a.text(offset);
    let u = b.text(other_offset);
    assert(a.year == b.year) by {
        assert(t[0] == u[0] && t[1] == u[1] && t[2] == u[2] && t[3] == u[3]);
        lemma_two_digits(a.year / 100, b.year / 100);
        lemma_two_digits(a.year % 100, b.year % 100);
    }
    assert(a.month == b.month) by {
        assert(t[5] == u[5] && t[6] == u[6]);
        lemma_two_digits(a.month, b.month);
    }
    assert(a.day == b.day) by {
        assert(t[8] == u[8] && t[9] == u[9]);
        lemma_two_digits(a.day, b.day);
    }
    assert(a.hour == b.hour) by {
        assert(t[11] == u[11] && t[12] == u[12]);
        lemma_two_digits(a.hour, b.hour);
    }
    assert(a.minute == b.minute) by {
        assert(t[14] == u[14] && t[15] == u[15]);
        lemma_two_digits(a.minute, b.minute);
    }
    assert(a.second == b.second) by {
        assert(t[17] == u[17] && t[18] == u[18]);
        lemma_two_digits(a.second, b.second);
    }
    assert(offset == other_offset) by {
        assert(t[19] == u[19] && t[20] == u[20] && t[21] == u[21]);
        assert(t[23] == u[23] && t[24] == u[24]);
        lemma_offset_digits(magnitude(offset), magnitude(other_offset));
    }
}

/// A text tells one second and one offset.
pub proof fn lemma_tells_one_second(
    text: Seq<char>,
    second: int,
    offset: int,
    other_second: int,
    other_offset: int,
)
    requires
        tells(text, second, offset),
        tells(text, other_second, other_offset),
    ensures
        second == other_second,
        offset == other_offset,
{
    let a = choose|civil: CivilTime|
        civil.wf() && civil.seconds() == second + offset && text == #[trigger] civil.text(offset);
    let b = choose|civil: CivilTime|
        civil.wf() && civil.seconds() == other_second + other_offset && text
            == #[trigger] civil.text(other_offset);
    lemma_same_text(a, offset, b, other_offset);
}

/// A text that tells a second is read back as that second.
pub proof fn lemma_second_told(text: Seq<char>, second: int, offset: int)
    requires
        tells(text, second, offset),
    ensures
        second_told(text) == second,
{
    let (told, told_offset) = choose|s: int, o: int| tells(text, s, o);
    lemma_tells_one_second(text, told, told_offset, second, offset);
}

/// The text of a moment in UTC and its text in another time zone tell the same second, and are the
/// same only where the time zone is not ahead of or behind UTC.
pub proof fn lemma_time_zones_agree(
    in_utc: Seq<char>,
    local: Seq<char>,
    second: int,
    local_offset: int,
)
    requires
        tells(in_utc, second, 0),
        tells(local, second, local_offset),
    ensures
        second_told(in_utc) == second_told(local),
        in_utc == local ==> local_offset == 0,
{
    lemma_second_told(in_utc, second, 0);
    lemma_second_told(local, second, local_offset);
    if in_utc == local {
        lemma_tells_one_second(in_utc, second, 0, second, local_offset);
    }
}

/// The offset of the time zone in which times are shown.
pub open spec fn shown_offset(utc: bool, local_offset: i32) -> i32 {
    if utc {
        0
    } else {
        local_offset
    }
}

/// The moment as text, in UTC or in the local time zone, which is `local_offset` seconds ahead of
/// UTC at that moment. Either way the text tells the second of the moment.
pub fn format_time(t: &Timestamp, utc: bool, local_offset: i32) -> (r: String)
    requires
        t.has_date_at(shown_offset(utc, local_offset)),
    ensures
        r@ == rfc3339_of(t.seconds, t.nanos, shown_offset(utc, local_offset)),
        utc ==> r@ == rfc3339_of(t.seconds, t.nanos, 0),
        !utc ==> r@ == rfc3339_of(t.seconds, t.nanos, local_offset),
        t.is_plain_at(shown_offset(utc, local_offset)) ==> tells(
            r@,
            t.seconds as int,
            shown_offset(utc, local_offset) as int,
        ) && second_told(r@) == t.seconds,
{
    let r = if utc {
        rfc3339(t.seconds, t.nanos, 0)
    } else {
        rfc3339(t.seconds, t.nanos, local_offset)
    };
    proof {
        if t.is_plain_at(shown_offset(utc, local_offset)) {
            lemma_second_told(r@, t.seconds as int, shown_offset(utc, local_offset) as int);
        }
    }
    r
}

/// A moment has a calendar date in a time zone exactly when it and its local time are between the
/// years -262143 and 262142, the time zone is less than a day away from UTC, and a leap second comes
/// at the end of a minute.
pub proof fn lemma_has_date(t: Timestamp, offset: i32)
    ensures
        t.has_date_at(offset) <==> {
            &&& -8_334_601_228_800 <= t.seconds <= 8_210_266_876_799
            &&& -8_334_601_228_800 <= t.seconds + offset <= 8_210_266_876_799
            &&& -86_400 < offset < 86_400
            &&& t.nanos < 1_000_000_000 || (t.nanos < 2_000_000_000 && (t.seconds + 1) % 60 == 0)
        },
{
}

/// Times are shown in UTC where that is asked for, and in the local time zone else.
pub proof fn lemma_shown_offset(local_offset: i32)
    ensures
        shown_offset(true, local_offset) == 0,
        shown_offset(false, local_offset) == local_offset,
{
}

} // verus!
