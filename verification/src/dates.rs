//! Dates: the parsed timestamp record, its validity, and the four string
//! projections a page carries (RFC 3339 form, full human form, short ISO
//! date, year). Parsing the RFC 3339 text is delegated to an outside
//! library; every projection is computed and specified here.
use vstd::prelude::*;
use vstd::string::*;
use crate::text::{dec_of, u64_dec, digit_str};

verus! {

/// A decoded timestamp: proleptic Gregorian calendar date, time of day,
/// and a fixed UTC offset in seconds (always a whole number of minutes).
#[derive(Clone, Copy, Debug)]
pub struct DateParts {
    pub year: u16,
    pub month: u8,
    pub day: u8,
    pub hour: u8,
    pub minute: u8,
    pub second: u8,
    pub offset_seconds: i32,
}

/// Gregorian leap-year rule.
pub open spec fn is_leap(y: nat) -> bool {
    y % 4 == 0 && (y % 100 != 0 || y % 400 == 0)
}

/// Days in month `m` (1-based) of year `y`.
pub open spec fn days_in_month(y: nat, m: nat) -> nat {
    if m == 2 {
        if is_leap(y) { 29 } else { 28 }
    } else if m == 4 || m == 6 || m == 9 || m == 11 {
        30
    } else {
        31
    }
}

impl DateParts {
    /// A calendar-valid date-time with a four-digit year and an RFC 3339
    /// offset (whole minutes, strictly between minus and plus 24 hours).
    pub open spec fn wf(self) -> bool {
        self.year <= 9999 && 1 <= self.month <= 12 && 1 <= self.day && self.day as nat
            <= days_in_month(self.year as nat, self.month as nat) && self.hour <= 23 && self.minute
            <= 59 && self.second <= 59 && -86340 <= self.offset_seconds <= 86340
            && self.offset_seconds % 60 == 0
    }
}

/// What parsing a timestamp text as RFC 3339 yields: `None` where the text
/// is not a valid RFC 3339 date-time, the decoded fields otherwise. The
/// outcome depends on the text alone.
pub uninterp spec fn rfc3339_of(s: Seq<char>) -> Option<DateParts>;

/// Relies on chrono's `DateTime::parse_from_rfc3339` and the `Datelike`,
/// `Timelike` and `FixedOffset` accessors: parsing is a pure function of
/// the text; a parsed value is a valid calendar date (chrono rejects
/// out-of-range fields), its year has at most four digits, its seconds
/// stay below sixty (a leap second is carried in the subsecond field), and
/// its offset was read as sign, hours and minutes, so its seconds are a
/// whole number of minutes, strictly between minus and plus 24 hours.
#[verifier::external_body]
pub(crate) fn parse_rfc3339(s: &str) -> (r: Option<DateParts>)
    ensures
        r == rfc3339_of(s@),
        r matches Some(p) ==> p.wf(),
{
    let dt = match chrono::DateTime::parse_from_rfc3339(s) {
        Ok(dt) => dt,
        Err(_) => return None,
    };
    Some(DateParts {
        year: chrono::Datelike::year(&dt) as u16,
        month: chrono::Datelike::month(&dt) as u8,
        day: chrono::Datelike::day(&dt) as u8,
        hour: chrono::Timelike::hour(&dt) as u8,
        minute: chrono::Timelike::minute(&dt) as u8,
        second: chrono::Timelike::second(&dt) as u8,
        offset_seconds: dt.offset().local_minus_utc(),
    })
}

/// Length of the decimal rendering, for numbers up to four digits.
pub proof fn lemma_dec_len(n: nat)
    ensures
        dec_of(n).len() >= 1,
        n < 10 ==> dec_of(n).len() == 1,
        10 <= n < 100 ==> dec_of(n).len() == 2,
        100 <= n < 1000 ==> dec_of(n).len() == 3,
        1000 <= n < 10000 ==> dec_of(n).len() == 4,
    decreases n,
{
    if n >= 10 {
        lemma_dec_len(n / 10);
    }
}

/// `n` zero-padded to at least two digits.
pub open spec fn pad2_of(n: nat) -> Seq<char> {
    if n < 10 {
        seq!['0'] + dec_of(n)
    } else {
        dec_of(n)
    }
}

/// `n` zero-padded to at least four digits.
pub open spec fn pad4_of(n: nat) -> Seq<char> {
    if n < 10 {
        seq!['0', '0', '0'] + dec_of(n)
    } else if n < 100 {
        seq!['0', '0'] + dec_of(n)
    } else if n < 1000 {
        seq!['0'] + dec_of(n)
    } else {
        dec_of(n)
    }
}

/// The two-digit forms have two characters, the four-digit forms four.
pub proof fn lemma_pad_len(n: nat)
    ensures
        n < 100 ==> pad2_of(n).len() == 2,
        n < 10000 ==> pad4_of(n).len() == 4,
{
    lemma_dec_len(n);
}

/// Renders `n` zero-padded to two digits.
pub fn pad2(n: u64) -> (r: String)
    requires
        n < 100,
    ensures
        r@ == pad2_of(n as nat),
{
    if n < 10 {
        let mut s = digit_str(0).to_owned();
        let d = u64_dec(n);
        s.append(d.as_str());
        proof {
            assert(s@ =~= pad2_of(n as nat));
        }
        s
    } else {
        u64_dec(n)
    }
}

/// Renders `n` zero-padded to four digits.
pub fn pad4(n: u64) -> (r: String)
    requires
        n < 10000,
    ensures
        r@ == pad4_of(n as nat),
{
    let mut s = String::new();
    if n < 10 {
        s.append(digit_str(0));
        s.append(digit_str(0));
        s.append(digit_str(0));
    } else if n < 100 {
        s.append(digit_str(0));
        s.append(digit_str(0));
    } else if n < 1000 {
        s.append(digit_str(0));
    }
    let d = u64_dec(n);
    s.append(d.as_str());
    proof {
        assert(s@ =~= pad4_of(n as nat));
    }
    s
}

/// Leap years strictly before year `y` (year zero itself is a leap year).
pub open spec fn leap_count_before(y: nat) -> int {
    if y == 0 {
        0
    } else {
        1 + ((y - 1) as int) / 4 - ((y - 1) as int) / 100 + ((y - 1) as int) / 400
    }
}

/// Days of year `y` that lie before month `m` (1-based).
pub open spec fn days_before_month(y: nat, m: nat) -> nat
    decreases m,
{
    if m <= 1 {
        0
    } else {
        days_before_month(y, (m - 1) as nat) + days_in_month(y, (m - 1) as nat)
    }
}

/// Days between the proleptic Gregorian date 0000-01-01 and this date.
pub open spec fn day_number(p: DateParts) -> int {
    365 * (p.year as int) + leap_count_before(p.year as nat) + days_before_month(
        p.year as nat,
        p.month as nat,
    ) + p.day - 1
}

/// Day of the week, 0 for Sunday through 6 for Saturday; 0000-01-01 is a
/// Saturday.
pub open spec fn weekday_index(p: DateParts) -> int {
    (day_number(p) + 6) % 7
}

/// Executable form of [`days_in_month`].
pub fn days_in_month_x(y: u64, m: u64) -> (r: u64)
    ensures
        r == days_in_month(y as nat, m as nat),
{
    if m == 2 {
        if y % 4 == 0 && (y % 100 != 0 || y % 400 == 0) {
            29
        } else {
            28
        }
    } else if m == 4 || m == 6 || m == 9 || m == 11 {
        30
    } else {
        31
    }
}

/// Computes the days between 0000-01-01 and a valid date.
pub fn day_count(p: &DateParts) -> (r: u64)
    requires
        p.wf(),
    ensures
        r == day_number(*p),
        r < 3_660_000,
{
    let y: u64 = p.year as u64;
    let leaps: u64 = if y == 0 {
        0
    } else {
        proof {
            vstd::arithmetic::div_mod::lemma_div_is_ordered_by_denominator(y - 1, 4, 100);
        }
        1 + (y - 1) / 4 + (y - 1) / 400 - (y - 1) / 100
    };
    let mut dbm: u64 = 0;
    let mut m: u64 = 1;
    while m < p.month as u64
        invariant
            1 <= m <= p.month,
            p.month <= 12,
            y == p.year,
            dbm == days_before_month(y as nat, m as nat),
            dbm <= 31 * m,
        decreases p.month as u64 - m,
    {
        dbm = dbm + days_in_month_x(y, m);
        m = m + 1;
    }
    365 * y + leaps + dbm + (p.day as u64 - 1)
}

/// Computes the day of the week of a valid date.
pub fn weekday(p: &DateParts) -> (r: u64)
    requires
        p.wf(),
    ensures
        r == weekday_index(*p),
        r < 7,
{
    let dn = day_count(p);
    (dn + 6) % 7
}

/// Seconds between the proleptic Gregorian instant 0000-01-01T00:00:00Z
/// and this date-time: a total order on the instants the timestamps
/// denote, the same for one instant however its text wrote the offset.
pub open spec fn instant_of(p: DateParts) -> int {
    day_number(p) * 86400 + (p.hour as int) * 3600 + (p.minute as int) * 60 + (p.second as int)
        - p.offset_seconds
}

/// Computes the instant of a valid date-time.
pub fn instant(p: &DateParts) -> (r: i64)
    requires
        p.wf(),
    ensures
        r == instant_of(*p),
{
    let dn = day_count(p) as i64;
    dn * 86400 + (p.hour as i64) * 3600 + (p.minute as i64) * 60 + (p.second as i64) - (
    p.offset_seconds as i64)
}

/// Three-letter English weekday name, indexed as in [`weekday_index`].
pub open spec fn weekday_abbrev(w: int) -> Seq<char> {
    if w == 0 { "Sun"@ }
    else if w == 1 { "Mon"@ }
    else if w == 2 { "Tue"@ }
    else if w == 3 { "Wed"@ }
    else if w == 4 { "Thu"@ }
    else if w == 5 { "Fri"@ }
    else { "Sat"@ }
}

/// Three-letter English month name, 1-based; out-of-range falls to
/// December, unreachable for valid dates.
pub open spec fn month_abbrev(m: nat) -> Seq<char> {
    if m == 1 { "Jan"@ }
    else if m == 2 { "Feb"@ }
    else if m == 3 { "Mar"@ }
    else if m == 4 { "Apr"@ }
    else if m == 5 { "May"@ }
    else if m == 6 { "Jun"@ }
    else if m == 7 { "Jul"@ }
    else if m == 8 { "Aug"@ }
    else if m == 9 { "Sep"@ }
    else if m == 10 { "Oct"@ }
    else if m == 11 { "Nov"@ }
    else { "Dec"@ }
}

fn weekday_abbrev_x(w: u64) -> (r: &'static str)
    requires
        w < 7,
    ensures
        r@ == weekday_abbrev(w as int),
{
    if w == 0 { "Sun" }
    else if w == 1 { "Mon" }
    else if w == 2 { "Tue" }
    else if w == 3 { "Wed" }
    else if w == 4 { "Thu" }
    else if w == 5 { "Fri" }
    else { "Sat" }
}

fn month_abbrev_x(m: u64) -> (r: &'static str)
    ensures
        r@ == month_abbrev(m as nat),
{
    if m == 1 { "Jan" }
    else if m == 2 { "Feb" }
    else if m == 3 { "Mar" }
    else if m == 4 { "Apr" }
    else if m == 5 { "May" }
    else if m == 6 { "Jun" }
    else if m == 7 { "Jul" }
    else if m == 8 { "Aug" }
    else if m == 9 { "Sep" }
    else if m == 10 { "Oct" }
    else if m == 11 { "Nov" }
    else { "Dec" }
}

/// The short ISO projection, `YYYY-MM-DD`.
pub open spec fn date_short_str(p: DateParts) -> Seq<char> {
    pad4_of(p.year as nat) + "-"@ + pad2_of(p.month as nat) + "-"@ + pad2_of(p.day as nat)
}

/// The year projection, `YYYY`.
pub open spec fn year_str(p: DateParts) -> Seq<char> {
    pad4_of(p.year as nat)
}

/// The full human projection, like `Thu Mar 05 2020`.
pub open spec fn date_full_str(p: DateParts) -> Seq<char> {
    weekday_abbrev(weekday_index(p)) + " "@ + month_abbrev(p.month as nat) + " "@ + pad2_of(
        p.day as nat,
    ) + " "@ + pad4_of(p.year as nat)
}

/// The UTC-offset suffix of the RFC 3339 projection: `Z` for UTC, a signed
/// `hh:mm` otherwise; `os` is the offset in seconds.
pub open spec fn offset_str(os: int) -> Seq<char> {
    if os == 0 {
        "Z"@
    } else if os > 0 {
        "+"@ + pad2_of((os / 3600) as nat) + ":"@ + pad2_of(((os % 3600) / 60) as nat)
    } else {
        "-"@ + pad2_of(((-os) / 3600) as nat) + ":"@ + pad2_of((((-os) % 3600) / 60) as nat)
    }
}

/// The RFC 3339 projection with whole seconds, like `2020-03-05T10:00:00Z`.
pub open spec fn date_rfc3339_str(p: DateParts) -> Seq<char> {
    date_short_str(p) + "T"@ + pad2_of(p.hour as nat) + ":"@ + pad2_of(p.minute as nat) + ":"@
        + pad2_of(p.second as nat) + offset_str(p.offset_seconds as int)
}

/// Renders the short ISO projection.
pub fn fmt_short(p: &DateParts) -> (r: String)
    requires
        p.wf(),
    ensures
        r@ == date_short_str(*p),
{
    let mut s = pad4(p.year as u64);
    s.append("-");
    let m = pad2(p.month as u64);
    s.append(m.as_str());
    s.append("-");
    let d = pad2(p.day as u64);
    s.append(d.as_str());
    proof {
        assert(s@ =~= date_short_str(*p));
    }
    s
}

/// Renders the year projection.
pub fn fmt_year(p: &DateParts) -> (r: String)
    requires
        p.wf(),
    ensures
        r@ == year_str(*p),
{
    pad4(p.year as u64)
}

/// Renders the full human projection.
pub fn fmt_full(p: &DateParts) -> (r: String)
    requires
        p.wf(),
    ensures
        r@ == date_full_str(*p),
{
    let w = weekday(p);
    let mut s = weekday_abbrev_x(w).to_owned();
    s.append(" ");
    s.append(month_abbrev_x(p.month as u64));
    s.append(" ");
    let d = pad2(p.day as u64);
    s.append(d.as_str());
    s.append(" ");
    let y = pad4(p.year as u64);
    s.append(y.as_str());
    proof {
        assert(s@ =~= date_full_str(*p));
    }
    s
}

/// Renders the RFC 3339 projection.
pub fn fmt_rfc3339(p: &DateParts) -> (r: String)
    requires
        p.wf(),
    ensures
        r@ == date_rfc3339_str(*p),
{
    let mut s = fmt_short(p);
    s.append("T");
    let h = pad2(p.hour as u64);
    s.append(h.as_str());
    s.append(":");
    let mi = pad2(p.minute as u64);
    s.append(mi.as_str());
    s.append(":");
    let se = pad2(p.second as u64);
    s.append(se.as_str());
    let os: i32 = p.offset_seconds;
    if os == 0 {
        s.append("Z");
    } else if os > 0 {
        s.append("+");
        let oh = pad2((os / 3600) as u64);
        s.append(oh.as_str());
        s.append(":");
        let omn = pad2(((os % 3600) / 60) as u64);
        s.append(omn.as_str());
    } else {
        s.append("-");
        let pos: i32 = -os;
        let oh = pad2((pos / 3600) as u64);
        s.append(oh.as_str());
        s.append(":");
        let omn = pad2(((pos % 3600) / 60) as u64);
        s.append(omn.as_str());
    }
    proof {
        assert(s@ =~= date_rfc3339_str(*p));
    }
    s
}

/// Reveals the separator literals of the date projections, fixing their
/// contents and one-character lengths.
proof fn proof_strlit_lens()
    ensures
        "-"@ =~= seq!['-'],
        "T"@ =~= seq!['T'],
        ":"@ =~= seq![':'],
        " "@ =~= seq![' '],
        "Z"@ =~= seq!['Z'],
        "+"@ =~= seq!['+'],
{
    reveal_strlit("-");
    reveal_strlit("T");
    reveal_strlit(":");
    reveal_strlit(" ");
    reveal_strlit("Z");
    reveal_strlit("+");
}

/// The year projection is the first four characters of the short ISO
/// projection: the two always agree on the year they show.
pub proof fn lemma_year_prefix_of_short(p: DateParts)
    requires
        p.wf(),
    ensures
        year_str(p) == date_short_str(p).take(4),
{
    proof_strlit_lens();
    lemma_pad_len(p.year as nat);
    assert(year_str(p) =~= date_short_str(p).take(4));
}

/// The weekday and month names all have three characters.
proof fn lemma_name_lens(p: DateParts)
    ensures
        weekday_abbrev(weekday_index(p)).len() == 3,
        month_abbrev(p.month as nat).len() == 3,
{
    reveal_strlit("Sun");
    reveal_strlit("Mon");
    reveal_strlit("Tue");
    reveal_strlit("Wed");
    reveal_strlit("Thu");
    reveal_strlit("Fri");
    reveal_strlit("Sat");
    reveal_strlit("Jan");
    reveal_strlit("Feb");
    reveal_strlit("Mar");
    reveal_strlit("Apr");
    reveal_strlit("May");
    reveal_strlit("Jun");
    reveal_strlit("Jul");
    reveal_strlit("Aug");
    reveal_strlit("Sep");
    reveal_strlit("Oct");
    reveal_strlit("Nov");
    reveal_strlit("Dec");
}

/// The full human projection carries the same day (characters eight and
/// nine) and the same year (the last four characters) as the short ISO
/// projection: the three projections agree on the date they show.
pub proof fn lemma_full_agrees_with_short(p: DateParts)
    requires
        p.wf(),
    ensures
        date_full_str(p).len() == 15,
        date_full_str(p).skip(11) == year_str(p),
        date_full_str(p).subrange(8, 10) == date_short_str(p).skip(8),
{
    proof_strlit_lens();
    lemma_name_lens(p);
    lemma_pad_len(p.year as nat);
    lemma_pad_len(p.month as nat);
    lemma_pad_len(p.day as nat);
    assert(date_full_str(p).skip(11) =~= pad4_of(p.year as nat));
    assert(date_full_str(p).subrange(8, 10) =~= pad2_of(p.day as nat));
    assert(date_short_str(p).skip(8) =~= pad2_of(p.day as nat));
}

/// The short ISO projection is the first ten characters of the RFC 3339
/// projection: the two always agree on the calendar date they show.
pub proof fn lemma_short_prefix_of_rfc3339(p: DateParts)
    requires
        p.wf(),
    ensures
        date_short_str(p) == date_rfc3339_str(p).take(10),
{
    proof_strlit_lens();
    lemma_pad_len(p.year as nat);
    lemma_pad_len(p.month as nat);
    lemma_pad_len(p.day as nat);
    assert(date_short_str(p) =~= date_rfc3339_str(p).take(10));
}

} // verus!
