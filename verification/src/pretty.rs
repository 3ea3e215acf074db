//! Rendering canonical instants in a display timezone as human-readable
//! strings: weekday, month name, day, year, and 12-hour time with an AM/PM
//! marker.

use vstd::prelude::*;
use vstd::string::StringExecFns;
use crate::civil::CIVIL_MAX_SECS;
use crate::civil::CIVIL_MIN_SECS;
use crate::civil::EPOCH_DAY_COUNT;
use crate::civil::civil_from_day_count;
use crate::civil::civil_of_day_count;
use crate::civil::epoch_days;
use crate::civil::lemma_civil_of_day_count;
use crate::civil::valid_date;
use crate::record::EventModel;
use crate::record::Occurrence;
use vstd::arithmetic::div_mod::lemma_fundamental_div_mod;

verus! {

/// A display-ready event: formatted start and end plus the descriptive
/// fields, handed verbatim to the rendering collaborator.
#[derive(Debug)]
pub struct PrettyEvent {
    pub starts: String,
    pub ends: String,
    pub name: String,
    pub location: String,
    pub notes: String,
}

/// Mathematical model of a display-ready event.
pub ghost struct PrettyModel {
    pub starts: Seq<char>,
    pub ends: Seq<char>,
    pub name: Seq<char>,
    pub location: Seq<char>,
    pub notes: Seq<char>,
}

impl View for PrettyEvent {
    type V = PrettyModel;

    open spec fn view(&self) -> PrettyModel {
        PrettyModel {
            starts: self.starts@,
            ends: self.ends@,
            name: self.name@,
            location: self.location@,
            notes: self.notes@,
        }
    }
}

/// Days since 0000-01-01 of the day holding local second `l`.
pub open spec fn day_count_of(l: int) -> int {
    (l + 86400 * EPOCH_DAY_COUNT as int) / 86400
}

pub open spec fn sec_of_day(l: int) -> int {
    (l + 86400 * EPOCH_DAY_COUNT as int) % 86400
}

pub open spec fn year_of(l: int) -> int {
    civil_of_day_count(day_count_of(l)).0
}

pub open spec fn month_of(l: int) -> int {
    civil_of_day_count(day_count_of(l)).1
}

pub open spec fn day_of(l: int) -> int {
    civil_of_day_count(day_count_of(l)).2
}

pub open spec fn hour_of(l: int) -> int {
    sec_of_day(l) / 3600
}

pub open spec fn minute_of(l: int) -> int {
    (sec_of_day(l) % 3600) / 60
}

/// Weekday index of the day, with Sunday as zero.
pub open spec fn weekday_of(l: int) -> int {
    (day_count_of(l) + 6) % 7
}

pub open spec fn hour12_of(h: int) -> int {
    if h % 12 == 0 {
        12
    } else {
        h % 12
    }
}

pub open spec fn is_pm(h: int) -> bool {
    h >= 12
}

/// The 24-hour value a reader reconstructs from the visible 12-hour fields.
pub open spec fn hour24_of(h12: int, pm: bool) -> int {
    if pm {
        if h12 == 12 {
            12
        } else {
            h12 + 12
        }
    } else {
        if h12 == 12 {
            0
        } else {
            h12
        }
    }
}

pub open spec fn digit_seq(n: int) -> Seq<char> {
    if n == 0 {
        "0"@
    } else if n == 1 {
        "1"@
    } else if n == 2 {
        "2"@
    } else if n == 3 {
        "3"@
    } else if n == 4 {
        "4"@
    } else if n == 5 {
        "5"@
    } else if n == 6 {
        "6"@
    } else if n == 7 {
        "7"@
    } else if n == 8 {
        "8"@
    } else {
        "9"@
    }
}

pub open spec fn two_digits(n: int) -> Seq<char> {
    digit_seq(n / 10) + digit_seq(n % 10)
}

pub open spec fn four_digits(n: int) -> Seq<char> {
    two_digits(n / 100) + two_digits(n % 100)
}

pub open spec fn weekday_name(w: int) -> Seq<char> {
    if w == 0 {
        "Sunday"@
    } else if w == 1 {
        "Monday"@
    } else if w == 2 {
        "Tuesday"@
    } else if w == 3 {
        "Wednesday"@
    } else if w == 4 {
        "Thursday"@
    } else if w == 5 {
        "Friday"@
    } else {
        "Saturday"@
    }
}

pub open spec fn month_name(m: int) -> Seq<char> {
    if m == 1 {
        "January"@
    } else if m == 2 {
        "February"@
    } else if m == 3 {
        "March"@
    } else if m == 4 {
        "April"@
    } else if m == 5 {
        "May"@
    } else if m == 6 {
        "June"@
    } else if m == 7 {
        "July"@
    } else if m == 8 {
        "August"@
    } else if m == 9 {
        "September"@
    } else if m == 10 {
        "October"@
    } else if m == 11 {
        "November"@
    } else {
        "December"@
    }
}

/// The blank-padded 12-hour field, two characters wide.
pub open spec fn hour12_seq(h12: int) -> Seq<char> {
    if h12 < 10 {
        " "@ + digit_seq(h12)
    } else {
        two_digits(h12)
    }
}

/// The full rendering of local second `l`: weekday, month name, zero-padded
/// day, zero-padded four-digit year, blank-padded 12-hour time with minutes
/// and an AM/PM marker.
pub open spec fn pretty_instant(l: int) -> Seq<char> {
    weekday_name(weekday_of(l)) + ", "@ + month_name(month_of(l)) + " "@ + two_digits(day_of(l))
        + ", "@ + four_digits(year_of(l)) + " at "@ + hour12_seq(hour12_of(hour_of(l))) + ":"@
        + two_digits(minute_of(l)) + " "@ + (if is_pm(hour_of(l)) {
        "PM"@
    } else {
        "AM"@
    })
}

fn digit_str(n: u64) -> (r: &'static str)
    requires
        n <= 9,
    ensures
        r@ == digit_seq(n as int),
{
    match n {
        0 => "0",
        1 => "1",
        2 => "2",
        3 => "3",
        4 => "4",
        5 => "5",
        6 => "6",
        7 => "7",
        8 => "8",
        _ => "9",
    }
}

fn weekday_str(w: u64) -> (r: &'static str)
    requires
        w <= 6,
    ensures
        r@ == weekday_name(w as int),
{
    match w {
        0 => "Sunday",
        1 => "Monday",
        2 => "Tuesday",
        3 => "Wednesday",
        4 => "Thursday",
        5 => "Friday",
        _ => "Saturday",
    }
}

fn month_str(m: i64) -> (r: &'static str)
    requires
        1 <= m <= 12,
    ensures
        r@ == month_name(m as int),
{
    match m {
        1 => "January",
        2 => "February",
        3 => "March",
        4 => "April",
        5 => "May",
        6 => "June",
        7 => "July",
        8 => "August",
        9 => "September",
        10 => "October",
        11 => "November",
        _ => "December",
    }
}

fn push_two_digits(out: &mut String, n: u64)
    requires
        n <= 99,
    ensures
        final(out)@ == old(out)@ + two_digits(n as int),
{
    out.append(digit_str(n / 10));
    out.append(digit_str(n % 10));
    proof {
        assert(final(out)@ =~= old(out)@ + two_digits(n as int));
    }
}

/// Renders the local civil second `l` for display.
pub fn format_local(l: i64) -> (r: String)
    requires
        CIVIL_MIN_SECS <= l <= CIVIL_MAX_SECS,
    ensures
        r@ == pretty_instant(l as int),
{
    let tot: u64 = (l + 86400 * EPOCH_DAY_COUNT) as u64;
    let days: u64 = tot / 86400;
    let sod: u64 = tot % 86400;
    proof {
        assert(days == day_count_of(l as int));
        assert(sod == sec_of_day(l as int));
        assert(days <= 3652424);
    }
    let c = civil_from_day_count(days as i64);
    let y = c.0;
    let m = c.1;
    let d = c.2;
    let hh: u64 = sod / 3600;
    let mi: u64 = (sod % 3600) / 60;
    let wd: u64 = (days + 6) % 7;
    let mut out = String::new();
    out.append(weekday_str(wd));
    out.append(", ");
    out.append(month_str(m));
    out.append(" ");
    push_two_digits(&mut out, d as u64);
    out.append(", ");
    push_two_digits(&mut out, (y as u64) / 100);
    push_two_digits(&mut out, (y as u64) % 100);
    out.append(" at ");
    let h12: u64 = if hh % 12 == 0 {
        12
    } else {
        hh % 12
    };
    if h12 < 10 {
        out.append(" ");
        out.append(digit_str(h12));
    } else {
        push_two_digits(&mut out, h12);
    }
    out.append(":");
    push_two_digits(&mut out, mi);
    out.append(" ");
    if hh >= 12 {
        out.append("PM");
    } else {
        out.append("AM");
    }
    proof {
        assert(four_digits(y as int) == two_digits(y as int / 100) + two_digits(y as int % 100));
        assert(out@ =~= pretty_instant(l as int));
    }
    out
}

/// Mathematical model of the rendering of one occurrence at a display
/// offset.
pub open spec fn pretty_model(m: EventModel, off: int) -> PrettyModel {
    PrettyModel {
        starts: pretty_instant(m.start + off),
        ends: pretty_instant(m.end + off),
        name: m.name,
        location: m.location,
        notes: m.notes,
    }
}

/// Whether both instants of an occurrence can be rendered at the given
/// display offset.
pub fn in_presentation_range(o: &Occurrence, offset: i64) -> (r: bool)
    ensures
        r == (CIVIL_MIN_SECS <= o.start.secs + offset <= CIVIL_MAX_SECS && CIVIL_MIN_SECS
            <= o.end.secs + offset <= CIVIL_MAX_SECS),
{
    let s: i128 = o.start.secs as i128 + offset as i128;
    let e: i128 = o.end.secs as i128 + offset as i128;
    CIVIL_MIN_SECS as i128 <= s && s <= CIVIL_MAX_SECS as i128 && CIVIL_MIN_SECS as i128 <= e && e
        <= CIVIL_MAX_SECS as i128
}

/// Renders every occurrence of the timeline at the display offset, keeping
/// the order and the descriptive fields.
pub fn present(timeline: &Vec<Occurrence>, offset: i64) -> (r: Vec<PrettyEvent>)
    requires
        forall|k: int|
            0 <= k < timeline@.len() ==> {
                &&& CIVIL_MIN_SECS <= (#[trigger] timeline@[k]).start.secs + offset
                    <= CIVIL_MAX_SECS
                &&& CIVIL_MIN_SECS <= timeline@[k].end.secs + offset <= CIVIL_MAX_SECS
            },
    ensures
        r@.len() == timeline@.len(),
        forall|k: int|
            0 <= k < r@.len() ==> (#[trigger] r@[k])@ == pretty_model(
                timeline@[k]@,
                offset as int,
            ),
{
    let mut out: Vec<PrettyEvent> = Vec::new();
    let mut i: usize = 0;
    while i < timeline.len()
        invariant
            0 <= i <= timeline@.len(),
            forall|k: int|
                0 <= k < timeline@.len() ==> {
                    &&& CIVIL_MIN_SECS <= (#[trigger] timeline@[k]).start.secs + offset
                        <= CIVIL_MAX_SECS
                    &&& CIVIL_MIN_SECS <= timeline@[k].end.secs + offset <= CIVIL_MAX_SECS
                },
            out@.len() == i,
            forall|k: int|
                0 <= k < i ==> (#[trigger] out@[k])@ == pretty_model(
                    timeline@[k]@,
                    offset as int,
                ),
        decreases timeline@.len() - i,
    {
        let o = &timeline[i];
        let starts = format_local(o.start.secs + offset);
        let ends = format_local(o.end.secs + offset);
        out.push(
            PrettyEvent {
                starts,
                ends,
                name: o.name.clone(),
                location: o.location.clone(),
                notes: o.notes.clone(),
            },
        );
        i = i + 1;
    }
    out
}

/// The numeric value of a rendered digit character.
pub open spec fn digit_val_of(c: char) -> int {
    if c == '0' {
        0
    } else if c == '1' {
        1
    } else if c == '2' {
        2
    } else if c == '3' {
        3
    } else if c == '4' {
        4
    } else if c == '5' {
        5
    } else if c == '6' {
        6
    } else if c == '7' {
        7
    } else if c == '8' {
        8
    } else {
        9
    }
}

/// The month number a reader recovers from a rendered month name.
pub open spec fn month_of_name(s: Seq<char>) -> int {
    if s == "January"@ {
        1
    } else if s == "February"@ {
        2
    } else if s == "March"@ {
        3
    } else if s == "April"@ {
        4
    } else if s == "May"@ {
        5
    } else if s == "June"@ {
        6
    } else if s == "July"@ {
        7
    } else if s == "August"@ {
        8
    } else if s == "September"@ {
        9
    } else if s == "October"@ {
        10
    } else if s == "November"@ {
        11
    } else {
        12
    }
}

/// Index of the first comma at or after position `i`.
pub open spec fn find_comma(s: Seq<char>, i: int) -> int
    decreases s.len() - i when 0 <= i <= s.len()
{
    if i >= s.len() {
        i
    } else if s[i] == ',' {
        i
    } else {
        find_comma(s, i + 1)
    }
}

/// What a reader recovers from a rendering by taking it apart again: the
/// month name sits between the first comma and the fixed-width tail, and
/// day, year, 12-hour time and the AM/PM marker sit at fixed offsets from
/// the end.
pub open spec fn reparse_pretty(s: Seq<char>) -> (int, int, int, int, int) {
    let n = s.len() as int;
    let c = find_comma(s, 0);
    let month = month_of_name(s.subrange(c + 2, n - 21));
    let day = 10 * digit_val_of(s[n - 20]) + digit_val_of(s[n - 19]);
    let year = 1000 * digit_val_of(s[n - 16]) + 100 * digit_val_of(s[n - 15]) + 10 * digit_val_of(
        s[n - 14],
    ) + digit_val_of(s[n - 13]);
    let h12 = if s[n - 8] == ' ' {
        digit_val_of(s[n - 7])
    } else {
        10 * digit_val_of(s[n - 8]) + digit_val_of(s[n - 7])
    };
    let minute = 10 * digit_val_of(s[n - 5]) + digit_val_of(s[n - 4]);
    let hour = hour24_of(h12, s[n - 2] == 'P');
    (year, month, day, hour, minute)
}

proof fn lemma_digit_facts()
    ensures
        forall|k: int|
            0 <= k <= 9 ==> (#[trigger] digit_seq(k)).len() == 1 && digit_val_of(digit_seq(k)[0])
                == k,
{
    reveal_strlit("0");
    reveal_strlit("1");
    reveal_strlit("2");
    reveal_strlit("3");
    reveal_strlit("4");
    reveal_strlit("5");
    reveal_strlit("6");
    reveal_strlit("7");
    reveal_strlit("8");
    reveal_strlit("9");
}

proof fn lemma_find_comma_from(s: Seq<char>, i: int, k: int)
    requires
        0 <= i <= k < s.len(),
        s[k] == ',',
        forall|j: int| 0 <= j < k ==> s[j] != ',',
    ensures
        find_comma(s, i) == k,
    decreases k - i,
{
    if i < k {
        lemma_find_comma_from(s, i + 1, k);
    }
}

/// The visible fields of a rendering determine the instant's wall-clock date
/// and hour in the display zone: the date fields map back to the day count,
/// the 12-hour fields map back to the 24-hour value, and together with the
/// minutes they pin the instant down to its minute.
pub proof fn lemma_presentation_roundtrip(l: int)
    requires
        CIVIL_MIN_SECS <= l <= CIVIL_MAX_SECS,
    ensures
        valid_date(year_of(l), month_of(l), day_of(l)),
        epoch_days(year_of(l), month_of(l), day_of(l)) == day_count_of(l) - EPOCH_DAY_COUNT as int,
        hour24_of(hour12_of(hour_of(l)), is_pm(hour_of(l))) == hour_of(l),
        0 <= hour_of(l) <= 23,
        0 <= minute_of(l) <= 59,
        ({
            let rebuilt = (day_count_of(l) - EPOCH_DAY_COUNT as int) * 86400 + hour_of(l) * 3600
                + minute_of(l) * 60;
            rebuilt <= l < rebuilt + 60
        }),
{
    let c = 86400 * EPOCH_DAY_COUNT as int;
    lemma_fundamental_div_mod(l + c, 86400);
    lemma_civil_of_day_count(day_count_of(l));
    let sod = sec_of_day(l);
    lemma_fundamental_div_mod(sod, 3600);
    lemma_fundamental_div_mod(sod % 3600, 60);
}


proof fn lemma_weekday_no_comma(w: int)
    ensures
        forall|j: int| 0 <= j < weekday_name(w).len() ==> (#[trigger] weekday_name(w)[j]) != ',',
{
    reveal_strlit("Sunday");
    reveal_strlit("Monday");
    reveal_strlit("Tuesday");
    reveal_strlit("Wednesday");
    reveal_strlit("Thursday");
    reveal_strlit("Friday");
    reveal_strlit("Saturday");
    if w == 0 {
        assert(weekday_name(w) == "Sunday"@);
        assert("Sunday"@.len() == 6);
        assert("Sunday"@[0] != ',');
        assert("Sunday"@[1] != ',');
        assert("Sunday"@[2] != ',');
        assert("Sunday"@[3] != ',');
        assert("Sunday"@[4] != ',');
        assert("Sunday"@[5] != ',');
    } else if w == 1 {
        assert(weekday_name(w) == "Monday"@);
        assert("Monday"@.len() == 6);
        assert("Monday"@[0] != ',');
        assert("Monday"@[1] != ',');
        assert("Monday"@[2] != ',');
        assert("Monday"@[3] != ',');
        assert("Monday"@[4] != ',');
        assert("Monday"@[5] != ',');
    } else if w == 2 {
        assert(weekday_name(w) == "Tuesday"@);
        assert("Tuesday"@.len() == 7);
        assert("Tuesday"@[0] != ',');
        assert("Tuesday"@[1] != ',');
        assert("Tuesday"@[2] != ',');
        assert("Tuesday"@[3] != ',');
        assert("Tuesday"@[4] != ',');
        assert("Tuesday"@[5] != ',');
        assert("Tuesday"@[6] != ',');
    } else if w == 3 {
        assert(weekday_name(w) == "Wednesday"@);
        assert("Wednesday"@.len() == 9);
        assert("Wednesday"@[0] != ',');
        assert("Wednesday"@[1] != ',');
        assert("Wednesday"@[2] != ',');
        assert("Wednesday"@[3] != ',');
        assert("Wednesday"@[4] != ',');
        assert("Wednesday"@[5] != ',');
        assert("Wednesday"@[6] != ',');
        assert("Wednesday"@[7] != ',');
        assert("Wednesday"@[8] != ',');
    } else if w == 4 {
        assert(weekday_name(w) == "Thursday"@);
        assert("Thursday"@.len() == 8);
        assert("Thursday"@[0] != ',');
        assert("Thursday"@[1] != ',');
        assert("Thursday"@[2] != ',');
        assert("Thursday"@[3] != ',');
        assert("Thursday"@[4] != ',');
        assert("Thursday"@[5] != ',');
        assert("Thursday"@[6] != ',');
        assert("Thursday"@[7] != ',');
    } else if w == 5 {
        assert(weekday_name(w) == "Friday"@);
        assert("Friday"@.len() == 6);
        assert("Friday"@[0] != ',');
        assert("Friday"@[1] != ',');
        assert("Friday"@[2] != ',');
        assert("Friday"@[3] != ',');
        assert("Friday"@[4] != ',');
        assert("Friday"@[5] != ',');
    } else {
        assert(weekday_name(w) == "Saturday"@);
        assert("Saturday"@.len() == 8);
        assert("Saturday"@[0] != ',');
        assert("Saturday"@[1] != ',');
        assert("Saturday"@[2] != ',');
        assert("Saturday"@[3] != ',');
        assert("Saturday"@[4] != ',');
        assert("Saturday"@[5] != ',');
        assert("Saturday"@[6] != ',');
        assert("Saturday"@[7] != ',');
    }
}

proof fn lemma_month_name_value(m: int)
    requires
        1 <= m <= 12,
    ensures
        month_of_name(month_name(m)) == m,
{
    reveal_strlit("January");
    reveal_strlit("February");
    reveal_strlit("March");
    reveal_strlit("April");
    reveal_strlit("May");
    reveal_strlit("June");
    reveal_strlit("July");
    reveal_strlit("August");
    reveal_strlit("September");
    reveal_strlit("October");
    reveal_strlit("November");
    reveal_strlit("December");
    if m == 1 {
        assert(month_name(m) == "January"@);
    } else if m == 2 {
        assert(month_name(m) == "February"@);
        assert("February"@ != "January"@);
    } else if m == 3 {
        assert(month_name(m) == "March"@);
        assert("March"@ != "January"@);
        assert("March"@ != "February"@);
    } else if m == 4 {
        assert(month_name(m) == "April"@);
        assert("April"@ != "January"@);
        assert("April"@ != "February"@);
        assert("April"@[0] == 'A');
        assert("March"@[0] == 'M');
        assert("April"@ != "March"@);
    } else if m == 5 {
        assert(month_name(m) == "May"@);
        assert("May"@ != "January"@);
        assert("May"@ != "February"@);
        assert("May"@ != "March"@);
        assert("May"@ != "April"@);
    } else if m == 6 {
        assert(month_name(m) == "June"@);
        assert("June"@ != "January"@);
        assert("June"@ != "February"@);
        assert("June"@ != "March"@);
        assert("June"@ != "April"@);
        assert("June"@ != "May"@);
    } else if m == 7 {
        assert(month_name(m) == "July"@);
        assert("July"@ != "January"@);
        assert("July"@ != "February"@);
        assert("July"@ != "March"@);
        assert("July"@ != "April"@);
        assert("July"@ != "May"@);
        assert("July"@[2] == 'l');
        assert("June"@[2] == 'n');
        assert("July"@ != "June"@);
    } else if m == 8 {
        assert(month_name(m) == "August"@);
        assert("August"@ != "January"@);
        assert("August"@ != "February"@);
        assert("August"@ != "March"@);
        assert("August"@ != "April"@);
        assert("August"@ != "May"@);
        assert("August"@ != "June"@);
        assert("August"@ != "July"@);
    } else if m == 9 {
        assert(month_name(m) == "September"@);
        assert("September"@ != "January"@);
        assert("September"@ != "February"@);
        assert("September"@ != "March"@);
        assert("September"@ != "April"@);
        assert("September"@ != "May"@);
        assert("September"@ != "June"@);
        assert("September"@ != "July"@);
        assert("September"@ != "August"@);
    } else if m == 10 {
        assert(month_name(m) == "October"@);
        assert("October"@[0] == 'O');
        assert("January"@[0] == 'J');
        assert("October"@ != "January"@);
        assert("October"@ != "February"@);
        assert("October"@ != "March"@);
        assert("October"@ != "April"@);
        assert("October"@ != "May"@);
        assert("October"@ != "June"@);
        assert("October"@ != "July"@);
        assert("October"@ != "August"@);
        assert("October"@ != "September"@);
    } else if m == 11 {
        assert(month_name(m) == "November"@);
        assert("November"@ != "January"@);
        assert("November"@[0] == 'N');
        assert("February"@[0] == 'F');
        assert("November"@ != "February"@);
        assert("November"@ != "March"@);
        assert("November"@ != "April"@);
        assert("November"@ != "May"@);
        assert("November"@ != "June"@);
        assert("November"@ != "July"@);
        assert("November"@ != "August"@);
        assert("November"@ != "September"@);
        assert("November"@ != "October"@);
    } else {
        assert(month_name(m) == "December"@);
        assert("December"@ != "January"@);
        assert("December"@[0] == 'D');
        assert("February"@[0] == 'F');
        assert("December"@ != "February"@);
        assert("December"@ != "March"@);
        assert("December"@ != "April"@);
        assert("December"@ != "May"@);
        assert("December"@ != "June"@);
        assert("December"@ != "July"@);
        assert("December"@ != "August"@);
        assert("December"@ != "September"@);
        assert("December"@ != "October"@);
        assert("December"@[0] == 'D');
        assert("November"@[0] == 'N');
        assert("December"@ != "November"@);
    }
}

/// Formatting an instant and re-parsing the visible date and time fields of
/// the rendering reconstructs the wall-clock year, month, day, hour and
/// minute in the display zone.
#[verifier::rlimit(100)]
pub proof fn lemma_pretty_reparse(l: int)
    requires
        CIVIL_MIN_SECS <= l <= CIVIL_MAX_SECS,
    ensures
        reparse_pretty(pretty_instant(l)) == (
            year_of(l),
            month_of(l),
            day_of(l),
            hour_of(l),
            minute_of(l),
        ),
{
    lemma_presentation_roundtrip(l);
    lemma_digit_facts();
    reveal_strlit(", ");
    reveal_strlit(" ");
    reveal_strlit(" at ");
    reveal_strlit(":");
    reveal_strlit("PM");
    reveal_strlit("AM");
    reveal_strlit("Sunday");
    reveal_strlit("Monday");
    reveal_strlit("Tuesday");
    reveal_strlit("Wednesday");
    reveal_strlit("Thursday");
    reveal_strlit("Friday");
    reveal_strlit("Saturday");
    reveal_strlit("January");
    reveal_strlit("February");
    reveal_strlit("March");
    reveal_strlit("April");
    reveal_strlit("May");
    reveal_strlit("June");
    reveal_strlit("July");
    reveal_strlit("August");
    reveal_strlit("September");
    reveal_strlit("October");
    reveal_strlit("November");
    reveal_strlit("December");
    let y = year_of(l);
    let mo = month_of(l);
    let d = day_of(l);
    let hh = hour_of(l);
    let mi = minute_of(l);
    let w = weekday_of(l);
    vstd::arithmetic::div_mod::lemma_mod_bound(day_count_of(l) + 6, 7);
    vstd::arithmetic::div_mod::lemma_mod_bound(hh, 12);
    let h12 = hour12_of(hh);
    lemma_fundamental_div_mod(d, 10);
    vstd::arithmetic::div_mod::lemma_mod_bound(d, 10);
    lemma_fundamental_div_mod(mi, 10);
    vstd::arithmetic::div_mod::lemma_mod_bound(mi, 10);
    lemma_fundamental_div_mod(h12, 10);
    vstd::arithmetic::div_mod::lemma_mod_bound(h12, 10);
    lemma_fundamental_div_mod(y, 100);
    vstd::arithmetic::div_mod::lemma_mod_bound(y, 100);
    lemma_fundamental_div_mod(y / 100, 10);
    vstd::arithmetic::div_mod::lemma_mod_bound(y / 100, 10);
    lemma_fundamental_div_mod(y % 100, 10);
    vstd::arithmetic::div_mod::lemma_mod_bound(y % 100, 10);
    assert(1 <= d <= 31);
    let wn = weekday_name(w);
    let mn = month_name(mo);
    let s = pretty_instant(l);
    let p1 = wn + ", "@;
    let p2 = p1 + mn;
    let p3 = p2 + " "@;
    let p4 = p3 + two_digits(d);
    let p5 = p4 + ", "@;
    let p6 = p5 + four_digits(y);
    let p7 = p6 + " at "@;
    let p8 = p7 + hour12_seq(h12);
    let p9 = p8 + ":"@;
    let p10 = p9 + two_digits(mi);
    let p11 = p10 + " "@;
    let ap = if is_pm(hh) {
        "PM"@
    } else {
        "AM"@
    };
    assert(s == p11 + ap);
    let n = s.len() as int;
    assert(two_digits(d).len() == 2);
    assert(two_digits(mi).len() == 2);
    assert(four_digits(y).len() == 4);
    assert(hour12_seq(h12).len() == 2);
    assert(n == wn.len() + mn.len() + 23int);
    // The first comma closes the weekday name.
    lemma_weekday_no_comma(w);
    assert forall|j: int| 0 <= j < wn.len() implies s[j] != ',' by {
        assert(s[j] == wn[j]);
    }
    assert(s[wn.len() as int] == ',');
    lemma_find_comma_from(s, 0, wn.len() as int);
    // The month name fills the span between the comma and the fixed tail.
    assert(s.subrange(wn.len() + 2int, n - 21) =~= mn);
    lemma_month_name_value(mo);
    // Day, year, time and marker sit at fixed offsets from the end.
    assert(s[n - 20] == digit_seq(d / 10)[0]);
    assert(s[n - 19] == digit_seq(d % 10)[0]);
    assert(s[n - 16] == digit_seq(y / 100 / 10)[0]);
    assert(s[n - 15] == digit_seq(y / 100 % 10)[0]);
    assert(s[n - 14] == digit_seq(y % 100 / 10)[0]);
    assert(s[n - 13] == digit_seq(y % 100 % 10)[0]);
    if h12 < 10 {
        assert(s[n - 8] == ' ');
        assert(s[n - 7] == digit_seq(h12)[0]);
    } else {
        assert(s[n - 8] == digit_seq(h12 / 10)[0]);
        assert(s[n - 7] == digit_seq(h12 % 10)[0]);
        assert(digit_seq(h12 / 10)[0] != ' ');
    }
    assert(s[n - 5] == digit_seq(mi / 10)[0]);
    assert(s[n - 4] == digit_seq(mi % 10)[0]);
    assert(s[n - 2] == ap[0]);
    assert((s[n - 2] == 'P') == is_pm(hh));
}

} // verus!
