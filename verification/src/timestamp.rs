//! Parsing of the two supported textual timestamp grammars: a date-only form
//! `YYYY-MM-DD`, read as midnight UTC, and a date-time form
//! `YYYY-MM-DDTHH:MM:SS` with an optional `Z` or `+HH:MM`/`-HH:MM` offset.

use vstd::prelude::*;
use crate::civil::Instant;
use crate::civil::days_in_month_exec;
use crate::civil::epoch_days;
use crate::civil::epoch_days_exec;
use crate::civil::valid_date;

verus! {

/// No parser output lies below this many seconds from the epoch.
pub const TS_MIN_SECS: i64 = -62167305600;

/// No parser output lies above this many seconds from the epoch.
pub const TS_MAX_SECS: i64 = 254068012800;

pub open spec fn is_digit(c: char) -> bool {
    '0' <= c && c <= '9'
}

pub open spec fn digit_val(c: char) -> int {
    c as u32 - '0' as u32
}

pub open spec fn num2(s: Seq<char>, i: int) -> int {
    10 * digit_val(s[i]) + digit_val(s[i + 1])
}

pub open spec fn num4(s: Seq<char>, i: int) -> int {
    1000 * digit_val(s[i]) + 100 * digit_val(s[i + 1]) + 10 * digit_val(s[i + 2]) + digit_val(
        s[i + 3],
    )
}

/// The first ten characters spell a date as `YYYY-MM-DD`.
pub open spec fn date_shape(s: Seq<char>) -> bool {
    &&& s.len() >= 10
    &&& is_digit(s[0])
    &&& is_digit(s[1])
    &&& is_digit(s[2])
    &&& is_digit(s[3])
    &&& s[4] == '-'
    &&& is_digit(s[5])
    &&& is_digit(s[6])
    &&& s[7] == '-'
    &&& is_digit(s[8])
    &&& is_digit(s[9])
}

pub open spec fn date_year(s: Seq<char>) -> int {
    num4(s, 0)
}

pub open spec fn date_month(s: Seq<char>) -> int {
    num2(s, 5)
}

pub open spec fn date_day(s: Seq<char>) -> int {
    num2(s, 8)
}

pub open spec fn date_only_ok(s: Seq<char>) -> bool {
    &&& s.len() == 10
    &&& date_shape(s)
    &&& valid_date(date_year(s), date_month(s), date_day(s))
}

/// Seconds since the epoch of midnight UTC on the given date.
pub open spec fn date_only_secs(s: Seq<char>) -> int {
    86400 * epoch_days(date_year(s), date_month(s), date_day(s))
}

/// Characters ten through eighteen spell `THH:MM:SS` with in-range fields.
pub open spec fn time_shape(s: Seq<char>) -> bool {
    &&& s.len() >= 19
    &&& s[10] == 'T'
    &&& is_digit(s[11])
    &&& is_digit(s[12])
    &&& s[13] == ':'
    &&& is_digit(s[14])
    &&& is_digit(s[15])
    &&& s[16] == ':'
    &&& is_digit(s[17])
    &&& is_digit(s[18])
    &&& num2(s, 11) <= 23
    &&& num2(s, 14) <= 59
    &&& num2(s, 17) <= 59
}

/// The tail after the seconds field is empty, `Z`, or a signed `HH:MM` offset.
pub open spec fn offset_shape(s: Seq<char>) -> bool {
    ||| s.len() == 19
    ||| (s.len() == 20 && s[19] == 'Z')
    ||| (s.len() == 25 && (s[19] == '+' || s[19] == '-') && is_digit(s[20]) && is_digit(s[21])
        && s[22] == ':' && is_digit(s[23]) && is_digit(s[24]) && num2(s, 20) <= 23 && num2(
        s,
        23,
    ) <= 59)
}

/// The declared offset from UTC, in seconds; zero when absent or `Z`.
pub open spec fn offset_secs(s: Seq<char>) -> int {
    if s.len() == 25 {
        if s[19] == '-' {
            -(3600 * num2(s, 20) + 60 * num2(s, 23))
        } else {
            3600 * num2(s, 20) + 60 * num2(s, 23)
        }
    } else {
        0
    }
}

pub open spec fn datetime_ok(s: Seq<char>) -> bool {
    &&& date_shape(s)
    &&& valid_date(date_year(s), date_month(s), date_day(s))
    &&& time_shape(s)
    &&& offset_shape(s)
}

/// Seconds since the epoch of the declared wall-clock time, shifted back by
/// the declared offset.
pub open spec fn datetime_secs(s: Seq<char>) -> int {
    86400 * epoch_days(date_year(s), date_month(s), date_day(s)) + 3600 * num2(s, 11) + 60 * num2(
        s,
        14,
    ) + num2(s, 17) - offset_secs(s)
}

pub open spec fn has_time_sep(s: Seq<char>) -> bool {
    exists|i: int| 0 <= i < s.len() && s[i] == 'T'
}

/// What the timestamp parser returns on any input: a date-time when the text
/// holds the time-of-day separator, a date at midnight UTC otherwise, and
/// nothing when the corresponding grammar does not match.
pub open spec fn parse_timestamp_spec(s: Seq<char>) -> Option<int> {
    if has_time_sep(s) {
        if datetime_ok(s) {
            Some(datetime_secs(s))
        } else {
            None
        }
    } else {
        if date_only_ok(s) {
            Some(date_only_secs(s))
        } else {
            None
        }
    }
}

fn digit_of(c: char) -> (r: Option<u32>)
    ensures
        r is Some <==> is_digit(c),
        r matches Some(v) ==> v == digit_val(c) && v <= 9,
{
    let u = c as u32;
    if 48 <= u && u <= 57 {
        Some(u - 48)
    } else {
        None
    }
}

fn parse_date_part(s: &str) -> (r: Option<(i64, i64, i64)>)
    requires
        s@.len() >= 10,
    ensures
        r is Some <==> (date_shape(s@) && valid_date(date_year(s@), date_month(s@), date_day(s@))),
        r matches Some(t) ==> {
            &&& t.0 == date_year(s@)
            &&& t.1 == date_month(s@)
            &&& t.2 == date_day(s@)
        },
{
    let c4 = s.get_char(4);
    let c7 = s.get_char(7);
    if c4 != '-' || c7 != '-' {
        return None;
    }
    let d0 = digit_of(s.get_char(0));
    let d1 = digit_of(s.get_char(1));
    let d2 = digit_of(s.get_char(2));
    let d3 = digit_of(s.get_char(3));
    let d5 = digit_of(s.get_char(5));
    let d6 = digit_of(s.get_char(6));
    let d8 = digit_of(s.get_char(8));
    let d9 = digit_of(s.get_char(9));
    match (d0, d1, d2, d3, d5, d6, d8, d9) {
        (Some(a), Some(b), Some(c), Some(d), Some(e), Some(f), Some(g), Some(h)) => {
            let y = (1000 * a + 100 * b + 10 * c + d) as i64;
            let m = (10 * e + f) as i64;
            let day = (10 * g + h) as i64;
            if 1 <= m && m <= 12 && 1 <= day && day <= days_in_month_exec(y, m) {
                Some((y, m, day))
            } else {
                None
            }
        },
        _ => None,
    }
}

/// Parses a timestamp in either supported grammar into a canonical instant.
pub fn parse_timestamp(s: &str) -> (r: Option<Instant>)
    ensures
        r is Some <==> parse_timestamp_spec(s@) is Some,
        r matches Some(inst) ==> {
            &&& parse_timestamp_spec(s@) == Some(inst.secs as int)
            &&& TS_MIN_SECS <= inst.secs <= TS_MAX_SECS
        },
{
    let n = s.unicode_len();
    let mut i: usize = 0;
    let mut has_t = false;
    while i < n
        invariant
            0 <= i <= n,
            n == s@.len(),
            has_t ==> has_time_sep(s@),
            !has_t ==> forall|j: int| 0 <= j < i ==> s@[j] != 'T',
        ensures
            has_t <==> has_time_sep(s@),
        decreases n - i,
    {
        if s.get_char(i) == 'T' {
            proof {
                assert(s@[i as int] == 'T');
            }
            has_t = true;
            break ;
        }
        i = i + 1;
    }
    if !has_t {
        if n != 10 {
            return None;
        }
        match parse_date_part(s) {
            None => None,
            Some((y, m, d)) => {
                let ed = epoch_days_exec(y, m, d);
                Some(Instant { secs: 86400 * ed })
            },
        }
    } else {
        if n != 19 && n != 20 && n != 25 {
            return None;
        }
        match parse_date_part(s) {
            None => None,
            Some((y, m, d)) => {
                if s.get_char(10) != 'T' || s.get_char(13) != ':' || s.get_char(16) != ':' {
                    return None;
                }
                let h1 = digit_of(s.get_char(11));
                let h2 = digit_of(s.get_char(12));
                let m1 = digit_of(s.get_char(14));
                let m2 = digit_of(s.get_char(15));
                let s1 = digit_of(s.get_char(17));
                let s2 = digit_of(s.get_char(18));
                match (h1, h2, m1, m2, s1, s2) {
                    (Some(a), Some(b), Some(c), Some(dd), Some(e), Some(f)) => {
                        let hh = (10 * a + b) as i64;
                        let mi = (10 * c + dd) as i64;
                        let ss = (10 * e + f) as i64;
                        if hh > 23 || mi > 59 || ss > 59 {
                            return None;
                        }
                        let off: i64 = if n == 19 {
                            0
                        } else if n == 20 {
                            if s.get_char(19) != 'Z' {
                                return None;
                            }
                            0
                        } else {
                            let sign = s.get_char(19);
                            if sign != '+' && sign != '-' {
                                return None;
                            }
                            if s.get_char(22) != ':' {
                                return None;
                            }
                            let o1 = digit_of(s.get_char(20));
                            let o2 = digit_of(s.get_char(21));
                            let o3 = digit_of(s.get_char(23));
                            let o4 = digit_of(s.get_char(24));
                            match (o1, o2, o3, o4) {
                                (Some(p), Some(q), Some(u), Some(v)) => {
                                    let oh = (10 * p + q) as i64;
                                    let om = (10 * u + v) as i64;
                                    if oh > 23 || om > 59 {
                                        return None;
                                    }
                                    if sign == '-' {
                                        -(3600 * oh + 60 * om)
                                    } else {
                                        3600 * oh + 60 * om
                                    }
                                },
                                _ => {
                                    return None;
                                },
                            }
                        };
                        let ed = epoch_days_exec(y, m, d);
                        Some(Instant { secs: 86400 * ed + 3600 * hh + 60 * mi + ss - off })
                    },
                    _ => None,
                }
            },
        }
    }
}

/// For every valid date-only string, the parser yields midnight UTC of that
/// date.
pub proof fn lemma_date_only_midnight(s: Seq<char>)
    requires
        date_only_ok(s),
    ensures
        parse_timestamp_spec(s) == Some(
            86400 * epoch_days(date_year(s), date_month(s), date_day(s)),
        ),
{
    assert(!has_time_sep(s)) by {
        assert forall|j: int| 0 <= j < s.len() implies s[j] != 'T' by {
            if j != 4 && j != 7 {
                assert(is_digit(s[j]));
            }
        }
    }
}

/// For every valid date-time string, the parser yields the declared
/// wall-clock fields shifted back by the declared offset; no ambient zone
/// takes part.
pub proof fn lemma_datetime_offset(s: Seq<char>)
    requires
        datetime_ok(s),
    ensures
        parse_timestamp_spec(s) == Some(
            86400 * epoch_days(date_year(s), date_month(s), date_day(s)) + 3600 * num2(s, 11) + 60
                * num2(s, 14) + num2(s, 17) - offset_secs(s),
        ),
{
    assert(has_time_sep(s)) by {
        assert(s[10] == 'T');
    }
}

} // verus!
