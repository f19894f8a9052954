//! The wire format of dates: `YYYY-MM-DD` strings.

use vstd::prelude::*;
use crate::date::{
    date_to_days, day_of_month_of_days, lemma_date_components_of_days,
    lemma_day_number_reconstruct, lemma_year_of_days_le_9999, month_of_days, valid_ymd,
    year_of_days, ymd_from_days, Date,
};

verus! {

use vstd::arithmetic::div_mod::lemma_fundamental_div_mod;

pub open spec fn is_digit(c: char) -> bool {
    48 <= c as int <= 57
}

pub open spec fn digit_val(c: char) -> int {
    c as int - 48
}

/// Whether `s` has the shape `YYYY-MM-DD`: ten characters, digits with
/// dashes after the year and the month.
pub open spec fn is_date_string(s: Seq<char>) -> bool {
    &&& s.len() == 10
    &&& is_digit(s[0]) && is_digit(s[1]) && is_digit(s[2]) && is_digit(s[3])
    &&& s[4] == '-'
    &&& is_digit(s[5]) && is_digit(s[6])
    &&& s[7] == '-'
    &&& is_digit(s[8]) && is_digit(s[9])
}

/// The year a `YYYY-MM-DD` string spells.
pub open spec fn year_num(s: Seq<char>) -> int {
    digit_val(s[0]) * 1000 + digit_val(s[1]) * 100 + digit_val(s[2]) * 10 + digit_val(s[3])
}

/// The month a `YYYY-MM-DD` string spells.
pub open spec fn month_num(s: Seq<char>) -> int {
    digit_val(s[5]) * 10 + digit_val(s[6])
}

/// The day of month a `YYYY-MM-DD` string spells.
pub open spec fn dom_num(s: Seq<char>) -> int {
    digit_val(s[8]) * 10 + digit_val(s[9])
}

fn digit_at(s: &str, i: usize) -> (r: Option<i64>)
    requires
        i < s@.len(),
    ensures
        r is Some <==> is_digit(s@[i as int]),
        r matches Some(v) ==> v == digit_val(s@[i as int]) && 0 <= v <= 9,
{
    let c: char = s.get_char(i);
    let u: u32 = c as u32;
    if 48 <= u && u <= 57 {
        Some((u - 48) as i64)
    } else {
        None
    }
}

/// The date a `YYYY-MM-DD` string names, if it has that shape and names a
/// valid date of a year between 1970 and 9999.
pub fn from_string_into_date(s: &str) -> (r: Option<Date>)
    ensures
        r is Some <==> (is_date_string(s@) && 1970 <= year_num(s@) && valid_ymd(
            year_num(s@),
            month_num(s@),
            dom_num(s@),
        )),
        r matches Some(dt) ==> dt@ == date_to_days(year_num(s@), month_num(s@), dom_num(s@))
            && dt.wf(),
{
    if s.unicode_len() != 10 {
        return None;
    }
    if s.get_char(4) != '-' || s.get_char(7) != '-' {
        return None;
    }
    let d0: i64 = match digit_at(s, 0) { Some(v) => v, None => { return None; } };
    let d1: i64 = match digit_at(s, 1) { Some(v) => v, None => { return None; } };
    let d2: i64 = match digit_at(s, 2) { Some(v) => v, None => { return None; } };
    let d3: i64 = match digit_at(s, 3) { Some(v) => v, None => { return None; } };
    let d5: i64 = match digit_at(s, 5) { Some(v) => v, None => { return None; } };
    let d6: i64 = match digit_at(s, 6) { Some(v) => v, None => { return None; } };
    let d8: i64 = match digit_at(s, 8) { Some(v) => v, None => { return None; } };
    let d9: i64 = match digit_at(s, 9) { Some(v) => v, None => { return None; } };
    let y: i64 = d0 * 1000 + d1 * 100 + d2 * 10 + d3;
    let m: i64 = d5 * 10 + d6;
    let d: i64 = d8 * 10 + d9;
    Date::from_ymd(y as i32, m as u32, d as u32)
}

fn digit_str(d: i64) -> (r: &'static str)
    requires
        0 <= d <= 9,
    ensures
        r@.len() == 1,
        r@[0] as int == 48 + d,
{
    let s: &'static str = match d {
        0 => "0",
        1 => "1",
        2 => "2",
        3 => "3",
        4 => "4",
        5 => "5",
        6 => "6",
        7 => "7",
        8 => "8",
        _ => "9",
    };
    proof {
        reveal_strlit("0");
        reveal_strlit("1");
        reveal_strlit("2");
        reveal_strlit("3");
        reveal_strlit("4");
        reveal_strlit("5");
        reveal_strlit("6");
        reveal_strlit("7");
        reveal_strlit("8");
        reveal_strlit("9");
    }
    s
}

/// The `YYYY-MM-DD` string naming the given date.
pub fn from_date_into_string(date: &Date) -> (r: String)
    requires
        date.wf(),
    ensures
        is_date_string(r@),
        year_num(r@) == year_of_days(date@),
        month_num(r@) == month_of_days(date@),
        dom_num(r@) == day_of_month_of_days(date@),
{
    proof {
        lemma_year_of_days_le_9999(date@);
    }
    let (y, m, d): (i64, i64, i64) = ymd_from_days(date.days);
    let y3: i64 = y % 10;
    let yq1: i64 = y / 10;
    let y2: i64 = yq1 % 10;
    let yq2: i64 = yq1 / 10;
    let y1: i64 = yq2 % 10;
    let y0: i64 = yq2 / 10;
    proof {
        lemma_fundamental_div_mod(y as int, 10);
        lemma_fundamental_div_mod(yq1 as int, 10);
        lemma_fundamental_div_mod(yq2 as int, 10);
    }
    let m1: i64 = m % 10;
    let m0: i64 = m / 10;
    let d1: i64 = d % 10;
    let d0: i64 = d / 10;
    proof {
        lemma_fundamental_div_mod(m as int, 10);
        lemma_fundamental_div_mod(d as int, 10);
    }
    let mut out: String = String::new();
    out.append(digit_str(y0));
    out.append(digit_str(y1));
    out.append(digit_str(y2));
    out.append(digit_str(y3));
    out.append("-");
    out.append(digit_str(m0));
    out.append(digit_str(m1));
    out.append("-");
    out.append(digit_str(d0));
    out.append(digit_str(d1));
    proof {
        reveal_strlit("-");
    }
    out
}

/// Formatting then parsing gives the date back: any string spelling the
/// year, month and day of month of a well-formed date — which is what
/// `from_date_into_string` produces — satisfies the condition under which
/// `from_string_into_date` succeeds, and names that date's day number.
pub proof fn lemma_format_parse_round_trip(d: Date, s: Seq<char>)
    requires
        d.wf(),
        is_date_string(s),
        year_num(s) == year_of_days(d@),
        month_num(s) == month_of_days(d@),
        dom_num(s) == day_of_month_of_days(d@),
    ensures
        1970 <= year_num(s),
        valid_ymd(year_num(s), month_num(s), dom_num(s)),
        date_to_days(year_num(s), month_num(s), dom_num(s)) == d@,
{
    lemma_day_number_reconstruct(d@);
}

/// Parsing then formatting gives the string's numbers back: the date a
/// well-formed `YYYY-MM-DD` string names reads off as exactly the year,
/// month and day of month the string spells.
pub proof fn lemma_parse_format_round_trip(s: Seq<char>)
    requires
        is_date_string(s),
        1970 <= year_num(s),
        valid_ymd(year_num(s), month_num(s), dom_num(s)),
    ensures
        year_of_days(date_to_days(year_num(s), month_num(s), dom_num(s))) == year_num(s),
        month_of_days(date_to_days(year_num(s), month_num(s), dom_num(s))) == month_num(s),
        day_of_month_of_days(date_to_days(year_num(s), month_num(s), dom_num(s)))
            == dom_num(s),
{
    lemma_date_components_of_days(year_num(s), month_num(s), dom_num(s));
}

} // verus!
