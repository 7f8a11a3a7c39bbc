use vstd::prelude::*;
use crate::strutil::{
    all_digits, check_digits, dec_digits, dec_pad2, dec_pad4, digits_value, parse_u32, remove_char,
    removed_char, split_char, split_char_seq, str_eq, u32_dec, u32_pad2, u32_pad4,
};

verus! {

// ---------------------------------------------------------------------------
// Month abbreviations
// ---------------------------------------------------------------------------

/// The month number for a German month abbreviation; March has two accepted
/// spellings.
pub open spec fn month_num(s: Seq<char>) -> Option<u32> {
    if s == "Jan"@ {
        Some(1u32)
    } else if s == "Feb"@ {
        Some(2u32)
    } else if s == "Mrz"@ {
        Some(3u32)
    } else if s == "M\u{e4}r"@ {
        Some(3u32)
    } else if s == "Apr"@ {
        Some(4u32)
    } else if s == "Mai"@ {
        Some(5u32)
    } else if s == "Jun"@ {
        Some(6u32)
    } else if s == "Jul"@ {
        Some(7u32)
    } else if s == "Aug"@ {
        Some(8u32)
    } else if s == "Sep"@ {
        Some(9u32)
    } else if s == "Okt"@ {
        Some(10u32)
    } else if s == "Nov"@ {
        Some(11u32)
    } else if s == "Dez"@ {
        Some(12u32)
    } else {
        None
    }
}

/// Looks a month abbreviation up.
pub fn month_number(s: &str) -> (r: Option<u32>)
    ensures
        r == month_num(s@),
{
    if str_eq(s, "Jan") {
        Some(1)
    } else if str_eq(s, "Feb") {
        Some(2)
    } else if str_eq(s, "Mrz") {
        Some(3)
    } else if str_eq(s, "M\u{e4}r") {
        Some(3)
    } else if str_eq(s, "Apr") {
        Some(4)
    } else if str_eq(s, "Mai") {
        Some(5)
    } else if str_eq(s, "Jun") {
        Some(6)
    } else if str_eq(s, "Jul") {
        Some(7)
    } else if str_eq(s, "Aug") {
        Some(8)
    } else if str_eq(s, "Sep") {
        Some(9)
    } else if str_eq(s, "Okt") {
        Some(10)
    } else if str_eq(s, "Nov") {
        Some(11)
    } else if str_eq(s, "Dez") {
        Some(12)
    } else {
        None
    }
}

// ---------------------------------------------------------------------------
// Date and clock normalization
// ---------------------------------------------------------------------------

/// The clock string with the literal `"24:00"` turned into `"23:59"`.
pub open spec fn converted_clock(clock: Seq<char>) -> Seq<char> {
    if clock == "24:00"@ {
        "23:59"@
    } else {
        clock
    }
}

/// The space-separated fields of a date string of the shape
/// `"<weekday> <day>. <month-abbrev>. <year>"`.
pub open spec fn date_fields(date: Seq<char>) -> Seq<Seq<char>> {
    split_char_seq(date, ' ')
}

/// Whether the date string can be normalized: it has at least four
/// space-separated fields; the second and fourth, dots removed, are decimal
/// numbers of at most nine digits; the third, dots removed, is a known month
/// abbreviation.
pub open spec fn valid_date_seq(date: Seq<char>) -> bool {
    let fields = date_fields(date);
    &&& fields.len() >= 4
    &&& {
        let day = removed_char(fields[1], '.');
        1 <= day.len() <= 9 && all_digits(day)
    }
    &&& month_num(removed_char(fields[2], '.')) is Some
    &&& {
        let year = fields[3];
        1 <= year.len() <= 9 && all_digits(year)
    }
}

/// The normalized date-time string: year unpadded, month and day zero-padded
/// to two digits, then `'T'`, the clock (with `"24:00"` turned into
/// `"23:59"`), and `":00"` for the seconds.
pub open spec fn converted_time(date: Seq<char>, clock: Seq<char>) -> Seq<char>
    recommends
        valid_date_seq(date),
{
    let fields = date_fields(date);
    let day = digits_value(removed_char(fields[1], '.'));
    let month = month_num(removed_char(fields[2], '.'))->Some_0;
    let year = digits_value(fields[3]);
    dec_digits(year) + "-"@ + dec_pad2(month as nat) + "-"@ + dec_pad2(day) + "T"@
        + converted_clock(clock) + ":00"@
}

/// Whether `date_str` has the shape that `convert_time` normalizes.
pub fn check_date(date_str: &str) -> (r: bool)
    ensures
        r == valid_date_seq(date_str@),
{
    let fields = split_char(date_str, ' ');
    if fields.len() < 4 {
        return false;
    }
    proof {
        assert(fields@[1]@ == date_fields(date_str@)[1]);
        assert(fields@[2]@ == date_fields(date_str@)[2]);
        assert(fields@[3]@ == date_fields(date_str@)[3]);
    }
    let day = remove_char(fields[1].as_str(), '.');
    if !check_digits(day.as_str()) {
        return false;
    }
    if day.as_str().unicode_len() > 9 {
        return false;
    }
    let month_txt = remove_char(fields[2].as_str(), '.');
    if month_number(month_txt.as_str()).is_none() {
        return false;
    }
    let year = &fields[3];
    if !check_digits(year.as_str()) {
        return false;
    }
    if year.as_str().unicode_len() > 9 {
        return false;
    }
    true
}

/// Normalizes a date of the shape `"<weekday> <day>. <month-abbrev>. <year>"`
/// and a clock string to `"<year>-<MM>-<dd>T<clock>:00"`; the literal clock
/// `"24:00"` becomes `"23:59"`.
pub fn convert_time(date_str: &str, time: &str) -> (r: String)
    requires
        valid_date_seq(date_str@),
    ensures
        r@ == converted_time(date_str@, time@),
{
    let fields = split_char(date_str, ' ');
    proof {
        assert(fields@[1]@ == date_fields(date_str@)[1]);
        assert(fields@[2]@ == date_fields(date_str@)[2]);
        assert(fields@[3]@ == date_fields(date_str@)[3]);
    }
    let day = parse_u32(remove_char(fields[1].as_str(), '.').as_str());
    let month_txt = remove_char(fields[2].as_str(), '.');
    let month = match month_number(month_txt.as_str()) {
        Some(m) => m,
        None => 0,  // ruled out by the precondition
    };
    let year = parse_u32(fields[3].as_str());
    let clock: String = if str_eq(time, "24:00") {
        String::from_str("23:59")
    } else {
        time.to_owned()
    };
    let r = u32_dec(year)
        .concat("-")
        .concat(u32_pad2(month).as_str())
        .concat("-")
        .concat(u32_pad2(day).as_str())
        .concat("T")
        .concat(clock.as_str())
        .concat(":00");
    proof {
        assert(r@ =~= converted_time(date_str@, time@));
    }
    r
}

/// Normalizes where the date has the expected shape; `None` where not.
pub fn convert_time_checked(date_str: &str, time: &str) -> (r: Option<String>)
    ensures
        match r {
            Some(t) => valid_date_seq(date_str@) && t@ == converted_time(date_str@, time@),
            None => !valid_date_seq(date_str@),
        },
{
    if check_date(date_str) {
        Some(convert_time(date_str, time))
    } else {
        None
    }
}

// ---------------------------------------------------------------------------
// Timestamps
// ---------------------------------------------------------------------------

/// A calendar timestamp as plain fields, the form the crawl start time is
/// kept in.
#[derive(Clone, Copy, PartialEq, Eq, Structural)]
pub struct Timestamp {
    pub year: u32,
    pub month: u32,
    pub day: u32,
    pub hour: u32,
    pub minute: u32,
    pub second: u32,
}

/// The fixed-width `"YYYY-MM-DDTHH:MM:SS"` rendering of a timestamp.
pub open spec fn formatted_timestamp(t: Timestamp) -> Seq<char> {
    dec_pad4(t.year as nat) + "-"@ + dec_pad2(t.month as nat) + "-"@ + dec_pad2(t.day as nat)
        + "T"@ + dec_pad2(t.hour as nat) + ":"@ + dec_pad2(t.minute as nat) + ":"@ + dec_pad2(
        t.second as nat,
    )
}

/// Renders a timestamp as `"YYYY-MM-DDTHH:MM:SS"`, with no zone suffix.
pub fn format_timestamp(t: &Timestamp) -> (r: String)
    ensures
        r@ == formatted_timestamp(*t),
{
    let r = u32_pad4(t.year)
        .concat("-")
        .concat(u32_pad2(t.month).as_str())
        .concat("-")
        .concat(u32_pad2(t.day).as_str())
        .concat("T")
        .concat(u32_pad2(t.hour).as_str())
        .concat(":")
        .concat(u32_pad2(t.minute).as_str())
        .concat(":")
        .concat(u32_pad2(t.second).as_str());
    proof {
        assert(r@ =~= formatted_timestamp(*t));
    }
    r
}

} // verus!
