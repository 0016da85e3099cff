//! Calendar text for timestamps, through `chrono`.
use vstd::prelude::*;

verus! {

/// The format in which modification times are shown: `YYYY-MM-DD HH:MM:SS`.
pub open spec fn display_format() -> Seq<char> {
    "%Y-%m-%d %H:%M:%S"@
}

/// The text `chrono` gives a UNIX timestamp (whole seconds, UTC) in `format`,
/// or `None` when the timestamp lies outside the dates `chrono` represents.
pub uninterp spec fn utc_timestamp_text(secs: i64, format: Seq<char>) -> Option<Seq<char>>;

/// Calls `chrono::DateTime::from_timestamp(secs, 0)` and, when it gives a date,
/// formats it with `format` and `to_string`. Only the display format is
/// admitted: `to_string` panics on a format whose items fail to write, and
/// this one's never fail. The outcome is named, a function of `secs` and the
/// format, and its form is stated: the year (four digits, or a sign and at
/// least four digits outside `0..=9999`), then `-MM-DD HH:MM:SS`.
#[verifier::external_body]
pub(crate) fn format_utc_timestamp(secs: i64, format: &str) -> (r: Option<String>)
    requires
        format@ == display_format(),
    ensures
        match r {
            Some(s) => utc_timestamp_text(secs, format@) == Some(s@) && calendar_text(s@),
            None => utc_timestamp_text(secs, format@) is None,
        },
{
    match chrono::DateTime::from_timestamp(secs, 0) {
        Some(d) => Some(d.format(format).to_string()),
        None => None,
    }
}

pub open spec fn is_digit(c: char) -> bool {
    '0' <= c && c <= '9'
}

pub open spec fn all_digits(s: Seq<char>) -> bool {
    forall|i: int| 0 <= i < s.len() ==> is_digit(#[trigger] s[i])
}

/// A year as RFC 3339 text: four digits, or a sign and at least four digits
/// for years outside `0..=9999`.
pub open spec fn year_text(y: Seq<char>) -> bool {
    ||| y.len() == 4 && all_digits(y)
    ||| y.len() >= 5 && (y[0] == '+' || y[0] == '-') && all_digits(y.drop_first())
}

/// `-MM-DD<sep>HH:MM:SS`, each field two digits.
pub open spec fn date_time_text(s: Seq<char>, sep: char) -> bool {
    &&& s.len() == 15
    &&& s[0] == '-' && is_digit(s[1]) && is_digit(s[2])
    &&& s[3] == '-' && is_digit(s[4]) && is_digit(s[5])
    &&& s[6] == sep && is_digit(s[7]) && is_digit(s[8])
    &&& s[9] == ':' && is_digit(s[10]) && is_digit(s[11])
    &&& s[12] == ':' && is_digit(s[13]) && is_digit(s[14])
}

/// A fraction of a second: nothing, or a dot and three, six or nine digits.
pub open spec fn fraction_text(f: Seq<char>) -> bool {
    ||| f.len() == 0
    ||| (f.len() == 4 || f.len() == 7 || f.len() == 10) && f[0] == '.' && all_digits(f.drop_first())
}

/// A date and time as shown: `YYYY-MM-DD HH:MM:SS`.
pub open spec fn calendar_text(t: Seq<char>) -> bool {
    exists|y: int| #![trigger t.subrange(0, y)] {
        &&& 4 <= y
        &&& t.len() == y + 15
        &&& year_text(t.subrange(0, y))
        &&& date_time_text(t.subrange(y, y + 15), ' ')
    }
}

/// An RFC 3339 date and time in UTC: `YYYY-MM-DDTHH:MM:SS[.fraction]+00:00`.
pub open spec fn rfc3339_utc_text(t: Seq<char>) -> bool {
    exists|y: int, f: int| #![trigger t.subrange(0, y), t.subrange(y + 15, y + 15 + f)] {
        &&& 4 <= y
        &&& 0 <= f
        &&& t.len() == y + 15 + f + 6
        &&& year_text(t.subrange(0, y))
        &&& date_time_text(t.subrange(y, y + 15), 'T')
        &&& fraction_text(t.subrange(y + 15, y + 15 + f))
        &&& t.subrange(y + 15 + f, t.len() as int) == seq!['+', '0', '0', ':', '0', '0']
    }
}

/// Reads the system clock with `std::time::SystemTime::now()`, turns the
/// reading into a `chrono::DateTime<Utc>` with `From<SystemTime>` (which also
/// takes readings before 1970), and renders it with `to_rfc3339`: the date,
/// the time with the nanoseconds shown in groups of three digits when not
/// zero, and the offset `+00:00`. Which instant is shown depends on the
/// clock, so only the form of the text is claimed. `From<SystemTime>` unwraps
/// a date that exists for every reading within 262,000 years of 1970 (either
/// way), a range no system clock reading leaves; unlike `Utc::now`, it does not
/// fail on readings before 1970.
#[verifier::external_body]
pub(crate) fn now_rfc3339() -> (t: String)
    ensures
        rfc3339_utc_text(t@),
{
    chrono::DateTime::<chrono::Utc>::from(std::time::SystemTime::now()).to_rfc3339()
}

} // verus!
