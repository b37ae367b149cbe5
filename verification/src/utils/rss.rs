//! RSS support: dates, post summaries, author fields and item GUIDs.

use vstd::prelude::*;
use vstd::string::StringExecFns;
use vstd::string::StringSliceAdditionalSpecFns;
use vstd::utf8::encode_utf8;
use crate::config::SiteConfig;
use crate::error::Error;
use crate::utils::path::{self, path_file_name, path_joined, path_stripped};
use crate::utils::slug::{path_slug, slugify_path};
use crate::utils::pattern::{regex_is_match, regex_matches, replace_all, replaced_all};
use crate::utils::typst::trim_end_slashes;
use crate::utils::text::{contains_seq, ends_with, from_chars, has_prefix, has_suffix, occurs_at, push_all, slice_vec, str_eq, string_bytes, to_chars};

verus! {

// ============================================================================
// Dates
// ============================================================================

/// A UTC date and time.
#[derive(Clone, Copy, Debug)]
pub struct DateTimeUtc {
    pub year: u16,
    pub month: u8,
    pub day: u8,
    pub hour: u8,
    pub minute: u8,
    pub second: u8,
}

/// Why a date is invalid.
#[derive(Clone, Copy, Debug, PartialEq, Eq)]
pub enum DateError {
    Month(u8),
    Day(u8),
    Hour(u8),
    Minute(u8),
    Second(u8),
}

/// The description of a date error: the field that is out of range and its
/// value, as in `month is invalid: 13`.
pub open spec fn date_error_text(e: DateError) -> Seq<char> {
    match e {
        DateError::Month(v) => "month is invalid: "@ + decimal(v as nat),
        DateError::Day(v) => "day is invalid: "@ + decimal(v as nat),
        DateError::Hour(v) => "hour is invalid: "@ + decimal(v as nat),
        DateError::Minute(v) => "minute is invalid: "@ + decimal(v as nat),
        DateError::Second(v) => "second is invalid: "@ + decimal(v as nat),
    }
}

/// `label` followed by `v` in decimal.
fn labelled_value(label: &str, v: u8) -> (r: String)
    ensures
        r@ == label@ + decimal(v as nat),
{
    let mut out = to_chars(label);
    let digits = decimal_chars(v as u64);
    push_all(&mut out, &digits);
    from_chars(&out)
}

impl DateError {
    /// A description of the error: the field and its value.
    pub fn message(&self) -> (r: String)
        ensures
            r@ == date_error_text(*self),
    {
        match self {
            DateError::Month(v) => labelled_value("month is invalid: ", *v),
            DateError::Day(v) => labelled_value("day is invalid: ", *v),
            DateError::Hour(v) => labelled_value("hour is invalid: ", *v),
            DateError::Minute(v) => labelled_value("minute is invalid: ", *v),
            DateError::Second(v) => labelled_value("second is invalid: ", *v),
        }
    }
}

/// Whether `year` is a Gregorian leap year.
pub open spec fn is_leap(year: int) -> bool {
    year % 4 == 0 && (year % 100 != 0 || year % 400 == 0)
}

/// The number of days of `month` in `year` (0 for a month outside 1..=12).
pub open spec fn month_days(year: int, month: int) -> int {
    if month == 1 || month == 3 || month == 5 || month == 7 || month == 8 || month == 10 || month == 12 {
        31
    } else if month == 4 || month == 6 || month == 9 || month == 11 {
        30
    } else if month == 2 {
        if is_leap(year) { 29 } else { 28 }
    } else {
        0
    }
}

/// The first field of a date that is out of range, if any.
pub open spec fn date_error(dt: DateTimeUtc) -> Option<DateError> {
    if !(1 <= dt.month <= 12) {
        Some(DateError::Month(dt.month))
    } else if dt.day == 0 || dt.day > month_days(dt.year as int, dt.month as int) {
        Some(DateError::Day(dt.day))
    } else if dt.hour > 23 {
        Some(DateError::Hour(dt.hour))
    } else if dt.minute > 59 {
        Some(DateError::Minute(dt.minute))
    } else if dt.second > 59 {
        Some(DateError::Second(dt.second))
    } else {
        None
    }
}

/// Whether a date is a real calendar date and time of day.
pub open spec fn is_valid_date(dt: DateTimeUtc) -> bool {
    date_error(dt) is None
}

/// Truncating division, as Rust's `/` on signed integers computes it.
pub open spec fn tdiv(a: int, b: int) -> int {
    if a >= 0 { a / b } else { -((-a) / b) }
}

/// The weekday of a date by Zeller's congruence: 0 is Saturday, 1 Sunday, ..., 6 Friday.
pub open spec fn zeller(year: int, month: int, day: int) -> int {
    let y = if month < 3 { year - 1 } else { year };
    let m = if month < 3 { month + 12 } else { month };
    (day + (13 * (m + 1)) / 5 + y + tdiv(y, 4) - tdiv(y, 100) + tdiv(y, 400)) % 7
}

/// The value of an ASCII digit byte, if it is one.
pub open spec fn digit(b: u8) -> Option<int> {
    if 48 <= b <= 57 { Some(b - 48) } else { None }
}

/// The value of exactly two ASCII digits.
pub open spec fn two_digits(b: Seq<u8>) -> Option<int> {
    if b.len() == 2 && digit(b[0]) is Some && digit(b[1]) is Some {
        Some(digit(b[0]).unwrap() * 10 + digit(b[1]).unwrap())
    } else {
        None
    }
}

/// The value of exactly four ASCII digits.
pub open spec fn four_digits(b: Seq<u8>) -> Option<int> {
    if b.len() == 4 && digit(b[0]) is Some && digit(b[1]) is Some && digit(b[2]) is Some && digit(b[3]) is Some {
        Some(((digit(b[0]).unwrap() * 10 + digit(b[1]).unwrap()) * 10 + digit(b[2]).unwrap()) * 10 + digit(b[3]).unwrap())
    } else {
        None
    }
}

/// The time part of a date text: `(0, 0, 0)` for a bare `YYYY-MM-DD`, the
/// parsed `HH:MM:SS` when the text continues with `THH:MM:SSZ`.
pub open spec fn time_part(b: Seq<u8>) -> Option<(int, int, int)> {
    if b.len() >= 20 && b[10] == 84u8 && b[19] == 90u8 {
        if b[13] != 58u8 || b[16] != 58u8 {
            None
        } else if two_digits(b.subrange(11, 13)) is Some && two_digits(b.subrange(14, 16)) is Some
            && two_digits(b.subrange(17, 19)) is Some {
            Some((two_digits(b.subrange(11, 13)).unwrap(), two_digits(b.subrange(14, 16)).unwrap(),
                two_digits(b.subrange(17, 19)).unwrap()))
        } else {
            None
        }
    } else if b.len() == 10 {
        Some((0, 0, 0))
    } else {
        None
    }
}

/// The date a text denotes, if it is `YYYY-MM-DD` or `YYYY-MM-DDTHH:MM:SSZ`
/// (more text may follow the `Z`) and the date is valid.
pub open spec fn parsed_date(b: Seq<u8>) -> Option<DateTimeUtc> {
    if b.len() < 10 || b[4] != 45u8 || b[7] != 45u8 {
        None
    } else if four_digits(b.subrange(0, 4)) is None || two_digits(b.subrange(5, 7)) is None
        || two_digits(b.subrange(8, 10)) is None || time_part(b) is None {
        None
    } else {
        let t = time_part(b).unwrap();
        let dt = DateTimeUtc {
            year: four_digits(b.subrange(0, 4)).unwrap() as u16,
            month: two_digits(b.subrange(5, 7)).unwrap() as u8,
            day: two_digits(b.subrange(8, 10)).unwrap() as u8,
            hour: t.0 as u8,
            minute: t.1 as u8,
            second: t.2 as u8,
        };
        if is_valid_date(dt) { Some(dt) } else { None }
    }
}

/// The value of an ASCII digit byte, if it is one.
fn digit_value(b: u8) -> (r: Option<u8>)
    ensures
        r matches Some(v) ==> digit(b) == Some(v as int) && v <= 9,
        r is None ==> digit(b) is None,
{
    if 48u8 <= b && b <= 57u8 { Some(b - 48u8) } else { None }
}

/// Parses exactly two ASCII digits.
pub fn parse_u8(bytes: &[u8]) -> (r: Option<u8>)
    ensures
        r matches Some(v) ==> two_digits(bytes@) == Some(v as int),
        r is None ==> two_digits(bytes@) is None,
{
    if bytes.len() != 2 {
        return None;
    }
    let d1 = match digit_value(bytes[0]) { Some(d) => d, None => return None };
    let d2 = match digit_value(bytes[1]) { Some(d) => d, None => return None };
    Some(d1 * 10 + d2)
}

/// Parses exactly four ASCII digits.
pub fn parse_u16(bytes: &[u8]) -> (r: Option<u16>)
    ensures
        r matches Some(v) ==> four_digits(bytes@) == Some(v as int),
        r is None ==> four_digits(bytes@) is None,
{
    if bytes.len() != 4 {
        return None;
    }
    let mut result: u16 = 0;
    let mut i: usize = 0;
    while i < 4
        invariant
            bytes@.len() == 4,
            i <= 4,
            forall|k: int| 0 <= k < i ==> digit(#[trigger] bytes@[k]) is Some,
            i == 0 ==> result == 0,
            i == 1 ==> result == digit(bytes@[0]).unwrap(),
            i == 2 ==> result == digit(bytes@[0]).unwrap() * 10 + digit(bytes@[1]).unwrap(),
            i == 3 ==> result == (digit(bytes@[0]).unwrap() * 10 + digit(bytes@[1]).unwrap()) * 10 + digit(bytes@[2]).unwrap(),
            i == 4 ==> result == ((digit(bytes@[0]).unwrap() * 10 + digit(bytes@[1]).unwrap()) * 10 + digit(bytes@[2]).unwrap()) * 10 + digit(bytes@[3]).unwrap(),
            result < 10000,
            (i as int) < 4 ==> result < 1000,
            (i as int) < 3 ==> result < 100,
            (i as int) < 2 ==> result < 10,
        decreases 4 - i,
    {
        let d = match digit_value(bytes[i]) { Some(d) => d, None => return None };
        result = result * 10 + d as u16;
        i = i + 1;
    }
    Some(result)
}

impl DateTimeUtc {
    /// A date and time from its fields.
    pub fn new(year: u16, month: u8, day: u8, hour: u8, minute: u8, second: u8) -> (r: Self)
        ensures
            r == (DateTimeUtc { year, month, day, hour, minute, second }),
    {
        DateTimeUtc { year, month, day, hour, minute, second }
    }

    /// A date at midnight.
    pub fn from_ymd(year: u16, month: u8, day: u8) -> (r: Self)
        ensures
            r == (DateTimeUtc { year, month, day, hour: 0, minute: 0, second: 0 }),
    {
        Self::new(year, month, day, 0, 0, 0)
    }

    fn is_leap_year(year: u16) -> (b: bool)
        ensures
            b == is_leap(year as int),
    {
        year % 4 == 0 && (year % 100 != 0 || year % 400 == 0)
    }

    fn days_in_month(year: u16, month: u8) -> (d: u8)
        ensures
            d == month_days(year as int, month as int),
    {
        match month {
            1 | 3 | 5 | 7 | 8 | 10 | 12 => 31,
            4 | 6 | 9 | 11 => 30,
            2 => if Self::is_leap_year(year) { 29 } else { 28 },
            _ => 0,
        }
    }

    /// Checks that the fields form a real date and time of day; the error
    /// names the first field (month, day, hour, minute, second) out of range.
    pub fn validate(&self) -> (r: Result<(), DateError>)
        ensures
            match date_error(*self) {
                Some(e) => r == Err::<(), DateError>(e),
                None => r is Ok,
            },
    {
        let month = self.month;
        if !(1 <= month && month <= 12) {
            return Err(DateError::Month(month));
        }
        let max_days = Self::days_in_month(self.year, month);
        if self.day == 0 || self.day > max_days {
            return Err(DateError::Day(self.day));
        }
        if self.hour > 23 {
            return Err(DateError::Hour(self.hour));
        }
        if self.minute > 59 {
            return Err(DateError::Minute(self.minute));
        }
        if self.second > 59 {
            return Err(DateError::Second(self.second));
        }
        Ok(())
    }

    /// Parses `YYYY-MM-DD` or `YYYY-MM-DDTHH:MM:SSZ`; the date must be valid.
    pub fn parse(s: &str) -> (r: Option<Self>)
        ensures
            r == parsed_date(s.spec_bytes()),
    {
        let bytes = s.as_bytes();
        if bytes.len() < 10 {
            return None;
        }
        let ghost b = bytes@;
        let year = parse_u16(vstd::slice::slice_subrange(bytes, 0, 4));
        if bytes[4] != 45u8 {
            return None;
        }
        let month = parse_u8(vstd::slice::slice_subrange(bytes, 5, 7));
        if bytes[7] != 45u8 {
            return None;
        }
        let day = parse_u8(vstd::slice::slice_subrange(bytes, 8, 10));
        let (year, month, day) = match (year, month, day) {
            (Some(y), Some(m), Some(d)) => (y, m, d),
            _ => return None,
        };
        let (hour, minute, second) = if bytes.len() >= 20 && bytes[10] == 84u8 && bytes[19] == 90u8 {
            if bytes[13] != 58u8 || bytes[16] != 58u8 {
                return None;
            }
            let h = parse_u8(vstd::slice::slice_subrange(bytes, 11, 13));
            let mi = parse_u8(vstd::slice::slice_subrange(bytes, 14, 16));
            let se = parse_u8(vstd::slice::slice_subrange(bytes, 17, 19));
            match (h, mi, se) {
                (Some(h), Some(mi), Some(se)) => (h, mi, se),
                _ => return None,
            }
        } else if bytes.len() == 10 {
            (0u8, 0u8, 0u8)
        } else {
            return None;
        };
        let dt = Self::new(year, month, day, hour, minute, second);
        match dt.validate() {
            Ok(()) => Some(dt),
            Err(_) => None,
        }
    }

    /// The weekday index of the date (0 = Saturday, ..., 6 = Friday).
    fn weekday_index(&self) -> (r: usize)
        requires
            1 <= self.day,
        ensures
            r == zeller(self.year as int, self.month as int, self.day as int),
            r < 7,
    {
        let d = self.day as u64;
        if self.month < 3 && self.year == 0 {
            let m = self.month as u64 + 12;
            // y = -1: the truncated quotients by 4, 100 and 400 are all 0.
            let v = d + (13 * (m + 1)) / 5 - 1;
            (v % 7) as usize
        } else {
            let (y, m) = if self.month < 3 {
                (self.year as u64 - 1, self.month as u64 + 12)
            } else {
                (self.year as u64, self.month as u64)
            };
            let v = d + (13 * (m + 1)) / 5 + y + y / 4 - y / 100 + y / 400;
            (v % 7) as usize
        }
    }

    /// Formats the date as RFC 2822, e.g. `Mon, 15 Jan 2024 10:30:45 GMT`.
    pub fn to_rfc2822(self) -> (r: String)
        requires
            1 <= self.month <= 12,
            1 <= self.day,
        ensures
            r@ == rfc2822(self),
    {
        let weekday = self.weekday_index();
        let mut out: Vec<char> = Vec::new();
        push_all(&mut out, &to_chars(weekday_name(weekday)));
        out.push(',');
        out.push(' ');
        push_all(&mut out, &padded_decimal(self.day as u64, 2));
        out.push(' ');
        push_all(&mut out, &to_chars(month_name(self.month)));
        out.push(' ');
        push_all(&mut out, &padded_decimal(self.year as u64, 4));
        out.push(' ');
        push_all(&mut out, &padded_decimal(self.hour as u64, 2));
        out.push(':');
        push_all(&mut out, &padded_decimal(self.minute as u64, 2));
        out.push(':');
        push_all(&mut out, &padded_decimal(self.second as u64, 2));
        push_all(&mut out, &to_chars(" GMT"));
        proof {
            reveal_strlit(", ");
            reveal_strlit(" ");
            reveal_strlit(":");
        }
        assert(out@ =~= rfc2822(self));
        from_chars(&out)
    }
}

/// The short name of weekday `i` (0 = Saturday).
pub open spec fn weekday_spec(i: int) -> Seq<char> {
    if i == 0 { "Sat"@ } else if i == 1 { "Sun"@ } else if i == 2 { "Mon"@ } else if i == 3 { "Tue"@ }
    else if i == 4 { "Wed"@ } else if i == 5 { "Thu"@ } else { "Fri"@ }
}

fn weekday_name(i: usize) -> (r: &'static str)
    requires
        i < 7,
    ensures
        r@ == weekday_spec(i as int),
{
    match i {
        0 => "Sat",
        1 => "Sun",
        2 => "Mon",
        3 => "Tue",
        4 => "Wed",
        5 => "Thu",
        _ => "Fri",
    }
}

/// The short name of month `m` (1 = January).
pub open spec fn month_spec(m: int) -> Seq<char> {
    if m == 1 { "Jan"@ } else if m == 2 { "Feb"@ } else if m == 3 { "Mar"@ } else if m == 4 { "Apr"@ }
    else if m == 5 { "May"@ } else if m == 6 { "Jun"@ } else if m == 7 { "Jul"@ } else if m == 8 { "Aug"@ }
    else if m == 9 { "Sep"@ } else if m == 10 { "Oct"@ } else if m == 11 { "Nov"@ } else { "Dec"@ }
}

fn month_name(m: u8) -> (r: &'static str)
    requires
        1 <= m <= 12,
    ensures
        r@ == month_spec(m as int),
{
    match m {
        1 => "Jan",
        2 => "Feb",
        3 => "Mar",
        4 => "Apr",
        5 => "May",
        6 => "Jun",
        7 => "Jul",
        8 => "Aug",
        9 => "Sep",
        10 => "Oct",
        11 => "Nov",
        _ => "Dec",
    }
}

/// The ASCII digit for a value below ten.
pub open spec fn digit_char(d: int) -> char {
    ((48 + d) as u32) as char
}

/// The decimal representation of `n`.
pub open spec fn decimal(n: nat) -> Seq<char>
    decreases n,
{
    if n < 10 { seq![digit_char(n as int)] } else { decimal(n / 10).push(digit_char((n % 10) as int)) }
}

/// `n` in decimal, left-padded with zeros to at least `w` characters.
pub open spec fn padded(n: nat, w: nat) -> Seq<char> {
    let d = decimal(n);
    if d.len() < w { Seq::new((w - d.len()) as nat, |i: int| '0') + d } else { d }
}

pub(crate) fn decimal_chars(n: u64) -> (r: Vec<char>)
    ensures
        r@ == decimal(n as nat),
    decreases n,
{
    if n < 10 {
        let c = ((48 + n) as u8) as char;
        vec![c]
    } else {
        let mut v = decimal_chars(n / 10);
        let c = ((48 + n % 10) as u8) as char;
        v.push(c);
        v
    }
}

/// `n` in decimal, zero-padded to at least `w` characters.
pub fn padded_decimal(n: u64, w: usize) -> (r: Vec<char>)
    ensures
        r@ == padded(n as nat, w as nat),
{
    let d = decimal_chars(n);
    if d.len() < w {
        let mut r: Vec<char> = Vec::new();
        let k = w - d.len();
        let mut i: usize = 0;
        while i < k
            invariant
                i <= k,
                r@ == Seq::new(i as nat, |j: int| '0'),
            decreases k - i,
        {
            r.push('0');
            i = i + 1;
            assert(r@ =~= Seq::new(i as nat, |j: int| '0'));
        }
        push_all(&mut r, &d);
        r
    } else {
        d
    }
}

/// The RFC 2822 form of a date: `Www, DD Mon YYYY HH:MM:SS GMT`.
pub open spec fn rfc2822(dt: DateTimeUtc) -> Seq<char> {
    weekday_spec(zeller(dt.year as int, dt.month as int, dt.day as int)) + ", "@
        + padded(dt.day as nat, 2) + " "@ + month_spec(dt.month as int) + " "@
        + padded(dt.year as nat, 4) + " "@ + padded(dt.hour as nat, 2) + ":"@
        + padded(dt.minute as nat, 2) + ":"@ + padded(dt.second as nat, 2) + " GMT"@
}


// ============================================================================
// Feed items
// ============================================================================

/// Metadata of a post, as its page declares it.
#[derive(Debug)]
pub struct PostMeta {
    pub title: Option<String>,
    pub summary: Option<String>,
    pub date: Option<String>,
    pub update: Option<String>,
    pub link: Option<String>,
    pub author: Option<String>,
}

/// The unique identifier of a feed item.
#[derive(Debug, Clone, PartialEq, Eq)]
pub struct Guid {
    pub value: String,
    pub permalink: bool,
}

/// An item of an RSS feed, with the fields a feed item of a post fills.
#[derive(Debug, Clone, PartialEq, Eq)]
pub struct RssItem {
    pub title: Option<String>,
    pub link: Option<String>,
    pub guid: Option<Guid>,
    pub description: Option<String>,
    pub pub_date: Option<String>,
    pub author: Option<String>,
}

/// The date of a post, when it has one that parses.
pub open spec fn post_date(date: Option<String>) -> Option<DateTimeUtc> {
    match date {
        Some(d) => parsed_date(encode_utf8(d@)),
        None => None,
    }
}

/// Whether `item` is the feed item of the post `meta`: its title, its link
/// (also the guid, a permalink), its summary as description, its date in
/// RFC 2822 form, and its author.
pub open spec fn is_item_of(item: RssItem, meta: PostMeta) -> bool {
    match (meta.title, meta.link, post_date(meta.date)) {
        (Some(t), Some(l), Some(dt)) => {
            &&& opt_view(item.title) == Some(t@)
            &&& opt_view(item.link) == Some(l@)
            &&& item.guid is Some
            &&& item.guid->0.value@ == l@
            &&& item.guid->0.permalink
            &&& opt_view(item.description) == opt_view(meta.summary)
            &&& opt_view(item.pub_date) == Some(rfc2822(dt))
            &&& opt_view(item.author) == opt_view(meta.author)
        },
        _ => false,
    }
}

impl PostMeta {
    /// The feed item of the post; `None` when the title, the link or a date
    /// that parses is missing.
    pub fn into_rss_item(self) -> (r: Option<RssItem>)
        ensures
            r is Some <==> (self.title is Some && self.link is Some && post_date(self.date) is Some),
            r matches Some(item) ==> is_item_of(item, self),
    {
        let ghost meta = self;
        let title = match self.title {
            Some(t) => t,
            None => return None,
        };
        let link = match self.link {
            Some(l) => l,
            None => return None,
        };
        let date = match self.date {
            Some(d) => d,
            None => return None,
        };
        let dt = match DateTimeUtc::parse(date.as_str()) {
            Some(dt) => dt,
            None => return None,
        };
        proof {
            lemma_parsed_date_valid(encode_utf8(date@));
        }
        let pub_date = dt.to_rfc2822();
        let guid_value = link.as_str().to_owned();
        Some(RssItem {
            title: Some(title),
            link: Some(link),
            guid: Some(Guid { value: guid_value, permalink: true }),
            description: self.summary,
            pub_date: Some(pub_date),
            author: self.author,
        })
    }
}

proof fn lemma_parsed_date_valid(b: Seq<u8>)
    ensures
        parsed_date(b) matches Some(dt) ==> 1 <= dt.month <= 12 && 1 <= dt.day,
{
}

// ============================================================================
// Authors and GUIDs
// ============================================================================

/// The form of an RSS author field: `email@example.com (Name)`.
pub const AUTHOR_PATTERN: &'static str = r"^[A-Za-z0-9._%+-]+@[A-Za-z0-9.-]+\.[A-Za-z]{2,}\s*\([^)]+\)$";

/// The RSS author of a post: the post's author when it has the RSS form,
/// else the site author when that has it, else the site email with the site
/// author in parentheses; none for a post without an author.
pub open spec fn rss_author(author: Option<Seq<char>>, config: SiteConfig) -> Option<Seq<char>> {
    match author {
        None => None,
        Some(a) => if regex_matches(AUTHOR_PATTERN@, a) {
            Some(a)
        } else if regex_matches(AUTHOR_PATTERN@, config.base.author@) {
            Some(config.base.author@)
        } else {
            Some(config.base.email@ + " ("@ + config.base.author@ + ")"@)
        },
    }
}

/// Normalizes an author field to the RSS form `email@example.com (Name)`.
pub fn normalize_rss_author(author: Option<&String>, config: &SiteConfig) -> (r: Option<String>)
    ensures
        opt_view(r) == rss_author(match author { Some(a) => Some(a@), None => None }, *config),
{
    let author = match author {
        Some(a) => a,
        None => return None,
    };
    if regex_is_match(AUTHOR_PATTERN, author.as_str()) {
        return Some(author.clone());
    }
    let site_author = &config.base.author;
    if regex_is_match(AUTHOR_PATTERN, site_author.as_str()) {
        return Some(site_author.clone());
    }
    let mut out = to_chars(config.base.email.as_str());
    push_all(&mut out, &to_chars(" ("));
    push_all(&mut out, &to_chars(site_author.as_str()));
    push_all(&mut out, &to_chars(")"));
    Some(from_chars(&out))
}

/// The view of an optional string.
pub open spec fn opt_view(o: Option<String>) -> Option<Seq<char>> {
    match o {
        Some(s) => Some(s@),
        None => None,
    }
}

/// Whether `urlencoding` leaves a byte as it is: ASCII letters and digits,
/// `-`, `.`, `_` and `~`.
pub open spec fn url_safe(b: u8) -> bool {
    (48 <= b <= 57) || (65 <= b <= 90) || (97 <= b <= 122) || b == 45 || b == 46 || b == 95 || b == 126
}

/// An uppercase hexadecimal digit.
pub open spec fn hex_upper(d: int) -> char {
    if d < 10 { (48 + d) as char } else { (55 + d) as char }
}

/// One byte percent-encoded: itself when safe, else `%` and two uppercase
/// hexadecimal digits.
pub open spec fn byte_encoded(b: u8) -> Seq<char> {
    if url_safe(b) { seq![b as char] } else { seq!['%', hex_upper(b as int / 16), hex_upper(b as int % 16)] }
}

/// Bytes percent-encoded, one after the other.
pub open spec fn percent_encoded(bs: Seq<u8>) -> Seq<char>
    decreases bs.len(),
{
    if bs.len() == 0 {
        seq![]
    } else {
        percent_encoded(bs.drop_last()) + byte_encoded(bs.last())
    }
}

/// What `urlencoding::encode` returns: the UTF-8 bytes of the text, each
/// percent-encoded unless it is an ASCII letter, digit, `-`, `.`, `_` or `~`.
pub open spec fn url_encoded(s: Seq<char>) -> Seq<char> {
    percent_encoded(encode_utf8(s))
}

/// An uppercase hexadecimal digit, for `d < 16`.
fn hex_upper_exec(d: u8) -> (c: char)
    requires
        d < 16,
    ensures
        c == hex_upper(d as int),
{
    if d < 10 { ((48 + d) as u8) as char } else { ((55 + d) as u8) as char }
}

/// Percent-encodes text as `urlencoding::encode` does: every byte of the
/// text's UTF-8 form except ASCII letters and digits, `-`, `.`, `_` and `~`
/// becomes `%` and two uppercase hexadecimal digits.
pub(crate) fn url_encode(s: &str) -> (r: String)
    ensures
        r@ == url_encoded(s@),
{
    let b = string_bytes(s);
    let mut out: Vec<char> = Vec::new();
    let mut i: usize = 0;
    while i < b.len()
        invariant
            i <= b@.len(),
            b@ == encode_utf8(s@),
            out@ == percent_encoded(b@.subrange(0, i as int)),
        decreases b@.len() - i,
    {
        let c = b[i];
        proof {
            let pre = b@.subrange(0, i + 1);
            assert(pre.drop_last() =~= b@.subrange(0, i as int));
            assert(pre.last() == c);
        }
        let safe = (48 <= c && c <= 57) || (65 <= c && c <= 90) || (97 <= c && c <= 122) || c == 45 || c == 46
            || c == 95 || c == 126;
        if safe {
            out.push(c as char);
        } else {
            out.push('%');
            out.push(hex_upper_exec(c / 16));
            out.push(hex_upper_exec(c % 16));
        }
        assert(out@ =~= percent_encoded(b@.subrange(0, i as int)) + byte_encoded(c));
        i = i + 1;
    }
    assert(b@.subrange(0, i as int) =~= b@);
    from_chars(&out)
}

/// The path, before slugification, of the page of a content file given
/// relative to the content directory with `.typ` removed.
pub open spec fn guid_page_path(content_path: Seq<char>, relative_stem: Seq<char>) -> Seq<char> {
    if path_file_name(content_path) == Some("index.typ"@) {
        "index.html"@
    } else {
        path_joined(relative_stem, "index.html"@)
    }
}

/// The GUID URL of a content file, when it lies in the content directory and
/// ends in `.typ`.
pub open spec fn guid_url(content_path: Seq<char>, config: SiteConfig) -> Option<Seq<char>> {
    match path_stripped(content_path, config.build.content@) {
        None => None,
        Some(rel) => if !has_suffix(rel, ".typ"@) {
            None
        } else {
            let stem = rel.subrange(0, rel.len() - 4);
            let slugged = path_slug(guid_page_path(content_path, stem), config.build.slug);
            let encoded = replaced_all(url_encoded(slugged), "%2F"@, "/"@);
            let base = match config.base.url { Some(u) => u@, None => seq![] };
            Some(trim_end_slashes(base) + seq!['/'] + encoded)
        },
    }
}

/// The GUID URL of a content file: the base URL, then the URL-encoded,
/// slugified path of its page (`index.html` under the file's stem, or the
/// directory's own `index.html` for an `index.typ`).
pub fn get_guid_from_content_path(content_path: &str, config: &SiteConfig) -> (r: Result<String, Error>)
    ensures
        guid_url(content_path@, *config) is None <==> r is Err,
        r matches Ok(u) ==> u@ == guid_url(content_path@, *config).unwrap(),
        path_stripped(content_path@, config.build.content@) is None ==> r matches Err(Error::NotInContent(_)),
{
    let relative = match path::strip_prefix(content_path, config.build.content.as_str()) {
        Some(r) => r,
        None => return Err(Error::NotInContent(content_path.to_owned())),
    };
    let rel_chars = to_chars(relative.as_str());
    let typ = to_chars(".typ");
    proof { reveal_strlit(".typ"); }
    if !ends_with(&rel_chars, &typ) {
        return Err(Error::NotTypFile(content_path.to_owned()));
    }
    let stem = from_chars(&slice_vec(&rel_chars, 0, rel_chars.len() - 4));
    let is_index = match path::file_name(content_path) {
        Some(n) => str_eq(n.as_str(), "index.typ"),
        None => false,
    };
    let guid_path = if is_index {
        String::from_str("index.html")
    } else {
        path::join(stem.as_str(), "index.html")
    };
    let slugged = slugify_path(guid_path.as_str(), &config.build.slug);
    let encoded = url_encode(slugged.as_str());
    proof { reveal_strlit("%2F"); }
    let replaced = replace_all(encoded.as_str(), "%2F", "/");
    let base = match &config.base.url {
        Some(u) => u.clone(),
        None => String::new(),
    };
    let b = to_chars(base.as_str());
    let mut j: usize = b.len();
    assert(b@.subrange(0, j as int) =~= b@);
    while j > 0 && b[j - 1] == '/'
        invariant
            j <= b@.len(),
            trim_end_slashes(b@) == trim_end_slashes(b@.subrange(0, j as int)),
        decreases j,
    {
        assert(b@.subrange(0, j as int).drop_last() =~= b@.subrange(0, j - 1));
        j = j - 1;
    }
    proof {
        if j > 0 {
            assert(b@.subrange(0, j as int).last() == b@[j - 1]);
        }
    }
    let mut out = slice_vec(&b, 0, j);
    out.push('/');
    push_all(&mut out, &to_chars(replaced.as_str()));
    Ok(from_chars(&out))
}

/// A byte percent-encoded for a URL path: a `/` stays `/`, any other byte
/// is percent-encoded.
pub open spec fn path_byte_encoded(b: u8) -> Seq<char> {
    if b == 47 { seq!['/'] } else { byte_encoded(b) }
}

/// Bytes percent-encoded for a URL path, each `/` kept as a separator.
pub open spec fn path_percent_encoded(bs: Seq<u8>) -> Seq<char>
    decreases bs.len(),
{
    if bs.len() == 0 {
        seq![]
    } else {
        path_byte_encoded(bs[0]) + path_percent_encoded(bs.drop_first())
    }
}

proof fn lemma_percent_encoded_front(b: u8, rest: Seq<u8>)
    ensures
        percent_encoded(seq![b] + rest) == byte_encoded(b) + percent_encoded(rest),
    decreases rest.len(),
{
    let s = seq![b] + rest;
    if rest.len() == 0 {
        assert(s.drop_last() =~= Seq::<u8>::empty());
        assert(s.last() == b);
        assert(percent_encoded(rest) =~= Seq::<char>::empty());
        assert(percent_encoded(s.drop_last()) =~= Seq::<char>::empty());
        assert(percent_encoded(s) == percent_encoded(s.drop_last()) + byte_encoded(b));
        assert(percent_encoded(s) =~= byte_encoded(b));
    } else {
        lemma_percent_encoded_front(b, rest.drop_last());
        assert(s.drop_last() =~= seq![b] + rest.drop_last());
        assert(s.last() == rest.last());
        assert(percent_encoded(s) =~= byte_encoded(b) + percent_encoded(rest));
    }
}

proof fn lemma_hex_upper_digit(d: int)
    requires
        0 <= d < 16,
    ensures
        hex_upper(d) != '%',
        hex_upper(d) == '2' <==> d == 2,
        hex_upper(d) == 'F' <==> d == 15,
{
}

/// Turning each `%2F` of a percent-encoded byte string back into `/` gives
/// the bytes percent-encoded with their `/` kept: no `%2F` is left, and
/// nothing but the encoding of a `/` is changed.
pub proof fn law_slash_restored(bs: Seq<u8>)
    ensures
        replaced_all(percent_encoded(bs), "%2F"@, "/"@) == path_percent_encoded(bs),
    decreases bs.len(),
{
    reveal_strlit("%2F");
    reveal_strlit("/");
    let pat = "%2F"@;
    if bs.len() == 0 {
        assert(percent_encoded(bs) =~= Seq::<char>::empty());
    } else {
        let b = bs[0];
        let rest = bs.drop_first();
        assert(bs =~= seq![b] + rest);
        lemma_percent_encoded_front(b, rest);
        law_slash_restored(rest);
        let r = percent_encoded(rest);
        let s = byte_encoded(b) + r;
        if url_safe(b) {
            assert(s[0] == b as char);
            assert(!has_prefix(s, pat)) by {
                if has_prefix(s, pat) {
                    assert(s.subrange(0, 3)[0] == pat[0]);
                }
            }
            assert(s.drop_first() =~= r);
            assert(replaced_all(s, pat, "/"@) =~= seq![b as char] + replaced_all(r, pat, "/"@));
        } else {
            let h1 = hex_upper(b as int / 16);
            let h2 = hex_upper(b as int % 16);
            lemma_hex_upper_digit(b as int / 16);
            lemma_hex_upper_digit(b as int % 16);
            assert(s =~= seq!['%', h1, h2] + r);
            if b == 47 {
                assert(s.subrange(0, 3) =~= pat);
                assert(s.subrange(3, s.len() as int) =~= r);
                assert(replaced_all(s, pat, "/"@) =~= seq!['/'] + replaced_all(r, pat, "/"@));
            } else {
                assert(!(b as int / 16 == 2 && b as int % 16 == 15));
                assert(!has_prefix(s, pat)) by {
                    if has_prefix(s, pat) {
                        assert(s.subrange(0, 3)[1] == pat[1]);
                        assert(s.subrange(0, 3)[2] == pat[2]);
                    }
                }
                let s1 = s.drop_first();
                assert(s1 =~= seq![h1, h2] + r);
                assert(!has_prefix(s1, pat)) by {
                    if has_prefix(s1, pat) {
                        assert(s1.subrange(0, 3)[0] == pat[0]);
                    }
                }
                let s2 = s1.drop_first();
                assert(s2 =~= seq![h2] + r);
                assert(!has_prefix(s2, pat)) by {
                    if has_prefix(s2, pat) {
                        assert(s2.subrange(0, 3)[0] == pat[0]);
                    }
                }
                assert(s2.drop_first() =~= r);
                assert(replaced_all(s2, pat, "/"@) == seq![h2] + replaced_all(r, pat, "/"@));
                assert(replaced_all(s1, pat, "/"@) == seq![h1] + replaced_all(s2, pat, "/"@));
                assert(replaced_all(s, pat, "/"@) == seq!['%'] + replaced_all(s1, pat, "/"@));
                assert(replaced_all(s, pat, "/"@) =~= seq!['%', h1, h2] + replaced_all(r, pat, "/"@));
            }
        }
    }
}

/// Percent-encoding with `/` kept never writes `%2F`.
proof fn lemma_no_encoded_slash(bs: Seq<u8>)
    ensures
        !contains_seq(path_percent_encoded(bs), "%2F"@),
    decreases bs.len(),
{
    reveal_strlit("%2F");
    let pat = "%2F"@;
    if bs.len() > 0 {
        let b = bs[0];
        lemma_no_encoded_slash(bs.drop_first());
        let piece = path_byte_encoded(b);
        let tail = path_percent_encoded(bs.drop_first());
        let whole = path_percent_encoded(bs);
        assert(whole == piece + tail);
        lemma_hex_upper_digit(b as int / 16);
        lemma_hex_upper_digit(b as int % 16);
        assert forall|i: int| !occurs_at(whole, pat, i) by {
            if occurs_at(whole, pat, i) {
                if i >= piece.len() {
                    assert(tail.subrange(i - piece.len(), i - piece.len() + 3) =~= whole.subrange(i, i + 3));
                    assert(occurs_at(tail, pat, i - piece.len()));
                } else {
                    assert(whole[i] == whole.subrange(i, i + 3)[0]);
                    assert(whole[i] == '%');
                    if i == 0 && piece.len() == 3 {
                        assert(whole[1] == whole.subrange(i, i + 3)[1]);
                        assert(whole[2] == whole.subrange(i, i + 3)[2]);
                        assert(b as int / 16 == 2 && b as int % 16 == 15);
                    }
                }
            }
        }
    }
}

/// The GUID of a content file keeps its path separators: after the base URL
/// and `/` comes the UTF-8 form of the slugified page path, every byte
/// percent-encoded except that each `/` stays a `/`.
pub proof fn law_guid_keeps_separators(content_path: Seq<char>, config: SiteConfig, rel: Seq<char>)
    requires
        path_stripped(content_path, config.build.content@) == Some(rel),
        has_suffix(rel, ".typ"@),
    ensures
        guid_url(content_path, config) == Some(
            trim_end_slashes(match config.base.url { Some(u) => u@, None => seq![] }) + seq!['/']
                + path_percent_encoded(encode_utf8(
                    path_slug(guid_page_path(content_path, rel.subrange(0, rel.len() - 4)), config.build.slug),
                )),
        ),
        !contains_seq(path_percent_encoded(encode_utf8(
            path_slug(guid_page_path(content_path, rel.subrange(0, rel.len() - 4)), config.build.slug),
        )), "%2F"@),
{
    let slugged = path_slug(guid_page_path(content_path, rel.subrange(0, rel.len() - 4)), config.build.slug);
    law_slash_restored(encode_utf8(slugged));
    lemma_no_encoded_slash(encode_utf8(slugged));
}

/// A date that `parse` accepts passes `validate`: parsing never yields an
/// impossible date.
pub proof fn law_parsed_dates_are_valid(b: Seq<u8>)
    ensures
        parsed_date(b) matches Some(d) ==> date_error(d) is None,
{
}

} // verus!
