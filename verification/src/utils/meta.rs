//! Page and asset metadata: where a file goes in the output and which URL
//! links to it.

use vstd::prelude::*;
use crate::config::SiteConfig;
use crate::error::Error;
use crate::utils::path::{self, path_joined, path_stripped};
use crate::utils::rss::{is_leap, is_valid_date, month_days, padded, padded_decimal, rfc2822, weekday_spec, zeller, DateTimeUtc};
use crate::utils::text::has_prefix;
use crate::utils::slug::{path_slug, slugify_path};
use crate::utils::text::{ends_with, from_chars, has_suffix, prepend_char, push_all, slice_vec, str_eq, to_chars};
use crate::utils::typst::trim_end_slashes;

verus! {


/// Days from 0000-01-01 to the first of January of `year`, in the proleptic
/// Gregorian calendar (negative before year 0).
pub open spec fn days_before_year(year: int) -> int {
    365 * year + (year + 3) / 4 - (year + 99) / 100 + (year + 399) / 400
}

/// Days from the first of January of `year` to the first of `month`.
pub open spec fn days_before_month(year: int, month: int) -> int
    decreases month,
{
    if month <= 1 {
        0
    } else {
        days_before_month(year, month - 1) + month_days(year, month - 1)
    }
}

/// Whether `year`-`month`-`day` is a date of the Gregorian calendar.
pub open spec fn is_valid_ymd(year: int, month: int, day: int) -> bool {
    1 <= month <= 12 && 1 <= day <= month_days(year, month)
}

/// The day number of a date, counted from 1970-01-01 (day 0).
pub open spec fn days_from_civil(year: int, month: int, day: int) -> int {
    days_before_year(year) + days_before_month(year, month) + day - 1 - 719528
}

/// Whether `year`-`month`-`day` is the date of day number `days`.
pub open spec fn is_date_of_day(year: int, month: int, day: int, days: int) -> bool {
    is_valid_ymd(year, month, day) && days_from_civil(year, month, day) == days
}

/// Days from 0000-03-01 to the first of March of `year`.
spec fn march_first(year: int) -> int {
    365 * year + year / 4 - year / 100 + year / 400
}

spec fn leap_day(year: int) -> int {
    if is_leap(year) { 1 } else { 0 }
}

proof fn lemma_next_multiple(x: int, d: int)
    requires
        d > 0,
    ensures
        (x + d - 1) / d == x / d + (if x % d == 0 { 0int } else { 1 }),
        (x + d) / d == x / d + 1,
{
    vstd::arithmetic::div_mod::lemma_fundamental_div_mod(x, d);
    let q = x / d;
    let r = x % d;
    assert(q * d == d * q) by (nonlinear_arith);
    assert((q + 1) * d == q * d + d) by (nonlinear_arith);
    vstd::arithmetic::div_mod::lemma_mod_bound(x, d);
    if r == 0 {
        vstd::arithmetic::div_mod::lemma_fundamental_div_mod_converse_div(x + d - 1, d, q, d - 1);
    } else {
        vstd::arithmetic::div_mod::lemma_fundamental_div_mod_converse_div(x + d - 1, d, q + 1, r - 1);
    }
    vstd::arithmetic::div_mod::lemma_fundamental_div_mod_converse_div(x + d, d, q + 1, r);
}

#[verifier::spinoff_prover]
proof fn lemma_year_starts(year: int)
    ensures
        march_first(year) == days_before_year(year) + leap_day(year) - 1,
        days_before_year(year + 1) == days_before_year(year) + 365 + leap_day(year),
{
    lemma_next_multiple(year, 4);
    lemma_next_multiple(year, 100);
    lemma_next_multiple(year, 400);
    lemma_next_multiple(year + 3, 4);
    lemma_next_multiple(year + 99, 100);
    lemma_next_multiple(year + 399, 400);
    assert((year + 3) % 4 == 3 <==> year % 4 == 0) by {
        vstd::arithmetic::div_mod::lemma_fundamental_div_mod(year, 4);
        vstd::arithmetic::div_mod::lemma_fundamental_div_mod(year + 3, 4);
    }
    assert((year + 99) % 100 == 99 <==> year % 100 == 0) by {
        vstd::arithmetic::div_mod::lemma_fundamental_div_mod(year, 100);
        vstd::arithmetic::div_mod::lemma_fundamental_div_mod(year + 99, 100);
    }
    assert((year + 399) % 400 == 399 <==> year % 400 == 0) by {
        vstd::arithmetic::div_mod::lemma_fundamental_div_mod(year, 400);
        vstd::arithmetic::div_mod::lemma_fundamental_div_mod(year + 399, 400);
    }
    assert(year % 400 == 0 ==> year % 100 == 0 && year % 4 == 0) by {
        vstd::arithmetic::div_mod::lemma_fundamental_div_mod(year, 400);
        vstd::arithmetic::div_mod::lemma_fundamental_div_mod(year, 100);
        vstd::arithmetic::div_mod::lemma_fundamental_div_mod(year, 4);
    }
    assert(year % 100 == 0 ==> year % 4 == 0) by {
        vstd::arithmetic::div_mod::lemma_fundamental_div_mod(year, 100);
        vstd::arithmetic::div_mod::lemma_fundamental_div_mod(year, 4);
    }
}

proof fn lemma_era_shift(yoe: int, era: int)
    requires
        0 <= yoe <= 399,
    ensures
        march_first(yoe + 400 * era) == 146097 * era + 365 * yoe + yoe / 4 - yoe / 100,
{
    vstd::arithmetic::div_mod::lemma_hoist_over_denominator(yoe, 100 * era, 4);
    vstd::arithmetic::div_mod::lemma_hoist_over_denominator(yoe, 4 * era, 100);
    vstd::arithmetic::div_mod::lemma_hoist_over_denominator(yoe, era, 400);
    assert(yoe / 400 == 0);
}

/// The year of a 400-year era that a day of the era falls in, with years
/// starting on the first of March.
proof fn lemma_year_of_era(doe: int)
    requires
        0 <= doe <= 146096,
    ensures
        ({
            let yoe = (doe - doe / 1460 + doe / 36524 - doe / 146096) / 365;
            let start = 365 * yoe + yoe / 4 - yoe / 100;
            &&& 0 <= yoe <= 399
            &&& start <= doe
            &&& doe - start < 365 + leap_day(yoe + 1)
        }),
{
}


/// The month and day of a day of a year that starts on the first of March;
/// January and February belong to the next calendar year.
proof fn lemma_month_of_year(doy: int, year: int)
    requires
        0 <= doy < 365 + leap_day(year + 1),
    ensures
        ({
            let mp = (5 * doy + 2) / 153;
            let d = doy - (153 * mp + 2) / 5 + 1;
            let m = if mp < 10 { mp + 3 } else { mp - 9 };
            let y = if m <= 2 { year + 1 } else { year };
            &&& 0 <= mp <= 11
            &&& is_valid_ymd(y, m, d)
            &&& days_from_civil(y, m, d) + 719468 == march_first(year) + doy
        }),
{
    lemma_year_starts(year);
    reveal_with_fuel(days_before_month, 13);
    let mp = (5 * doy + 2) / 153;
    vstd::arithmetic::div_mod::lemma_fundamental_div_mod(5 * doy + 2, 153);
    vstd::arithmetic::div_mod::lemma_mod_bound(5 * doy + 2, 153);
    assert(0 <= mp <= 11);
    if mp == 0 {
        assert((153 * mp + 2) / 5 == 0);
    } else if mp == 1 {
        assert((153 * mp + 2) / 5 == 31);
    } else if mp == 2 {
        assert((153 * mp + 2) / 5 == 61);
    } else if mp == 3 {
        assert((153 * mp + 2) / 5 == 92);
    } else if mp == 4 {
        assert((153 * mp + 2) / 5 == 122);
    } else if mp == 5 {
        assert((153 * mp + 2) / 5 == 153);
    } else if mp == 6 {
        assert((153 * mp + 2) / 5 == 184);
    } else if mp == 7 {
        assert((153 * mp + 2) / 5 == 214);
    } else if mp == 8 {
        assert((153 * mp + 2) / 5 == 245);
    } else if mp == 9 {
        assert((153 * mp + 2) / 5 == 275);
    } else if mp == 10 {
        assert((153 * mp + 2) / 5 == 306);
    } else {
        assert((153 * mp + 2) / 5 == 337);
    }
}

proof fn lemma_era(z: int, era: int)
    requires
        z >= 0 ==> era == z / 146097,
        z < 0 ==> era == -((146096 - z) / 146097),
    ensures
        0 <= z - era * 146097 <= 146096,
        z >= 0 ==> 0 <= era <= z,
        z < 0 ==> z <= era < 0,
{
    if z >= 0 {
        vstd::arithmetic::div_mod::lemma_fundamental_div_mod(z, 146097);
        vstd::arithmetic::div_mod::lemma_mod_bound(z, 146097);
    } else {
        vstd::arithmetic::div_mod::lemma_fundamental_div_mod(146096 - z, 146097);
        vstd::arithmetic::div_mod::lemma_mod_bound(146096 - z, 146097);
    }
}

/// The steps of `days_to_ymd` give the date of day `z - 719468`, where `z`
/// falls on day `doe` of era `era`.
proof fn lemma_civil_from_days(
    z: int,
    era: int,
    doe: int,
    yoe: int,
    doy: int,
    mp: int,
    d: int,
    m: int,
    y: int,
)
    requires
        0 <= doe <= 146096,
        doe == z - era * 146097,
        yoe == (doe - doe / 1460 + doe / 36524 - doe / 146096) / 365,
        doy == doe - (365 * yoe + yoe / 4 - yoe / 100),
        mp == (5 * doy + 2) / 153,
        d == doy - (153 * mp + 2) / 5 + 1,
        m == if mp < 10 { mp + 3 } else { mp - 9 },
        y == yoe + era * 400 + if m <= 2 { 1int } else { 0 },
    ensures
        0 <= yoe <= 399,
        0 <= doy <= 365,
        0 <= mp <= 11,
        is_date_of_day(y, m, d, z - 719468),
{
    lemma_year_of_era(doe);
    lemma_era_shift(yoe, era);
    lemma_leap_day_shift(yoe + 1, era);
    assert(yoe + era * 400 == yoe + 400 * era);
    assert(yoe + era * 400 + 1 == yoe + 1 + 400 * era);
    lemma_month_of_year(doy, yoe + 400 * era);
}

proof fn lemma_leap_day_shift(year: int, era: int)
    ensures
        leap_day(year + 400 * era) == leap_day(year),
{
    assert((year + 400 * era) % 4 == year % 4) by {
        vstd::arithmetic::div_mod::lemma_mod_multiples_vanish(100 * era, year, 4);
    }
    assert((year + 400 * era) % 100 == year % 100) by {
        vstd::arithmetic::div_mod::lemma_mod_multiples_vanish(4 * era, year, 100);
    }
    assert((year + 400 * era) % 400 == year % 400) by {
        vstd::arithmetic::div_mod::lemma_mod_multiples_vanish(era, year, 400);
    }
}

/// Whether day `doe` of era `era` falls on month `m`, day `d` of year `yoe`
/// of the era (years of an era start on the first of March).
spec fn is_era_date(era: int, doe: int, yoe: int, m: int, d: int) -> bool {
    is_date_of_day(yoe + era * 400 + if m <= 2 { 1int } else { 0 }, m, d, era * 146097 + doe - 719468)
}

/// The year of the era (counted from March), month and day of day `doe` of a
/// 400-year era.
fn date_in_era(doe: u32) -> (r: (u32, u32, u32))
    requires
        doe <= 146096,
    ensures
        r.0 <= 399,
        forall|era: int| #[trigger] is_era_date(era, doe as int, r.0 as int, r.1 as int, r.2 as int),
{
    let ghost yoe_g = (doe - doe / 1460 + doe / 36524 - doe / 146096) / 365;
    let ghost doy_g = doe - (365 * yoe_g + yoe_g / 4 - yoe_g / 100);
    let ghost mp_g = (5 * doy_g + 2) / 153;
    let ghost d_g = doy_g - (153 * mp_g + 2) / 5 + 1;
    let ghost m_g = if mp_g < 10 { mp_g + 3 } else { mp_g - 9 };
    proof {
        lemma_year_of_era(doe as int);
    }
    let yoe = (doe - doe / 1460 + doe / 36524 - doe / 146096) / 365;
    let doy = doe - (365 * yoe + yoe / 4 - yoe / 100);
    assert(doy <= 365);
    let mp = (5 * doy + 2) / 153;
    assert(mp <= 11);
    let d = doy - (153 * mp + 2) / 5 + 1;
    let m = if mp < 10 { mp + 3 } else { mp - 9 };
    assert(yoe == yoe_g && m == m_g && d == d_g);
    assert forall|era: int| #[trigger] is_era_date(era, doe as int, yoe as int, m as int, d as int) by {
        let z = era * 146097 + doe;
        lemma_civil_from_days(
            z,
            era,
            doe as int,
            yoe_g,
            doy_g,
            mp_g,
            d_g,
            m_g,
            yoe_g + era * 400 + if m_g <= 2 { 1int } else { 0 },
        );
    }
    (yoe, m, d)
}

/// Converts a day number counted from 1970-01-01 into a calendar date
/// (year, month, day), after H. Hinnant's `civil_from_days`. The year is
/// truncated to 32 bits as `as` does.
pub fn days_to_ymd(days: i64) -> (r: (i32, u32, u32))
    requires
        i64::MIN + 146096 <= days + 719468 <= i64::MAX,
    ensures
        exists|y: int| y as i32 == r.0 && #[trigger] is_date_of_day(y, r.1 as int, r.2 as int, days as int),
{
    // Count from 0000-03-01, so that the leap day ends a year.
    let z = days + 719468;
    // The 400-year era, rounded towards minus infinity.
    let era = (if z >= 0 { z } else { z - 146096 }) / 146097;
    proof {
        lemma_era(z as int, era as int);
    }
    let doe = (z - era * 146097) as u32;
    let (yoe, m, d) = date_in_era(doe);
    let y = yoe as i64 + era * 400;
    let y = if m <= 2 { y + 1 } else { y };
    assert(is_era_date(era as int, doe as int, yoe as int, m as int, d as int));
    let r = (y as i32, m, d);
    assert(is_date_of_day(y as int, r.1 as int, r.2 as int, days as int));
    assert((y as int) as i32 == r.0);
    r
}


proof fn lemma_days_before_month_values(year: int)
    ensures
        days_before_month(year, 2) == 31,
        days_before_month(year, 3) == 59 + leap_day(year),
        days_before_month(year, 4) == 90 + leap_day(year),
        days_before_month(year, 5) == 120 + leap_day(year),
        days_before_month(year, 6) == 151 + leap_day(year),
        days_before_month(year, 7) == 181 + leap_day(year),
        days_before_month(year, 8) == 212 + leap_day(year),
        days_before_month(year, 9) == 243 + leap_day(year),
        days_before_month(year, 10) == 273 + leap_day(year),
        days_before_month(year, 11) == 304 + leap_day(year),
        days_before_month(year, 12) == 334 + leap_day(year),
{
    reveal_with_fuel(days_before_month, 13);
}

/// A valid date of `year` falls within that year.
proof fn lemma_date_within_year(year: int, month: int, day: int)
    requires
        is_valid_ymd(year, month, day),
    ensures
        0 <= days_before_month(year, month) + day - 1 < 365 + leap_day(year),
{
    lemma_days_before_month_values(year);
}

proof fn lemma_years_ordered(a: int, b: int)
    requires
        a < b,
    ensures
        days_before_year(a + 1) <= days_before_year(b),
    decreases b - a,
{
    if a + 1 < b {
        lemma_years_ordered(a + 1, b);
        lemma_year_starts(a + 1);
    }
}

/// A day has exactly one date: the date that `days_to_ymd` gives is the
/// only one whose day number is the argument.
pub proof fn law_day_has_one_date(y1: int, m1: int, d1: int, y2: int, m2: int, d2: int, days: int)
    requires
        is_date_of_day(y1, m1, d1, days),
        is_date_of_day(y2, m2, d2, days),
    ensures
        y1 == y2 && m1 == m2 && d1 == d2,
{
    lemma_date_within_year(y1, m1, d1);
    lemma_date_within_year(y2, m2, d2);
    lemma_year_starts(y1);
    lemma_year_starts(y2);
    if y1 < y2 {
        lemma_years_ordered(y1, y2);
    } else if y2 < y1 {
        lemma_years_ordered(y2, y1);
    }
    assert(y1 == y2);
    lemma_days_before_month_values(y1);
}

/// Path information for an asset.
#[derive(Clone, Debug)]
pub struct AssetPaths {
    /// Source file path.
    pub source: String,
    /// Output file path (in the output directory).
    pub dest: String,
    /// Path relative to the assets directory.
    pub relative: String,
    /// URL path for linking.
    pub url: String,
}

/// Metadata for a static asset file.
#[derive(Clone, Debug)]
pub struct AssetMeta {
    pub paths: AssetPaths,
}

/// `s` with backslashes turned into forward slashes.
pub open spec fn forward_slashes(s: Seq<char>) -> Seq<char> {
    s.map_values(|c: char| if c == '\\' { '/' } else { c })
}

/// The URL of an output path given relative to the output root: forward
/// slashes, starting with `/`.
pub open spec fn url_of_relative(rel: Seq<char>) -> Seq<char> {
    let s = forward_slashes(rel);
    if s.len() > 0 && s[0] == '/' { s } else { seq!['/'] + s }
}

fn to_forward_slashes(v: &[char]) -> (r: Vec<char>)
    ensures
        r@ == forward_slashes(v@),
{
    let mut r: Vec<char> = Vec::new();
    let mut i: usize = 0;
    while i < v.len()
        invariant
            i <= v@.len(),
            r@ == forward_slashes(v@.subrange(0, i as int)),
        decreases v.len() - i,
    {
        if v[i] == '\\' {
            r.push('/');
        } else {
            r.push(v[i]);
        }
        i = i + 1;
        assert(r@ =~= forward_slashes(v@.subrange(0, i as int)));
    }
    assert(v@.subrange(0, i as int) =~= v@);
    r
}

/// Generates a URL path from an output file path: the path relative to the
/// output directory, with forward slashes, starting with `/`.
pub fn url_from_output_path(p: &str, config: &SiteConfig) -> (r: Result<String, Error>)
    ensures
        path_stripped(p@, config.build.output@) is None <==> r is Err,
        r matches Err(e) ==> e matches Error::NotInOutput(s) && s@ == p@,
        r matches Ok(u) ==> u@ == url_of_relative(path_stripped(p@, config.build.output@).unwrap()),
{
    let rel = match path::strip_prefix(p, config.build.output.as_str()) {
        Some(rel) => rel,
        None => return Err(Error::NotInOutput(p.to_owned())),
    };
    let chars = to_chars(rel.as_str());
    let fwd = to_forward_slashes(&chars);
    if fwd.len() > 0 && fwd[0] == '/' {
        Ok(from_chars(&fwd))
    } else {
        let s = from_chars(&fwd);
        let v = prepend_char('/', s.as_str());
        Ok(from_chars(&v))
    }
}

/// The output path of an asset: the output directory, joined with the path
/// prefix, joined with the asset's path relative to the assets directory.
pub open spec fn asset_dest(relative: Seq<char>, config: SiteConfig) -> Seq<char> {
    path_joined(path_joined(config.build.output@, config.build.path_prefix@), relative)
}

impl AssetMeta {
    /// Creates asset metadata from a source path inside the assets directory.
    pub fn from_source(source: String, config: &SiteConfig) -> (r: Result<AssetMeta, Error>)
        ensures
            path_stripped(source@, config.build.assets@) is None ==> r == Err::<AssetMeta, Error>(Error::NotInAssets(source)),
            path_stripped(source@, config.build.assets@) matches Some(rel) ==> {
                let dest = asset_dest(rel, *config);
                &&& path_stripped(dest, config.build.output@) is None ==> r is Err
                &&& path_stripped(dest, config.build.output@) matches Some(out_rel) ==> r matches Ok(m) && {
                    &&& m.paths.source@ == source@
                    &&& m.paths.relative@ == rel
                    &&& m.paths.dest@ == dest
                    &&& m.paths.url@ == url_of_relative(out_rel)
                }
            },
    {
        let relative = match path::strip_prefix(source.as_str(), config.build.assets.as_str()) {
            Some(rel) => rel,
            None => return Err(Error::NotInAssets(source)),
        };
        let output_dir = path::join(config.build.output.as_str(), config.build.path_prefix.as_str());
        let dest = path::join(output_dir.as_str(), relative.as_str());
        let url = match url_from_output_path(dest.as_str(), config) {
            Ok(u) => u,
            Err(e) => return Err(e),
        };
        Ok(AssetMeta { paths: AssetPaths { source, dest, relative, url } })
    }
}

// ============================================================================
// Page Metadata
// ============================================================================

/// Path information for a page.
#[derive(Clone, Debug)]
pub struct PagePaths {
    /// Source `.typ` file path.
    pub source: String,
    /// Generated HTML file path (includes the path prefix).
    pub html: String,
    /// Path relative to the content directory, without extension.
    pub relative: String,
    /// URL path (includes the path prefix, e.g. `/prefix/posts/hello/`).
    pub url_path: String,
    /// Full URL including the base URL.
    pub full_url: String,
}

/// Metadata of a content page: its paths and the modification time of its
/// source, in seconds after the Unix epoch, when it is known.
#[derive(Clone, Debug)]
pub struct PageMeta {
    pub paths: PagePaths,
    pub lastmod: Option<u64>,
}

impl PageMeta {
    /// The metadata of a page from its source `.typ` file and the source's
    /// modification time (seconds after the Unix epoch, when known).
    pub fn from_source(source: String, config: &SiteConfig, lastmod: Option<u64>) -> (r: Result<PageMeta, Error>)
        ensures
            page_paths(source@, *config) is None <==> r is Err,
            page_paths(source@, *config) matches Some(pp) ==> r matches Ok(m) && paths_view(m.paths) == (source@, pp)
                && m.lastmod == lastmod,
    {
        match PagePaths::from_source(source, config) {
            Ok(paths) => Ok(PageMeta { paths, lastmod }),
            Err(e) => Err(e),
        }
    }
}

/// The pages of a site.
#[derive(Debug)]
pub struct Pages {
    pub items: Vec<PageMeta>,
}

impl Default for Pages {
    fn default() -> (r: Pages)
        ensures
            r.items@.len() == 0,
    {
        Pages { items: Vec::new() }
    }
}

impl Pages {
    /// An iterator over the pages.
    pub fn iter(&self) -> (r: std::slice::Iter<'_, PageMeta>)
        ensures
            vstd::std_specs::iter::IteratorSpec::remaining(&r) == self.items@.as_ref(),
    {
        let s = self.items.as_slice();
        proof {
            vstd::std_specs::slice::axiom_spec_slice_iter(s);
        }
        s.iter()
    }

    /// The number of pages.
    pub fn len(&self) -> (r: usize)
        ensures
            r == self.items@.len(),
    {
        self.items.len()
    }
}

/// A page as plain values: its paths and its modification time.
pub open spec fn page_view(m: PageMeta) -> ((Seq<char>, (Seq<char>, Seq<char>, Seq<char>, Seq<char>)), Option<u64>) {
    (paths_view(m.paths), m.lastmod)
}

/// The pages of the given sources (with their modification times), in
/// order; sources that are not pages are left out.
pub open spec fn collected_pages(files: Seq<(String, Option<u64>)>, config: SiteConfig) -> Seq<
    ((Seq<char>, (Seq<char>, Seq<char>, Seq<char>, Seq<char>)), Option<u64>),
>
    decreases files.len(),
{
    if files.len() == 0 {
        seq![]
    } else {
        let rest = collected_pages(files.drop_last(), config);
        let (source, lastmod) = files.last();
        match page_paths(source@, config) {
            Some(pp) => rest.push(((source@, pp), lastmod)),
            None => rest,
        }
    }
}

/// Collects the metadata of the pages among `.typ` sources, each given with
/// its modification time, keeping their order.
pub fn collect_pages(config: &SiteConfig, typ_files: &[(String, Option<u64>)]) -> (r: Pages)
    ensures
        r.items@.map_values(|m: PageMeta| page_view(m)) == collected_pages(typ_files@, *config),
{
    let mut items: Vec<PageMeta> = Vec::new();
    let mut i: usize = 0;
    while i < typ_files.len()
        invariant
            i <= typ_files@.len(),
            items@.map_values(|m: PageMeta| page_view(m)) == collected_pages(typ_files@.subrange(0, i as int), *config),
        decreases typ_files.len() - i,
    {
        assert(typ_files@.subrange(0, i + 1).drop_last() =~= typ_files@.subrange(0, i as int));
        let (source, lastmod) = (&typ_files[i].0, typ_files[i].1);
        let ghost before = items@.map_values(|m: PageMeta| page_view(m));
        match PageMeta::from_source(source.as_str().to_owned(), config, lastmod) {
            Ok(m) => {
                items.push(m);
                assert(items@.map_values(|m: PageMeta| page_view(m)) =~= before.push(
                    page_view(items@[items@.len() - 1]),
                ));
            },
            Err(_) => {},
        }
        i = i + 1;
    }
    assert(typ_files@.subrange(0, typ_files@.len() as int) =~= typ_files@);
    Pages { items }
}

/// A year as `{:04}` writes an `i32`: zero-padded to four characters, the
/// minus sign counted among them.
pub open spec fn year_text(year: i32) -> Seq<char> {
    if year < 0 {
        seq!['-'] + padded((-year) as nat, 3)
    } else {
        padded(year as nat, 4)
    }
}

/// A date as `YYYY-MM-DD`.
pub open spec fn ymd_text(year: i32, month: nat, day: nat) -> Seq<char> {
    year_text(year) + seq!['-'] + padded(month, 2) + seq!['-'] + padded(day, 2)
}

impl PageMeta {
    /// The modification date as `YYYY-MM-DD` (for the sitemap): the date of
    /// the day that `lastmod` falls on.
    pub fn lastmod_ymd(&self) -> (r: Option<String>)
        ensures
            self.lastmod is None ==> r is None,
            self.lastmod matches Some(secs) ==> r matches Some(text) && exists|y: int, m: int, d: int|
                #[trigger] is_date_of_day(y, m, d, secs as int / 86400) && text@ == ymd_text(
                    y as i32,
                    m as nat,
                    d as nat,
                ),
    {
        let secs = match self.lastmod {
            Some(s) => s,
            None => return None,
        };
        let days = (secs / 86400) as i64;
        let (year, month, day) = days_to_ymd(days);
        let mut v: Vec<char> = Vec::new();
        if year < 0 {
            v.push('-');
            let magnitude = (0 - (year as i64)) as u64;
            push_all(&mut v, &padded_decimal(magnitude, 3));
        } else {
            push_all(&mut v, &padded_decimal(year as u64, 4));
        }
        v.push('-');
        push_all(&mut v, &padded_decimal(month as u64, 2));
        v.push('-');
        push_all(&mut v, &padded_decimal(day as u64, 2));
        proof {
            let y = choose|y: int| y as i32 == year && #[trigger] is_date_of_day(y, month as int, day as int, days as int);
            assert(v@ =~= ymd_text(year, month as nat, day as nat));
            assert(is_date_of_day(y, month as int, day as int, secs as int / 86400));
        }
        Some(from_chars(&v))
    }
}

/// The HTML output path of a page: `index.html` in the output directory
/// (under the path prefix) for the root index, and else `index.html` in the
/// directory named by the slug of the page's relative path.
pub open spec fn page_html(relative: Seq<char>, config: SiteConfig) -> Seq<char> {
    let out = path_joined(config.build.output@, config.build.path_prefix@);
    if relative == "index"@ {
        path_joined(out, "index.html"@)
    } else {
        path_joined(path_joined(out, path_slug(relative, config.build.slug)), "index.html"@)
    }
}

/// A URL with a trailing `index.html` after a `/` removed.
pub open spec fn pretty_url(u: Seq<char>) -> Seq<char> {
    if has_suffix(u, "/index.html"@) {
        u.subrange(0, u.len() - 10)
    } else {
        u
    }
}

/// The site's base URL without trailing slashes (empty when none is set).
pub open spec fn base_url_of(config: SiteConfig) -> Seq<char> {
    match config.base.url {
        Some(u) => trim_end_slashes(u@),
        None => seq![],
    }
}

/// The paths of a page from its source, as `(relative, html, url_path,
/// full_url)`; `None` when the source is not a `.typ` file of the content
/// directory or its output lies outside the output directory.
pub open spec fn page_paths(source: Seq<char>, config: SiteConfig) -> Option<(Seq<char>, Seq<char>, Seq<char>, Seq<char>)> {
    match path_stripped(source, config.build.content@) {
        None => None,
        Some(rel) => if !has_suffix(rel, ".typ"@) {
            None
        } else {
            let relative = rel.subrange(0, rel.len() - 4);
            let html = page_html(relative, config);
            match path_stripped(html, config.build.output@) {
                None => None,
                Some(out_rel) => {
                    let url_path = pretty_url(url_of_relative(out_rel));
                    Some((relative, html, url_path, base_url_of(config) + url_path))
                },
            }
        },
    }
}

/// The paths of a page as plain sequences: `(source, relative, html,
/// url_path, full_url)`.
pub open spec fn paths_view(p: PagePaths) -> (Seq<char>, (Seq<char>, Seq<char>, Seq<char>, Seq<char>)) {
    (p.source@, (p.relative@, p.html@, p.url_path@, p.full_url@))
}

pub(crate) fn trim_end_slashes_exec(v: &[char]) -> (r: Vec<char>)
    ensures
        r@ == trim_end_slashes(v@),
{
    let mut n = v.len();
    assert(v@.subrange(0, n as int) =~= v@);
    while n > 0 && v[n - 1] == '/'
        invariant
            n <= v@.len(),
            trim_end_slashes(v@) == trim_end_slashes(v@.subrange(0, n as int)),
        decreases n,
    {
        assert(v@.subrange(0, n as int).drop_last() =~= v@.subrange(0, n - 1));
        n = n - 1;
    }
    slice_vec(v, 0, n)
}

impl PagePaths {
    /// Computes the paths of a page from its source `.typ` file inside the
    /// content directory.
    pub fn from_source(source: String, config: &SiteConfig) -> (r: Result<PagePaths, Error>)
        ensures
            path_stripped(source@, config.build.content@) is None ==> r == Err::<PagePaths, Error>(
                Error::NotInContent(source),
            ),
            path_stripped(source@, config.build.content@) matches Some(rel) ==> {
                &&& !has_suffix(rel, ".typ"@) ==> r == Err::<PagePaths, Error>(
                    Error::NotTypFile(source),
                )
                &&& has_suffix(rel, ".typ"@) ==> {
                    let relative = rel.subrange(0, rel.len() - 4);
                    let html = page_html(relative, *config);
                    &&& path_stripped(html, config.build.output@) is None ==> r is Err
                    &&& path_stripped(html, config.build.output@) matches Some(out_rel) ==> r matches Ok(p) && {
                        let url_path = pretty_url(url_of_relative(out_rel));
                        &&& p.source@ == source@
                        &&& p.relative@ == relative
                        &&& p.html@ == html
                        &&& p.url_path@ == url_path
                        &&& p.full_url@ == base_url_of(*config) + url_path
                    }
                }
            },
            page_paths(source@, *config) is None <==> r is Err,
            page_paths(source@, *config) matches Some(pp) ==> r matches Ok(p) && paths_view(p) == (source@, pp),
    {
        let rel = match path::strip_prefix(source.as_str(), config.build.content.as_str()) {
            Some(rel) => rel,
            None => return Err(Error::NotInContent(source)),
        };
        let rv = to_chars(rel.as_str());
        let typ = to_chars(".typ");
        proof {
            reveal_strlit(".typ");
        }
        if !ends_with(&rv, &typ) {
            return Err(Error::NotTypFile(source));
        }
        let relative = from_chars(&slice_vec(&rv, 0, rv.len() - 4));
        let output_dir = path::join(config.build.output.as_str(), config.build.path_prefix.as_str());
        let html = if str_eq(relative.as_str(), "index") {
            path::join(output_dir.as_str(), "index.html")
        } else {
            let slugged = slugify_path(relative.as_str(), &config.build.slug);
            let dir = path::join(output_dir.as_str(), slugged.as_str());
            path::join(dir.as_str(), "index.html")
        };
        let full_path_url = match url_from_output_path(html.as_str(), config) {
            Ok(u) => u,
            Err(e) => return Err(e),
        };
        let uv = to_chars(full_path_url.as_str());
        let suffix = to_chars("/index.html");
        proof {
            reveal_strlit("/index.html");
        }
        let url_path = if ends_with(&uv, &suffix) {
            from_chars(&slice_vec(&uv, 0, uv.len() - 10))
        } else {
            full_path_url
        };
        let mut full: Vec<char> = match &config.base.url {
            Some(u) => trim_end_slashes_exec(&to_chars(u.as_str())),
            None => Vec::new(),
        };
        push_all(&mut full, &to_chars(url_path.as_str()));
        let full_url = from_chars(&full);
        Ok(PagePaths { source, html, relative, url_path, full_url })
    }
}

// =============================================================================
// Weekdays
// =============================================================================

/// Days from the first of January to the first of `month` in a common year.
spec fn common_days_before(month: int) -> int {
    if month <= 1 { 0 } else if month == 2 { 31 } else if month == 3 { 59 } else if month == 4 { 90 }
    else if month == 5 { 120 } else if month == 6 { 151 } else if month == 7 { 181 } else if month == 8 { 212 }
    else if month == 9 { 243 } else if month == 10 { 273 } else if month == 11 { 304 } else { 334 }
}

proof fn lemma_days_before_month(year: int, month: int)
    requires
        1 <= month <= 12,
    ensures
        days_before_month(year, month) == common_days_before(month) + if month > 2 && is_leap(year) { 1int } else { 0int },
{
    reveal_with_fuel(days_before_month, 13);
}

/// The leap years before `year` (the year 0 counted) and `year` itself
/// together are the leap years up to `year`.
proof fn lemma_leap_count(year: int)
    requires
        year >= 0,
    ensures
        (year + 3) / 4 - (year + 99) / 100 + (year + 399) / 400 + (if is_leap(year) { 1int } else { 0int })
            == year / 4 - year / 100 + year / 400 + 1,
{
    assert(year == 4 * (year / 4) + year % 4);
    assert(year == 100 * (year / 100) + year % 100);
    assert(year == 400 * (year / 400) + year % 400);
    if year % 4 == 0 {
        assert((year + 3) / 4 == year / 4);
    } else {
        assert((year + 3) / 4 == year / 4 + 1);
    }
    if year % 100 == 0 {
        assert((year + 99) / 100 == year / 100);
    } else {
        assert((year + 99) / 100 == year / 100 + 1);
    }
    if year % 400 == 0 {
        assert((year + 399) / 400 == year / 400);
    } else {
        assert((year + 399) / 400 == year / 400 + 1);
    }
    if year % 100 == 0 {
        assert(year % 4 == 0);
    }
    if year % 400 == 0 {
        assert(year % 100 == 0);
    }
}

/// The month term of Zeller's congruence (January and February counted as
/// months 13 and 14).
spec fn zeller_month_term(month: int) -> int {
    if month < 3 { (13 * (month + 13)) / 5 } else { (13 * (month + 1)) / 5 }
}

/// What separates the month term from the days before the month, in weeks.
spec fn month_weeks(month: int) -> int {
    if month == 1 { -102742 } else if month == 2 { -102738 } else if month == 3 { -102782 }
    else if month == 4 { -102778 } else if month == 5 { -102774 } else if month == 6 { -102770 }
    else if month == 7 { -102766 } else if month == 8 { -102762 } else if month == 9 { -102758 }
    else if month == 10 { -102754 } else if month == 11 { -102750 } else { -102746 }
}

proof fn lemma_month_table(month: int)
    requires
        1 <= month <= 12,
    ensures
        month < 3 ==> common_days_before(month) + 365 + 1 + 4 - 719528 - zeller_month_term(month) == 7 * month_weeks(month),
        month >= 3 ==> common_days_before(month) + 1 + 4 - 719528 - zeller_month_term(month) == 7 * month_weeks(month),
{
}

proof fn lemma_weekday_linear(year: int, month: int, day: int)
    requires
        year >= 1,
        1 <= month <= 12,
    ensures
        days_from_civil(year, month, day) + 5 == (if month < 3 {
            day + zeller_month_term(month) + (year - 1) + (year - 1) / 4 - (year - 1) / 100 + (year - 1) / 400
        } else {
            day + zeller_month_term(month) + year + year / 4 - year / 100 + year / 400
        }) + 7 * ((if month < 3 { 52 * (year - 1) } else { 52 * year }) + month_weeks(month)),
{
    lemma_days_before_month(year, month);
    lemma_leap_count(year);
    lemma_month_table(month);
    let y1 = year - 1;
    assert((year + 3) / 4 == y1 / 4 + 1);
    assert((year + 99) / 100 == y1 / 100 + 1);
    assert((year + 399) / 400 == y1 / 400 + 1);
}

/// The weekday that `zeller` gives is the real day of the week: 1970-01-01,
/// day number 0, was a Thursday (index 5, counting from Saturday), and each
/// following day moves one weekday on. Year 0 is left out in January and
/// February, where the truncating division of the congruence (as the date
/// formatting computes it) does not follow the calendar.
pub proof fn law_weekday_of_day_number(year: int, month: int, day: int, n: int)
    requires
        year >= 1,
        is_date_of_day(year, month, day, n),
    ensures
        zeller(year, month, day) == (n + 5) % 7,
{
    lemma_weekday_linear(year, month, day);
    let y = if month < 3 { year - 1 } else { year };
    assert(y >= 0);
    let arg = day + zeller_month_term(month) + y + y / 4 - y / 100 + y / 400;
    assert(zeller(year, month, day) == arg % 7);
    let k = (if month < 3 { 52 * (year - 1) } else { 52 * year }) + month_weeks(month);
    assert(n + 5 == 7 * k + arg);
    vstd::arithmetic::div_mod::lemma_mod_multiples_vanish(k, arg, 7);
}

/// The date formatting writes the real day of the week: for a valid date
/// whose day number is `n`, the text starts with the name of weekday
/// `(n + 5) mod 7` counting from Saturday (1970-01-01 was a Thursday).
pub proof fn law_rfc2822_weekday(dt: DateTimeUtc, n: int)
    requires
        is_valid_date(dt),
        dt.year >= 1,
        is_date_of_day(dt.year as int, dt.month as int, dt.day as int, n),
    ensures
        has_prefix(rfc2822(dt), weekday_spec((n + 5) % 7)),
{
    law_weekday_of_day_number(dt.year as int, dt.month as int, dt.day as int, n);
    let w = weekday_spec((n + 5) % 7);
    let t = rfc2822(dt);
    assert(t == w + (t.subrange(w.len() as int, t.len() as int))) by {
        assert(t.subrange(0, w.len() as int) =~= w);
        assert(t =~= w + t.subrange(w.len() as int, t.len() as int));
    }
    assert(t.subrange(0, w.len() as int) =~= w);
}

} // verus!
