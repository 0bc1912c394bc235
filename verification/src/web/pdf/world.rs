//! Files and dates for server-side PDF rendering.

use crate::text::{
    concat_strs, law_prefix_comes_first, starts_with, starts_with_str, strip_prefix_str,
};
use crate::text_map::TextMap;
use vstd::prelude::*;

verus! {

broadcast use vstd::string::group_string_axioms;

/// Where a file that a template names comes from.
pub enum FileSource {
    /// The data that the template is rendered with.
    Data,
    /// A QR code of the text.
    Qr(String),
    /// An EAN bar code of the number.
    Ean(String),
    /// The resource at the address.
    Https(String),
    /// A file below the base directory.
    Local(String),
}

/// Where a file that a template names comes from.
pub enum FileSourceView {
    Data,
    Qr(Seq<char>),
    Ean(Seq<char>),
    Https(Seq<char>),
    Local(Seq<char>),
}

impl View for FileSource {
    type V = FileSourceView;

    open spec fn view(&self) -> FileSourceView {
        match self {
            FileSource::Data => FileSourceView::Data,
            FileSource::Qr(text) => FileSourceView::Qr(text@),
            FileSource::Ean(code) => FileSourceView::Ean(code@),
            FileSource::Https(url) => FileSourceView::Https(url@),
            FileSource::Local(path) => FileSourceView::Local(path@),
        }
    }
}

/// What follows a prefix.
pub open spec fn rest_after(path: Seq<char>, prefix: Seq<char>) -> Seq<char> {
    path.skip(prefix.len() as int)
}

/// Where the file of the given path comes from, by the prefix of the path: the path starts with a
/// slash. Other paths lie below the base directory, where there is one.
pub open spec fn source_of(path: Seq<char>, has_base: bool) -> Result<FileSourceView, Seq<char>> {
    if starts_with(path, "/data:"@) {
        Ok(FileSourceView::Data)
    } else if starts_with(path, "/qr:/"@) {
        Ok(FileSourceView::Qr(rest_after(path, "/qr:/"@)))
    } else if starts_with(path, "/ean:/"@) {
        Ok(FileSourceView::Ean(rest_after(path, "/ean:/"@)))
    } else if starts_with(path, "/https:"@) {
        Ok(FileSourceView::Https("https:"@ + rest_after(path, "/https:"@)))
    } else if has_base {
        Ok(
            FileSourceView::Local(
                if starts_with(path, "/"@) {
                    rest_after(path, "/"@)
                } else {
                    path
                },
            ),
        )
    } else {
        Err("cannot resolve path: "@ + path)
    }
}

/// Resolves a file based on its virtual path prefix.
pub fn resolve_file(path: &str, has_base: bool) -> (r: Result<FileSource, String>)
    ensures
        match (r, source_of(path@, has_base)) {
            (Ok(source), Ok(exact)) => source@ == exact,
            (Err(err), Err(exact)) => err@ == exact,
            _ => false,
        },
{
    if starts_with_str(path, "/data:") {
        Ok(FileSource::Data)
    } else if let Some(text) = strip_prefix_str(path, "/qr:/") {
        Ok(FileSource::Qr(text.to_owned()))
    } else if let Some(code) = strip_prefix_str(path, "/ean:/") {
        Ok(FileSource::Ean(code.to_owned()))
    } else if let Some(rest) = strip_prefix_str(path, "/https:") {
        Ok(FileSource::Https(concat_strs("https:", rest)))
    } else if has_base {
        match strip_prefix_str(path, "/") {
            Some(rootless) => Ok(FileSource::Local(rootless.to_owned())),
            None => Ok(FileSource::Local(path.to_owned())),
        }
    } else {
        Err(concat_strs("cannot resolve path: ", path))
    }
}

/// The files that were resolved for one rendering, by their path.
pub struct FileCache<B> {
    files: TextMap<B>,
}

impl<B> View for FileCache<B> {
    type V = Map<Seq<char>, B>;

    closed spec fn view(&self) -> Map<Seq<char>, B> {
        self.files@
    }
}

impl<B> FileCache<B> {
    /// An empty cache.
    pub fn new() -> (r: FileCache<B>)
        ensures
            r@ == Map::<Seq<char>, B>::empty(),
    {
        FileCache { files: TextMap::new() }
    }

    /// The file of the given path, where it has been resolved before.
    pub fn get(&self, path: &str) -> (r: Option<&B>)
        ensures
            match r {
                Some(bytes) => self@.dom().contains(path@) && self@[path@] == *bytes,
                None => !self@.dom().contains(path@),
            },
    {
        self.files.get(path)
    }

    /// Keeps a file that was resolved. One that could not be resolved is not kept, so that it is
    /// tried again.
    pub fn keep(&mut self, path: &str, result: Result<B, String>)
        ensures
            final(self)@ == match result {
                Ok(bytes) => old(self)@.insert(path@, bytes),
                Err(_) => old(self)@,
            },
    {
        if let Ok(bytes) = result {
            self.files.insert(path.to_owned(), bytes);
        }
    }
}

/// The number in 64 bits that is nearest to `n`.
pub open spec fn saturated(n: int) -> int {
    if n > i64::MAX {
        i64::MAX as int
    } else if n < i64::MIN {
        i64::MIN as int
    } else {
        n
    }
}

/// Whether a number fits 64 bits.
pub open spec fn fits(n: int) -> bool {
    i64::MIN <= n <= i64::MAX
}

fn saturate(n: i128) -> (r: i64)
    ensures
        r == saturated(n as int),
{
    if n > 0x7fff_ffff_ffff_ffff {
        0x7fff_ffff_ffff_ffff
    } else if n < -0x8000_0000_0000_0000 {
        -0x8000_0000_0000_0000
    } else {
        n as i64
    }
}

/// The seconds of an offset given in weeks, days, hours, minutes and seconds. Each product and each
/// sum is kept within 64 bits.
pub open spec fn offset_seconds(
    weeks: int,
    days: int,
    hours: int,
    minutes: int,
    seconds: int,
) -> int {
    saturated(
        saturated(
            saturated(saturated(seconds + saturated(minutes * 60)) + saturated(hours * 3600))
                + saturated(days * 86_400),
        ) + saturated(weeks * 604_800),
    )
}

/// Recombines the components of an offset into seconds.
pub fn total_seconds(weeks: i64, days: i64, hours: i64, minutes: i64, seconds: i64) -> (r: i64)
    ensures
        r == offset_seconds(
            weeks as int,
            days as int,
            hours as int,
            minutes as int,
            seconds as int,
        ),
{
    let r: i64 = saturate(seconds as i128 + saturate(minutes as i128 * 60) as i128);
    let r: i64 = saturate(r as i128 + saturate(hours as i128 * 3600) as i128);
    let r: i64 = saturate(r as i128 + saturate(days as i128 * 86_400) as i128);
    saturate(r as i128 + saturate(weeks as i128 * 604_800) as i128)
}

/// Where nothing is cut off, the seconds of an offset are those of its components together.
pub proof fn law_offset_is_exact_within_bounds(
    weeks: int,
    days: int,
    hours: int,
    minutes: int,
    seconds: int,
)
    requires
        fits(minutes * 60),
        fits(hours * 3600),
        fits(days * 86_400),
        fits(weeks * 604_800),
        fits(seconds + minutes * 60),
        fits(seconds + minutes * 60 + hours * 3600),
        fits(seconds + minutes * 60 + hours * 3600 + days * 86_400),
        fits(seconds + minutes * 60 + hours * 3600 + days * 86_400 + weeks * 604_800),
    ensures
        offset_seconds(weeks, days, hours, minutes, seconds) == weeks * 604_800 + days * 86_400
            + hours * 3600 + minutes * 60 + seconds,
{
}

/// A moment of the calendar.
#[derive(Clone, Copy, Debug, PartialEq, Eq, Structural)]
pub struct Moment {
    pub year: i32,
    pub month: u32,
    pub day: u32,
    pub hour: u32,
    pub minute: u32,
    pub second: u32,
}

/// Whether a year of the Gregorian calendar has 366 days.
pub open spec fn is_leap_year(year: int) -> bool {
    year % 4 == 0 && (year % 100 != 0 || year % 400 == 0)
}

/// The days of a month.
pub open spec fn days_of_month(year: int, month: int) -> int {
    if month == 2 {
        if is_leap_year(year) {
            29
        } else {
            28
        }
    } else if month == 4 || month == 6 || month == 9 || month == 11 {
        30
    } else {
        31
    }
}

/// The days of a year before the given month.
pub open spec fn days_before_month(year: int, month: int) -> int
    decreases month,
{
    if month <= 1 {
        0
    } else {
        days_before_month(year, month - 1) + days_of_month(year, month - 1)
    }
}

/// The days from the first day of the year one to that of the given year.
pub open spec fn days_before_year(year: int) -> int {
    let past = year - 1;
    365 * past + past / 4 - past / 100 + past / 400
}

/// The days from the epoch, the first day of the year 1970, to the given day.
pub open spec fn days_since_epoch(year: int, month: int, day: int) -> int {
    days_before_year(year) + days_before_month(year, month) + (day - 1) - days_before_year(1970)
}

/// Whether `m` is the moment in UTC that lies the given number of seconds after the epoch.
pub open spec fn is_moment_at(m: Moment, seconds: int) -> bool {
    &&& 1 <= m.month <= 12
    &&& 1 <= m.day <= days_of_month(m.year as int, m.month as int)
    &&& m.hour <= 23
    &&& m.minute <= 59
    &&& m.second <= 59
    &&& seconds == days_since_epoch(m.year as int, m.month as int, m.day as int) * 86_400 + m.hour
        * 3600 + m.minute * 60 + m.second
}

/// Whether the calendar reaches a point in time, given in seconds since the epoch: it goes from the
/// first day of the year -262143 to the last day of the year 262142.
pub open spec fn in_calendar(seconds: int) -> bool {
    days_since_epoch(-262_143, 1, 1) * 86_400 <= seconds < days_since_epoch(262_143, 1, 1) * 86_400
}

/// chrono's `DateTime::from_timestamp`, `Duration::try_seconds` and
/// `NaiveDateTime::checked_add_signed`: the moment of the Gregorian calendar that lies the offset
/// after the timestamp, where the calendar reaches both.
#[verifier::external_body]
fn shifted_moment(timestamp: i64, offset: i64) -> (r: Option<Moment>)
    ensures
        match r {
            Some(m) => {
                &&& in_calendar(timestamp as int)
                &&& in_calendar(timestamp + offset)
                &&& is_moment_at(m, timestamp + offset)
            },
            None => !(in_calendar(timestamp as int) && in_calendar(timestamp + offset)),
        },
{
    let now = chrono::DateTime::from_timestamp(timestamp, 0)?.naive_utc();
    let naive = now.checked_add_signed(chrono::Duration::try_seconds(offset)?)?;
    Some(Moment {
        year: chrono::Datelike::year(&naive),
        month: chrono::Datelike::month(&naive),
        day: chrono::Datelike::day(&naive),
        hour: chrono::Timelike::hour(&naive),
        minute: chrono::Timelike::minute(&naive),
        second: chrono::Timelike::second(&naive),
    })
}

/// The moment that is `offset` seconds from now in UTC, where the calendar reaches so far, or where
/// no offset is given the local moment.
pub fn today(
    timestamp: i64,
    local: Moment,
    offset: Option<(i64, i64, i64, i64, i64)>,
) -> (r: Option<Moment>)
    ensures
        match offset {
            Some((weeks, days, hours, minutes, seconds)) => {
                let total = offset_seconds(
                    weeks as int,
                    days as int,
                    hours as int,
                    minutes as int,
                    seconds as int,
                );
                &&& r is Some <==> in_calendar(timestamp as int) && in_calendar(timestamp + total)
                &&& r is Some ==> is_moment_at(r->0, timestamp + total)
            },
            None => r == Some(local),
        },
{
    match offset {
        Some((weeks, days, hours, minutes, seconds)) => {
            let total: i64 = total_seconds(weeks, days, hours, minutes, seconds);
            shifted_moment(timestamp, total)
        },
        None => Some(local),
    }
}

spec fn year_length(year: int) -> int {
    if is_leap_year(year) {
        366
    } else {
        365
    }
}

proof fn lemma_next_quotient(n: int, d: int)
    requires
        d > 0,
    ensures
        (n + 1) / d == n / d + if (n + 1) % d == 0 {
            1int
        } else {
            0
        },
{
    let q = n / d;
    let r = n % d;
    vstd::arithmetic::div_mod::lemma_fundamental_div_mod(n, d);
    vstd::arithmetic::div_mod::lemma_mod_bound(n, d);
    if r + 1 == d {
        assert(n + 1 == d * (q + 1)) by (nonlinear_arith)
            requires
                n == d * q + r,
                r + 1 == d,
        ;
        assert(n + 1 == (q + 1) * d + 0) by (nonlinear_arith)
            requires
                n + 1 == d * (q + 1),
        ;
        vstd::arithmetic::div_mod::lemma_fundamental_div_mod_converse(n + 1, d, q + 1, 0);
    } else {
        assert(n + 1 == q * d + (r + 1)) by (nonlinear_arith)
            requires
                n == d * q + r,
        ;
        vstd::arithmetic::div_mod::lemma_fundamental_div_mod_converse(n + 1, d, q, r + 1);
    }
}

proof fn lemma_leap_cycles(year: int)
    ensures
        year % 100 == 0 ==> year % 4 == 0,
        year % 400 == 0 ==> year % 100 == 0,
{
}

proof fn lemma_next_year(year: int)
    ensures
        days_before_year(year + 1) == days_before_year(year) + year_length(year),
{
    lemma_next_quotient(year - 1, 4);
    lemma_next_quotient(year - 1, 100);
    lemma_next_quotient(year - 1, 400);
    lemma_leap_cycles(year);
}

proof fn lemma_years_ascend(a: int, b: int)
    requires
        a < b,
    ensures
        days_before_year(a) + year_length(a) <= days_before_year(b),
    decreases b - a,
{
    lemma_next_year(a);
    if a + 1 < b {
        lemma_years_ascend(a + 1, b);
    }
}

proof fn lemma_months_ascend(year: int, a: int, b: int)
    requires
        1 <= a < b,
    ensures
        days_before_month(year, a) + days_of_month(year, a) <= days_before_month(year, b),
    decreases b - a,
{
    if a + 1 < b {
        lemma_months_ascend(year, a, b - 1);
    }
}

proof fn lemma_day_within_year(year: int, month: int, day: int)
    requires
        1 <= month <= 12,
        1 <= day <= days_of_month(year, month),
    ensures
        0 <= days_before_month(year, month) + (day - 1) < year_length(year),
{
    reveal_with_fuel(days_before_month, 14);
    assert(days_before_month(year, 13) == year_length(year));
    lemma_months_ascend(year, month, 13);
}

proof fn lemma_day_is_determined(a: Moment, b: Moment)
    requires
        1 <= a.month <= 12,
        1 <= b.month <= 12,
        1 <= a.day <= days_of_month(a.year as int, a.month as int),
        1 <= b.day <= days_of_month(b.year as int, b.month as int),
        days_since_epoch(a.year as int, a.month as int, a.day as int) == days_since_epoch(
            b.year as int,
            b.month as int,
            b.day as int,
        ),
    ensures
        a.year == b.year && a.month == b.month && a.day == b.day,
{
    lemma_day_within_year(a.year as int, a.month as int, a.day as int);
    lemma_day_within_year(b.year as int, b.month as int, b.day as int);
    if a.year < b.year {
        lemma_years_ascend(a.year as int, b.year as int);
    } else if b.year < a.year {
        lemma_years_ascend(b.year as int, a.year as int);
    } else if a.month < b.month {
        lemma_months_ascend(a.year as int, a.month as int, b.month as int);
    } else if b.month < a.month {
        lemma_months_ascend(a.year as int, b.month as int, a.month as int);
    }
}

/// A point in time is one moment of the calendar and no other.
pub proof fn law_moment_is_determined(a: Moment, b: Moment, seconds: int)
    requires
        is_moment_at(a, seconds),
        is_moment_at(b, seconds),
    ensures
        a == b,
{
    let x = days_since_epoch(a.year as int, a.month as int, a.day as int);
    let y = days_since_epoch(b.year as int, b.month as int, b.day as int);
    assert(x == y);
    lemma_day_is_determined(a, b);
}

/// What stands behind the name of a scheme is what the scheme is asked for: nothing for the data, the
/// text of a QR code, the number of a bar code, or an address that starts with `https:`.
pub proof fn law_schemes_are_told_apart(
    path: &str,
    has_base: bool,
    r: Result<FileSource, String>,
    rest: Seq<char>,
)
    requires
        call_ensures(resolve_file, (path, has_base), r),
    ensures
        path@ == "/data:"@ + rest ==> r is Ok && r->Ok_0@ == FileSourceView::Data,
        path@ == "/qr:/"@ + rest ==> r is Ok && r->Ok_0@ == FileSourceView::Qr(rest),
        path@ == "/ean:/"@ + rest ==> r is Ok && r->Ok_0@ == FileSourceView::Ean(rest),
        path@ == "/https:"@ + rest ==> r is Ok && r->Ok_0@ == FileSourceView::Https(
            "https:"@ + rest,
        ),
{
    reveal_strlit("/data:");
    reveal_strlit("/qr:/");
    reveal_strlit("/ean:/");
    reveal_strlit("/https:");
    let p = path@;
    if p == "/data:"@ + rest {
        law_prefix_comes_first(p, "/data:"@, rest);
    }
    if p == "/qr:/"@ + rest {
        lemma_other_scheme(p, "/data:"@, 1);
        law_prefix_comes_first(p, "/qr:/"@, rest);
        assert(p.skip(5) =~= rest);
    }
    if p == "/ean:/"@ + rest {
        lemma_other_scheme(p, "/data:"@, 1);
        lemma_other_scheme(p, "/qr:/"@, 1);
        law_prefix_comes_first(p, "/ean:/"@, rest);
        assert(p.skip(6) =~= rest);
    }
    if p == "/https:"@ + rest {
        lemma_other_scheme(p, "/data:"@, 1);
        lemma_other_scheme(p, "/qr:/"@, 1);
        lemma_other_scheme(p, "/ean:/"@, 1);
        law_prefix_comes_first(p, "/https:"@, rest);
        assert(p.skip(7) =~= rest);
    }
}

proof fn lemma_other_scheme(path: Seq<char>, prefix: Seq<char>, i: int)
    requires
        0 <= i < path.len(),
        i < prefix.len(),
        path[i] != prefix[i],
    ensures
        !starts_with(path, prefix),
{
    if starts_with(path, prefix) {
        assert(path.subrange(0, prefix.len() as int)[i] == path[i]);
    }
}

/// Any other path names a file below the base directory, without the slash that it starts with; where
/// there is no base directory, it names nothing.
pub proof fn law_other_paths_are_local(
    path: &str,
    has_base: bool,
    r: Result<FileSource, String>,
    rest: Seq<char>,
)
    requires
        call_ensures(resolve_file, (path, has_base), r),
        path@ == seq!['/'] + rest,
        !starts_with(path@, "/data:"@),
        !starts_with(path@, "/qr:/"@),
        !starts_with(path@, "/ean:/"@),
        !starts_with(path@, "/https:"@),
    ensures
        has_base ==> r is Ok && r->Ok_0@ == FileSourceView::Local(rest),
        !has_base ==> r is Err,
{
    reveal_strlit("/");
    assert("/"@ =~= seq!['/']);
    law_prefix_comes_first(path@, "/"@, rest);
    assert(path@.skip(1) =~= rest);
}

/// A file that was resolved is found again under its path, and one that could not be resolved is not
/// kept; the files under other paths stay.
pub proof fn law_resolved_files_are_kept<B>(
    cache: &mut FileCache<B>,
    path: &str,
    result: Result<B, String>,
    other: Seq<char>,
)
    requires
        call_ensures(FileCache::<B>::keep, (cache, path, result), ()),
        other != path@,
    ensures
        result is Ok ==> final(cache)@.dom().contains(path@) && final(cache)@[path@]
            == result->Ok_0,
        result is Err ==> final(cache)@ == old(cache)@,
        final(cache)@.dom().contains(other) <==> old(cache)@.dom().contains(other),
        old(cache)@.dom().contains(other) ==> final(cache)@[other] == old(cache)@[other],
{
}

/// An offset is never outside of 64 bits, and adding to a component never makes it smaller.
pub proof fn law_offsets_grow_with_their_components(
    weeks: int,
    days: int,
    hours: int,
    minutes: int,
    seconds: int,
    more: nat,
)
    ensures
        fits(offset_seconds(weeks, days, hours, minutes, seconds)),
        offset_seconds(weeks, days, hours, minutes, seconds) <= offset_seconds(
            weeks + more,
            days,
            hours,
            minutes,
            seconds,
        ),
        offset_seconds(weeks, days, hours, minutes, seconds) <= offset_seconds(
            weeks,
            days + more,
            hours,
            minutes,
            seconds,
        ),
        offset_seconds(weeks, days, hours, minutes, seconds) <= offset_seconds(
            weeks,
            days,
            hours + more,
            minutes,
            seconds,
        ),
        offset_seconds(weeks, days, hours, minutes, seconds) <= offset_seconds(
            weeks,
            days,
            hours,
            minutes + more,
            seconds,
        ),
        offset_seconds(weeks, days, hours, minutes, seconds) <= offset_seconds(
            weeks,
            days,
            hours,
            minutes,
            seconds + more,
        ),
{
}

/// Without an offset the moment is the local one; with one, it is the moment in UTC that lies so many
/// seconds after the present.
pub proof fn law_moments_are_shifted(
    timestamp: i64,
    local: Moment,
    weeks: i64,
    days: i64,
    hours: i64,
    minutes: i64,
    seconds: i64,
    plain: Option<Moment>,
    shifted: Option<Moment>,
)
    requires
        call_ensures(today, (timestamp, local, None), plain),
        call_ensures(
            today,
            (timestamp, local, Some((weeks, days, hours, minutes, seconds))),
            shifted,
        ),
        fits(minutes * 60),
        fits(hours * 3600),
        fits(days * 86_400),
        fits(weeks * 604_800),
        fits(seconds + minutes * 60),
        fits(seconds + minutes * 60 + hours * 3600),
        fits(seconds + minutes * 60 + hours * 3600 + days * 86_400),
        fits(seconds + minutes * 60 + hours * 3600 + days * 86_400 + weeks * 604_800),
    ensures
        plain == Some(local),
        ({
            let then = timestamp + weeks * 604_800 + days * 86_400 + hours * 3600 + minutes * 60
                + seconds;
            &&& shifted is Some <==> in_calendar(timestamp as int) && in_calendar(then)
            &&& shifted is Some ==> is_moment_at(shifted->0, then)
        }),
{
}

/// The calendar goes on day by day: from one day of a month to the next, from the last day of a month
/// to the first of the next month, and from the last day of a year to the first of the next year. The
/// first day of 1970 is day zero.
pub proof fn law_days_follow_each_other(year: int, month: int, day: int)
    requires
        1 <= month <= 12,
    ensures
        days_since_epoch(1970, 1, 1) == 0,
        days_since_epoch(year, month, day + 1) == days_since_epoch(year, month, day) + 1,
        month < 12 ==> days_since_epoch(year, month + 1, 1) == days_since_epoch(
            year,
            month,
            days_of_month(year, month),
        ) + 1,
        days_since_epoch(year + 1, 1, 1) == days_since_epoch(year, 12, 31) + 1,
{
    reveal_with_fuel(days_before_month, 14);
    lemma_next_year(year);
    assert(days_before_month(year, 13) == year_length(year));
}

/// An offset that is too great for 64 bits is the greatest that fits, and one that is too small the
/// least.
pub proof fn law_offsets_are_kept_within_bounds(
    weeks: i64,
    days: i64,
    hours: i64,
    minutes: i64,
    seconds: i64,
    r: i64,
)
    requires
        call_ensures(total_seconds, (weeks, days, hours, minutes, seconds), r),
    ensures
        ({
            let sum = weeks * 604_800 + days * 86_400 + hours * 3600 + minutes * 60 + seconds;
            &&& weeks >= 0 && days >= 0 && hours >= 0 && minutes >= 0 && seconds >= 0 ==> r == if sum
                > i64::MAX {
                i64::MAX as int
            } else {
                sum
            }
            &&& weeks <= 0 && days <= 0 && hours <= 0 && minutes <= 0 && seconds <= 0 ==> r == if sum
                < i64::MIN {
                i64::MIN as int
            } else {
                sum
            }
        }),
{
}

/// A file is found exactly if it has been resolved.
pub proof fn law_files_are_found_again<B>(
    empty: FileCache<B>,
    cache: &FileCache<B>,
    path: &str,
    r: Option<&B>,
)
    requires
        call_ensures(FileCache::<B>::new, (), empty),
        call_ensures(FileCache::<B>::get, (cache, path), r),
    ensures
        !empty@.dom().contains(path@),
        r is Some <==> cache@.dom().contains(path@),
        r is Some ==> *r->0 == cache@[path@],
{
}

/// A source of a file is what it is made of.
pub proof fn law_file_sources_are_what_they_are_made_of(text: String)
    ensures
        FileSource::Data@ == FileSourceView::Data,
        FileSource::Qr(text)@ == FileSourceView::Qr(text@),
        FileSource::Ean(text)@ == FileSourceView::Ean(text@),
        FileSource::Https(text)@ == FileSourceView::Https(text@),
        FileSource::Local(text)@ == FileSourceView::Local(text@),
{
}

} // verus!
