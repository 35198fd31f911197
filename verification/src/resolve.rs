//! The resolve protocol.
//!
//! Names for installed mods come from disk. Names for anything else, and
//! dependency lists for everything, come from the persisted cache or from a
//! single Workshop page fetch triggered by an explicit user action. Nothing
//! here fetches on its own: the caller performs the fetch a step asks for and
//! hands its outcome back.

use vstd::prelude::*;
use crate::api::{items_view, ApiItemView, WalkResult};
use crate::cache::{
    cache_written, lemma_written_cache_reads_back, merge_cache, opt_text, spec_merge, texts, Cache,
    CacheEntry, CacheStatus, DepsEntry, DepsView, EntryView, StatusView,
};
use crate::json::Json;
use crate::map::{key_below, key_lt, StrMap};
use crate::mods::{text_map, Mod};
use crate::profiles::copy_strings;
use crate::scrape::{page_url, PageInfo, ScrapeError};
use crate::text::{decimal, owned, padded_decimal, push_all, push_char, zero_pad};
use crate::unicode::{lowercase, to_lowercase};

verus! {

/// Whether a year of the Gregorian calendar has a February 29.
pub open spec fn is_leap(y: int) -> bool {
    (y % 4 == 0 && y % 100 != 0) || y % 400 == 0
}

/// The number of days in a month of a year.
pub open spec fn month_len(y: int, m: int) -> int {
    if m == 2 {
        if is_leap(y) {
            29
        } else {
            28
        }
    } else if m == 4 || m == 6 || m == 9 || m == 11 {
        30
    } else {
        31
    }
}

/// The calendar day after a date given as year, month and day of the month.
pub open spec fn next_date(date: (int, int, int)) -> (int, int, int) {
    let (y, m, d) = date;
    if d < month_len(y, m) {
        (y, m, d + 1)
    } else if m < 12 {
        (y, m + 1, 1)
    } else {
        (y + 1, 1, 1)
    }
}

/// The date `n` days after 1970-01-01, counted day by day.
pub open spec fn date_after(n: nat) -> (int, int, int)
    decreases n,
{
    if n == 0 {
        (1970, 1, 1)
    } else {
        next_date(date_after((n - 1) as nat))
    }
}

/// The year (running from March 1) within a 400-year era of a day of the era.
spec fn era_year(doe: u32) -> u32 {
    ((doe - doe / 1460 + doe / 36_524 - doe / 146_096) / 365) as u32
}

/// The day of that year, March 1 being day 0.
spec fn year_day(doe: u32) -> u32 {
    (doe - (365 * era_year(doe) + era_year(doe) / 4 - era_year(doe) / 100)) as u32
}

/// One when the year of the era ends on a February 29, else zero.
spec fn leap_day(yoe: u32) -> u32 {
    if (yoe + 1) % 4 == 0 && ((yoe + 1) % 100 != 0 || yoe == 399) {
        1
    } else {
        0
    }
}

/// The month of a day of a year that runs from March 1, March being 0.
spec fn month_index(doy: u32) -> u32 {
    ((5 * doy + 2) / 153) as u32
}

/// The day of such a year on which a month (March being 0) starts.
spec fn month_start(mp: u32) -> u32 {
    ((153 * mp + 2) / 5) as u32
}

/// The month (1 to 12) of a day of a year that runs from March 1.
spec fn year_month(doy: u32) -> u32 {
    if month_index(doy) < 10 {
        (month_index(doy) + 3) as u32
    } else {
        (month_index(doy) - 9) as u32
    }
}

/// The day of the month (from 1) of a day of a year that runs from March 1.
spec fn month_day(doy: u32) -> u32 {
    (doy - month_start(month_index(doy)) + 1) as u32
}

/// The date for a count of days since 1970-01-01 by Howard Hinnant's
/// `civil_from_days`: whole 400-year eras from 0000-03-01, then the year and
/// day within the era, then the month and day within the year.
pub closed spec fn civil(days: int) -> (int, int, int) {
    let z = days + 719_468;
    let era = z / 146_097;
    let doe = (z - era * 146_097) as u32;
    let y = era * 400 + era_year(doe);
    let m = year_month(year_day(doe));
    (if m <= 2 {
        y + 1
    } else {
        y
    }, m as int, month_day(year_day(doe)) as int)
}

/// From one day of an era to the next, short of the era's last day: either
/// the next day of the same year, or the first day of the next year after a
/// year's last day (February 28, or 29 in a leap year).
#[verifier::rlimit(100)]
proof fn lemma_era_step(doe: u32)
    by (bit_vector)
    requires
        doe < 146_096,
    ensures
        year_day(doe) <= 364 + leap_day(era_year(doe)),
        year_day(doe) < 364 + leap_day(era_year(doe)) ==> era_year((doe + 1) as u32)
            == era_year(doe) && year_day((doe + 1) as u32) == year_day(doe) + 1,
        year_day(doe) == 364 + leap_day(era_year(doe)) ==> era_year((doe + 1) as u32)
            == era_year(doe) + 1 && year_day((doe + 1) as u32) == 0,
{
}

/// The first and last days of an era, and the era's bounds on the year.
proof fn lemma_era_ends(doe: u32)
    by (bit_vector)
    requires
        doe <= 146_096,
    ensures
        era_year(doe) <= 399,
        year_day(doe) <= 365,
        doe == 0 ==> era_year(doe) == 0 && year_day(doe) == 0,
        doe == 146_096 ==> era_year(doe) == 399 && year_day(doe) == 365,
{
}

/// From one day of a year that runs from March 1 to the next day of it.
#[verifier::rlimit(100)]
proof fn lemma_month_step(doy: u32)
    by (bit_vector)
    requires
        doy < 365,
    ensures
        doy == 0 ==> year_month(doy) == 3 && month_day(doy) == 1,
        doy == 364 ==> year_month(doy) == 2 && month_day(doy) == 28 && year_month(
            (doy + 1) as u32) == 2 && month_day((doy + 1) as u32) == 29,
        1 <= year_month(doy) <= 12,
        1 <= month_day(doy) <= 31,
        year_month(doy) == 2 ==> month_day(doy) + 336 == doy,
        (year_month(doy) == 2 || month_day(doy) < 30 || (month_day(doy) == 30 && year_month(doy)
            != 4 && year_month(doy) != 6 && year_month(doy) != 9 && year_month(doy) != 11))
            ==> year_month((doy + 1) as u32) == year_month(doy) && month_day((doy + 1) as u32)
            == month_day(doy) + 1,
        !(year_month(doy) == 2 || month_day(doy) < 30 || (month_day(doy) == 30 && year_month(doy)
            != 4 && year_month(doy) != 6 && year_month(doy) != 9 && year_month(doy) != 11))
            ==> month_day((doy + 1) as u32) == 1 && (year_month(doy) == 12 ==> year_month(
            (doy + 1) as u32) == 1) && (year_month(doy) < 12 ==> year_month((doy + 1) as u32)
            == year_month(doy) + 1),
{
}

/// The epoch, 1970-01-01, is day 135080 of the era that starts on
/// 1600-03-01: in year 369 of that era, January 1.
proof fn lemma_epoch_day(doe: u32)
    by (bit_vector)
    requires
        doe == 135_080,
    ensures
        era_year(doe) == 369,
        year_month(year_day(doe)) == 1,
        month_day(year_day(doe)) == 1,
{
}

/// The year of the era ends on a February 29 exactly when the calendar year
/// of that February is a leap year.
proof fn lemma_leap_in_era(era: int, yoe: u32)
    requires
        yoe <= 399,
    ensures
        (leap_day(yoe) == 1) == is_leap(era * 400 + yoe + 1),
{
    let k = yoe + 1;
    assert((era * 400 + k) % 4 == k % 4 && (era * 400 + k) % 100 == k % 100 && (era * 400 + k)
        % 400 == k % 400) by {
        vstd::arithmetic::div_mod::lemma_mod_multiples_vanish(era * 100, k, 4);
        vstd::arithmetic::div_mod::lemma_mod_multiples_vanish(era * 4, k, 100);
        vstd::arithmetic::div_mod::lemma_mod_multiples_vanish(era, k, 400);
    }
}

/// The date of the day after a day is the calendar day after its date.
proof fn lemma_civil_next(n: int)
    ensures
        civil(n + 1) == next_date(civil(n)),
{
    let z = n + 719_468;
    let era = z / 146_097;
    let doe = z - era * 146_097;
    vstd::arithmetic::div_mod::lemma_fundamental_div_mod(z, 146_097);
    assert(0 <= doe < 146_097);
    let x = doe as u32;
    lemma_era_ends(x);
    lemma_leap_in_era(era, era_year(x));
    if doe < 146_096 {
        vstd::arithmetic::div_mod::lemma_fundamental_div_mod_converse(z + 1, 146_097, era, doe + 1);
        assert((z + 1 - era * 146_097) as u32 == (x + 1) as u32);
        lemma_era_step(x);
        lemma_era_ends((x + 1) as u32);
        let doy = year_day(x);
        if doy < 364 + leap_day(era_year(x)) {
            lemma_month_step(doy);
        } else if doy == 364 {
            lemma_month_step(doy);
            lemma_month_step(0);
        } else {
            lemma_month_step(364);
            lemma_month_step(0);
        }
    } else {
        vstd::arithmetic::div_mod::lemma_fundamental_div_mod_converse(z + 1, 146_097, era + 1, 0);
        lemma_era_ends(0);
        lemma_month_step(364);
        lemma_month_step(0);
    }
}

/// Hinnant's arithmetic gives, for every day from 1970-01-01 on, the date
/// reached by counting days one by one through the Gregorian calendar.
pub proof fn lemma_civil_is_calendar(n: nat)
    ensures
        civil(n as int) == date_after(n),
    decreases n,
{
    if n == 0 {
        lemma_epoch_day(135_080);
        assert(civil(0) == (1970int, 1int, 1int));
    } else {
        lemma_civil_is_calendar((n - 1) as nat);
        lemma_civil_next(n - 1);
    }
}

/// Days since the epoch to a calendar date, by Howard Hinnant's
/// `civil_from_days`.
fn civil_from_days(days: i64) -> (r: (i64, u32, u32))
    requires
        days + 719_468 <= i64::MAX,
        days + 719_468 - 146_096 >= i64::MIN,
    ensures
        r.0 == civil(days as int).0,
        r.1 == civil(days as int).1,
        r.2 == civil(days as int).2,
        1 <= r.1 <= 12,
        1 <= r.2 <= 31,
        days >= 0 ==> r.0 >= 0,
{
    let z: i64 = days + 719_468;
    let era: i64 = if z >= 0 {
        z / 146_097
    } else {
        -((146_096 - z) / 146_097)
    };
    proof {
        let q = (146_096 - z) / 146_097;
        let s = (146_096 - z) % 146_097;
        if z < 0 {
            vstd::arithmetic::div_mod::lemma_fundamental_div_mod(146_096 - z, 146_097);
            vstd::arithmetic::div_mod::lemma_fundamental_div_mod_converse(
                z as int,
                146_097,
                -q,
                146_096 - s,
            );
        }
        vstd::arithmetic::div_mod::lemma_fundamental_div_mod(z as int, 146_097);
    }
    assert(era == (z as int) / 146_097);
    let doe: u32 = (z - era * 146_097) as u32;
    proof {
        lemma_era_ends(doe);
    }
    let yoe: u32 = (doe - doe / 1460 + doe / 36_524 - doe / 146_096) / 365;
    assert(yoe == era_year(doe));
    let y: i64 = yoe as i64 + era * 400;
    let doy: u32 = doe - (365 * yoe + yoe / 4 - yoe / 100);
    assert(doy == year_day(doe));
    proof {
        if doy < 365 {
            lemma_month_step(doy);
        } else {
            lemma_month_step(364);
        }
    }
    let mp: u32 = (5 * doy + 2) / 153;
    assert(mp == month_index(doy));
    let d: u32 = doy - (153 * mp + 2) / 5 + 1;
    assert(d == month_day(doy));
    let m: u32 = if mp < 10 {
        mp + 3
    } else {
        mp - 9
    };
    (if m <= 2 {
        y + 1
    } else {
        y
    }, m, d)
}

/// The text `YYYY-MM-DDTHH:MM:SS.000Z` of a date and a time of day.
pub open spec fn iso_fields(y: nat, m: nat, d: nat, t: nat) -> Seq<char> {
    zero_pad(decimal(y), 4) + seq!['-'] + zero_pad(decimal(m), 2) + seq!['-'] + zero_pad(
        decimal(d),
        2,
    ) + seq!['T'] + zero_pad(decimal(t / 3600), 2) + seq![':'] + zero_pad(
        decimal((t % 3600) / 60),
        2,
    ) + seq![':'] + zero_pad(decimal(t % 60), 2) + seq!['.', '0', '0', '0', 'Z']
}

/// The ISO 8601 text of a time given in seconds since the epoch, with
/// milliseconds always zero.
pub open spec fn iso_text(seconds: nat) -> Seq<char> {
    let (y, m, d) = date_after(seconds / 86_400);
    iso_fields(y as nat, m as nat, d as nat, seconds % 86_400)
}

/// ISO 8601 timestamp for a time in seconds since the epoch, in the shape
/// the cache file has always used.
pub fn format_iso(seconds: u64) -> (r: String)
    ensures
        r@ == iso_text(seconds as nat),
{
    let days: u64 = seconds / 86_400;
    let time: u64 = seconds % 86_400;
    let (year, month, day) = civil_from_days(days as i64);
    let r = iso_string(year as u64, month as u64, day as u64, time);
    proof {
        lemma_civil_is_calendar((seconds / 86_400) as nat);
    }
    assert(date_after((seconds / 86_400) as nat) == (year as int, month as int, day as int));
    r
}

fn iso_string(y: u64, m: u64, d: u64, t: u64) -> (r: String)
    ensures
        r@ == iso_fields(y as nat, m as nat, d as nat, t as nat),
{
    let mut s = padded_decimal(y, 4);
    push_char(&mut s, '-');
    push_all_string(&mut s, padded_decimal(m, 2));
    push_char(&mut s, '-');
    push_all_string(&mut s, padded_decimal(d, 2));
    push_char(&mut s, 'T');
    push_all_string(&mut s, padded_decimal(t / 3600, 2));
    push_char(&mut s, ':');
    push_all_string(&mut s, padded_decimal((t % 3600) / 60, 2));
    push_char(&mut s, ':');
    push_all_string(&mut s, padded_decimal(t % 60, 2));
    push_char(&mut s, '.');
    push_char(&mut s, '0');
    push_char(&mut s, '0');
    push_char(&mut s, '0');
    push_char(&mut s, 'Z');
    assert(s@ =~= iso_fields(y as nat, m as nat, d as nat, t as nat));
    s
}

fn push_all_string(s: &mut String, t: String)
    ensures
        final(s)@ == old(s)@ + t@,
{
    push_all(s, t.as_str());
}

/// Where a piece of knowledge came from.
#[derive(Debug, Clone, Copy, PartialEq, Eq, Structural)]
pub enum Source {
    Disk,
    Cache,
    Unknown,
}

/// Everything known about one workshop id.
#[derive(Debug, Clone, PartialEq, Eq)]
pub struct Resolved {
    pub id: String,
    /// None when nothing has resolved a name for this id yet.
    pub name: Option<String>,
    pub installed: bool,
    /// None until a fetch has told us. meta.cpp does not carry dependencies.
    pub requires: Option<Vec<String>>,
    pub source: Source,
    /// ISO timestamp behind `requires`, empty when never fetched.
    pub fetched_at: String,
}

/// What is known about one id, as values.
pub struct ResolvedView {
    pub id: Seq<char>,
    pub name: Option<Seq<char>>,
    pub installed: bool,
    pub requires: Option<Seq<Seq<char>>>,
    pub source: Source,
    pub fetched_at: Seq<char>,
}

impl Resolved {
    pub open spec fn view(&self) -> ResolvedView {
        ResolvedView {
            id: self.id@,
            name: opt_text(self.name),
            installed: self.installed,
            requires: match self.requires {
                Some(r) => Some(texts(r@)),
                None => None,
            },
            source: self.source,
            fetched_at: self.fetched_at@,
        }
    }
}

impl Resolved {
    /// A copy of the answer.
    pub fn copy(&self) -> (r: Resolved)
        ensures
            r@ == self@,
    {
        Resolved {
            id: self.id.clone(),
            name: match &self.name {
                Some(n) => Some(n.clone()),
                None => None,
            },
            installed: self.installed,
            requires: match &self.requires {
                Some(r) => Some(copy_strings(r.as_slice())),
                None => None,
            },
            source: self.source,
            fetched_at: self.fetched_at.clone(),
        }
    }
}

/// What is known about `id`: an installed mod is named by disk, with the
/// dependencies its installed record holds if any; anything else is what
/// its not-installed record says, or unknown.
pub open spec fn spec_view(
    installed: Map<Seq<char>, Mod>,
    cache: Map<Seq<char>, StatusView>,
    id: Seq<char>,
) -> ResolvedView {
    if installed.contains_key(id) {
        let deps = if cache.contains_key(id) && cache[id] is Installed {
            Some(cache[id]->Installed_0)
        } else {
            None
        };
        ResolvedView {
            id,
            name: Some(installed[id].name@),
            installed: true,
            requires: match deps {
                Some(d) => Some(d.requires),
                None => None,
            },
            source: Source::Disk,
            fetched_at: match deps {
                Some(d) => d.fetched_at,
                None => Seq::empty(),
            },
        }
    } else if cache.contains_key(id) && cache[id] is NotInstalled {
        let e = cache[id]->NotInstalled_0;
        ResolvedView {
            id,
            name: Some(e.name),
            installed: false,
            requires: e.requires,
            source: Source::Cache,
            fetched_at: e.fetched_at,
        }
    } else {
        ResolvedView {
            id,
            name: None,
            installed: false,
            requires: None,
            source: Source::Unknown,
            fetched_at: Seq::empty(),
        }
    }
}

/// Mods keyed by id, a later mod with the same id replacing an earlier one.
pub open spec fn mods_by_id(mods: Seq<Mod>) -> Map<Seq<char>, Mod>
    decreases mods.len(),
{
    if mods.len() == 0 {
        Map::empty()
    } else {
        mods_by_id(mods.drop_last()).insert(mods.last().id@, mods.last())
    }
}

/// The key mods are listed by: the name in lower case.
pub open spec fn name_key(m: Mod) -> Seq<char> {
    lowercase(m.name@)
}

/// `m` placed into `s` after every mod whose key is not above its own.
pub open spec fn insert_by_name(s: Seq<Mod>, m: Mod) -> Seq<Mod>
    decreases s.len(),
{
    if s.len() == 0 {
        seq![m]
    } else if key_lt(name_key(m), name_key(s.last())) {
        insert_by_name(s.drop_last(), m).push(s.last())
    } else {
        s.push(m)
    }
}

/// `s` in key order, mods with equal keys keeping their order in `s`.
pub open spec fn sorted_by_name(s: Seq<Mod>) -> Seq<Mod>
    decreases s.len(),
{
    if s.len() == 0 {
        s
    } else {
        insert_by_name(sorted_by_name(s.drop_last()), s.last())
    }
}

/// Inserting after every mod whose key is not above the new one's is
/// inserting at the first position from which all keys are above it.
proof fn lemma_insert_at(s: Seq<Mod>, m: Mod, p: int)
    requires
        0 <= p <= s.len(),
        forall|j: int| p <= j < s.len() ==> key_lt(name_key(m), name_key(#[trigger] s[j])),
        p > 0 ==> !key_lt(name_key(m), name_key(s[p - 1])),
    ensures
        insert_by_name(s, m) == s.insert(p, m),
    decreases s.len(),
{
    if s.len() == 0 {
        assert(s.insert(p, m) =~= seq![m]);
    } else if key_lt(name_key(m), name_key(s.last())) {
        assert(s[s.len() - 1] == s.last());
        assert(p < s.len());
        let t = s.drop_last();
        assert forall|j: int| p <= j < t.len() implies key_lt(name_key(m), name_key(#[trigger] t[j])) by {
            assert(t[j] == s[j]);
        }
        if p > 0 {
            assert(t[p - 1] == s[p - 1]);
        }
        lemma_insert_at(t, m, p);
        assert(t.insert(p, m).push(s.last()) =~= s.insert(p, m));
    } else {
        if p < s.len() {
            assert(key_lt(name_key(m), name_key(s[s.len() - 1])));
        }
        assert(s.push(m) =~= s.insert(p, m));
    }
}

/// One more element of a prefix adds exactly that element.
proof fn lemma_prefix_grows(s: Seq<Seq<char>>, i: int)
    requires
        0 <= i < s.len(),
    ensures
        forall|x: Seq<char>|
            #[trigger] s.take(i + 1).contains(x) <==> (s.take(i).contains(x) || x == s[i]),
{
    assert forall|x: Seq<char>| #[trigger] s.take(i + 1).contains(x) <==> (s.take(i).contains(x)
        || x == s[i]) by {
        if s.take(i + 1).contains(x) {
            let y = s.take(i + 1).index_of(x);
            if y < i {
                assert(s.take(i)[y] == x);
            }
        }
        if s.take(i).contains(x) {
            let y = s.take(i).index_of(x);
            assert(s.take(i + 1)[y] == x);
        }
        if x == s[i] {
            assert(s.take(i + 1)[i] == x);
        }
    }
}

/// Mods in order of their keys: no mod's key is below an earlier one's.
pub open spec fn in_name_order(s: Seq<Mod>) -> bool {
    forall|i: int, j: int|
        0 <= i < j < s.len() ==> !key_lt(name_key(#[trigger] s[j]), name_key(#[trigger] s[i]))
}

proof fn lemma_insert_by_name(s: Seq<Mod>, m: Mod)
    requires
        in_name_order(s),
    ensures
        in_name_order(insert_by_name(s, m)),
        insert_by_name(s, m).to_multiset() == s.to_multiset().insert(m),
    decreases s.len(),
{
    broadcast use vstd::seq_lib::group_to_multiset_ensures;

    if s.len() == 0 {
        assert(seq![m] =~= Seq::<Mod>::empty().push(m));
    } else {
        let last = s.last();
        let t = s.drop_last();
        assert(s =~= t.push(last));
        assert(in_name_order(t)) by {
            assert forall|i: int, j: int| 0 <= i < j < t.len() implies !key_lt(
                name_key(#[trigger] t[j]),
                name_key(#[trigger] t[i]),
            ) by {
                assert(t[i] == s[i] && t[j] == s[j]);
            }
        }
        if key_lt(name_key(m), name_key(last)) {
            lemma_insert_by_name(t, m);
            let inner = insert_by_name(t, m);
            let r = inner.push(last);
            assert forall|i: int, j: int| 0 <= i < j < r.len() implies !key_lt(
                name_key(#[trigger] r[j]),
                name_key(#[trigger] r[i]),
            ) by {
                if j == r.len() - 1 {
                    assert(r[j] == last);
                    assert(r[i] == inner[i]);
                    assert(inner.to_multiset().count(inner[i]) > 0);
                    if inner[i] == m {
                        crate::map::lemma_key_lt_asym(name_key(m), name_key(last));
                    } else {
                        assert(t.to_multiset().count(inner[i]) > 0);
                        let y = t.index_of(inner[i]);
                        assert(s[y] == t[y]);
                        assert(s[s.len() - 1] == last);
                    }
                } else {
                    assert(r[i] == inner[i] && r[j] == inner[j]);
                }
            }
        } else {
            let r = s.push(m);
            assert forall|i: int, j: int| 0 <= i < j < r.len() implies !key_lt(
                name_key(#[trigger] r[j]),
                name_key(#[trigger] r[i]),
            ) by {
                if j == r.len() - 1 {
                    assert(r[j] == m);
                    assert(r[i] == s[i]);
                    if key_lt(name_key(m), name_key(s[i])) {
                        if i < s.len() - 1 {
                            assert(!key_lt(name_key(s[s.len() - 1]), name_key(s[i])));
                            crate::map::lemma_key_lt_total(name_key(s[i]), name_key(last));
                            if name_key(s[i]) != name_key(last) {
                                crate::map::lemma_key_lt_trans(
                                    name_key(m),
                                    name_key(s[i]),
                                    name_key(last),
                                );
                            }
                        }
                    }
                } else {
                    assert(r[i] == s[i] && r[j] == s[j]);
                }
            }
        }
    }
}

/// Listing mods by name puts them in key order and keeps every one of them:
/// the result is an ordering of exactly the mods it was given.
pub proof fn lemma_sorted_by_name(s: Seq<Mod>)
    ensures
        in_name_order(sorted_by_name(s)),
        sorted_by_name(s).to_multiset() == s.to_multiset(),
        sorted_by_name(s).len() == s.len(),
    decreases s.len(),
{
    broadcast use vstd::seq_lib::group_to_multiset_ensures;

    if s.len() > 0 {
        lemma_sorted_by_name(s.drop_last());
        lemma_insert_by_name(sorted_by_name(s.drop_last()), s.last());
        assert(s =~= s.drop_last().push(s.last()));
    }
    assert(sorted_by_name(s).to_multiset().len() == sorted_by_name(s).len());
    assert(s.to_multiset().len() == s.len());
}

/// Disk owns the names of installed mods: whatever the cache holds, an
/// installed id is named, and reported installed, as its mod on disk says.
pub proof fn lemma_disk_owns_names(
    installed: Map<Seq<char>, Mod>,
    cache: Map<Seq<char>, StatusView>,
    id: Seq<char>,
)
    requires
        installed.contains_key(id),
    ensures
        spec_view(installed, cache, id).name == Some(installed[id].name@),
        spec_view(installed, cache, id).installed,
        spec_view(installed, cache, id).source == Source::Disk,
{
}

/// After a page for an id is recorded, its dependencies are known, and are
/// the page's: asking again without a refresh is answered without a fetch.
/// Records of other ids that were already known are left as they were.
pub proof fn lemma_fetch_makes_known(
    installed: Map<Seq<char>, Mod>,
    cache: Map<Seq<char>, StatusView>,
    id: Seq<char>,
    name: Option<Seq<char>>,
    reqs: Seq<Seq<char>>,
    names: Map<Seq<char>, Seq<char>>,
    fetched_at: Seq<char>,
)
    ensures
        spec_view(installed, after_fetch(installed, cache, id, name, reqs, names, fetched_at), id).requires
            == Some(reqs),
        forall|k: Seq<char>|
            k != id && #[trigger] cache.contains_key(k) ==> after_fetch(
                installed,
                cache,
                id,
                name,
                reqs,
                names,
                fetched_at,
            )[k] == cache[k],
{
}

/// The record a fetched page leaves for `id`: an installed mod keeps the
/// name disk gives it, anything else takes the page's title, or its id.
pub open spec fn fetched_record(
    installed: Map<Seq<char>, Mod>,
    id: Seq<char>,
    name: Option<Seq<char>>,
    reqs: Seq<Seq<char>>,
    fetched_at: Seq<char>,
) -> StatusView {
    if installed.contains_key(id) {
        StatusView::Installed(
            DepsView { name: Some(installed[id].name@), requires: reqs, fetched_at },
        )
    } else {
        StatusView::NotInstalled(
            EntryView {
                name: match name {
                    Some(n) => n,
                    None => id,
                },
                requires: Some(reqs),
                fetched_at,
            },
        )
    }
}

/// The knowledge after a page for `id` was fetched: its record replaced,
/// and each required item named on the page that is neither installed nor
/// known gets a record with its name alone.
pub open spec fn after_fetch(
    installed: Map<Seq<char>, Mod>,
    cache: Map<Seq<char>, StatusView>,
    id: Seq<char>,
    name: Option<Seq<char>>,
    reqs: Seq<Seq<char>>,
    names: Map<Seq<char>, Seq<char>>,
    fetched_at: Seq<char>,
) -> Map<Seq<char>, StatusView> {
    let c = cache.insert(id, fetched_record(installed, id, name, reqs, fetched_at));
    Map::new(
        |k: Seq<char>| c.contains_key(k) || (names.contains_key(k) && !installed.contains_key(k)),
        |k: Seq<char>|
            if c.contains_key(k) {
                c[k]
            } else {
                StatusView::NotInstalled(
                    EntryView { name: names[k], requires: None, fetched_at: Seq::empty() },
                )
            },
    )
}

/// The record an API answer leaves for one id.
pub open spec fn api_record(
    installed: Map<Seq<char>, Mod>,
    id: Seq<char>,
    item: ApiItemView,
    fetched_at: Seq<char>,
) -> StatusView {
    if installed.contains_key(id) {
        StatusView::Installed(
            DepsView { name: Some(installed[id].name@), requires: item.requires, fetched_at },
        )
    } else {
        StatusView::NotInstalled(
            EntryView { name: item.name, requires: Some(item.requires), fetched_at },
        )
    }
}

/// The knowledge after a walk: every item it reached recorded anew.
pub open spec fn after_walk(
    installed: Map<Seq<char>, Mod>,
    cache: Map<Seq<char>, StatusView>,
    items: Map<Seq<char>, ApiItemView>,
    fetched_at: Seq<char>,
) -> Map<Seq<char>, StatusView> {
    Map::new(
        |k: Seq<char>| cache.contains_key(k) || items.contains_key(k),
        |k: Seq<char>|
            if items.contains_key(k) {
                api_record(installed, k, items[k], fetched_at)
            } else {
                cache[k]
            },
    )
}

/// Mods by lower-case name, mods whose names agree keeping their order, as
/// a stable sort by that key leaves them.
pub fn sort_by_name(mods: Vec<Mod>) -> (r: Vec<Mod>)
    ensures
        r@ == sorted_by_name(mods@),
{
    let mut out: Vec<Mod> = Vec::new();
    let mut keys: Vec<String> = Vec::new();
    let mut i: usize = 0;
    while i < mods.len()
        invariant
            i <= mods.len(),
            out@ == sorted_by_name(mods@.take(i as int)),
            keys@.len() == out@.len(),
            forall|j: int| 0 <= j < keys@.len() ==> #[trigger] keys@[j]@ == name_key(out@[j]),
        decreases mods.len() - i,
    {
        let m = mods[i].copy();
        let key = to_lowercase(m.name.as_str());
        let mut p: usize = out.len();
        while p > 0 && key_below(key.as_str(), keys[p - 1].as_str())
            invariant
                p <= out@.len(),
                keys@.len() == out@.len(),
                forall|j: int| 0 <= j < keys@.len() ==> #[trigger] keys@[j]@ == name_key(out@[j]),
                key@ == name_key(m),
                forall|j: int| p <= j < out@.len() ==> key_lt(name_key(m), name_key(#[trigger] out@[j])),
            decreases p,
        {
            p -= 1;
        }
        proof {
            if p > 0 {
                assert(keys@[p - 1]@ == name_key(out@[p - 1]));
            }
            lemma_insert_at(out@, m, p as int);
            assert(mods@.take(i + 1).drop_last() =~= mods@.take(i as int));
            assert(mods@.take(i + 1).last() == mods@[i as int]);
        }
        let ghost before_keys = keys@;
        let ghost before_out = out@;
        out.insert(p, m);
        keys.insert(p, key);
        proof {
            assert forall|j: int| 0 <= j < keys@.len() implies #[trigger] keys@[j]@ == name_key(out@[j]) by {
                if j < p {
                    assert(keys@[j] == before_keys[j]);
                    assert(out@[j] == before_out[j]);
                } else if j > p {
                    assert(keys@[j] == before_keys[j - 1]);
                    assert(out@[j] == before_out[j - 1]);
                }
            }
        }
        i += 1;
    }
    assert(mods@.take(mods.len() as int) =~= mods@);
    out
}

/// What `Resolver::resolve` asks for: without `refresh`, and with the
/// dependencies known, the answer from what is known; otherwise a fetch of
/// the id's Workshop page.
pub open spec fn step_for(r: Resolver, id: Seq<char>, refresh: bool, step: ResolveStep) -> bool {
    let known = spec_view(r.installed_mods(), r.known(), id);
    match step {
        ResolveStep::Done(v) => !refresh && known.requires is Some && v@ == known,
        ResolveStep::Fetch(url) => (refresh || known.requires is None) && url@ == crate::scrape::PAGE@
            + id,
    }
}

/// What recording a fetch's outcome does: a failed fetch changes nothing
/// and is passed on; a page updates what is known as `after_fetch` says,
/// and the answer is what is known afterwards. Disk and the file locations
/// are untouched either way.
pub open spec fn fetch_recorded(
    before: Resolver,
    after: Resolver,
    id: Seq<char>,
    page: Result<PageInfo, ScrapeError>,
    fetched_at: Seq<char>,
    r: Result<Resolved, ScrapeError>,
) -> bool {
    &&& after.installed_mods() == before.installed_mods()
    &&& after.mods_in_id_order() == before.mods_in_id_order()
    &&& after.cache_file() == before.cache_file()
    &&& after.workshop() == before.workshop()
    &&& match page {
        Err(e) => r == Err::<Resolved, ScrapeError>(e) && after.known() == before.known(),
        Ok(info) => {
            &&& after.known() == after_fetch(
                before.installed_mods(),
                before.known(),
                id,
                opt_text(info.name),
                texts(info.requires@),
                text_map(info.required_names),
                fetched_at,
            )
            &&& r matches Ok(v) && v@ == spec_view(after.installed_mods(), after.known(), id)
        },
    }
}

/// What a call to `Resolver::resolve` asks of its caller.
#[derive(Debug, PartialEq, Eq)]
pub enum ResolveStep {
    /// The answer, from what is already known.
    Done(Resolved),
    /// Fetch this Workshop page and hand the outcome to `record_fetch`.
    Fetch(String),
}

/// Names and dependencies of workshop ids: disk first, then the cache, then
/// a page fetch that only an explicit request makes.
pub struct Resolver {
    installed: StrMap<Mod>,
    cache: Cache,
    cache_path: String,
    workshop_dir: String,
}

/// The cache agrees with disk: each installed mod is filed under its own id,
/// and an id has an installed record exactly when it is installed.
pub open spec fn agrees(installed: Map<Seq<char>, Mod>, cache: Map<Seq<char>, StatusView>) -> bool {
    &&& forall|k: Seq<char>| #[trigger] installed.contains_key(k) ==> installed[k].id@ == k
    &&& forall|k: Seq<char>|
        #[trigger] cache.contains_key(k) ==> ((cache[k] is Installed) <==> installed.contains_key(k))
}

/// Merging a file against the installed ids always gives a cache that agrees
/// with them.
proof fn lemma_merge_agrees(raw: Json, installed: Map<Seq<char>, Mod>)
    requires
        forall|k: Seq<char>| #[trigger] installed.contains_key(k) ==> installed[k].id@ == k,
    ensures
        agrees(installed, spec_merge(raw, installed.dom())),
{
}

/// An installed mod's view: installed, from disk, under its name on disk.
pub open spec fn viewed_from_disk(v: ResolvedView, m: Mod) -> bool {
    v.installed && v.source == Source::Disk && v.name == Some(m.name@)
}

/// A reordering of a map's values listed in key order, where each value
/// carries its own key as its id, holds each of the map's values exactly
/// once.
proof fn lemma_listed_once(
    m: Map<Seq<char>, Mod>,
    keys: Seq<Seq<char>>,
    vals: Seq<Mod>,
    s: Seq<Mod>,
)
    requires
        keys.len() == vals.len(),
        keys.no_duplicates(),
        m.dom().len() == keys.len(),
        forall|k: Seq<char>| #[trigger] m.contains_key(k) <==> keys.contains(k),
        forall|i: int| 0 <= i < keys.len() ==> m[#[trigger] keys[i]] == vals[i],
        forall|k: Seq<char>| #[trigger] m.contains_key(k) ==> m[k].id@ == k,
        s.to_multiset() == vals.to_multiset(),
        s.len() == vals.len(),
    ensures
        s.len() == m.dom().len(),
        forall|i: int| 0 <= i < s.len() ==> m.contains_key(#[trigger] s[i].id@) && m[s[i].id@] == s[i],
        forall|k: Seq<char>|
            #[trigger] m.contains_key(k) ==> exists|i: int| 0 <= i < s.len() && #[trigger] s[i].id@ == k,
        forall|i: int, j: int| 0 <= i < j < s.len() ==> (#[trigger] s[i]).id@ != (#[trigger] s[j]).id@,
{
    broadcast use vstd::seq_lib::group_to_multiset_ensures;

    assert forall|i: int| 0 <= i < vals.len() implies (#[trigger] vals[i]).id@ == keys[i] by {
        assert(keys.contains(keys[i]));
        assert(m.contains_key(keys[i]));
        assert(m[keys[i]] == vals[i]);
    }
    assert(vals.no_duplicates()) by {
        assert forall|i: int, j: int| 0 <= i < vals.len() && 0 <= j < vals.len() && i != j implies vals[i]
            != vals[j] by {
            assert(vals[i].id@ == keys[i] && vals[j].id@ == keys[j]);
        }
    }
    vals.lemma_multiset_has_no_duplicates();
    s.lemma_multiset_has_no_duplicates_conv();
    assert forall|i: int| 0 <= i < s.len() implies m.contains_key(#[trigger] s[i].id@) && m[s[i].id@]
        == s[i] by {
        assert(s.contains(s[i]));
        assert(s.to_multiset().count(s[i]) > 0);
        assert(vals.to_multiset().count(s[i]) > 0);
        assert(vals.contains(s[i]));
        let j = vals.index_of(s[i]);
        assert(vals[j].id@ == keys[j]);
        assert(keys.contains(keys[j]));
    }
    assert forall|k: Seq<char>| #[trigger] m.contains_key(k) implies exists|i: int|
        0 <= i < s.len() && #[trigger] s[i].id@ == k by {
        let j = keys.index_of(k);
        assert(vals[j].id@ == k);
        assert(vals.contains(vals[j]));
        assert(vals.to_multiset().count(vals[j]) > 0);
        assert(s.to_multiset().count(vals[j]) > 0);
        assert(s.contains(vals[j]));
        let i = s.index_of(vals[j]);
        assert(s[i].id@ == k);
    }
    assert forall|i: int, j: int| 0 <= i < j < s.len() implies (#[trigger] s[i]).id@ != (
    #[trigger] s[j]).id@ by {
        if s[i].id@ == s[j].id@ {
            assert(m[s[i].id@] == s[i]);
            assert(s[i] == s[j]);
        }
    }
}

impl Resolver {
    #[verifier::type_invariant]
    spec fn consistent(&self) -> bool {
        agrees(self.installed@, self.cache@)
    }

    /// The installed mods by id.
    pub closed spec fn installed_mods(&self) -> Map<Seq<char>, Mod> {
        self.installed@
    }

    /// The installed mods in id order.
    pub closed spec fn mods_in_id_order(&self) -> Seq<Mod> {
        self.installed.values()
    }

    /// What the cache knows, id by id.
    pub closed spec fn known(&self) -> Map<Seq<char>, StatusView> {
        self.cache@
    }

    /// Where the cache is kept.
    pub closed spec fn cache_file(&self) -> Seq<char> {
        self.cache_path@
    }

    /// Where installed mods are looked for.
    pub closed spec fn workshop(&self) -> Seq<char> {
        self.workshop_dir@
    }

    fn index_mods(mods: Vec<Mod>) -> (r: StrMap<Mod>)
        ensures
            r@ == mods_by_id(mods@),
            forall|k: Seq<char>| #[trigger] r@.contains_key(k) ==> r@[k].id@ == k,
    {
        let mut r: StrMap<Mod> = StrMap::new();
        let mut i: usize = 0;
        while i < mods.len()
            invariant
                i <= mods.len(),
                r@ == mods_by_id(mods@.take(i as int)),
                forall|k: Seq<char>| #[trigger] r@.contains_key(k) ==> r@[k].id@ == k,
            decreases mods.len() - i,
        {
            assert(mods@.take(i + 1).drop_last() =~= mods@.take(i as int));
            assert(mods@.take(i + 1).last() == mods@[i as int]);
            let m = mods[i].copy();
            r.insert(mods[i].id.clone(), m);
            i += 1;
        }
        assert(mods@.take(mods.len() as int) =~= mods@);
        r
    }

    fn merged(installed: &StrMap<Mod>, raw_cache: &Json) -> (c: Cache)
        ensures
            c@ == spec_merge(*raw_cache, installed@.dom()),
    {
        let ids = installed.key_list();
        let _ = installed.count();
        let c = merge_cache(raw_cache, ids.as_slice());
        proof {
            assert(texts(ids@) == ids@.map_values(|s: String| s@));
            assert(crate::cache::id_set(ids@) =~= installed@.dom()) by {
                assert forall|k: Seq<char>| #[trigger] installed@.dom().contains(k) implies texts(
                    ids@,
                ).contains(k) by {
                    assert(installed.keys().contains(k));
                }
            }
        }
        c
    }

    /// Prefill installed names from the mods found on disk, then merge the
    /// persisted cache file's contents against them.
    pub fn new(workshop_dir: String, cache_path: String, mods: Vec<Mod>, raw_cache: &Json) -> (r:
        Resolver)
        ensures
            r.installed_mods() == mods_by_id(mods@),
            r.known() == spec_merge(*raw_cache, mods_by_id(mods@).dom()),
            r.cache_file() == cache_path@,
            r.workshop() == workshop_dir@,
    {
        let installed = Resolver::index_mods(mods);
        let cache = Resolver::merged(&installed, raw_cache);
        proof {
            lemma_merge_agrees(*raw_cache, installed@);
        }
        Resolver { installed, cache, cache_path, workshop_dir }
    }

    /// Take in a fresh reading of the workshop directory and the cache file,
    /// so a mod installed or removed since startup is picked up.
    pub fn rescan(&mut self, mods: Vec<Mod>, raw_cache: &Json)
        ensures
            final(self).installed_mods() == mods_by_id(mods@),
            final(self).known() == spec_merge(*raw_cache, mods_by_id(mods@).dom()),
            final(self).cache_file() == old(self).cache_file(),
            final(self).workshop() == old(self).workshop(),
    {
        let installed = Resolver::index_mods(mods);
        let cache = Resolver::merged(&installed, raw_cache);
        proof {
            lemma_merge_agrees(*raw_cache, installed@);
        }
        let cache_path = self.cache_path.clone();
        let workshop_dir = self.workshop_dir.clone();
        *self = Resolver { installed, cache, cache_path, workshop_dir };
    }

    /// Throw away everything learned from the network. Installed mod names
    /// are unaffected, since those come from disk; the caller writes the
    /// now empty cache out so a restart does not resurrect it.
    pub fn reset_cache(&mut self)
        ensures
            final(self).known() == Map::<Seq<char>, StatusView>::empty(),
            final(self).installed_mods() == old(self).installed_mods(),
            final(self).mods_in_id_order() == old(self).mods_in_id_order(),
            final(self).cache_file() == old(self).cache_file(),
            final(self).workshop() == old(self).workshop(),
    {
        proof {
            use_type_invariant(&*self);
        }
        let mut empty = Cache::new();
        std::mem::swap(&mut empty, &mut self.cache);
    }

    /// The cache as its file holds it. Read back against the same installed
    /// mods, it gives back exactly what is known now.
    pub fn cache_json(&self) -> (j: Json)
        ensures
            cache_written(self.known(), j),
            spec_merge(j, self.installed_mods().dom()) == self.known(),
    {
        proof {
            use_type_invariant(self);
        }
        let j = self.cache.to_json();
        proof {
            lemma_written_cache_reads_back(self.cache@, j, self.installed@.dom());
        }
        j
    }

    /// Current knowledge about an id, without touching the network.
    pub fn view(&self, id: &str) -> (r: Resolved)
        ensures
            r@ == spec_view(self.installed_mods(), self.known(), id@),
    {
        if let Some(item) = self.installed.get(id) {
            let (reqs, fetched) = match self.cache.status(id) {
                Some(CacheStatus::Installed(d)) => (Some(d.requires), d.fetched_at),
                _ => (None, String::new()),
            };
            proof {
                assert(texts(Seq::<String>::empty()) =~= Seq::<Seq<char>>::empty());
            }
            return Resolved {
                id: owned(id),
                name: Some(item.name.clone()),
                installed: true,
                requires: reqs,
                source: Source::Disk,
                fetched_at: fetched,
            };
        }
        match self.cache.status(id) {
            Some(CacheStatus::NotInstalled(e)) => Resolved {
                id: owned(id),
                name: Some(e.name),
                installed: false,
                requires: e.requires,
                source: Source::Cache,
                fetched_at: e.fetched_at,
            },
            _ => Resolved {
                id: owned(id),
                name: None,
                installed: false,
                requires: None,
                source: Source::Unknown,
                fetched_at: String::new(),
            },
        }
    }

    /// Installed mods by lower-case name, mods whose names agree keeping
    /// their id order: exactly the installed mods, one per id.
    pub fn mods(&self) -> (r: Vec<Mod>)
        ensures
            r@ == sorted_by_name(self.mods_in_id_order()),
            in_name_order(r@),
            r@.len() == self.installed_mods().dom().len(),
            forall|i: int|
                0 <= i < r@.len() ==> self.installed_mods().contains_key(#[trigger] r@[i].id@)
                    && self.installed_mods()[r@[i].id@] == r@[i],
            forall|k: Seq<char>|
                #[trigger] self.installed_mods().contains_key(k) ==> exists|i: int|
                    0 <= i < r@.len() && #[trigger] r@[i].id@ == k,
            forall|i: int, j: int| 0 <= i < j < r@.len() ==> (#[trigger] r@[i]).id@ != (#[trigger] r@[j]).id@,
            forall|i: int|
                0 <= i < r@.len() ==> viewed_from_disk(
                    #[trigger] spec_view(self.installed_mods(), self.known(), r@[i].id@),
                    r@[i],
                ),
    {
        proof {
            use_type_invariant(self);
        }
        let n = self.installed.count();
        let ghost vals = self.installed.values();
        let mut list: Vec<Mod> = Vec::new();
        let mut i: usize = 0;
        while i < n
            invariant
                i <= n,
                n == vals.len(),
                n == self.installed.keys().len(),
                vals == self.installed.values(),
                list@ == vals.take(i as int),
            decreases n - i,
        {
            let (_, item) = self.installed.entry(i);
            list.push(item.copy());
            assert(list@ =~= vals.take(i + 1));
            i += 1;
        }
        assert(vals.take(n as int) =~= vals);
        let r = sort_by_name(list);
        proof {
            lemma_sorted_by_name(vals);
            lemma_listed_once(self.installed@, self.installed.keys(), vals, r@);
            assert forall|i: int| 0 <= i < r@.len() implies viewed_from_disk(
                #[trigger] spec_view(self.installed_mods(), self.known(), r@[i].id@),
                r@[i],
            ) by {
                lemma_disk_owns_names(self.installed_mods(), self.known(), r@[i].id@);
            }
        }
        r
    }

    /// Answer from what is known when that suffices, that is when `refresh`
    /// is not asked for and the dependencies are known; otherwise ask for the
    /// id's Workshop page to be fetched. Call only in response to a user
    /// action: nothing here fetches on its own.
    pub fn resolve(&self, id: &str, refresh: bool) -> (r: ResolveStep)
        ensures
            step_for(*self, id@, refresh, r),
    {
        if !refresh {
            let known = self.view(id);
            if known.requires.is_some() {
                return ResolveStep::Done(known);
            }
        }
        ResolveStep::Fetch(page_url(id))
    }

    /// Record what the fetch of `id`'s page came back with, and answer with
    /// what is known afterwards. A failed fetch records nothing and is passed
    /// on. For an installed mod the dependencies go into its installed record,
    /// with the name disk gives it so an uninstall can keep it; for anything
    /// else the page's title, or the id when the page has none. The names of
    /// the required items come free with the same page, and are recorded for
    /// any that are neither installed nor already known; their own
    /// dependencies stay unknown until someone asks for them.
    pub fn record_fetch(&mut self, id: &str, page: Result<PageInfo, ScrapeError>, fetched_at: String) -> (r:
        Result<Resolved, ScrapeError>)
        ensures
            fetch_recorded(*old(self), *final(self), id@, page, fetched_at@, r),
    {
        let info = match page {
            Ok(info) => info,
            Err(e) => {
                return Err(e);
            },
        };
        proof {
            use_type_invariant(&*self);
        }
        let ghost old_cache = self.cache@;
        let ghost inst = self.installed@;
        let record = match self.installed.get(id) {
            Some(item) => CacheStatus::Installed(
                DepsEntry {
                    name: Some(item.name.clone()),
                    requires: copy_strings(info.requires.as_slice()),
                    fetched_at: fetched_at.clone(),
                },
            ),
            None => CacheStatus::NotInstalled(
                CacheEntry {
                    name: match &info.name {
                        Some(n) => n.clone(),
                        None => owned(id),
                    },
                    requires: Some(copy_strings(info.requires.as_slice())),
                    fetched_at: fetched_at.clone(),
                },
            ),
        };
        let ghost names = text_map(info.required_names);
        let ghost c1 = old_cache.insert(
            id@,
            fetched_record(inst, id@, opt_text(info.name), texts(info.requires@), fetched_at@),
        );
        let mut cache = Cache::new();
        std::mem::swap(&mut cache, &mut self.cache);
        cache.insert(owned(id), record);
        assert(cache@ == c1);
        let n = info.required_names.count();
        let ghost ckeys = info.required_names.keys();
        let mut i: usize = 0;
        while i < n
            invariant
                i <= n,
                n == ckeys.len(),
                ckeys == info.required_names.keys(),
                names == text_map(info.required_names),
                forall|x: Seq<char>| #[trigger] info.required_names@.contains_key(x) <==> ckeys.contains(x),
                ckeys.no_duplicates(),
                inst == self.installed@,
                agrees(inst, c1),
                forall|x: Seq<char>|
                    #[trigger] cache@.contains_key(x) <==> (c1.contains_key(x) || (ckeys.take(
                        i as int,
                    ).contains(x) && !inst.contains_key(x))),
                forall|x: Seq<char>|
                    #[trigger] cache@.contains_key(x) ==> cache@[x] == (if c1.contains_key(x) {
                        c1[x]
                    } else {
                        StatusView::NotInstalled(
                            EntryView { name: names[x], requires: None, fetched_at: Seq::empty() },
                        )
                    }),
            decreases n - i,
        {
            let (cid, cname) = info.required_names.entry(i);
            let ghost before = cache@;
            proof {
                lemma_prefix_grows(ckeys, i as int);
            }
            if !self.installed.contains_key(cid.as_str()) && !cache.contains(cid.as_str()) {
                assert(!c1.contains_key(cid@));
                cache.insert(
                    cid.clone(),
                    CacheStatus::NotInstalled(
                        CacheEntry { name: cname.clone(), requires: None, fetched_at: String::new() },
                    ),
                );
            } else {
                assert(cache@.contains_key(cid@) ==> c1.contains_key(cid@)) by {
                    if cache@.contains_key(cid@) && !c1.contains_key(cid@) {
                        let y = ckeys.take(i as int).index_of(cid@);
                        assert(ckeys[y] == cid@);
                        assert(ckeys[i as int] == cid@);
                    }
                }
            }
            i += 1;
        }
        assert(ckeys.take(n as int) =~= ckeys);
        self.cache = cache;
        let ghost want = after_fetch(
            inst,
            old_cache,
            id@,
            opt_text(info.name),
            texts(info.requires@),
            names,
            fetched_at@,
        );
        assert(self.cache@ =~= want);
        Ok(self.view(id))
    }

    /// Record every item a walk of the Steam API reached, each with the
    /// given fetch time, so the click-driven path has nothing left to ask
    /// for.
    pub fn prefill_from_api(&mut self, result: &WalkResult, fetched_at: &str)
        ensures
            final(self).installed_mods() == old(self).installed_mods(),
            final(self).mods_in_id_order() == old(self).mods_in_id_order(),
            final(self).cache_file() == old(self).cache_file(),
            final(self).workshop() == old(self).workshop(),
            final(self).known() == after_walk(
                old(self).installed_mods(),
                old(self).known(),
                items_view(result.items@),
                fetched_at@,
            ),
    {
        proof {
            use_type_invariant(&*self);
        }
        let ghost old_cache = self.cache@;
        let ghost inst = self.installed@;
        let ghost iv = items_view(result.items@);
        let ghost keys = result.items.keys();
        let n = result.items.count();
        let mut cache = Cache::new();
        std::mem::swap(&mut cache, &mut self.cache);
        let mut i: usize = 0;
        while i < n
            invariant
                i <= n,
                n == keys.len(),
                keys == result.items.keys(),
                iv == items_view(result.items@),
                forall|x: Seq<char>| #[trigger] result.items@.contains_key(x) <==> keys.contains(x),
                keys.no_duplicates(),
                inst == self.installed@,
                agrees(inst, old_cache),
                forall|x: Seq<char>|
                    #[trigger] cache@.contains_key(x) <==> (old_cache.contains_key(x) || keys.take(
                        i as int,
                    ).contains(x)),
                forall|x: Seq<char>|
                    #[trigger] cache@.contains_key(x) ==> cache@[x] == (if keys.take(i as int).contains(
                        x,
                    ) {
                        api_record(inst, x, iv[x], fetched_at@)
                    } else {
                        old_cache[x]
                    }),
            decreases n - i,
        {
            let (id, item) = result.items.entry(i);
            proof {
                lemma_prefix_grows(keys, i as int);
                assert(iv[id@] == item@);
            }
            let record = match self.installed.get(id.as_str()) {
                Some(m) => CacheStatus::Installed(
                    DepsEntry {
                        name: Some(m.name.clone()),
                        requires: copy_strings(item.requires.as_slice()),
                        fetched_at: owned(fetched_at),
                    },
                ),
                None => CacheStatus::NotInstalled(
                    CacheEntry {
                        name: item.name.clone(),
                        requires: Some(copy_strings(item.requires.as_slice())),
                        fetched_at: owned(fetched_at),
                    },
                ),
            };
            cache.insert(id.clone(), record);
            proof {
                assert forall|x: Seq<char>| #[trigger] cache@.contains_key(x) implies cache@[x] == (if keys.take(
                    i + 1,
                ).contains(x) {
                    api_record(inst, x, iv[x], fetched_at@)
                } else {
                    old_cache[x]
                }) by {
                }
            }
            i += 1;
        }
        assert(keys.take(n as int) =~= keys);
        self.cache = cache;
        assert(self.cache@ =~= after_walk(inst, old_cache, iv, fetched_at@));
    }

    /// Where the cache file lives.
    pub fn cache_path(&self) -> (r: &String)
        ensures
            r@ == self.cache_file(),
    {
        &self.cache_path
    }

    /// The workshop directory mods are read from.
    pub fn workshop_dir(&self) -> (r: &String)
        ensures
            r@ == self.workshop(),
    {
        &self.workshop_dir
    }

    /// The installed ids, in id order.
    pub fn installed_ids(&self) -> (r: Vec<String>)
        ensures
            texts(r@).to_set() == self.installed_mods().dom(),
    {
        let r = self.installed.key_list();
        let _ = self.installed.count();
        assert(texts(r@) == r@.map_values(|s: String| s@));
        assert(texts(r@).to_set() =~= self.installed@.dom());
        r
    }
}

} // verus!
