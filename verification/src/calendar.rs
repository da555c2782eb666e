//! Calendar dates of Unix timestamps (proleptic Gregorian calendar, UTC),
//! counted in 400-year eras of 146097 days that start on March 1st.

use vstd::prelude::*;
use vstd::arithmetic::div_mod::lemma_fundamental_div_mod_converse;
use crate::text::{nat_text, push_char, push_str, push_u64, lemma_nat_text_no_newline};

verus! {

/// The day a timestamp falls on, counted from 1970-01-01 (day 0).
pub open spec fn day_number(secs: int) -> int {
    secs / 86400
}

/// Year within the era (counted from March 1st), for day `doe` of the era.
pub open spec fn year_of_era(doe: int) -> int {
    (doe - doe / 1460 + doe / 36524 - doe / 146096) / 365
}

/// Day within the (March-based) year, for day `doe` of the era.
pub open spec fn day_of_year(doe: int) -> int {
    let yoe = year_of_era(doe);
    doe - (365 * yoe + yoe / 4 - yoe / 100)
}

/// Month counted from March (0 = March … 11 = February), for day `doy` of the year.
pub open spec fn march_month(doy: int) -> int {
    (5 * doy + 2) / 153
}

/// The calendar date `(year, month, day)` of day `days` counted from 1970-01-01.
pub open spec fn civil_from_days(days: int) -> (int, int, int) {
    let z = days + 719468;
    let era = z / 146097;
    let doe = z % 146097;
    let doy = day_of_year(doe);
    let mp = march_month(doy);
    let d = doy - (153 * mp + 2) / 5 + 1;
    let m = if mp < 10 {
        mp + 3
    } else {
        mp - 9
    };
    let y = year_of_era(doe) + era * 400 + if m <= 2 {
        1int
    } else {
        0
    };
    (y, m, d)
}

/// The calendar date of timestamp `secs`.
pub open spec fn civil_date_spec(secs: int) -> (int, int, int) {
    civil_from_days(day_number(secs))
}

proof fn lemma_era_steps(doe: u64)
    by (bit_vector)
    requires
        doe < 146097,
    ensures
        365 * ((doe - doe / 1460 + doe / 36524 - doe / 146096) / 365) + ((doe - doe / 1460 + doe / 36524 - doe / 146096)
            / 365) / 4 - ((doe - doe / 1460 + doe / 36524 - doe / 146096) / 365) / 100 <= doe,
        doe - (365 * ((doe - doe / 1460 + doe / 36524 - doe / 146096) / 365) + ((doe - doe / 1460 + doe / 36524 - doe
            / 146096) / 365) / 4 - ((doe - doe / 1460 + doe / 36524 - doe / 146096) / 365) / 100) <= 365,
        (doe - doe / 1460 + doe / 36524 - doe / 146096) / 365 <= 399,
{
}

proof fn lemma_month_steps(doy: u64)
    by (bit_vector)
    requires
        doy <= 365,
    ensures
        (153 * ((5 * doy + 2) / 153) + 2) / 5 <= doy,
        (5 * doy + 2) / 153 <= 11,
        doy - (153 * ((5 * doy + 2) / 153) + 2) / 5 + 1 <= 31,
{
}

/// Year of era (without the January/February shift), month and day for day
/// `doe` of an era.
fn date_in_era(doe: u64) -> (r: (u64, u64, u64))
    requires
        doe < 146097,
    ensures
        r.0 == year_of_era(doe as int),
        ({
            let doy = day_of_year(doe as int);
            let mp = march_month(doy);
            &&& r.1 == if mp < 10 {
                mp + 3
            } else {
                mp - 9
            }
            &&& r.2 == doy - (153 * mp + 2) / 5 + 1
        }),
        1 <= r.1 <= 12,
        1 <= r.2 <= 31,
        r.0 <= 399,
{
    proof {
        lemma_era_steps(doe);
    }
    let yoe: u64 = (doe - doe / 1460 + doe / 36524 - doe / 146096) / 365;
    let doy: u64 = doe - (365 * yoe + yoe / 4 - yoe / 100);
    proof {
        lemma_month_steps(doy);
    }
    let mp: u64 = (5 * doy + 2) / 153;
    let d: u64 = doy - (153 * mp + 2) / 5 + 1;
    let m: u64 = if mp < 10 {
        mp + 3
    } else {
        mp - 9
    };
    (yoe, m, d)
}

/// The calendar date `(year, month, day)` of Unix timestamp `secs`.
pub fn civil_date(secs: i64) -> (r: (i64, u64, u64))
    ensures
        (r.0 as int, r.1 as int, r.2 as int) == civil_date_spec(secs as int),
        1 <= r.1 <= 12,
        1 <= r.2 <= 31,
{
    let shifted: u128 = (secs as i128 + 12_622_780_800_000_000_000i128) as u128;
    let days: u128 = shifted / 86400;
    proof {
        let k: int = 146097int * 1_000_000_000int;
        lemma_fundamental_div_mod_converse(secs as int, 86400, days as int - k, (shifted % 86400) as int);
    }
    let z: u128 = days + 719468;
    let era: u128 = z / 146097;
    let doe: u128 = z % 146097;
    proof {
        let zt: int = secs as int / 86400 + 719468;
        lemma_fundamental_div_mod_converse(zt, 146097, era as int - 1_000_000_000int, doe as int);
    }
    let (yoe, m, d) = date_in_era(doe as u64);
    let adj: i128 = if m <= 2 {
        1
    } else {
        0
    };
    let y: i128 = yoe as i128 + (era as i128) * 400 - 400_000_000_000 + adj;
    (y as i64, m, d)
}


// ---------------------------------------------------------------------------
// Rendering: `YYYY-MM-DD`
// ---------------------------------------------------------------------------

/// `t` with zeros in front up to `width` chars (unchanged when already that long).
pub open spec fn zero_padded(t: Seq<char>, width: nat) -> Seq<char> {
    if t.len() < width {
        Seq::new((width - t.len()) as nat, |i: int| '0') + t
    } else {
        t
    }
}

/// A year with at least four digits, `-` in front when negative.
pub open spec fn year_text(y: int) -> Seq<char> {
    if y >= 0 {
        zero_padded(nat_text(y as nat), 4)
    } else {
        seq!['-'] + zero_padded(nat_text((-y) as nat), 4)
    }
}

/// The `YYYY-MM-DD` text of the date timestamp `secs` falls on.
pub open spec fn date_text(secs: int) -> Seq<char> {
    let (y, m, d) = civil_date_spec(secs);
    year_text(y) + seq!['-'] + zero_padded(nat_text(m as nat), 2) + seq!['-'] + zero_padded(nat_text(d as nat), 2)
}

fn push_zero_padded(s: &mut String, n: u64, width: usize)
    ensures
        final(s)@ == old(s)@ + zero_padded(nat_text(n as nat), width as nat),
{
    let mut digits = String::new();
    push_u64(&mut digits, n);
    let len: usize = digits.as_str().unicode_len();
    let mut k: usize = len;
    while k < width
        invariant
            len == nat_text(n as nat).len(),
            len <= k <= if len <= width { width } else { len },
            s@ == old(s)@ + Seq::new((k - len) as nat, |i: int| '0'),
        decreases width - k,
    {
        push_char(s, '0');
        assert(s@ =~= old(s)@ + Seq::new((k + 1 - len) as nat, |i: int| '0'));
        k += 1;
    }
    push_str(s, digits.as_str());
    assert(s@ =~= old(s)@ + zero_padded(nat_text(n as nat), width as nat));
}

/// Appends the `YYYY-MM-DD` date of timestamp `secs`.
pub fn push_date(s: &mut String, secs: i64)
    ensures
        final(s)@ == old(s)@ + date_text(secs as int),
{
    let (y, m, d) = civil_date(secs);
    let ghost start = s@;
    if y >= 0 {
        push_zero_padded(s, y as u64, 4);
    } else {
        push_char(s, '-');
        let ay: u64 = (-(y as i128)) as u64;
        push_zero_padded(s, ay, 4);
        assert(s@ =~= start + year_text(y as int));
    }
    assert(s@ =~= start + year_text(y as int));
    push_char(s, '-');
    push_zero_padded(s, m, 2);
    push_char(s, '-');
    push_zero_padded(s, d, 2);
    assert(s@ =~= start + date_text(secs as int));
}

/// A date's text holds no line break.
pub proof fn lemma_date_text_single_line(secs: int)
    ensures
        !date_text(secs).contains('\n'),
{
    let (y, m, d) = civil_date_spec(secs);
    let yn: nat = if y >= 0 { y as nat } else { (-y) as nat };
    lemma_nat_text_no_newline(yn);
    lemma_nat_text_no_newline(m as nat);
    lemma_nat_text_no_newline(d as nat);
    let t = date_text(secs);
    if t.contains('\n') {
        let i = choose|i: int| 0 <= i < t.len() && t[i] == '\n';
        let ty = year_text(y);
        let tm = zero_padded(nat_text(m as nat), 2);
        let td = zero_padded(nat_text(d as nat), 2);
        let zy = zero_padded(nat_text(yn), 4);
        assert(t == ty + seq!['-'] + tm + seq!['-'] + td);
        if i < ty.len() {
            assert(t[i] == ty[i]);
            if y < 0 && i > 0 {
                assert(ty[i] == zy[i - 1]);
            }
        } else if i < ty.len() + 1 {
        } else if i < ty.len() + 1 + tm.len() {
            assert(t[i] == tm[i - ty.len() - 1]);
        } else if i < ty.len() + 2 + tm.len() {
        } else {
            assert(t[i] == td[i - ty.len() - 2 - tm.len()]);
        }
        assert(false);
    }
}

} // verus!
