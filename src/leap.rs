//! The compiled-in table of UTC leap seconds and the conversions between
//! UTC-referenced counts and the library's continuous timescale.
//!
//! The continuous timescale counts microseconds that advance uniformly
//! (no second is ever skipped or repeated), with 0 at 1970-01-01T00:00:00
//! UTC. A UTC count is the same kind of number with the inserted leap
//! seconds removed, so `utc == continuous - offset(continuous)`.
use vstd::prelude::*;

verus! {

/// Microseconds in one SI second.
pub const USEC_PER_SEC: i64 = 1_000_000;

/// The largest cumulative offset in the table (37 s, in force since 2017-01-01).
pub const MAX_LEAP_USEC: i64 = 37_000_000;

/// Historical leap-second insertions as `(threshold, offset)` pairs, newest
/// first. The threshold is the continuous-scale count at which the inserted
/// second begins; the offset is the cumulative skew in force from there on.
/// Both are in microseconds.
pub open spec fn leap_table() -> Seq<(i64, i64)> {
    seq![
        (1483228836000000, 37000000),  // 2017-01-01
        (1435708835000000, 36000000),  // 2015-07-01
        (1341100834000000, 35000000),  // 2012-07-01
        (1230768033000000, 34000000),  // 2009-01-01
        (1136073632000000, 33000000),  // 2006-01-01
        (915148831000000, 32000000),  // 1999-01-01
        (867715230000000, 31000000),  // 1997-07-01
        (820454429000000, 30000000),  // 1996-01-01
        (773020828000000, 29000000),  // 1994-07-01
        (741484827000000, 28000000),  // 1993-07-01
        (709948826000000, 27000000),  // 1992-07-01
        (662688025000000, 26000000),  // 1991-01-01
        (631152024000000, 25000000),  // 1990-01-01
        (567993623000000, 24000000),  // 1988-01-01
        (489024022000000, 23000000),  // 1985-07-01
        (425865621000000, 22000000),  // 1983-07-01
        (394329620000000, 21000000),  // 1982-07-01
        (362793619000000, 20000000),  // 1981-07-01
        (315532818000000, 19000000),  // 1980-01-01
        (283996817000000, 18000000),  // 1979-01-01
        (252460816000000, 17000000),  // 1978-01-01
        (220924815000000, 16000000),  // 1977-01-01
        (189302414000000, 15000000),  // 1976-01-01
        (157766413000000, 14000000),  // 1975-01-01
        (126230412000000, 13000000),  // 1974-01-01
        (94694411000000, 12000000),  // 1973-01-01
        (78796810000000, 11000000),  // 1972-07-01
        (63072009000000, 10000000),  // 1972-01-01
    ]
}

pub open spec fn threshold(i: int) -> int {
    leap_table()[i].0 as int
}

pub open spec fn offset_at(i: int) -> int {
    leap_table()[i].1 as int
}

/// The offset of the first entry at or after index `i` whose threshold is
/// `<= raw`, or 0 when there is none.
pub open spec fn offset_from(i: nat, raw: int) -> int
    decreases leap_table().len() - i,
{
    if i >= leap_table().len() {
        0
    } else if raw >= threshold(i as int) {
        offset_at(i as int)
    } else {
        offset_from(i + 1, raw)
    }
}

/// The cumulative leap-second offset (microseconds) in force at the
/// continuous count `raw`: the offset of the first table entry whose
/// threshold is `<= raw`, or 0 before the first insertion.
pub open spec fn leap_offset(raw: int) -> int {
    offset_from(0, raw)
}

/// The UTC count (leap seconds removed) read off the continuous count `raw`.
pub open spec fn utc_of(raw: int) -> int {
    raw - leap_offset(raw)
}

/// The continuous count for the UTC count `u`: a first estimate
/// `u + leap_offset(u)`, corrected once by the offset in force there.
pub open spec fn continuous_of_utc(u: int) -> int {
    u + leap_offset(u + leap_offset(u))
}

/// `raw` lies in the one-second window that starts at an insertion: one
/// second earlier a smaller offset was in force.
pub open spec fn in_leap_second(raw: int) -> bool {
    leap_offset(raw - USEC_PER_SEC) < leap_offset(raw)
}

/// The shape of the table that the conversions rely on: thresholds
/// strictly decreasing, offsets at least one second apart, and consecutive
/// thresholds further apart than the offset in force between them.
pub open spec fn table_well_formed() -> bool {
    &&& leap_table().len() == 28
    &&& forall|j: int|
        0 <= j < leap_table().len() ==> offset_at(j) >= USEC_PER_SEC && offset_at(j)
            <= MAX_LEAP_USEC
    &&& forall|j: int|
        0 <= j < leap_table().len() - 1 ==> {
            &&& threshold(j + 1) + offset_at(j + 1) <= #[trigger] threshold(j)
            &&& offset_at(j + 1) + USEC_PER_SEC <= offset_at(j)
        }
}

pub proof fn lemma_table_well_formed()
    ensures
        table_well_formed(),
{
    let t = leap_table();
    assert(t.len() == 28);
    assert forall|j: int| 0 <= j < t.len() implies offset_at(j) >= USEC_PER_SEC && offset_at(j)
        <= MAX_LEAP_USEC by {
        assert(t[j].1 >= 10000000 && t[j].1 <= 37000000);
    }
    assert forall|j: int| 0 <= j < t.len() - 1 implies {
        &&& threshold(j + 1) + offset_at(j + 1) <= #[trigger] threshold(j)
        &&& offset_at(j + 1) + USEC_PER_SEC <= offset_at(j)
    } by {
        assert(t[j + 1].0 + t[j + 1].1 <= t[j].0);
        assert(t[j + 1].1 + 1000000 <= t[j].1);
    }
}


/// What the lookup can return from index `i` on: nothing negative, nothing
/// above that entry's offset, and a positive value only at or after the
/// earliest threshold.
proof fn lemma_offset_from_bounds(i: nat, x: int)
    requires
        table_well_formed(),
        i <= leap_table().len(),
    ensures
        0 <= offset_from(i, x),
        i < leap_table().len() ==> offset_from(i, x) <= offset_at(i as int),
        offset_from(i, x) == 0 || offset_from(i, x) >= USEC_PER_SEC,
        offset_from(i, x) > 0 ==> x >= threshold(leap_table().len() - 1),
    decreases leap_table().len() - i,
{
    if i < leap_table().len() {
        lemma_offset_from_bounds(i + 1, x);
        if x < threshold(i as int) && i + 1 < leap_table().len() {
            assert(threshold(i + 1int) < threshold(i as int));
        }
    }
}

proof fn lemma_offset_from_monotone(i: nat, x: int, y: int)
    requires
        table_well_formed(),
        i <= leap_table().len(),
        x <= y,
    ensures
        offset_from(i, x) <= offset_from(i, y),
    decreases leap_table().len() - i,
{
    if i < leap_table().len() {
        lemma_offset_from_monotone(i + 1, x, y);
        lemma_offset_from_bounds(i + 1, x);
        if i + 1 < leap_table().len() {
            assert(offset_at(i + 1int) + USEC_PER_SEC <= offset_at(i as int));
        }
    }
}

proof fn lemma_offset_from_gap(i: nat, x: int, y: int)
    requires
        table_well_formed(),
        i <= leap_table().len(),
        offset_from(i, x) < offset_from(i, y),
    ensures
        offset_from(i, x) + USEC_PER_SEC <= offset_from(i, y),
    decreases leap_table().len() - i,
{
    if i < leap_table().len() {
        lemma_offset_from_bounds(i + 1, x);
        lemma_offset_from_bounds(i + 1, y);
        if i + 1 < leap_table().len() {
            assert(offset_at(i + 1int) + USEC_PER_SEC <= offset_at(i as int));
        }
        if x < threshold(i as int) && y < threshold(i as int) {
            lemma_offset_from_gap(i + 1, x, y);
        }
    }
}

proof fn lemma_offset_from_fixed_point(i: nat, u: int)
    requires
        table_well_formed(),
        i <= leap_table().len(),
    ensures
        offset_from(i, u + offset_from(i, u + offset_from(i, u))) == offset_from(
            i,
            u + offset_from(i, u),
        ),
    decreases leap_table().len() - i,
{
    if i < leap_table().len() {
        let a = offset_from(i, u);
        let b = offset_from(i, u + a);
        let t = threshold(i as int);
        lemma_offset_from_bounds(i + 1, u);
        lemma_offset_from_bounds(i + 1, u + a);
        if i + 1 < leap_table().len() {
            assert(offset_at(i + 1int) + USEC_PER_SEC <= offset_at(i as int));
            assert(threshold(i + 1int) + offset_at(i + 1int) <= threshold(i as int));
        }
        if u < t && u + a < t {
            lemma_offset_from_fixed_point(i + 1, u);
            lemma_offset_from_monotone(i + 1, u, u + a);
            if b > a && i + 1 < leap_table().len() {
                assert(u < threshold(i + 1int));
            }
        }
    }
}

/// Looking the offset up is a monotone step function of the continuous count.
pub proof fn lemma_leap_offset_monotone(x: int, y: int)
    requires
        x <= y,
    ensures
        leap_offset(x) <= leap_offset(y),
{
    lemma_table_well_formed();
    lemma_offset_from_monotone(0, x, y);
}

/// The offset is never negative, never above the table's last value, and
/// zero before the first insertion; two different offsets are at least one
/// second apart.
pub proof fn lemma_leap_offset_bounds(x: int)
    ensures
        0 <= leap_offset(x) <= MAX_LEAP_USEC,
        leap_offset(x) == 0 || leap_offset(x) >= USEC_PER_SEC,
        x < 63072009000000 ==> leap_offset(x) == 0,
        x >= 1483228836000000 ==> leap_offset(x) == MAX_LEAP_USEC,
{
    lemma_table_well_formed();
    lemma_offset_from_bounds(0, x);
}

pub proof fn lemma_leap_offset_gap(x: int, y: int)
    requires
        leap_offset(x) < leap_offset(y),
    ensures
        leap_offset(x) + USEC_PER_SEC <= leap_offset(y),
{
    lemma_table_well_formed();
    lemma_offset_from_gap(0, x, y);
}

/// Converting a UTC count to the continuous scale needs at most one
/// correction: the offset in force at the result is the one that was added,
/// so reading UTC back off the result gives the count that went in.
pub proof fn lemma_utc_round_trip(u: int)
    ensures
        leap_offset(continuous_of_utc(u)) == leap_offset(u + leap_offset(u)),
        utc_of(continuous_of_utc(u)) == u,
{
    lemma_table_well_formed();
    lemma_offset_from_fixed_point(0, u);
}

/// A count produced from a UTC reading never falls inside an inserted leap
/// second.
pub proof fn lemma_continuous_not_in_leap_second(u: int)
    ensures
        !in_leap_second(continuous_of_utc(u)),
{
    let a = leap_offset(u);
    let b = leap_offset(u + a);
    let r = continuous_of_utc(u);
    lemma_utc_round_trip(u);
    lemma_leap_offset_bounds(u);
    lemma_leap_offset_bounds(u + a);
    lemma_leap_offset_bounds(r - USEC_PER_SEC);
    lemma_leap_offset_monotone(u, u + a);
    lemma_leap_offset_monotone(r - USEC_PER_SEC, r);
    if leap_offset(r - USEC_PER_SEC) < b {
        lemma_leap_offset_gap(r - USEC_PER_SEC, r);
        if a + USEC_PER_SEC <= b {
            lemma_leap_offset_monotone(u + a, r - USEC_PER_SEC);
        } else {
            if a < b {
                lemma_leap_offset_gap(u, u + a);
            }
            lemma_leap_offset_monotone(u, r - USEC_PER_SEC);
        }
    }
}


/// Number of entries in the leap-second table.
pub const LEAP_TABLE_LEN: usize = 28;

/// Entry `i` of the leap-second table, newest first.
pub fn leap_entry(i: usize) -> (r: (i64, i64))
    requires
        i < LEAP_TABLE_LEN,
    ensures
        r == leap_table()[i as int],
{
    match i {
        0 => (1483228836000000, 37000000),  // 2017-01-01
        1 => (1435708835000000, 36000000),  // 2015-07-01
        2 => (1341100834000000, 35000000),  // 2012-07-01
        3 => (1230768033000000, 34000000),  // 2009-01-01
        4 => (1136073632000000, 33000000),  // 2006-01-01
        5 => (915148831000000, 32000000),  // 1999-01-01
        6 => (867715230000000, 31000000),  // 1997-07-01
        7 => (820454429000000, 30000000),  // 1996-01-01
        8 => (773020828000000, 29000000),  // 1994-07-01
        9 => (741484827000000, 28000000),  // 1993-07-01
        10 => (709948826000000, 27000000),  // 1992-07-01
        11 => (662688025000000, 26000000),  // 1991-01-01
        12 => (631152024000000, 25000000),  // 1990-01-01
        13 => (567993623000000, 24000000),  // 1988-01-01
        14 => (489024022000000, 23000000),  // 1985-07-01
        15 => (425865621000000, 22000000),  // 1983-07-01
        16 => (394329620000000, 21000000),  // 1982-07-01
        17 => (362793619000000, 20000000),  // 1981-07-01
        18 => (315532818000000, 19000000),  // 1980-01-01
        19 => (283996817000000, 18000000),  // 1979-01-01
        20 => (252460816000000, 17000000),  // 1978-01-01
        21 => (220924815000000, 16000000),  // 1977-01-01
        22 => (189302414000000, 15000000),  // 1976-01-01
        23 => (157766413000000, 14000000),  // 1975-01-01
        24 => (126230412000000, 13000000),  // 1974-01-01
        25 => (94694411000000, 12000000),  // 1973-01-01
        26 => (78796810000000, 11000000),  // 1972-07-01
        _ => (63072009000000, 10000000),  // 1972-01-01
    }
}

/// The leap-second table as executable data, equal to `leap_table()`.
pub fn leap_second_table() -> (r: Vec<(i64, i64)>)
    ensures
        r@ == leap_table(),
{
    let mut r: Vec<(i64, i64)> = Vec::new();
    let mut i: usize = 0;
    while i < LEAP_TABLE_LEN
        invariant
            i <= LEAP_TABLE_LEN,
            r@ == leap_table().subrange(0, i as int),
        decreases LEAP_TABLE_LEN - i,
    {
        r.push(leap_entry(i));
        i += 1;
    }
    assert(r@ =~= leap_table());
    r
}

/// Thresholds decrease along the whole table, not only between neighbours.
proof fn lemma_thresholds_descending(i: int, j: int)
    requires
        table_well_formed(),
        0 <= i < j < leap_table().len(),
    ensures
        threshold(j) < threshold(i),
    decreases j - i,
{
    assert(threshold(i + 1) + offset_at(i + 1) <= threshold(i));
    if i + 1 < j {
        lemma_thresholds_descending(i + 1, j);
    }
}

/// Entries whose thresholds all lie above `raw` do not decide the lookup.
proof fn lemma_offset_skips_later_thresholds(i: nat, k: nat, raw: int)
    requires
        i <= k <= leap_table().len(),
        forall|j: int| i <= j < k ==> threshold(j) > raw,
    ensures
        offset_from(i, raw) == offset_from(k, raw),
    decreases k - i,
{
    if i < k {
        lemma_offset_skips_later_thresholds(i + 1, k, raw);
    }
}

/// The cumulative leap-second offset, in microseconds, in force at the
/// continuous count `raw`: the first entry whose threshold is `<= raw`
/// decides, and before 1972 the offset is 0. Binary search over the
/// descending thresholds.
pub fn microleapseconds(raw: i64) -> (r: i64)
    ensures
        r == leap_offset(raw as int),
        0 <= r <= MAX_LEAP_USEC,
{
    proof {
        lemma_leap_offset_bounds(raw as int);
        lemma_table_well_formed();
    }
    let mut lo: usize = 0;
    let mut hi: usize = LEAP_TABLE_LEN;
    while lo < hi
        invariant
            table_well_formed(),
            0 <= lo <= hi <= LEAP_TABLE_LEN,
            forall|j: int| 0 <= j < lo ==> threshold(j) > raw,
            forall|j: int| hi <= j < LEAP_TABLE_LEN ==> threshold(j) <= raw,
        decreases hi - lo,
    {
        let mid = lo + (hi - lo) / 2;
        let (t, _) = leap_entry(mid);
        if t <= raw {
            proof {
                assert forall|j: int| mid <= j < LEAP_TABLE_LEN implies threshold(j) <= raw by {
                    if mid < j {
                        lemma_thresholds_descending(mid as int, j);
                    }
                }
            }
            hi = mid;
        } else {
            proof {
                assert forall|j: int| 0 <= j <= mid implies threshold(j) > raw by {
                    if j < mid {
                        lemma_thresholds_descending(j, mid as int);
                    }
                }
            }
            lo = mid + 1;
        }
    }
    proof {
        lemma_offset_skips_later_thresholds(0, lo as nat, raw as int);
    }
    if lo < LEAP_TABLE_LEN {
        leap_entry(lo).1
    } else {
        0
    }
}

/// The cumulative number of whole leap seconds in force at `raw`.
pub fn leapseconds(raw: i64) -> (r: i64)
    ensures
        r == leap_offset(raw as int) / USEC_PER_SEC as int,
{
    microleapseconds(raw) / USEC_PER_SEC
}

/// The continuous count for the UTC count `u`, or `None` where it does not
/// fit in an `i64`. The offset is looked up at a first estimate and once
/// more at the corrected value; one correction always suffices
/// (`lemma_utc_round_trip`).
pub fn utc_to_continuous(u: i64) -> (r: Option<i64>)
    ensures
        r.is_some() <==> continuous_of_utc(u as int) <= i64::MAX,
        r.is_some() ==> r.unwrap() == continuous_of_utc(u as int),
{
    proof {
        lemma_leap_offset_bounds(u as int);
        lemma_leap_offset_bounds(u + leap_offset(u as int));
        lemma_leap_offset_monotone(u as int, u + leap_offset(u as int));
    }
    if u > i64::MAX - MAX_LEAP_USEC {
        return None;
    }
    let first = microleapseconds(u);
    let estimate = u + first;
    let corrected = microleapseconds(estimate);
    Some(estimate + (corrected - first))
}

/// The UTC count read off the continuous count `raw`.
pub fn continuous_to_utc(raw: i64) -> (r: i64)
    ensures
        r == utc_of(raw as int),
{
    proof {
        lemma_leap_offset_bounds(raw as int);
    }
    raw - microleapseconds(raw)
}

/// Whether `raw` falls within an inserted leap second.
pub fn is_leap_second(raw: i64) -> (r: bool)
    ensures
        r == in_leap_second(raw as int),
{
    proof {
        lemma_leap_offset_bounds(raw - USEC_PER_SEC);
    }
    let before = if raw >= i64::MIN + USEC_PER_SEC {
        microleapseconds(raw - USEC_PER_SEC)
    } else {
        0
    };
    before < microleapseconds(raw)
}


/// Looking up the same count twice gives the same offset: the result is
/// fixed by the count alone.
pub proof fn lemma_lookup_repeatable(raw: i64, first: i64, second: i64)
    requires
        call_ensures(microleapseconds, (raw,), first),
        call_ensures(microleapseconds, (raw,), second),
    ensures
        first == second,
{
}

/// Every copy of the table holds the same entries: nothing changes it.
pub proof fn lemma_table_unchanging(a: Vec<(i64, i64)>, b: Vec<(i64, i64)>)
    requires
        call_ensures(leap_second_table, (), a),
        call_ensures(leap_second_table, (), b),
    ensures
        a@ == b@,
{
}

} // verus!
