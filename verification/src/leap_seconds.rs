//! Maintained GPS-UTC leap-second history.
use vstd::prelude::*;

use crate::calendar::{is_valid_date, lemma_days_before_month_values, spec_days_from_civil, spec_days_in_month};

verus! {

/// One leap second in the maintained GPS-UTC history.
#[derive(Clone, Copy, Debug, PartialEq, Eq, Structural)]
pub struct LeapSecond {
    /// UTC year whose last minute contains `23:59:60`.
    pub insertion_year: i32,
    /// UTC month whose last minute contains `23:59:60`.
    pub insertion_month: i32,
    /// UTC day whose last minute contains `23:59:60`.
    pub insertion_day: i32,
    /// UTC year at which the new offset is effective from midnight.
    pub effective_year: i32,
    /// UTC month at which the new offset is effective from midnight.
    pub effective_month: i32,
    /// UTC day at which the new offset is effective from midnight.
    pub effective_day: i32,
    /// GPS minus UTC in seconds after the transition.
    pub gps_utc_offset: i64,
}

/// The leap-second entry built from an insertion date, an effective date and
/// the offset that applies from the effective date on.
pub open spec fn spec_leap_second(
    insertion: (i32, i32, i32),
    effective: (i32, i32, i32),
    gps_utc_offset: i64,
) -> LeapSecond {
    LeapSecond {
        insertion_year: insertion.0,
        insertion_month: insertion.1,
        insertion_day: insertion.2,
        effective_year: effective.0,
        effective_month: effective.1,
        effective_day: effective.2,
        gps_utc_offset,
    }
}

impl LeapSecond {
    /// Constructs one leap history entry.
    pub fn new(insertion: (i32, i32, i32), effective: (i32, i32, i32), gps_utc_offset: i64) -> (leap: Self)
        ensures
            leap == spec_leap_second(insertion, effective, gps_utc_offset),
    {
        Self {
            insertion_year: insertion.0,
            insertion_month: insertion.1,
            insertion_day: insertion.2,
            effective_year: effective.0,
            effective_month: effective.1,
            effective_day: effective.2,
            gps_utc_offset,
        }
    }
}

/// GPS-UTC leap-second history since the GPS epoch, following the IERS
/// Bulletin C effective-date history. The current GPS-UTC offset is 18 seconds.
pub open spec fn spec_gps_utc_leap_seconds() -> Seq<LeapSecond> {
    seq![
        spec_leap_second((1981, 6, 30), (1981, 7, 1), 1),
        spec_leap_second((1982, 6, 30), (1982, 7, 1), 2),
        spec_leap_second((1983, 6, 30), (1983, 7, 1), 3),
        spec_leap_second((1985, 6, 30), (1985, 7, 1), 4),
        spec_leap_second((1987, 12, 31), (1988, 1, 1), 5),
        spec_leap_second((1989, 12, 31), (1990, 1, 1), 6),
        spec_leap_second((1990, 12, 31), (1991, 1, 1), 7),
        spec_leap_second((1992, 6, 30), (1992, 7, 1), 8),
        spec_leap_second((1993, 6, 30), (1993, 7, 1), 9),
        spec_leap_second((1994, 6, 30), (1994, 7, 1), 10),
        spec_leap_second((1995, 12, 31), (1996, 1, 1), 11),
        spec_leap_second((1997, 6, 30), (1997, 7, 1), 12),
        spec_leap_second((1998, 12, 31), (1999, 1, 1), 13),
        spec_leap_second((2005, 12, 31), (2006, 1, 1), 14),
        spec_leap_second((2008, 12, 31), (2009, 1, 1), 15),
        spec_leap_second((2012, 6, 30), (2012, 7, 1), 16),
        spec_leap_second((2015, 6, 30), (2015, 7, 1), 17),
        spec_leap_second((2016, 12, 31), (2017, 1, 1), 18),
    ]
}

/// Returns the GPS-UTC leap-second history since the GPS epoch, oldest first.
pub fn gps_utc_leap_seconds() -> (table: [LeapSecond; 18])
    ensures
        table@ == spec_gps_utc_leap_seconds(),
{
    let table = [
        LeapSecond::new((1981, 6, 30), (1981, 7, 1), 1),
        LeapSecond::new((1982, 6, 30), (1982, 7, 1), 2),
        LeapSecond::new((1983, 6, 30), (1983, 7, 1), 3),
        LeapSecond::new((1985, 6, 30), (1985, 7, 1), 4),
        LeapSecond::new((1987, 12, 31), (1988, 1, 1), 5),
        LeapSecond::new((1989, 12, 31), (1990, 1, 1), 6),
        LeapSecond::new((1990, 12, 31), (1991, 1, 1), 7),
        LeapSecond::new((1992, 6, 30), (1992, 7, 1), 8),
        LeapSecond::new((1993, 6, 30), (1993, 7, 1), 9),
        LeapSecond::new((1994, 6, 30), (1994, 7, 1), 10),
        LeapSecond::new((1995, 12, 31), (1996, 1, 1), 11),
        LeapSecond::new((1997, 6, 30), (1997, 7, 1), 12),
        LeapSecond::new((1998, 12, 31), (1999, 1, 1), 13),
        LeapSecond::new((2005, 12, 31), (2006, 1, 1), 14),
        LeapSecond::new((2008, 12, 31), (2009, 1, 1), 15),
        LeapSecond::new((2012, 6, 30), (2012, 7, 1), 16),
        LeapSecond::new((2015, 6, 30), (2015, 7, 1), 17),
        LeapSecond::new((2016, 12, 31), (2017, 1, 1), 18),
    ];
    assert(table@ =~= spec_gps_utc_leap_seconds());
    table
}

/// Days from the GPS epoch day (1980-01-06) to a calendar date.
pub open spec fn spec_days_since_gps_epoch(year: int, month: int, day: int) -> int {
    spec_days_from_civil(year, month, day) - 3657
}

/// GPS day on which a leap second's new offset takes effect.
pub open spec fn leap_effective_gps_day(leap: LeapSecond) -> int {
    spec_days_since_gps_epoch(
        leap.effective_year as int,
        leap.effective_month as int,
        leap.effective_day as int,
    )
}

/// GPS day whose last UTC minute holds the inserted second.
pub open spec fn leap_insertion_gps_day(leap: LeapSecond) -> int {
    spec_days_since_gps_epoch(
        leap.insertion_year as int,
        leap.insertion_month as int,
        leap.insertion_day as int,
    )
}

/// Continuous GPS seconds at which a leap second's new offset takes effect.
pub open spec fn spec_gps_effective_seconds(leap: LeapSecond) -> int {
    leap_effective_gps_day(leap) * 86400 + leap.gps_utc_offset
}

/// The shape of the maintained history: each entry takes effect the day after
/// its insertion day, entries are at least two days apart in order, the first
/// one lies after the GPS epoch, and the offset grows by one second per entry.
pub open spec fn leap_history_is_regular(table: Seq<LeapSecond>) -> bool {
    &&& forall|k: int|
        0 <= k < table.len() ==> {
            &&& is_valid_date(
                table[k].insertion_year as int,
                table[k].insertion_month as int,
                table[k].insertion_day as int,
            )
            &&& is_valid_date(
                table[k].effective_year as int,
                table[k].effective_month as int,
                table[k].effective_day as int,
            )
            &&& leap_effective_gps_day(table[k]) == leap_insertion_gps_day(table[k]) + 1
            &&& table[k].gps_utc_offset == k + 1
        }
    &&& forall|j: int, k: int|
        0 <= j < k < table.len() ==> leap_effective_gps_day(table[j]) + 2 <= leap_effective_gps_day(
            table[k],
        )
    &&& table.len() > 0 ==> leap_insertion_gps_day(table[0]) >= 1
    &&& forall|k: int| 0 <= k < table.len() ==> leap_effective_gps_day(#[trigger] table[k]) <= 20000
}

/// The maintained history is regular.
pub proof fn lemma_leap_history_is_regular()
    ensures
        leap_history_is_regular(spec_gps_utc_leap_seconds()),
{
    assert(spec_days_from_civil(1981, 6, 30) == 4198) by { lemma_days_before_month_values(1981); }
    assert(spec_days_from_civil(1981, 7, 1) == 4199) by { lemma_days_before_month_values(1981); }
    assert(spec_days_from_civil(1982, 6, 30) == 4563) by { lemma_days_before_month_values(1982); }
    assert(spec_days_from_civil(1982, 7, 1) == 4564) by { lemma_days_before_month_values(1982); }
    assert(spec_days_from_civil(1983, 6, 30) == 4928) by { lemma_days_before_month_values(1983); }
    assert(spec_days_from_civil(1983, 7, 1) == 4929) by { lemma_days_before_month_values(1983); }
    assert(spec_days_from_civil(1985, 6, 30) == 5659) by { lemma_days_before_month_values(1985); }
    assert(spec_days_from_civil(1985, 7, 1) == 5660) by { lemma_days_before_month_values(1985); }
    assert(spec_days_from_civil(1987, 12, 31) == 6573) by { lemma_days_before_month_values(1987); }
    assert(spec_days_from_civil(1988, 1, 1) == 6574) by { lemma_days_before_month_values(1988); }
    assert(spec_days_from_civil(1989, 12, 31) == 7304) by { lemma_days_before_month_values(1989); }
    assert(spec_days_from_civil(1990, 1, 1) == 7305) by { lemma_days_before_month_values(1990); }
    assert(spec_days_from_civil(1990, 12, 31) == 7669) by { lemma_days_before_month_values(1990); }
    assert(spec_days_from_civil(1991, 1, 1) == 7670) by { lemma_days_before_month_values(1991); }
    assert(spec_days_from_civil(1992, 6, 30) == 8216) by { lemma_days_before_month_values(1992); }
    assert(spec_days_from_civil(1992, 7, 1) == 8217) by { lemma_days_before_month_values(1992); }
    assert(spec_days_from_civil(1993, 6, 30) == 8581) by { lemma_days_before_month_values(1993); }
    assert(spec_days_from_civil(1993, 7, 1) == 8582) by { lemma_days_before_month_values(1993); }
    assert(spec_days_from_civil(1994, 6, 30) == 8946) by { lemma_days_before_month_values(1994); }
    assert(spec_days_from_civil(1994, 7, 1) == 8947) by { lemma_days_before_month_values(1994); }
    assert(spec_days_from_civil(1995, 12, 31) == 9495) by { lemma_days_before_month_values(1995); }
    assert(spec_days_from_civil(1996, 1, 1) == 9496) by { lemma_days_before_month_values(1996); }
    assert(spec_days_from_civil(1997, 6, 30) == 10042) by { lemma_days_before_month_values(1997); }
    assert(spec_days_from_civil(1997, 7, 1) == 10043) by { lemma_days_before_month_values(1997); }
    assert(spec_days_from_civil(1998, 12, 31) == 10591) by { lemma_days_before_month_values(1998); }
    assert(spec_days_from_civil(1999, 1, 1) == 10592) by { lemma_days_before_month_values(1999); }
    assert(spec_days_from_civil(2005, 12, 31) == 13148) by { lemma_days_before_month_values(2005); }
    assert(spec_days_from_civil(2006, 1, 1) == 13149) by { lemma_days_before_month_values(2006); }
    assert(spec_days_from_civil(2008, 12, 31) == 14244) by { lemma_days_before_month_values(2008); }
    assert(spec_days_from_civil(2009, 1, 1) == 14245) by { lemma_days_before_month_values(2009); }
    assert(spec_days_from_civil(2012, 6, 30) == 15521) by { lemma_days_before_month_values(2012); }
    assert(spec_days_from_civil(2012, 7, 1) == 15522) by { lemma_days_before_month_values(2012); }
    assert(spec_days_from_civil(2015, 6, 30) == 16616) by { lemma_days_before_month_values(2015); }
    assert(spec_days_from_civil(2015, 7, 1) == 16617) by { lemma_days_before_month_values(2015); }
    assert(spec_days_from_civil(2016, 12, 31) == 17166) by { lemma_days_before_month_values(2016); }
    assert(spec_days_from_civil(2017, 1, 1) == 17167) by { lemma_days_before_month_values(2017); }
    let t = spec_gps_utc_leap_seconds();
    assert forall|k: int| 0 <= k < t.len() - 1 implies leap_effective_gps_day(t[k]) + 2
        <= leap_effective_gps_day(#[trigger] t[k + 1]) by {}
    assert forall|j: int, k: int| 0 <= j < k < t.len() implies leap_effective_gps_day(t[j]) + 2
        <= leap_effective_gps_day(t[k]) by {
        lemma_ordered_steps(t, j, k);
    }
}

proof fn lemma_ordered_steps(t: Seq<LeapSecond>, j: int, k: int)
    requires
        0 <= j < k < t.len(),
        forall|i: int| 0 <= i < t.len() - 1 ==> leap_effective_gps_day(t[i]) + 2
            <= leap_effective_gps_day(#[trigger] t[i + 1]),
    ensures
        leap_effective_gps_day(t[j]) + 2 <= leap_effective_gps_day(t[k]),
    decreases k - j,
{
    assert(leap_effective_gps_day(t[k - 1]) + 2 <= leap_effective_gps_day(t[(k - 1) + 1]));
    if j < k - 1 {
        lemma_ordered_steps(t, j, k - 1);
    }
}

/// The last entry of the leading run of entries that satisfy `pred`, if any.
pub open spec fn leading_run_last(table: Seq<LeapSecond>, pred: spec_fn(LeapSecond) -> bool) -> Option<LeapSecond>
    decreases table.len(),
{
    if table.len() == 0 || !pred(table[0]) {
        None
    } else {
        match leading_run_last(table.drop_first(), pred) {
            Some(leap) => Some(leap),
            None => Some(table[0]),
        }
    }
}

/// The first entry that satisfies `pred`, if any.
pub open spec fn first_match(table: Seq<LeapSecond>, pred: spec_fn(LeapSecond) -> bool) -> Option<LeapSecond>
    decreases table.len(),
{
    if table.len() == 0 {
        None
    } else if pred(table[0]) {
        Some(table[0])
    } else {
        first_match(table.drop_first(), pred)
    }
}

/// A leading run of length `run` determines `leading_run_last`.
pub proof fn lemma_leading_run_last(table: Seq<LeapSecond>, pred: spec_fn(LeapSecond) -> bool, run: int)
    requires
        0 <= run <= table.len(),
        forall|k: int| 0 <= k < run ==> pred(#[trigger] table[k]),
        run == table.len() || !pred(table[run]),
    ensures
        leading_run_last(table, pred) == if run == 0 {
            None
        } else {
            Some(table[run - 1])
        },
    decreases table.len(),
{
    if run > 0 {
        let rest = table.drop_first();
        assert forall|k: int| 0 <= k < run - 1 implies pred(#[trigger] rest[k]) by {
            assert(rest[k] == table[k + 1]);
        }
        if run < table.len() {
            assert(rest[run - 1] == table[run]);
        }
        lemma_leading_run_last(rest, pred, run - 1);
        if run > 1 {
            assert(rest[run - 2] == table[run - 1]);
        }
    }
}

/// The first index satisfying `pred` determines `first_match`.
pub proof fn lemma_first_match(table: Seq<LeapSecond>, pred: spec_fn(LeapSecond) -> bool, index: int)
    requires
        0 <= index <= table.len(),
        forall|k: int| 0 <= k < index ==> !pred(#[trigger] table[k]),
        index == table.len() || pred(table[index]),
    ensures
        first_match(table, pred) == if index == table.len() {
            None
        } else {
            Some(table[index])
        },
    decreases table.len(),
{
    if table.len() > 0 && index > 0 {
        let rest = table.drop_first();
        assert forall|k: int| 0 <= k < index - 1 implies !pred(#[trigger] rest[k]) by {
            assert(rest[k] == table[k + 1]);
        }
        if index < table.len() {
            assert(rest[index - 1] == table[index]);
        }
        assert(!pred(table[0]));
        lemma_first_match(rest, pred, index - 1);
    }
}


/// The leap seconds announced in IERS Bulletin C since the GPS epoch: the
/// year and month whose last day ends with the inserted second `23:59:60`.
pub open spec fn bulletin_c_insertions() -> Seq<(int, int)> {
    seq![
        (1981, 6), (1982, 6), (1983, 6), (1985, 6), (1987, 12), (1989, 12), (1990, 12), (1992, 6),
        (1993, 6), (1994, 6), (1995, 12), (1997, 6), (1998, 12), (2005, 12), (2008, 12), (2012, 6),
        (2015, 6), (2016, 12),
    ]
}

/// The first day of the month after `month` of `year`.
pub open spec fn first_of_next_month(year: int, month: int) -> (int, int, int) {
    if month == 12 {
        (year + 1, 1, 1)
    } else {
        (year, month + 1, 1)
    }
}

/// The maintained history is the IERS Bulletin C record: entry `k` is the
/// `k`-th announced leap second, inserted on the last day of its month,
/// effective from the first day of the next month, and raises GPS minus UTC
/// to `k + 1` seconds.
pub proof fn lemma_leap_history_follows_bulletin_c()
    ensures
        spec_gps_utc_leap_seconds().len() == bulletin_c_insertions().len(),
        forall|k: int|
            0 <= k < 18 ==> {
                let leap = #[trigger] spec_gps_utc_leap_seconds()[k];
                let (year, month) = bulletin_c_insertions()[k];
                &&& leap.insertion_year == year
                &&& leap.insertion_month == month
                &&& leap.insertion_day == spec_days_in_month(year, month)
                &&& (leap.effective_year as int, leap.effective_month as int, leap.effective_day as int)
                    == first_of_next_month(year, month)
                &&& leap.gps_utc_offset == k + 1
            },
{
    let t = spec_gps_utc_leap_seconds();
    let b = bulletin_c_insertions();
    assert forall|k: int| 0 <= k < 18 implies {
        let leap = #[trigger] t[k];
        let (year, month) = b[k];
        &&& leap.insertion_year == year
        &&& leap.insertion_month == month
        &&& leap.insertion_day == spec_days_in_month(year, month)
        &&& (leap.effective_year as int, leap.effective_month as int, leap.effective_day as int)
            == first_of_next_month(year, month)
        &&& leap.gps_utc_offset == k + 1
    } by {
        if k == 0 {} else if k == 1 {} else if k == 2 {} else if k == 3 {} else if k == 4 {}
        else if k == 5 {} else if k == 6 {} else if k == 7 {} else if k == 8 {} else if k == 9 {}
        else if k == 10 {} else if k == 11 {} else if k == 12 {} else if k == 13 {}
        else if k == 14 {} else if k == 15 {} else if k == 16 {} else {}
    }
}

} // verus!
