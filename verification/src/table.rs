//! Shared lookup logic for the critical-value tables: find the first
//! column whose critical value strictly exceeds a statistic and report
//! that column's tail area.

use vstd::prelude::*;

use crate::fixed::SCALE;

verus! {

/// Index of the first entry of `row` strictly above `t`, or the row's
/// length when no entry exceeds it. A statistic exactly equal to an
/// entry does not count as exceeded: the deliberate conservative bias
/// of the tables.
pub open spec fn first_exceed(row: Seq<i64>, t: int) -> int
    decreases row.len(),
{
    if row.len() == 0 {
        0
    } else if row[0] > t {
        0
    } else {
        1 + first_exceed(row.drop_first(), t)
    }
}

/// The tail area reported for statistic `t` against `row`, over the
/// descending `areas`: the area of the first exceeded column, or zero
/// when the statistic passes the whole row.
pub open spec fn scan_area(areas: Seq<i64>, row: Seq<i64>, t: int) -> int {
    let i = first_exceed(row, t);
    if i >= areas.len() {
        0
    } else {
        areas[i] as int
    }
}

/// The first exceeded column is within the row's bounds.
pub proof fn lemma_first_exceed_range(row: Seq<i64>, t: int)
    ensures
        0 <= first_exceed(row, t) <= row.len(),
    decreases row.len(),
{
    if row.len() > 0 && !(row[0] > t) {
        lemma_first_exceed_range(row.drop_first(), t);
    }
}

/// A larger statistic never exceeds a column earlier.
pub proof fn lemma_first_exceed_monotone(row: Seq<i64>, t1: int, t2: int)
    requires
        t1 <= t2,
    ensures
        first_exceed(row, t1) <= first_exceed(row, t2),
    decreases row.len(),
{
    if row.len() > 0 {
        if row[0] > t2 {
        } else if row[0] > t1 {
            lemma_first_exceed_range(row.drop_first(), t2);
        } else {
            lemma_first_exceed_monotone(row.drop_first(), t1, t2);
        }
    }
}

/// Whether a sequence of areas descends (weakly) and stays within the
/// unit range.
pub open spec fn descending_areas(areas: Seq<i64>) -> bool {
    &&& forall|i: int, j: int|
        0 <= i <= j < areas.len() ==> #[trigger] areas[i] >= #[trigger] areas[j]
    &&& forall|i: int| 0 <= i < areas.len() ==> 0 <= #[trigger] areas[i] <= SCALE
}

/// Over descending areas, the reported tail area never increases with
/// the statistic, and stays within the unit range.
pub proof fn lemma_scan_area_antitone(areas: Seq<i64>, row: Seq<i64>, t1: int, t2: int)
    requires
        descending_areas(areas),
        row.len() == areas.len(),
        t1 <= t2,
    ensures
        scan_area(areas, row, t2) <= scan_area(areas, row, t1),
        0 <= scan_area(areas, row, t2),
        scan_area(areas, row, t1) <= SCALE,
{
    lemma_first_exceed_monotone(row, t1, t2);
    lemma_first_exceed_range(row, t1);
    lemma_first_exceed_range(row, t2);
}

/// Over descending areas the reported tail area stays within the range
/// of the areas themselves.
pub proof fn lemma_scan_area_bounds(areas: Seq<i64>, row: Seq<i64>, t: int)
    requires
        descending_areas(areas),
        row.len() == areas.len(),
    ensures
        0 <= scan_area(areas, row, t),
        areas.len() > 0 ==> scan_area(areas, row, t) <= areas[0],
{
    lemma_first_exceed_range(row, t);
}

/// Index of the first entry of `row` strictly above `t`.
pub(crate) fn first_exceed_index(row: &[i64; 10], t: i64) -> (r: usize)
    ensures
        r == first_exceed(row@, t as int),
        r <= 10,
{
    proof {
        assert(row@.skip(0) =~= row@);
    }
    let mut i: usize = 0;
    while i < 10
        invariant
            0 <= i <= 10,
            first_exceed(row@, t as int) == i + first_exceed(row@.skip(i as int), t as int),
            forall|j: int| 0 <= j < i ==> !(row@[j] > t),
        decreases 10 - i,
    {
        proof {
            assert(row@.skip(i as int).len() == 10 - i);
            assert(row@.skip(i as int)[0] == row@[i as int]);
        }
        if row[i] > t {
            proof {
                assert(first_exceed(row@.skip(i as int), t as int) == 0);
            }
            return i;
        }
        proof {
            assert(row@.skip(i as int).drop_first() =~= row@.skip(i as int + 1));
            assert(first_exceed(row@.skip(i as int), t as int) == 1 + first_exceed(
                row@.skip(i as int + 1),
                t as int,
            ));
        }
        i = i + 1;
    }
    proof {
        assert(row@.skip(10) =~= Seq::<i64>::empty());
        assert(first_exceed(row@.skip(10), t as int) == 0);
    }
    10
}

} // verus!
