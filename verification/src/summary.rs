//! The rules behind the records summary: the display order and the
//! aggregated durations. Rendering the table is the caller's business; the
//! order of the rows and every aggregated number are fixed here.

use vstd::prelude::*;

use crate::date::CalendarDate;
use crate::record::Record;

verus! {

/// The summary never aggregates more entries than this; it keeps every
/// minute count far inside `i64`.
pub const MAX_SUMMARY_RECORDS: usize = 0x4000_0000;

/// Signed elapsed minutes of one entry; its magnitude stays under 15555
/// even for raw `u8` fields that no parser produced.
pub open spec fn entry_minutes(r: Record) -> int {
    r.check_out.spec_total_minutes() - r.check_in.spec_total_minutes()
}

/// A rank that orders calendar dates chronologically: strictly monotone in
/// year, then month, then day, for every `u8` month and day.
pub open spec fn date_rank(d: CalendarDate) -> int {
    (d.year * 256 + d.month) * 256 + d.day
}

/// A rank that orders records chronologically: by date, then check-in time.
pub open spec fn record_rank(r: Record) -> int {
    date_rank(r.date) * 65536 + r.check_in.hour * 256 + r.check_in.minute
}

/// The summary's order: most recent first, so ranks never increase.
pub open spec fn display_sorted_desc(s: Seq<Record>) -> bool {
    forall|i: int, j: int|
        0 <= i <= j < s.len() ==> record_rank(s[i]) >= record_rank(s[j])
}

/// Whether `a` sorts at or before `b` in the display order.
fn rank_ge(a: &Record, b: &Record) -> (r: bool)
    ensures
        r == (record_rank(*a) >= record_rank(*b)),
{
    if a.date.year != b.date.year {
        a.date.year > b.date.year
    } else if a.date.month != b.date.month {
        a.date.month > b.date.month
    } else if a.date.day != b.date.day {
        a.date.day > b.date.day
    } else if a.check_in.hour != b.check_in.hour {
        a.check_in.hour > b.check_in.hour
    } else {
        a.check_in.minute >= b.check_in.minute
    }
}

/// Rearranges the records into display order: descending by date, then by
/// check-in time. Nothing is added, dropped or altered.
pub fn sort_records_desc(records: &mut Vec<Record>)
    ensures
        final(records)@.to_multiset() == old(records)@.to_multiset(),
        display_sorted_desc(final(records)@),
        final(records)@.len() == old(records)@.len(),
{
    let ghost orig = records@;
    let n = records.len();
    let mut i: usize = 1;
    while i < n
        invariant
            1 <= i <= n || n == 0,
            n == records@.len(),
            records@.to_multiset() =~= orig.to_multiset(),
            forall|a: int, b: int|
                0 <= a <= b < i ==> record_rank(records@[a]) >= record_rank(records@[b]),
        decreases n - i,
    {
        let mut j: usize = i;
        let mut done = false;
        while j > 0 && !done
            invariant
                j <= i < n,
                n == records@.len(),
                records@.to_multiset() =~= orig.to_multiset(),
                forall|a: int, b: int|
                    0 <= a <= b <= i && b != j ==> record_rank(records@[a]) >= record_rank(
                        records@[b],
                    ),
                done ==> j >= 1 && record_rank(records@[j - 1]) >= record_rank(records@[j as int]),
            decreases j, (if done {
                0int
            } else {
                1int
            }),
        {
            if rank_ge(&records[j - 1], &records[j]) {
                done = true;
            } else {
                let ghost before = records@;
                let moved = records[j];
                let displaced = records[j - 1];
                records.set(j - 1, moved);
                records.set(j, displaced);
                proof {
                    broadcast use vstd::seq_lib::to_multiset_update;
                    broadcast use vstd::seq_lib::group_to_multiset_ensures;

                    let mid = before.update(j - 1, moved);
                    assert(before[j - 1] == displaced);
                    assert(before.contains(displaced));
                    assert(mid[j as int] == moved);
                    assert(mid.contains(moved)) by {
                        assert(mid[j as int] == moved);
                    }
                    assert(records@ == mid.update(j as int, displaced));
                    assert(records@.to_multiset() =~= before.to_multiset());
                }
                j -= 1;
            }
        }
        proof {
            assert forall|a: int, b: int| 0 <= a <= b <= i implies record_rank(records@[a])
                >= record_rank(records@[b]) by {
                if b == j && a < b {
                    assert(record_rank(records@[a]) >= record_rank(records@[j - 1]));
                    assert(record_rank(records@[j - 1]) >= record_rank(records@[j as int]));
                }
            }
        }
        i += 1;
    }
}

/// Sum of the elapsed minutes of a run of entries, last entry peeled first.
pub open spec fn spec_sum_minutes(s: Seq<Record>) -> int
    decreases s.len(),
{
    if s.len() == 0 {
        0
    } else {
        spec_sum_minutes(s.drop_last()) + entry_minutes(s.last())
    }
}

/// One more entry adds exactly its elapsed minutes to a sum.
proof fn lemma_sum_minutes_push(s: Seq<Record>, r: Record)
    ensures
        spec_sum_minutes(s.push(r)) == spec_sum_minutes(s) + entry_minutes(r),
{
    assert(s.push(r).drop_last() =~= s);
    assert(s.push(r).last() == r);
    assert(spec_sum_minutes(s.push(r)) == spec_sum_minutes(s.push(r).drop_last()) + entry_minutes(
        s.push(r).last(),
    ));
}

/// A sum of entry durations can never outgrow 15555 minutes per entry.
proof fn lemma_sum_minutes_bound(s: Seq<Record>)
    ensures
        -15555 * s.len() <= spec_sum_minutes(s) <= 15555 * s.len(),
    decreases s.len(),
{
    if s.len() > 0 {
        lemma_sum_minutes_bound(s.drop_last());
    }
}

/// Signed elapsed minutes of one entry, whatever its fields hold.
fn exec_entry_minutes(r: &Record) -> (m: i32)
    ensures
        m == entry_minutes(*r),
        -15555 <= m <= 15555,
{
    (r.check_out.hour as i32 * 60 + r.check_out.minute as i32) - (r.check_in.hour as i32 * 60
        + r.check_in.minute as i32)
}

/// Total elapsed minutes over all entries.
pub fn sum_minutes(records: &Vec<Record>) -> (total: i64)
    requires
        records@.len() <= MAX_SUMMARY_RECORDS,
    ensures
        total == spec_sum_minutes(records@),
{
    let n = records.len();
    let mut total: i64 = 0;
    let mut i: usize = 0;
    while i < n
        invariant
            i <= n <= MAX_SUMMARY_RECORDS,
            n == records@.len(),
            total == spec_sum_minutes(records@.subrange(0, i as int)),
            -15555 * (i as int) <= total <= 15555 * (i as int),
        decreases n - i,
    {
        let d = exec_entry_minutes(&records[i]);
        proof {
            assert(records@.subrange(0, i + 1).drop_last() =~= records@.subrange(0, i as int));
            assert(records@.subrange(0, i + 1).last() == records@[i as int]);
        }
        total = total + d as i64;
        i += 1;
    }
    proof {
        assert(records@.subrange(0, n as int) =~= records@);
    }
    total
}

/// The entries of one calendar date, in their current order.
pub open spec fn entries_of_date(s: Seq<Record>, date: CalendarDate) -> Seq<Record> {
    s.filter(|r: Record| r.date == date)
}

/// Total elapsed minutes of the entries on one date: the summary's
/// per-date subtotal.
pub fn date_minutes(records: &Vec<Record>, date: &CalendarDate) -> (total: i64)
    requires
        records@.len() <= MAX_SUMMARY_RECORDS,
    ensures
        total == spec_sum_minutes(entries_of_date(records@, *date)),
{
    broadcast use vstd::prelude::Seq::lemma_filter_len;

    let n = records.len();
    let mut total: i64 = 0;
    let mut i: usize = 0;
    while i < n
        invariant
            i <= n <= MAX_SUMMARY_RECORDS,
            n == records@.len(),
            total == spec_sum_minutes(
                records@.subrange(0, i as int).filter(|r: Record| r.date == *date),
            ),
        decreases n - i,
    {
        let r = &records[i];
        let ghost prev = records@.subrange(0, i as int);
        let ghost cur = records@.subrange(0, i + 1);
        proof {
            reveal(Seq::filter);
            assert(cur.drop_last() =~= prev);
            assert(cur.last() == records@[i as int]);
        }
        if r.date.year == date.year && r.date.month == date.month && r.date.day == date.day {
            let d = exec_entry_minutes(r);
            proof {
                assert(records@[i as int].date == *date);
                assert(cur.filter(|rr: Record| rr.date == *date) == prev.filter(
                    |rr: Record| rr.date == *date,
                ).push(records@[i as int]));
                lemma_sum_minutes_push(
                    prev.filter(|rr: Record| rr.date == *date),
                    records@[i as int],
                );
                lemma_sum_minutes_bound(prev.filter(|rr: Record| rr.date == *date));
            }
            total = total + d as i64;
        } else {
            proof {
                assert(records@[i as int].date != *date);
                assert(cur.filter(|rr: Record| rr.date == *date) == prev.filter(
                    |rr: Record| rr.date == *date,
                ));
            }
        }
        i += 1;
    }
    proof {
        assert(records@.subrange(0, n as int) =~= records@);
    }
    total
}

} // verus!
