//! Range Planner: partitions the byte space `[0, total_length)` of a resource
//! into one closed interval per task, the last interval open-ended so that the
//! remainder of the integer division is absorbed by the final task.

use vstd::prelude::*;
use crate::ByteInterval;

verus! {

/// The chunk size the planner uses: `total / count` by integer division.
pub open spec fn chunk_size(total: int, count: int) -> int {
    total / count
}

/// Whether byte position `b` of a resource of length `total` falls inside the
/// interval. A bounded interval holds the bytes `start ..= end`; an open-ended
/// interval holds every byte from `start` through the end of the resource.
pub open spec fn interval_covers(iv: ByteInterval, b: int, total: int) -> bool {
    match iv {
        ByteInterval::Bounded { start, end } => start <= b && b <= end,
        ByteInterval::OpenEnded { start } => start <= b && b < total,
    }
}

/// The shape of the planner's output for `total` bytes split over `count`
/// tasks: `count` intervals, interval `i` being
/// `[chunk*i, chunk*(i+1) - 1]` for every `i` but the last, and the last
/// starting at `chunk*(count-1)` and running to the end of the resource.
pub open spec fn is_plan(ivs: Seq<ByteInterval>, total: int, count: int) -> bool {
    &&& ivs.len() == count
    &&& forall|i: int|
        0 <= i < count - 1 ==> ivs[i] == (ByteInterval::Bounded {
            start: (chunk_size(total, count) * i) as u64,
            end: (chunk_size(total, count) * (i + 1) - 1) as u64,
        })
    &&& count >= 1 ==> ivs[count - 1] == (ByteInterval::OpenEnded {
        start: (chunk_size(total, count) * (count - 1)) as u64,
    })
}

/// Whether some interval of `ivs` covers byte position `b` of a resource of
/// length `total`.
pub open spec fn some_interval_covers(ivs: Seq<ByteInterval>, b: int, total: int) -> bool {
    exists|i: int| 0 <= i < ivs.len() && interval_covers(ivs[i], b, total)
}

/// The planner accepts exactly these arguments: at least one task, and, when
/// the byte space is really split, a chunk of at least one byte (with more
/// tasks than bytes the bounded intervals' arithmetic has no meaning).
pub open spec fn plan_args_ok(total: int, count: int) -> bool {
    &&& count >= 1
    &&& count > 1 ==> chunk_size(total, count) >= 1
}

proof fn lemma_mul_mono(c: int, a: int, b: int)
    requires
        0 <= c,
        a <= b,
    ensures
        c * a <= c * b,
{
    assert(c * a <= c * b) by (nonlinear_arith)
        requires
            0 <= c,
            a <= b,
    ;
}

/// `chunk * count` never exceeds `total`: the division's remainder is
/// non-negative.
proof fn lemma_chunk_times_count(total: int, count: int)
    requires
        0 <= total,
        1 <= count,
    ensures
        0 <= chunk_size(total, count),
        chunk_size(total, count) * count <= total,
{
    vstd::arithmetic::div_mod::lemma_fundamental_div_mod(total, count);
    vstd::arithmetic::div_mod::lemma_mod_bound(total, count);
    vstd::arithmetic::div_mod::lemma_div_pos_is_pos(total, count);
    assert(count * (total / count) == (total / count) * count) by (nonlinear_arith);
}

/// Splits `[0, total_length)` into `task_count` intervals.
///
/// Interval `i` is `[chunk*i, chunk*(i+1) - 1]` with
/// `chunk = total_length / task_count`; the last interval is open-ended from
/// `chunk*(task_count-1)`, absorbing any remainder of the division.
pub fn plan(total_length: u64, task_count: u64) -> (r: Vec<ByteInterval>)
    requires
        plan_args_ok(total_length as int, task_count as int),
    ensures
        is_plan(r@, total_length as int, task_count as int),
{
    proof {
        lemma_chunk_times_count(total_length as int, task_count as int);
    }
    let chunk: u64 = total_length / task_count;
    let mut r: Vec<ByteInterval> = Vec::new();
    let mut i: u64 = 0;
    while i < task_count - 1
        invariant
            task_count >= 1,
            chunk == chunk_size(total_length as int, task_count as int),
            task_count > 1 ==> chunk >= 1,
            chunk * task_count <= total_length,
            0 <= i <= task_count - 1,
            r@.len() == i,
            forall|j: int|
                0 <= j < i ==> r@[j] == (ByteInterval::Bounded {
                    start: (chunk_size(total_length as int, task_count as int) * j) as u64,
                    end: (chunk_size(total_length as int, task_count as int) * (j + 1) - 1) as u64,
                }),
        decreases task_count - 1 - i,
    {
        proof {
            lemma_mul_mono(chunk as int, 0, i as int);
            lemma_mul_mono(chunk as int, i as int, i as int + 1);
            lemma_mul_mono(chunk as int, 1, i as int + 1);
            lemma_mul_mono(chunk as int, i as int + 1, task_count as int);
        }
        let start: u64 = chunk * i;
        let end: u64 = chunk * (i + 1) - 1;
        r.push(ByteInterval::Bounded { start, end });
        i = i + 1;
    }
    proof {
        lemma_mul_mono(chunk as int, task_count as int - 1, task_count as int);
    }
    let last_start: u64 = chunk * (task_count - 1);
    r.push(ByteInterval::OpenEnded { start: last_start });
    r
}

proof fn lemma_plan_disjoint_ordered(ivs: Seq<ByteInterval>, total: int, count: int, i: int, j: int, b: int)
    requires
        plan_args_ok(total, count),
        0 <= total <= u64::MAX,
        is_plan(ivs, total, count),
        0 <= i < j < count,
        interval_covers(ivs[i], b, total),
    ensures
        !interval_covers(ivs[j], b, total),
{
    let chunk = chunk_size(total, count);
    lemma_chunk_times_count(total, count);
    lemma_mul_mono(chunk, 0, i);
    lemma_mul_mono(chunk, 1, i + 1);
    lemma_mul_mono(chunk, i + 1, count);
    lemma_mul_mono(chunk, 0, j);
    lemma_mul_mono(chunk, j, count);
    lemma_mul_mono(chunk, 0, count - 1);
    lemma_mul_mono(chunk, count - 1, count);
    // interval `i` is bounded, so `b <= chunk*(i+1) - 1`; interval `j` starts
    // at or above `chunk*j >= chunk*(i+1)`, so `b` lies below its start.
    assert(b <= chunk * (i + 1) - 1);
    lemma_mul_mono(chunk, i + 1, j);
    assert(b < chunk * j);
}

/// The planner's partition law: for every admissible `total` and `count`, the
/// planned intervals are pairwise disjoint, every covered byte lies in
/// `[0, total)`, every byte of `[0, total)` is covered by some interval, and
/// the last interval starts at `chunk * (count - 1)`.
pub proof fn lemma_plan_partition(ivs: Seq<ByteInterval>, total: int, count: int)
    requires
        plan_args_ok(total, count),
        0 <= total <= u64::MAX,
        is_plan(ivs, total, count),
    ensures
        forall|i: int, j: int, b: int|
            0 <= i < count && 0 <= j < count && i != j ==> !(interval_covers(ivs[i], b, total)
                && interval_covers(ivs[j], b, total)),
        forall|i: int, b: int|
            0 <= i < count && interval_covers(ivs[i], b, total) ==> 0 <= b < total,
        forall|b: int| 0 <= b < total ==> some_interval_covers(ivs, b, total),
        ivs[count - 1] == (ByteInterval::OpenEnded {
            start: (chunk_size(total, count) * (count - 1)) as u64,
        }),
{
    let chunk = chunk_size(total, count);
    lemma_chunk_times_count(total, count);
    lemma_mul_mono(chunk, 0, count - 1);
    lemma_mul_mono(chunk, count - 1, count);
    assert forall|i: int, j: int, b: int|
        0 <= i < count && 0 <= j < count && i != j implies !(interval_covers(ivs[i], b, total)
        && interval_covers(ivs[j], b, total)) by {
        if interval_covers(ivs[i], b, total) && interval_covers(ivs[j], b, total) {
            if i < j {
                lemma_plan_disjoint_ordered(ivs, total, count, i, j, b);
            } else {
                lemma_plan_disjoint_ordered(ivs, total, count, j, i, b);
            }
        }
    }
    assert forall|i: int, b: int|
        0 <= i < count && interval_covers(ivs[i], b, total) implies 0 <= b < total by {
        if i < count - 1 {
            lemma_mul_mono(chunk, 0, i);
            lemma_mul_mono(chunk, 1, i + 1);
            lemma_mul_mono(chunk, i + 1, count);
            assert(b <= chunk * (i + 1) - 1 < total);
        }
    }
    assert forall|b: int| 0 <= b < total implies some_interval_covers(ivs, b, total) by {
        if count == 1 {
            assert(chunk * 0 == 0);
            assert(interval_covers(ivs[0], b, total));
        } else {
            // chunk >= 1 here; the index of the interval holding `b` is
            // `b / chunk`, clipped to the open-ended last interval.
            let q = b / chunk;
            vstd::arithmetic::div_mod::lemma_fundamental_div_mod(b, chunk);
            vstd::arithmetic::div_mod::lemma_mod_bound(b, chunk);
            vstd::arithmetic::div_mod::lemma_div_pos_is_pos(b, chunk);
            assert(b == chunk * q + b % chunk);
            if q <= count - 2 {
                lemma_mul_mono(chunk, 0, q);
                lemma_mul_mono(chunk, q + 1, count);
                assert(chunk * (q + 1) == chunk * q + chunk) by (nonlinear_arith);
                assert(chunk * q <= b);
                assert(b <= chunk * (q + 1) - 1);
                assert(interval_covers(ivs[q], b, total));
            } else {
                lemma_mul_mono(chunk, count - 1, q);
                lemma_mul_mono(chunk, 0, count - 1);
                assert(chunk * q <= b);
                assert(chunk * (count - 1) <= b);
                assert(interval_covers(ivs[count - 1], b, total));
            }
        }
    }
}

} // verus!
