//! Segment boundaries: where each segment of an asset starts and how long it
//! lasts, for fixed-duration and keyframe-aligned segmentation.
//!
//! Time is counted in integer ticks of one microsecond.
use vstd::prelude::*;

use crate::error::AppError;

verus! {

/// Ticks in one second.
pub const TICKS_PER_SECOND: u64 = 1000000;

/// Length of a fixed-duration segment: four seconds.
pub const SEGMENT_DURATION: u64 = 4000000;

/// Sum of a sequence of durations.
pub open spec fn seq_sum(s: Seq<u64>) -> int
    decreases s.len(),
{
    if s.len() == 0 {
        0
    } else {
        seq_sum(s.drop_last()) + s.last()
    }
}

/// Largest element of a sequence of durations, 0 for the empty sequence.
pub open spec fn seq_max(s: Seq<u64>) -> int
    decreases s.len(),
{
    if s.len() == 0 {
        0
    } else if seq_max(s.drop_last()) >= s.last() {
        seq_max(s.drop_last())
    } else {
        s.last() as int
    }
}

/// `a / b` rounded up.
pub open spec fn ceil_div(a: int, b: int) -> int {
    if a % b == 0 {
        a / b
    } else {
        a / b + 1
    }
}

/// Number of segments of a stream of `total` ticks cut every `seg` ticks:
/// one for an empty stream, `ceil(total / seg)` otherwise.
pub open spec fn fixed_count(total: u64, seg: u64) -> int {
    if total == 0 {
        1
    } else {
        (total - 1) / (seg as int) + 1
    }
}

/// Start of segment `i` under fixed-duration segmentation.
pub open spec fn fixed_start(seg: u64, i: int) -> int {
    i * seg
}

/// Duration of segment `i`: `seg`, or what remains of the stream when the
/// segment would run past its end.
pub open spec fn fixed_duration(total: u64, seg: u64, i: int) -> u64 {
    if (i + 1) * seg < total {
        seg
    } else {
        (total - i * seg) as u64
    }
}

/// The durations of all segments, in order.
pub open spec fn fixed_durations(total: u64, seg: u64) -> Seq<u64> {
    Seq::new(fixed_count(total, seg) as nat, |i: int| fixed_duration(total, seg, i))
}

/// A keyframe list is ascending.
pub open spec fn is_ascending(k: Seq<u64>) -> bool {
    forall|i: int, j: int| 0 <= i <= j < k.len() ==> k[i] <= k[j]
}

/// Start of segment `i` under keyframe-aligned segmentation.
pub open spec fn keyframe_start(k: Seq<u64>, i: int) -> u64 {
    if i == 0 {
        0
    } else {
        k[i - 1]
    }
}

/// The durations of the keyframe-aligned segments: the gaps between
/// consecutive boundaries, the first measured from zero.
pub open spec fn keyframe_durations(k: Seq<u64>) -> Seq<u64> {
    Seq::new(k.len(), |i: int| (k[i] - keyframe_start(k, i)) as u64)
}

proof fn lemma_fixed_shape(total: u64, seg: u64, i: int)
    requires
        seg > 0,
        total > 0,
        0 <= i < fixed_count(total, seg),
    ensures
        i + 1 < fixed_count(total, seg) ==> (i + 1) * seg < total,
        i + 1 == fixed_count(total, seg) ==> (i + 1) * seg >= total,
        i * seg < total,
{
    let q = (total - 1) / (seg as int);
    let r = (total - 1) % (seg as int);
    assert((total - 1) == q * seg + r && 0 <= r < seg) by {
        vstd::arithmetic::div_mod::lemma_fundamental_div_mod((total - 1) as int, seg as int);
    }
    assert(i <= q);
    if i + 1 <= q {
        assert((i + 1) * seg <= q * seg) by (nonlinear_arith)
            requires
                i + 1 <= q,
                seg > 0,
        ;
    }
    if i + 1 == q + 1 {
        assert((i + 1) * seg == q * seg + seg) by (nonlinear_arith)
            requires
                i + 1 == q + 1,
        ;
    }
    assert(i * seg <= q * seg) by (nonlinear_arith)
        requires
            i <= q,
            seg > 0,
    ;
}

proof fn lemma_mul_succ(i: int, seg: int)
    ensures
        (i + 1) * seg == i * seg + seg,
{
    assert((i + 1) * seg == i * seg + seg) by (nonlinear_arith);
}

/// Returns the number of segments of a stream of `total` ticks cut every
/// `seg` ticks.
pub fn fixed_segment_count(total: u64, seg: u64) -> (r: u64)
    requires
        seg > 0,
    ensures
        r == fixed_count(total, seg),
{
    if total == 0 {
        1
    } else {
        (total - 1) / seg + 1
    }
}

/// Start and duration of segment `segment_idx` of a stream of `total` ticks
/// cut every `seg` ticks; an index at or past the last segment is an error.
pub fn fixed_segment_boundary(total: u64, seg: u64, segment_idx: u64) -> (r: Result<
    (u64, u64),
    AppError,
>)
    requires
        seg > 0,
    ensures
        segment_idx >= fixed_count(total, seg) <==> r is Err,
        r is Err ==> r == Err::<(u64, u64), AppError>(AppError::IndexOutOfRange),
        r is Ok ==> r->Ok_0.0 == fixed_start(seg, segment_idx as int) && r->Ok_0.1
            == fixed_duration(total, seg, segment_idx as int),
{
    let count = fixed_segment_count(total, seg);
    if segment_idx >= count {
        return Err(AppError::IndexOutOfRange);
    }
    if total == 0 {
        assert(segment_idx == 0);
        assert(fixed_duration(total, seg, 0) == 0);
        return Ok((0, 0));
    }
    proof {
        lemma_fixed_shape(total, seg, segment_idx as int);
        lemma_mul_succ(segment_idx as int, seg as int);
    }
    let start: u64 = segment_idx * seg;
    let duration: u64 = if seg < total - start {
        seg
    } else {
        total - start
    };
    Ok((start, duration))
}

/// The durations of every segment of a stream of `total` ticks cut every
/// `seg` ticks, in the order in which a playlist lists them.
pub fn fixed_playlist_durations(total: u64, seg: u64) -> (r: Vec<u64>)
    requires
        seg > 0,
    ensures
        r@ == fixed_durations(total, seg),
{
    let mut durations: Vec<u64> = Vec::new();
    let mut cur: u64 = 0;
    let ghost n = fixed_count(total, seg);
    while cur < total && seg < total - cur
        invariant
            seg > 0,
            n == fixed_count(total, seg),
            durations.len() < n,
            cur == durations.len() * seg,
            cur <= total,
            forall|j: int| 0 <= j < durations.len() ==> durations@[j] == fixed_duration(total, seg, j),
        decreases total - cur,
    {
        proof {
            lemma_fixed_shape(total, seg, durations.len() as int);
            lemma_mul_succ(durations.len() as int, seg as int);
            if durations.len() + 1 == n {
                assert(false);
            }
        }
        durations.push(seg);
        cur = cur + seg;
    }
    proof {
        if total > 0 {
            lemma_fixed_shape(total, seg, durations.len() as int);
            lemma_mul_succ(durations.len() as int, seg as int);
            if durations.len() + 1 < n {
                assert(false);
            }
        }
    }
    durations.push(total - cur);
    assert(durations@ =~= fixed_durations(total, seg));
    durations
}

/// Target duration a playlist advertises for these segment durations: the
/// longest one in whole seconds, rounded up.
pub open spec fn target_of(durations: Seq<u64>) -> int {
    ceil_div(seq_max(durations), TICKS_PER_SECOND as int)
}

proof fn lemma_seq_sum_take_succ(s: Seq<u64>, k: int)
    requires
        0 <= k < s.len(),
    ensures
        seq_sum(s.take(k + 1)) == seq_sum(s.take(k)) + s[k],
{
    assert(s.take(k + 1).drop_last() =~= s.take(k));
}

proof fn lemma_seq_max_take_succ(s: Seq<u64>, k: int)
    requires
        0 <= k < s.len(),
    ensures
        seq_max(s.take(k + 1)) == if seq_max(s.take(k)) >= s[k] {
            seq_max(s.take(k))
        } else {
            s[k] as int
        },
{
    assert(s.take(k + 1).drop_last() =~= s.take(k));
}

/// Under fixed-duration segmentation, segment `i` starts where the playlist's
/// first `i` entries end, and lasts as long as the playlist's entry `i`.
pub proof fn lemma_fixed_boundaries_match_playlist(total: u64, seg: u64, i: int)
    requires
        seg > 0,
        0 <= i < fixed_count(total, seg),
    ensures
        fixed_start(seg, i) == seq_sum(fixed_durations(total, seg).take(i)),
        fixed_duration(total, seg, i) == fixed_durations(total, seg)[i],
    decreases i,
{
    let durations = fixed_durations(total, seg);
    if i == 0 {
        assert(durations.take(0) =~= Seq::<u64>::empty());
        assert(fixed_start(seg, 0) == 0);
    } else {
        lemma_fixed_boundaries_match_playlist(total, seg, i - 1);
        lemma_seq_sum_take_succ(durations, i - 1);
        lemma_fixed_shape(total, seg, i - 1);
        lemma_mul_succ(i - 1, seg as int);
        assert(durations[i - 1] == seg);
    }
}

/// Under fixed-duration segmentation the segment durations add up to the
/// length of the stream.
pub proof fn lemma_fixed_durations_sum(total: u64, seg: u64)
    requires
        seg > 0,
    ensures
        seq_sum(fixed_durations(total, seg)) == total,
{
    let durations = fixed_durations(total, seg);
    let n = fixed_count(total, seg);
    lemma_fixed_boundaries_match_playlist(total, seg, n - 1);
    lemma_seq_sum_take_succ(durations, n - 1);
    assert(durations.take(n) =~= durations);
    if total > 0 {
        lemma_fixed_shape(total, seg, n - 1);
        lemma_mul_succ(n - 1, seg as int);
    } else {
        assert(fixed_start(seg, 0) == 0);
    }
}

proof fn lemma_fixed_prefix_max(total: u64, seg: u64, k: int)
    requires
        seg > 0,
        0 <= k < fixed_count(total, seg),
    ensures
        seq_max(fixed_durations(total, seg).take(k)) == if k == 0 {
            0
        } else {
            seg as int
        },
    decreases k,
{
    let durations = fixed_durations(total, seg);
    if k == 0 {
        assert(durations.take(0) =~= Seq::<u64>::empty());
    } else {
        lemma_fixed_prefix_max(total, seg, k - 1);
        lemma_fixed_shape(total, seg, k - 1);
        lemma_seq_max_take_succ(durations, k - 1);
    }
}

/// Under fixed-duration segmentation the longest segment lasts the shorter
/// of the stream and the segment length.
pub proof fn lemma_fixed_longest(total: u64, seg: u64)
    requires
        seg > 0,
    ensures
        seq_max(fixed_durations(total, seg)) == if total <= seg {
            total as int
        } else {
            seg as int
        },
{
    let durations = fixed_durations(total, seg);
    let n = fixed_count(total, seg);
    lemma_fixed_prefix_max(total, seg, n - 1);
    lemma_seq_max_take_succ(durations, n - 1);
    assert(durations.take(n) =~= durations);
    if total > 0 {
        lemma_fixed_shape(total, seg, n - 1);
        lemma_mul_succ(n - 1, seg as int);
        if n > 1 {
            assert(total > seg) by {
                lemma_fixed_shape(total, seg, 0);
            }
        } else {
            assert(total <= seg);
        }
    }
}

/// Under keyframe-aligned segmentation, segment `i` starts where the
/// playlist's first `i` entries end.
pub proof fn lemma_keyframe_boundaries_match_playlist(k: Seq<u64>, i: int)
    requires
        is_ascending(k),
        0 <= i < k.len(),
    ensures
        keyframe_start(k, i) == seq_sum(keyframe_durations(k).take(i)),
    decreases i,
{
    let durations = keyframe_durations(k);
    if i == 0 {
        assert(durations.take(0) =~= Seq::<u64>::empty());
    } else {
        lemma_keyframe_boundaries_match_playlist(k, i - 1);
        lemma_seq_sum_take_succ(durations, i - 1);
        if i - 1 > 0 {
            assert(k[i - 2] <= k[i - 1]);
        }
    }
}

/// Under keyframe-aligned segmentation the segment durations add up to the
/// last boundary, the end of the stream.
pub proof fn lemma_keyframe_durations_sum(k: Seq<u64>)
    requires
        is_ascending(k),
        k.len() > 0,
    ensures
        seq_sum(keyframe_durations(k)) == k.last(),
{
    let durations = keyframe_durations(k);
    let n = k.len() as int;
    lemma_keyframe_boundaries_match_playlist(k, n - 1);
    lemma_seq_sum_take_succ(durations, n - 1);
    assert(durations.take(n) =~= durations);
    if n > 1 {
        assert(k[n - 2] <= k[n - 1]);
    }
}

/// Start and duration of segment `segment_idx` cut at the ascending
/// boundaries `keyframes`; an index at or past the last boundary is an error.
pub fn keyframe_segment_boundary(keyframes: &Vec<u64>, segment_idx: usize) -> (r: Result<
    (u64, u64),
    AppError,
>)
    requires
        is_ascending(keyframes@),
    ensures
        segment_idx >= keyframes@.len() <==> r is Err,
        r is Err ==> r == Err::<(u64, u64), AppError>(AppError::IndexOutOfRange),
        r is Ok ==> r->Ok_0.0 == keyframe_start(keyframes@, segment_idx as int) && r->Ok_0.1
            == keyframe_durations(keyframes@)[segment_idx as int],
{
    if segment_idx >= keyframes.len() {
        return Err(AppError::IndexOutOfRange);
    }
    let start: u64 = if segment_idx == 0 {
        0
    } else {
        keyframes[segment_idx - 1]
    };
    proof {
        if segment_idx > 0 {
            assert(keyframes@[segment_idx - 1] <= keyframes@[segment_idx as int]);
        }
    }
    let end: u64 = keyframes[segment_idx];
    Ok((start, end - start))
}

/// The durations of the segments cut at the ascending boundaries
/// `keyframes`, in the order in which a playlist lists them.
pub fn keyframe_playlist_durations(keyframes: &Vec<u64>) -> (r: Vec<u64>)
    requires
        is_ascending(keyframes@),
    ensures
        r@ == keyframe_durations(keyframes@),
{
    let mut durations: Vec<u64> = Vec::new();
    let mut prev: u64 = 0;
    let mut i: usize = 0;
    while i < keyframes.len()
        invariant
            is_ascending(keyframes@),
            i <= keyframes.len(),
            durations.len() == i,
            prev == keyframe_start(keyframes@, i as int),
            i < keyframes.len() ==> prev <= keyframes@[i as int],
            forall|j: int| 0 <= j < i ==> durations@[j] == keyframe_durations(keyframes@)[j],
        decreases keyframes.len() - i,
    {
        let end = keyframes[i];
        durations.push(end - prev);
        prev = end;
        i = i + 1;
        proof {
            if i < keyframes.len() {
                assert(keyframes@[i - 1] <= keyframes@[i as int]);
            }
        }
    }
    assert(durations@ =~= keyframe_durations(keyframes@));
    durations
}

/// The target duration a playlist advertises for `durations`: the longest
/// duration in whole seconds, rounded up (0 when there is none).
pub fn target_duration(durations: &Vec<u64>) -> (r: u64)
    ensures
        r == target_of(durations@),
{
    let mut longest: u64 = 0;
    let mut i: usize = 0;
    assert(durations@.take(0) =~= Seq::<u64>::empty());
    while i < durations.len()
        invariant
            i <= durations.len(),
            longest == seq_max(durations@.take(i as int)),
        decreases durations.len() - i,
    {
        proof {
            lemma_seq_max_take_succ(durations@, i as int);
        }
        if durations[i] > longest {
            longest = durations[i];
        }
        i = i + 1;
    }
    assert(durations@.take(durations.len() as int) =~= durations@);
    if longest % TICKS_PER_SECOND == 0 {
        longest / TICKS_PER_SECOND
    } else {
        longest / TICKS_PER_SECOND + 1
    }
}

} // verus!
