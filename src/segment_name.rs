//! Segment file names: a run of decimal digits followed by `.ts` at the end.
//!
//! The run is every decimal digit in Unicode's sense just before `.ts`; a run
//! that holds any digit other than `0` to `9` names no index.
use vstd::prelude::*;

use crate::digits::{is_decimal_digit, DigitClass};

use crate::error::AppError;

verus! {

/// `c` is an ASCII decimal digit.
pub open spec fn is_digit(c: char) -> bool {
    '0' <= c && c <= '9'
}

/// Value of a run of decimal digits.
pub open spec fn digits_value(s: Seq<char>) -> nat
    decreases s.len(),
{
    if s.len() == 0 {
        0
    } else {
        digits_value(s.drop_last()) * 10 + ((s.last() as int) - ('0' as int)) as nat
    }
}

/// Where the run of decimal digits (in Unicode's sense) that ends at `end` begins.
pub open spec fn digit_run_start(s: Seq<char>, end: int) -> int
    decreases end,
{
    if 0 < end <= s.len() && is_decimal_digit(s[end - 1]) {
        digit_run_start(s, end - 1)
    } else {
        end
    }
}

/// The index that a segment file name gives: the value of the run of digits
/// just before a closing `.ts`, if the name ends so and the run is not empty
/// and all of `0` to `9`.
pub open spec fn segment_index_of(s: Seq<char>) -> Option<nat> {
    if s.len() >= 3 && s.subrange(s.len() - 3, s.len() as int) == seq!['.', 't', 's'] {
        let end = s.len() - 3;
        let start = digit_run_start(s, end);
        if start < end && forall|j: int| start <= j < end ==> is_digit(#[trigger] s[j]) {
            Some(digits_value(s.subrange(start, end)))
        } else {
            None
        }
    } else {
        None
    }
}

proof fn lemma_digit_run_start(s: Seq<char>, end: int, i: int)
    requires
        0 <= i <= end <= s.len(),
        forall|j: int| i <= j < end ==> is_decimal_digit(s[j]),
        i == 0 || !is_decimal_digit(s[i - 1]),
    ensures
        digit_run_start(s, end) == i,
    decreases end,
{
    if end > i {
        lemma_digit_run_start(s, end - 1, i);
    }
}

proof fn lemma_digits_value_grows(s: Seq<char>, i: int, j: int)
    requires
        0 <= i <= j <= s.len(),
        forall|k: int| 0 <= k < s.len() ==> is_digit(s[k]),
    ensures
        digits_value(s.subrange(0, i)) <= digits_value(s.subrange(0, j)),
    decreases j - i,
{
    if i < j {
        lemma_digits_value_grows(s, i, j - 1);
        assert(s.subrange(0, j).drop_last() =~= s.subrange(0, j - 1));
    }
}

/// Reads the segment index from a file name such as `3.ts`; any name that
/// does not end in digits followed by `.ts`, or whose index does not fit in
/// `usize`, is an error.
pub fn parse_segment_filename(segment_filename: &String) -> (r: Result<usize, AppError>)
    ensures
        r is Ok <==> (segment_index_of(segment_filename@) matches Some(v) && v <= usize::MAX),
        r is Ok ==> segment_index_of(segment_filename@) == Some(r->Ok_0 as nat),
        r is Err ==> r->Err_0 is InvalidSegmentName,
{
    let s = segment_filename.as_str();
    let n = s.unicode_len();
    if n < 3 || s.get_char(n - 3) != '.' || s.get_char(n - 2) != 't' || s.get_char(n - 1) != 's' {
        proof {
            if n >= 3 && s@.subrange(n - 3, n as int) == seq!['.', 't', 's'] {
                assert(s@.subrange(n - 3, n as int)[0] == s@[n - 3]);
                assert(s@.subrange(n - 3, n as int)[1] == s@[n - 2]);
                assert(s@.subrange(n - 3, n as int)[2] == s@[n - 1]);
            }
        }
        return Err(AppError::InvalidSegmentName);
    }
    assert(s@.subrange(n - 3, n as int) =~= seq!['.', 't', 's']);
    let end: usize = n - 3;
    let class = DigitClass::new();
    let mut start: usize = end;
    while start > 0 && class.contains(s.get_char(start - 1))
        invariant
            n == s@.len(),
            end == n - 3,
            start <= end,
            forall|j: int| start <= j < end ==> is_decimal_digit(s@[j]),
        decreases start,
    {
        start = start - 1;
    }
    proof {
        lemma_digit_run_start(s@, end as int, start as int);
    }
    if start == end {
        return Err(AppError::InvalidSegmentName);
    }
    let mut k: usize = start;
    while k < end
        invariant
            n == s@.len(),
            end == n - 3,
            start <= k <= end,
            start < end,
            s@ == segment_filename@,
            digit_run_start(s@, end as int) == start,
            s@.subrange(n - 3, n as int) == seq!['.', 't', 's'],
            forall|j: int| start <= j < k ==> is_digit(s@[j]),
        decreases end - k,
    {
        let c = s.get_char(k);
        if c < '0' || c > '9' {
            assert(!is_digit(s@[k as int]));
            return Err(AppError::InvalidSegmentName);
        }
        k = k + 1;
    }
    let ghost run = s@.subrange(start as int, end as int);
    let mut value: usize = 0;
    let mut i: usize = start;
    assert(run.subrange(0, 0) =~= Seq::<char>::empty());
    while i < end
        invariant
            n == s@.len(),
            end == n - 3,
            start <= i <= end,
            start < end,
            s@ == segment_filename@,
            digit_run_start(s@, end as int) == start,
            s@.subrange(n - 3, n as int) == seq!['.', 't', 's'],
            run == s@.subrange(start as int, end as int),
            forall|j: int| start <= j < end ==> is_digit(s@[j]),
            value == digits_value(run.subrange(0, i - start)),
        decreases end - i,
    {
        let c = s.get_char(i);
        let d: usize = (c as u32 - '0' as u32) as usize;
        proof {
            assert(run.subrange(0, i + 1 - start).drop_last() =~= run.subrange(0, i - start));
        }
        if value > (usize::MAX - d) / 10 {
            proof {
                let m = usize::MAX as int;
                assert(value * 10 + d > m) by (nonlinear_arith)
                    requires
                        value > (m - d) / 10,
                        0 <= d <= 9,
                        m > 9,
                ;
                assert(run[i - start] == s@[i as int]);
                assert(digits_value(run.subrange(0, i + 1 - start)) > usize::MAX);
                lemma_digits_value_grows(run, i + 1 - start, run.len() as int);
                assert(run.subrange(0, run.len() as int) =~= run);
                assert(digits_value(run) > usize::MAX);
                assert(segment_index_of(s@) == Some(digits_value(run)));
            }
            return Err(AppError::InvalidSegmentName);
        }
        value = value * 10 + d;
        i = i + 1;
    }
    assert(run.subrange(0, run.len() as int) =~= run);
    Ok(value)
}

} // verus!
