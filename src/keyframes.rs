//! Keyframe positions read from a prober's packet listing.
//!
//! The listing holds one packet per line, `<pts_time>,<flags>`, the time in
//! seconds with an optional fraction (`2.002000,K__`). Every run of time
//! characters (decimal digits, in Unicode's sense, and points) directly
//! followed by `,K` is a keyframe's time, wherever it stands in a line; such a
//! time that does not read as a number makes the listing unreadable. The first
//! run followed by `,` on the last line gives the closing boundary, the end of
//! the last segment; when it does not read, there is none. Times are kept in
//! ticks, digits past the sixth of the fraction dropped.
use vstd::prelude::*;

use crate::digits::{is_decimal_digit, DigitClass};
use crate::error::AppError;
use crate::timeline::{is_ascending, TICKS_PER_SECOND};

verus! {

/// `c` is one of `0` to `9`.
pub open spec fn is_ascii_digit(c: char) -> bool {
    '0' <= c && c <= '9'
}

/// `c` may stand in a time: a decimal digit or a point.
pub open spec fn is_time_char(c: char) -> bool {
    c == '.' || is_decimal_digit(c)
}

/// Every character of `s` is one of `0` to `9`.
pub open spec fn all_ascii_digits(s: Seq<char>) -> bool {
    forall|j: int| 0 <= j < s.len() ==> is_ascii_digit(#[trigger] s[j])
}

/// Value of a run of digits `0` to `9`.
pub open spec fn chars_value(s: Seq<char>) -> nat
    decreases s.len(),
{
    if s.len() == 0 {
        0
    } else {
        chars_value(s.drop_last()) * 10 + ((s.last() as int) - ('0' as int)) as nat
    }
}

/// Position of the first point in `s`, or its length when it has none.
pub open spec fn point_at(s: Seq<char>) -> int
    decreases s.len(),
{
    if s.len() == 0 || s[0] == '.' {
        0
    } else {
        1 + point_at(s.drop_first())
    }
}

/// The first six digits of a fraction, zeros added after it when it has fewer.
pub open spec fn micro_digits(f: Seq<char>) -> Seq<char> {
    Seq::new(6, |i: int| if i < f.len() { f[i] } else { '0' })
}

/// A time in seconds, as ticks: digits `0` to `9` with at most one point and
/// at least one digit; `None` for any other text or a time past `u64::MAX`
/// ticks.
pub open spec fn time_of(t: Seq<char>) -> Option<u64> {
    let p = point_at(t);
    let whole = t.subrange(0, p);
    let frac = if p < t.len() {
        t.subrange(p + 1, t.len() as int)
    } else {
        Seq::empty()
    };
    let ticks = chars_value(whole) * TICKS_PER_SECOND + chars_value(micro_digits(frac));
    if whole.len() + frac.len() > 0 && all_ascii_digits(whole) && all_ascii_digits(frac) && ticks
        <= u64::MAX {
        Some(ticks as u64)
    } else {
        None
    }
}

/// The keyframe times from position `i` on, `s` being where the run of time
/// characters that `i` continues began (negative when none); `None` when one
/// of them does not read.
pub open spec fn keyframe_scan(t: Seq<char>, i: int, s: int) -> Option<Seq<u64>>
    decreases t.len() - i,
{
    if i < 0 || i >= t.len() {
        Some(Seq::empty())
    } else if is_time_char(t[i]) {
        keyframe_scan(t, i + 1, if s < 0 { i } else { s })
    } else if 0 <= s < i && t[i] == ',' && i + 1 < t.len() && t[i + 1] == 'K' {
        match (time_of(t.subrange(s, i)), keyframe_scan(t, i + 2, -1)) {
            (Some(x), Some(rest)) => Some(seq![x] + rest),
            _ => None,
        }
    } else {
        keyframe_scan(t, i + 1, -1)
    }
}

/// The first run of time characters followed by `,` in `t[i..e]`, `s` as in
/// `keyframe_scan`.
pub open spec fn first_time_field(t: Seq<char>, i: int, e: int, s: int) -> Option<(int, int)>
    decreases e - i,
{
    if i < 0 || i >= e || i >= t.len() {
        None
    } else if is_time_char(t[i]) {
        first_time_field(t, i + 1, e, if s < 0 { i } else { s })
    } else if 0 <= s < i && t[i] == ',' {
        Some((s, i))
    } else {
        first_time_field(t, i + 1, e, -1)
    }
}

/// End of the last line: a final newline ends it.
pub open spec fn last_line_end(t: Seq<char>) -> int {
    if t.len() > 0 && t.last() == '\n' {
        t.len() - 1
    } else {
        t.len() as int
    }
}

/// Start of the line that ends at `e`.
pub open spec fn line_start(t: Seq<char>, e: int) -> int
    decreases e,
{
    if e <= 0 || e > t.len() {
        0
    } else if t[e - 1] == '\n' {
        e
    } else {
        line_start(t, e - 1)
    }
}

/// The closing boundary, when the last line gives one that reads.
pub open spec fn closing_times(t: Seq<char>) -> Seq<u64> {
    let e = last_line_end(t);
    match first_time_field(t, line_start(t, e), e, -1) {
        Some((a, b)) => match time_of(t.subrange(a, b)) {
            Some(x) => seq![x],
            None => Seq::empty(),
        },
        None => Seq::empty(),
    }
}

/// The segment boundaries that a listing gives; `None` when a keyframe's time
/// does not read.
pub open spec fn listing_boundaries(t: Seq<char>) -> Option<Seq<u64>> {
    match keyframe_scan(t, 0, -1) {
        Some(k) => Some(k + closing_times(t)),
        None => None,
    }
}

/// `acc` put before what `rest` holds.
pub open spec fn prepend(acc: Seq<u64>, rest: Option<Seq<u64>>) -> Option<Seq<u64>> {
    match rest {
        Some(r) => Some(acc + r),
        None => None,
    }
}

proof fn lemma_point_at(s: Seq<char>, i: int)
    requires
        0 <= i <= s.len(),
        forall|j: int| 0 <= j < i ==> s[j] != '.',
        i == s.len() || s[i] == '.',
    ensures
        point_at(s) == i,
    decreases i,
{
    if i > 0 {
        lemma_point_at(s.drop_first(), i - 1);
    }
}

proof fn lemma_line_start(t: Seq<char>, e: int, b: int)
    requires
        0 <= b <= e <= t.len(),
        forall|j: int| b <= j < e ==> t[j] != '\n',
        b == 0 || t[b - 1] == '\n',
    ensures
        line_start(t, e) == b,
    decreases e,
{
    if e > b {
        lemma_line_start(t, e - 1, b);
    }
}

proof fn lemma_chars_value_grows(s: Seq<char>, i: int, j: int)
    requires
        0 <= i <= j <= s.len(),
        all_ascii_digits(s),
    ensures
        chars_value(s.subrange(0, i)) <= chars_value(s.subrange(0, j)),
    decreases j - i,
{
    if i < j {
        lemma_chars_value_grows(s, i, j - 1);
        assert(s.subrange(0, j).drop_last() =~= s.subrange(0, j - 1));
    }
}

/// Whether `t[from..to]` is all digits `0` to `9`.
fn ascii_digits(t: &Vec<char>, from: usize, to: usize) -> (r: bool)
    requires
        from <= to <= t@.len(),
    ensures
        r == all_ascii_digits(t@.subrange(from as int, to as int)),
{
    let mut i: usize = from;
    while i < to
        invariant
            from <= i <= to <= t@.len(),
            forall|j: int| from <= j < i ==> is_ascii_digit(t@[j]),
        decreases to - i,
    {
        if t[i] < '0' || t[i] > '9' {
            assert(t@.subrange(from as int, to as int)[i - from] == t@[i as int]);
            return false;
        }
        i = i + 1;
    }
    assert forall|j: int| 0 <= j < to - from implies is_ascii_digit(
        #[trigger] t@.subrange(from as int, to as int)[j],
    ) by {
        assert(t@.subrange(from as int, to as int)[j] == t@[from + j]);
    }
    true
}

/// Value of the digits `t[from..to]`; `None` when it exceeds `u64::MAX`.
fn digits_u64(t: &Vec<char>, from: usize, to: usize) -> (r: Option<u64>)
    requires
        from <= to <= t@.len(),
        all_ascii_digits(t@.subrange(from as int, to as int)),
    ensures
        r is Some <==> chars_value(t@.subrange(from as int, to as int)) <= u64::MAX,
        r is Some ==> r->Some_0 == chars_value(t@.subrange(from as int, to as int)),
{
    let ghost run = t@.subrange(from as int, to as int);
    let mut value: u64 = 0;
    let mut i: usize = from;
    assert(run.subrange(0, 0) =~= Seq::<char>::empty());
    while i < to
        invariant
            from <= i <= to <= t@.len(),
            run == t@.subrange(from as int, to as int),
            all_ascii_digits(run),
            value == chars_value(run.subrange(0, i - from)),
        decreases to - i,
    {
        assert(run[i - from] == t@[i as int]);
        assert(is_ascii_digit(run[i - from]));
        let d: u64 = (t[i] as u32 - '0' as u32) as u64;
        proof {
            assert(run.subrange(0, i + 1 - from).drop_last() =~= run.subrange(0, i - from));
        }
        if value > (u64::MAX - d) / 10 {
            proof {
                let m = u64::MAX as int;
                assert(value * 10 + d > m) by (nonlinear_arith)
                    requires
                        value > (m - d) / 10,
                        0 <= d <= 9,
                        m > 9,
                ;
                lemma_chars_value_grows(run, i + 1 - from, run.len() as int);
                assert(run.subrange(0, run.len() as int) =~= run);
            }
            return None;
        }
        value = value * 10 + d;
        i = i + 1;
    }
    assert(run.subrange(0, run.len() as int) =~= run);
    Some(value)
}

/// Value of the first six digits of the fraction `t[from..to]`, padded with zeros.
fn micro_value(t: &Vec<char>, from: usize, to: usize) -> (r: u64)
    requires
        from <= to <= t@.len(),
        all_ascii_digits(t@.subrange(from as int, to as int)),
    ensures
        r == chars_value(micro_digits(t@.subrange(from as int, to as int))),
        r < TICKS_PER_SECOND,
{
    let ghost f = t@.subrange(from as int, to as int);
    let ghost m = micro_digits(f);
    let mut value: u64 = 0;
    let mut k: usize = 0;
    assert(m.subrange(0, 0) =~= Seq::<char>::empty());
    while k < 6
        invariant
            from <= to <= t@.len(),
            f == t@.subrange(from as int, to as int),
            m == micro_digits(f),
            all_ascii_digits(f),
            k <= 6,
            value == chars_value(m.subrange(0, k as int)),
            k == 0 ==> value < 1,
            k == 1 ==> value < 10,
            k == 2 ==> value < 100,
            k == 3 ==> value < 1000,
            k == 4 ==> value < 10000,
            k == 5 ==> value < 100000,
            k == 6 ==> value < 1000000,
        decreases 6 - k,
    {
        let d: u64 = if k < to - from {
            assert(f[k as int] == t@[from + k]);
            assert(is_ascii_digit(f[k as int]));
            (t[from + k] as u32 - '0' as u32) as u64
        } else {
            0
        };
        proof {
            assert(m.subrange(0, k + 1).drop_last() =~= m.subrange(0, k as int));
        }
        value = value * 10 + d;
        k = k + 1;
    }
    assert(m.subrange(0, 6) =~= m);
    value
}

/// The time that `t[from..to]` reads as.
fn time_at(t: &Vec<char>, from: usize, to: usize) -> (r: Option<u64>)
    requires
        from <= to <= t@.len(),
    ensures
        r == time_of(t@.subrange(from as int, to as int)),
{
    let ghost run = t@.subrange(from as int, to as int);
    let mut p: usize = from;
    while p < to && t[p] != '.'
        invariant
            from <= p <= to <= t@.len(),
            forall|j: int| from <= j < p ==> t@[j] != '.',
        decreases to - p,
    {
        p = p + 1;
    }
    proof {
        assert forall|j: int| 0 <= j < p - from implies run[j] != '.' by {
            assert(run[j] == t@[from + j]);
        }
        if p < to {
            assert(run[p - from] == t@[p as int]);
        }
        lemma_point_at(run, p - from);
        assert(run.subrange(0, p - from) =~= t@.subrange(from as int, p as int));
    }
    let frac_from: usize = if p < to {
        p + 1
    } else {
        to
    };
    proof {
        if p < to {
            assert(run.subrange(p - from + 1, run.len() as int) =~= t@.subrange(
                frac_from as int,
                to as int,
            ));
        } else {
            assert(t@.subrange(frac_from as int, to as int) =~= Seq::<char>::empty());
        }
    }
    if p == from && frac_from == to {
        return None;
    }
    if !ascii_digits(t, from, p) || !ascii_digits(t, frac_from, to) {
        return None;
    }
    let whole = match digits_u64(t, from, p) {
        Some(v) => v,
        None => {
            return None;
        },
    };
    let frac = micro_value(t, frac_from, to);
    let total: u128 = whole as u128 * TICKS_PER_SECOND as u128 + frac as u128;
    if total > u64::MAX as u128 {
        return None;
    }
    Some(total as u64)
}

/// Reads the segment boundaries from a packet listing: the keyframes' times
/// and the closing time of the last packet, all in ticks. The listing must
/// give at least one boundary, in ascending order, and every keyframe's time
/// must read.
pub fn get_video_keyframes(listing: &Vec<char>) -> (r: Result<Vec<u64>, AppError>)
    ensures
        r is Ok <==> (listing_boundaries(listing@) matches Some(b) && b.len() > 0
            && is_ascending(b)),
        r is Ok ==> listing_boundaries(listing@) == Some(r->Ok_0@),
        r is Err ==> r->Err_0 is CommandFail,
{
    let t = listing;
    let n = t.len();
    let class = DigitClass::new();
    let mut keyframes: Vec<u64> = Vec::new();
    let mut in_run = false;
    let mut run_start: usize = 0;
    let mut i: usize = 0;
    while i < n
        invariant
            n == t@.len(),
            t@ == listing@,
            i <= n,
            in_run ==> run_start < i,
            keyframe_scan(t@, 0, -1) == prepend(
                keyframes@,
                keyframe_scan(t@, i as int, if in_run { run_start as int } else { -1 }),
            ),
        decreases n - i,
    {
        let c = t[i];
        if c == '.' || class.contains(c) {
            if !in_run {
                run_start = i;
                in_run = true;
            }
            i = i + 1;
        } else if in_run && c == ',' && i + 1 < n && t[i + 1] == 'K' {
            match time_at(t, run_start, i) {
                Some(x) => {
                    let ghost before = keyframes@;
                    keyframes.push(x);
                    proof {
                        let rest = keyframe_scan(t@, i + 2, -1);
                        if rest is Some {
                            assert(before + (seq![x] + rest->Some_0) =~= keyframes@
                                + rest->Some_0);
                        }
                    }
                    i = i + 2;
                    in_run = false;
                },
                None => {
                    assert(keyframe_scan(t@, i as int, run_start as int) is None);
                    assert(keyframe_scan(t@, 0, -1) is None);
                    assert(listing_boundaries(listing@) is None);
                    return Err(
                        AppError::CommandFail(String::from_str("a keyframe time does not read")),
                    );
                },
            }
        } else {
            in_run = false;
            i = i + 1;
        }
    }
    assert(keyframes@ + Seq::<u64>::empty() =~= keyframes@);
    assert(keyframe_scan(t@, 0, -1) == Some(keyframes@));
    let end: usize = if n > 0 && t[n - 1] == '\n' {
        n - 1
    } else {
        n
    };
    let mut start: usize = end;
    while start > 0 && t[start - 1] != '\n'
        invariant
            start <= end <= n,
            n == t@.len(),
            t@ == listing@,
            end == last_line_end(t@),
            keyframe_scan(t@, 0, -1) == Some(keyframes@),
            forall|j: int| start <= j < end ==> t@[j] != '\n',
        decreases start,
    {
        start = start - 1;
    }
    proof {
        lemma_line_start(t@, end as int, start as int);
    }
    let ghost b0 = start;
    let mut j: usize = start;
    let mut field_run = false;
    let mut field_start: usize = 0;
    let mut field: Option<(usize, usize)> = None;
    while j < end && field.is_none()
        invariant
            b0 <= j <= end <= n,
            n == t@.len(),
            t@ == listing@,
            end == last_line_end(t@),
            b0 == line_start(t@, end as int),
            keyframe_scan(t@, 0, -1) == Some(keyframes@),
            field_run ==> field_start < j,
            field is None ==> first_time_field(t@, b0 as int, end as int, -1) == first_time_field(
                t@,
                j as int,
                end as int,
                if field_run { field_start as int } else { -1 },
            ),
            field matches Some((a, b)) ==> first_time_field(t@, b0 as int, end as int, -1) == Some(
                (a as int, b as int),
            ) && a <= b <= n,
        decreases end - j,
    {
        let c = t[j];
        if c == '.' || class.contains(c) {
            if !field_run {
                field_start = j;
                field_run = true;
            }
        } else if field_run && c == ',' {
            field = Some((field_start, j));
        } else {
            field_run = false;
        }
        j = j + 1;
    }
    let ghost found = keyframes@;
    assert(first_time_field(t@, b0 as int, end as int, -1) == match field {
        Some((a, b)) => Some((a as int, b as int)),
        None => None::<(int, int)>,
    });
    match field {
        Some((a, b)) => match time_at(t, a, b) {
            Some(x) => {
                keyframes.push(x);
            },
            None => {},
        },
        None => {},
    }
    assert(keyframes@ =~= found + closing_times(t@));
    assert(keyframes@ =~= listing_boundaries(t@)->Some_0);
    if keyframes.len() == 0 {
        return Err(AppError::CommandFail(String::from_str("the listing names no keyframe")));
    }
    let mut k: usize = 1;
    while k < keyframes.len()
        invariant
            1 <= k <= keyframes.len(),
            listing_boundaries(listing@) == Some(keyframes@),
            forall|a: int, b: int| 0 <= a <= b < k ==> keyframes@[a] <= keyframes@[b],
        decreases keyframes.len() - k,
    {
        if keyframes[k - 1] > keyframes[k] {
            assert(!is_ascending(keyframes@)) by {
                assert(keyframes@[k - 1] > keyframes@[k as int]);
            }
            return Err(
                AppError::CommandFail(String::from_str("the keyframes are out of order")),
            );
        }
        k = k + 1;
    }
    Ok(keyframes)
}

} // verus!
