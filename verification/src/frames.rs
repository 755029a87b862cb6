//! Frame ranges of an action, such as `"0-*"` or `"2-10"`.
//!
//! A range is split at `-`; it must have exactly two parts. The first part is
//! the first frame index (an unreadable number counts as 0), the second the
//! last one (an unreadable number, such as `*`, or one of 0 or below, means
//! "up to the last frame"). Both are indices into the sorted frame files of
//! the action, so with `n` frames they must be below `n`.

use vstd::prelude::*;
use crate::text::{chars_between, chars_of};

verus! {

/// Whether `c` is an ASCII decimal digit.
pub open spec fn is_digit(c: char) -> bool {
    '0' <= c && c <= '9'
}

/// Whether every character of `ds` is an ASCII decimal digit.
pub open spec fn all_digits(ds: Seq<char>) -> bool {
    forall|i: int| 0 <= i < ds.len() ==> is_digit(#[trigger] ds[i])
}

/// The value of a string of decimal digits, most significant first.
pub open spec fn digits_value(ds: Seq<char>) -> int
    decreases ds.len(),
{
    if ds.len() == 0 {
        0
    } else {
        digits_value(ds.drop_last()) * 10 + (ds.last() as int - '0' as int)
    }
}

/// What `str::parse::<i32>` gives: an optional `+` or `-`, then one or more
/// ASCII digits, whose value must fit in an `i32`.
pub open spec fn parse_i32_spec(s: Seq<char>) -> Option<i32> {
    if s.len() == 0 {
        None
    } else {
        let negative = s[0] == '-';
        let ds = if s[0] == '+' || s[0] == '-' { s.skip(1) } else { s };
        if ds.len() == 0 || !all_digits(ds) {
            None
        } else {
            let v = if negative { -digits_value(ds) } else { digits_value(ds) };
            if i32::MIN <= v <= i32::MAX {
                Some(v as i32)
            } else {
                None
            }
        }
    }
}

/// The parsed number, or `default` where the text is not one.
pub open spec fn parse_or(s: Seq<char>, default: int) -> int {
    match parse_i32_spec(s) {
        Some(v) => v as int,
        None => default,
    }
}

proof fn lemma_digits_value_nonneg(ds: Seq<char>)
    requires
        all_digits(ds),
    ensures
        digits_value(ds) >= 0,
    decreases ds.len(),
{
    if ds.len() > 0 {
        assert(all_digits(ds.drop_last()));
        lemma_digits_value_nonneg(ds.drop_last());
    }
}

/// The value of a digit string is at least the value of any of its prefixes.
proof fn lemma_digits_value_prefix(ds: Seq<char>, k: int)
    requires
        all_digits(ds),
        0 <= k <= ds.len(),
    ensures
        digits_value(ds.take(k)) <= digits_value(ds),
    decreases ds.len() - k,
{
    if k < ds.len() {
        lemma_digits_value_prefix(ds, k + 1);
        let p = ds.take(k + 1);
        assert(p.drop_last() =~= ds.take(k));
        assert(all_digits(ds.take(k))) by {
            assert forall|i: int| 0 <= i < k implies is_digit(#[trigger] ds.take(k)[i]) by {
                assert(is_digit(ds[i]));
            }
        }
        lemma_digits_value_nonneg(ds.take(k));
        assert(is_digit(ds[k]));
    } else {
        assert(ds.take(k) =~= ds);
    }
}

/// `str::parse::<i32>` on the characters `s`.
pub fn parse_i32(s: &Vec<char>) -> (res: Option<i32>)
    ensures
        res == parse_i32_spec(s@),
{
    let n = s.len();
    if n == 0 {
        return None;
    }
    let negative = s[0] == '-';
    let start: usize = if s[0] == '+' || s[0] == '-' { 1 } else { 0 };
    let ghost ds = if s@[0] == '+' || s@[0] == '-' { s@.skip(1) } else { s@ };
    assert(ds =~= s@.subrange(start as int, n as int));
    if start == n {
        return None;
    }
    let mut acc: i64 = 0;
    let mut i: usize = start;
    while i < n
        invariant
            0 < n == s@.len(),
            start <= i <= n,
            start < n,
            ds =~= s@.subrange(start as int, n as int),
            ds == (if s@[0] == '+' || s@[0] == '-' { s@.skip(1) } else { s@ }),
            negative == (s@[0] == '-'),
            all_digits(ds.take(i - start)),
            acc as int == digits_value(ds.take(i - start)),
            0 <= acc <= 2147483648,
        decreases n - i,
    {
        let c = s[i];
        if !('0' <= c && c <= '9') {
            assert(!is_digit(ds[i - start]));
            return None;
        }
        let ghost before = ds.take(i - start);
        let d = (c as u32 - '0' as u32) as i64;
        assert(ds.take(i - start + 1).drop_last() =~= before);
        let next = acc * 10 + d;
        assert(all_digits(ds.take(i - start + 1))) by {
            assert forall|j: int| 0 <= j < i - start + 1 implies is_digit(#[trigger] ds.take(i - start + 1)[j]) by {
                if j < i - start {
                    assert(ds.take(i - start + 1)[j] == before[j]);
                }
            }
        }
        if next > 2147483648 {
            proof {
                if all_digits(ds) {
                    lemma_digits_value_prefix(ds, i - start + 1);
                }
            }
            return None;
        }
        acc = next;
        i += 1;
    }
    assert(ds.take(n - start) =~= ds);
    if negative {
        Some((0 - acc) as i32)
    } else if acc > 2147483647 {
        None
    } else {
        Some(acc as i32)
    }
}

/// Whether `d` is the one and only `-` in `s`, so that splitting `s` at `-`
/// gives exactly two parts.
pub open spec fn sole_dash_at(s: Seq<char>, d: int) -> bool {
    &&& 0 <= d < s.len()
    &&& s[d] == '-'
    &&& forall|i: int| 0 <= i < s.len() && i != d ==> s[i] != '-'
}

/// The bounds that a range with parts `first` and `last` must keep with an
/// action of `frame_count` frames.
pub open spec fn range_bounds_ok(first: Seq<char>, last: Seq<char>, frame_count: int) -> bool {
    let from = parse_or(first, 0);
    let to = parse_or(last, -1);
    &&& from < frame_count
    &&& (to > 0 ==> to < frame_count)
}

/// Whether the frame range `s` is accepted for an action of `frame_count` frames.
pub open spec fn range_ok(s: Seq<char>, frame_count: int) -> bool {
    exists|d: int| sole_dash_at(s, d) && range_bounds_ok(s.take(d), s.skip(d + 1), frame_count)
}

/// Checks the frame range `range` against an action of `frame_count` frames.
pub fn check_frame_range(range: &str, frame_count: i32) -> (res: bool)
    ensures
        res == range_ok(range@, frame_count as int),
{
    let s = chars_of(range);
    let n = s.len();
    let mut dash: usize = n;
    let mut dashes: usize = 0;
    let mut i: usize = 0;
    while i < n
        invariant
            n == s@.len(),
            i <= n,
            dashes <= i,
            dashes == 0 ==> dash == n && forall|j: int| 0 <= j < i ==> s@[j] != '-',
            dashes == 1 ==> dash < i && s@[dash as int] == '-' && forall|j: int|
                0 <= j < i && j != dash ==> s@[j] != '-',
            dashes >= 2 ==> exists|a: int, b: int|
                0 <= a < b < i && s@[a] == '-' && s@[b] == '-',
        decreases n - i,
    {
        if s[i] == '-' {
            if dashes == 0 {
                dash = i;
                dashes = 1;
            } else if dashes == 1 {
                assert(s@[dash as int] == '-' && s@[i as int] == '-');
                dashes = 2;
            }
        }
        i += 1;
    }
    if dashes != 1 {
        proof {
            if dashes >= 2 {
                let (a, b) = choose|a: int, b: int| 0 <= a < b < n && s@[a] == '-' && s@[b] == '-';
                assert forall|d: int| !sole_dash_at(s@, d) by {
                    if sole_dash_at(s@, d) {
                        if d == a {
                            assert(s@[b] != '-');
                        } else {
                            assert(s@[a] != '-');
                        }
                    }
                }
            }
        }
        return false;
    }
    let first = chars_between(&s, 0, dash);
    let last = chars_between(&s, dash + 1, n);
    let from: i32 = match parse_i32(&first) {
        Some(v) => v,
        None => 0,
    };
    let to: i32 = match parse_i32(&last) {
        Some(v) => v,
        None => -1,
    };
    let ok = from < frame_count && !(to > 0 && frame_count <= to);
    proof {
        assert(first@ =~= s@.take(dash as int));
        assert(last@ =~= s@.skip(dash + 1));
        assert(sole_dash_at(s@, dash as int));
        if !ok {
            assert forall|d: int| !(sole_dash_at(s@, d) && range_bounds_ok(s@.take(d), s@.skip(d + 1), frame_count as int)) by {
                if sole_dash_at(s@, d) && d != dash {
                    assert(s@[dash as int] != '-');
                }
            }
        }
    }
    ok
}

/// A text without `-` never reads as a negative number.
proof fn lemma_parse_without_dash_nonneg(s: Seq<char>)
    requires
        forall|i: int| 0 <= i < s.len() ==> s[i] != '-',
    ensures
        parse_or(s, 0) >= 0,
{
    if s.len() > 0 {
        let ds = if s[0] == '+' || s[0] == '-' { s.skip(1) } else { s };
        if ds.len() > 0 && all_digits(ds) {
            lemma_digits_value_nonneg(ds);
        }
    }
}

/// Frame indices count from 0, so an action without frames accepts no range
/// at all, not even `0-*`.
pub proof fn law_no_range_fits_no_frames(s: Seq<char>)
    ensures
        !range_ok(s, 0),
{
    assert forall|d: int| !(sole_dash_at(s, d) && range_bounds_ok(s.take(d), s.skip(d + 1), 0)) by {
        if sole_dash_at(s, d) {
            assert forall|i: int| 0 <= i < s.take(d).len() implies s.take(d)[i] != '-' by {
                assert(s.take(d)[i] == s[i]);
            }
            lemma_parse_without_dash_nonneg(s.take(d));
        }
    }
}

/// A single ASCII digit reads as its value.
pub proof fn law_parse_single_digit(c: char)
    requires
        is_digit(c),
    ensures
        parse_i32_spec(seq![c]) == Some((c as int - '0' as int) as i32),
{
    let s = seq![c];
    assert(s.drop_last() =~= Seq::<char>::empty());
    assert(digits_value(Seq::<char>::empty()) == 0);
    assert(s.last() == c);
    assert(digits_value(s) == c as int - '0' as int);
    assert(all_digits(s));
    assert(s[0] != '+' && s[0] != '-');
}

/// Appending a digit to a number of digits multiplies it by ten and adds the
/// digit, as long as the result fits in an `i32`.
pub proof fn law_parse_appended_digit(ds: Seq<char>, c: char)
    requires
        ds.len() > 0,
        all_digits(ds),
        is_digit(c),
        parse_i32_spec(ds) is Some,
        parse_i32_spec(ds)->0 * 10 + (c as int - '0' as int) <= i32::MAX,
    ensures
        parse_i32_spec(ds.push(c)) == Some((parse_i32_spec(ds)->0 * 10 + (c as int - '0' as int)) as i32),
{
    let t = ds.push(c);
    assert(t.drop_last() =~= ds);
    assert(t[0] == ds[0]);
    assert(all_digits(t)) by {
        assert forall|i: int| 0 <= i < t.len() implies is_digit(#[trigger] t[i]) by {
            if i < ds.len() {
                assert(t[i] == ds[i]);
            }
        }
    }
    assert(!is_digit('+') && !is_digit('-'));
    assert(ds[0] != '+' && ds[0] != '-');
    lemma_digits_value_nonneg(ds);
}

/// A leading `+` changes nothing, and a leading `-` negates a positive number.
pub proof fn law_parse_sign(ds: Seq<char>)
    requires
        ds.len() > 0,
        ds[0] != '+',
        ds[0] != '-',
    ensures
        parse_i32_spec(seq!['+'] + ds) == parse_i32_spec(ds),
        parse_i32_spec(ds) matches Some(v) ==> (v > 0 ==> parse_i32_spec(seq!['-'] + ds) == Some(
            (-v) as i32,
        )),
{
    assert((seq!['+'] + ds).skip(1) =~= ds);
    assert((seq!['-'] + ds).skip(1) =~= ds);
    assert((seq!['+'] + ds)[0] == '+');
    assert((seq!['-'] + ds)[0] == '-');
}

/// A text with a character that is not a digit, other than a leading sign,
/// does not read as a number.
pub proof fn law_parse_refuses_non_digits(s: Seq<char>, i: int)
    requires
        0 <= i < s.len(),
        !is_digit(s[i]),
        !(i == 0 && (s[0] == '+' || s[0] == '-')),
    ensures
        parse_i32_spec(s) is None,
{
    if s[0] == '+' || s[0] == '-' {
        assert(s.skip(1)[i - 1] == s[i]);
    }
}

/// What an accepted range says: it has exactly one `-`; its start, where it
/// reads as a number, is a frame index (at least 0 and below the frame
/// count), and otherwise there is at least one frame; its end, where it reads
/// as a number above 0, is below the frame count.
pub proof fn law_accepted_range_names_frames(s: Seq<char>, frame_count: int, d: int)
    requires
        range_ok(s, frame_count),
        0 <= d < s.len(),
        s[d] == '-',
    ensures
        forall|i: int| 0 <= i < s.len() && i != d ==> s[i] != '-',
        parse_i32_spec(s.take(d)) matches Some(f) ==> 0 <= f < frame_count,
        0 < frame_count,
        parse_i32_spec(s.skip(d + 1)) matches Some(t) ==> (t > 0 ==> t < frame_count),
{
    let e = choose|e: int| sole_dash_at(s, e) && range_bounds_ok(s.take(e), s.skip(e + 1), frame_count);
    assert(e == d) by {
        if e != d {
            assert(s[d] != '-');
        }
    }
    assert forall|i: int| 0 <= i < s.take(d).len() implies s.take(d)[i] != '-' by {
        assert(s.take(d)[i] == s[i]);
    }
    lemma_parse_without_dash_nonneg(s.take(d));
}

/// A range with one `-` is accepted when it fits: its start (0 where it does
/// not read as a number) is below the frame count, and so is its end where it
/// reads as a number above 0.
pub proof fn law_fitting_range_is_accepted(s: Seq<char>, frame_count: int, d: int)
    requires
        0 <= d < s.len(),
        s[d] == '-',
        forall|i: int| 0 <= i < s.len() && i != d ==> s[i] != '-',
        match parse_i32_spec(s.take(d)) {
            Some(f) => f < frame_count,
            None => 0 < frame_count,
        },
        parse_i32_spec(s.skip(d + 1)) matches Some(t) ==> (t > 0 ==> t < frame_count),
    ensures
        range_ok(s, frame_count),
{
    assert(sole_dash_at(s, d));
    assert(range_bounds_ok(s.take(d), s.skip(d + 1), frame_count));
}

/// A range that is refused for an end `t` is refused for every larger end:
/// for two ranges that differ only in their ends, read as `t1 <= t2` (both
/// above 0), the one with the larger end is accepted only if the other is.
pub proof fn law_larger_end_fits_less(first: Seq<char>, last1: Seq<char>, last2: Seq<char>, frame_count: int)
    requires
        forall|i: int| 0 <= i < first.len() ==> first[i] != '-',
        forall|i: int| 0 <= i < last1.len() ==> last1[i] != '-',
        forall|i: int| 0 <= i < last2.len() ==> last2[i] != '-',
        parse_i32_spec(last1) matches Some(t1) && t1 > 0,
        parse_i32_spec(last2) matches Some(t2) && t2 >= parse_i32_spec(last1)->0,
    ensures
        range_ok(first + seq!['-'] + last2, frame_count) ==> range_ok(first + seq!['-'] + last1, frame_count),
{
    let d = first.len() as int;
    let s1 = first + seq!['-'] + last1;
    let s2 = first + seq!['-'] + last2;
    assert(s1.take(d) =~= first);
    assert(s1.skip(d + 1) =~= last1);
    assert(s2.take(d) =~= first);
    assert(s2.skip(d + 1) =~= last2);
    assert forall|i: int| 0 <= i < s1.len() && i != d implies s1[i] != '-' by {
        if i < d {
            assert(s1[i] == first[i]);
        } else {
            assert(s1[i] == last1[i - d - 1]);
        }
    }
    assert forall|i: int| 0 <= i < s2.len() && i != d implies s2[i] != '-' by {
        if i < d {
            assert(s2[i] == first[i]);
        } else {
            assert(s2[i] == last2[i - d - 1]);
        }
    }
    if range_ok(s2, frame_count) {
        law_accepted_range_names_frames(s2, frame_count, d);
        law_fitting_range_is_accepted(s1, frame_count, d);
    }
}

/// A range `0-*` takes every frame of an action, from the first to the
/// last, so it is accepted whatever the number of frames, as long as there is
/// a first frame.
pub proof fn law_full_range_always_fits(frame_count: int)
    requires
        frame_count >= 1,
    ensures
        range_ok("0-*"@, frame_count),
{
    reveal_strlit("0-*");
    let s = "0-*"@;
    assert(s.take(1) =~= seq!['0']);
    assert(s.skip(2) =~= seq!['*']);
    assert(all_digits(seq!['0']));
    assert(seq!['0'].drop_last() =~= Seq::<char>::empty());
    assert(digits_value(Seq::<char>::empty()) == 0);
    assert(seq!['0'].last() == '0');
    assert(digits_value(seq!['0']) == 0);
    assert(parse_i32_spec(seq!['0']) == Some(0i32));
    assert(!is_digit(seq!['*'][0]));
    assert(parse_i32_spec(seq!['*']) is None);
    assert(sole_dash_at(s, 1));
    assert(range_bounds_ok(s.take(1), s.skip(2), frame_count));
}

} // verus!
