//! The first number written in a run of bytes.

use vstd::prelude::*;

verus! {

/// An ASCII decimal digit.
pub open spec fn is_digit(b: u8) -> bool {
    48 <= b <= 57
}

/// The value of a sequence of ASCII digits read in base ten.
pub open spec fn digits_value(s: Seq<u8>) -> nat
    decreases s.len(),
{
    if s.len() == 0 {
        0
    } else {
        digits_value(s.drop_last()) * 10 + (s.last() - 48) as nat
    }
}

/// The first index at or after `i` that holds a digit.
pub open spec fn first_digit_from(s: Seq<u8>, i: int) -> Option<int>
    decreases s.len() - i,
{
    if i < 0 || i >= s.len() {
        None
    } else if is_digit(s[i]) {
        Some(i)
    } else {
        first_digit_from(s, i + 1)
    }
}

/// The end of the run of digits that starts at `i`.
pub open spec fn digits_end(s: Seq<u8>, i: int) -> int
    decreases s.len() - i,
{
    if i < 0 || i >= s.len() || !is_digit(s[i]) {
        i
    } else {
        digits_end(s, i + 1)
    }
}

/// The value of the first run of digits in `s`, if there is one.
pub open spec fn first_run_value(s: Seq<u8>) -> Option<nat> {
    match first_digit_from(s, 0) {
        None => None,
        Some(k) => Some(digits_value(s.subrange(k, digits_end(s, k)))),
    }
}

/// What `first_number` gives: the first run of digits as a `u64`, when it
/// fits.
pub open spec fn spec_first_number(s: Seq<u8>) -> Option<u64> {
    match first_run_value(s) {
        Some(v) if v <= u64::MAX => Some(v as u64),
        _ => None,
    }
}

pub proof fn lemma_digits_end(s: Seq<u8>, i: int)
    requires
        0 <= i <= s.len(),
    ensures
        i <= digits_end(s, i) <= s.len(),
        forall|j: int| i <= j < digits_end(s, i) ==> is_digit(#[trigger] s[j]),
        digits_end(s, i) < s.len() ==> !is_digit(s[digits_end(s, i)]),
    decreases s.len() - i,
{
    if i < s.len() && is_digit(s[i]) {
        lemma_digits_end(s, i + 1);
    }
}

/// Appending a digit multiplies by ten and adds it.
pub proof fn lemma_digits_value_push(s: Seq<u8>, a: int, b: int)
    requires
        0 <= a <= b < s.len(),
    ensures
        digits_value(s.subrange(a, b + 1)) == digits_value(s.subrange(a, b)) * 10 + (s[b] - 48) as nat,
{
    assert(s.subrange(a, b + 1).drop_last() =~= s.subrange(a, b));
}

/// A longer prefix of a run of digits is worth at least as much.
pub proof fn lemma_digits_value_monotone(s: Seq<u8>, a: int, b: int, c: int)
    requires
        0 <= a <= b <= c <= s.len(),
    ensures
        digits_value(s.subrange(a, b)) <= digits_value(s.subrange(a, c)),
    decreases c - b,
{
    if b < c {
        lemma_digits_value_monotone(s, a, b, c - 1);
        lemma_digits_value_push(s, a, c - 1);
    }
}

/// Reads the first number in `value`: the first run of ASCII digits, in
/// base ten. `None` when there is no digit, or when the number does not fit
/// in a `u64`. A sign before the digits is not part of the number.
pub fn first_number(value: &[u8]) -> (r: Option<u64>)
    ensures
        r == spec_first_number(value@),
{
    let ghost s = value@;
    let n = value.len();
    let mut k: usize = 0;
    while k < n && !(48 <= value[k] && value[k] <= 57)
        invariant
            s == value@,
            n == s.len(),
            k <= n,
            first_digit_from(s, 0) == first_digit_from(s, k as int),
        decreases n - k,
    {
        k = k + 1;
    }
    if k == n {
        return None;
    }
    proof {
        lemma_digits_end(s, k as int);
        assert(first_digit_from(s, k as int) == Some(k as int));
    }
    let ghost end = digits_end(s, k as int);
    let mut episode: u64 = (value[k] - 48) as u64;
    let mut i: usize = k + 1;
    proof {
        lemma_digits_value_push(s, k as int, k as int);
        assert(s.subrange(k as int, k as int).len() == 0);
    }
    while i < n && 48 <= value[i] && value[i] <= 57
        invariant
            s == value@,
            n == s.len(),
            k < i <= n,
            k as int <= i as int <= end,
            end == digits_end(s, k as int),
            first_digit_from(s, 0) == Some(k as int),
            k as int <= end <= n,
            forall|j: int| k <= j < end ==> is_digit(#[trigger] s[j]),
            end < n ==> !is_digit(s[end]),
            episode as nat == digits_value(s.subrange(k as int, i as int)),
        decreases n - i,
    {
        let digit = (value[i] - 48) as u64;
        proof {
            lemma_digits_value_push(s, k as int, i as int);
            lemma_digits_value_monotone(s, k as int, i + 1, end);
        }
        episode = match episode.checked_mul(10) {
            Some(m) => match m.checked_add(digit) {
                Some(v) => v,
                None => {
                    proof {
                        assert(digits_value(s.subrange(k as int, i + 1)) > u64::MAX);
                    }
                    return None;
                },
            },
            None => {
                proof {
                    assert(digits_value(s.subrange(k as int, i + 1)) >= episode * 10);
                }
                return None;
            },
        };
        i = i + 1;
    }
    Some(episode)
}

} // verus!

verus! {

/// What `first_number_u16` gives: the first run of digits as a `u16`, when
/// it fits.
pub open spec fn spec_first_number_u16(s: Seq<u8>) -> Option<u16> {
    match first_run_value(s) {
        Some(v) if v <= u16::MAX => Some(v as u16),
        _ => None,
    }
}

/// Reads the first number in `value` as a `u16`: the first run of ASCII
/// digits, in base ten; `None` when there is no digit or the number does
/// not fit.
pub fn first_number_u16(value: &[u8]) -> (r: Option<u16>)
    ensures
        r == spec_first_number_u16(value@),
{
    match first_number(value) {
        Some(v) => {
            if v <= 65535 {
                Some(v as u16)
            } else {
                None
            }
        },
        None => None,
    }
}

/// The digits are read in base ten: no digit is worth nothing, and each
/// digit appended multiplies by ten and adds its own value.
pub proof fn law_digits_value_is_base_ten(d: Seq<u8>, c: u8)
    requires
        is_digit(c),
    ensures
        digits_value(Seq::empty()) == 0,
        digits_value(d.push(c)) == digits_value(d) * 10 + (c - 48),
{
    assert(d.push(c).drop_last() =~= d);
}

/// In `s` the first digit from `i` on, when every byte from `i` up to `k`
/// is not a digit and `s[k]` is, is at `k`.
proof fn lemma_first_digit_at(s: Seq<u8>, i: int, k: int)
    requires
        0 <= i <= k < s.len(),
        forall|j: int| i <= j < k ==> !is_digit(#[trigger] s[j]),
        is_digit(s[k]),
    ensures
        first_digit_from(s, i) == Some(k),
    decreases k - i,
{
    if i < k {
        lemma_first_digit_at(s, i + 1, k);
    }
}

/// With no digit from `i` on there is no first digit.
proof fn lemma_no_digit(s: Seq<u8>, i: int)
    requires
        0 <= i,
        forall|j: int| i <= j < s.len() ==> !is_digit(#[trigger] s[j]),
    ensures
        first_digit_from(s, i) is None,
    decreases s.len() - i,
{
    if i < s.len() {
        lemma_no_digit(s, i + 1);
    }
}

/// A run of digits from `i` up to `e`, followed by the end or by a byte
/// that is not a digit, ends at `e`.
proof fn lemma_digits_end_at(s: Seq<u8>, i: int, e: int)
    requires
        0 <= i <= e <= s.len(),
        forall|j: int| i <= j < e ==> is_digit(#[trigger] s[j]),
        e < s.len() ==> !is_digit(s[e]),
    ensures
        digits_end(s, i) == e,
    decreases e - i,
{
    if i < e {
        lemma_digits_end_at(s, i + 1, e);
    }
}

/// Where the first run of digits of `pre + d + post` lies, with `pre`
/// free of digits, `d` a run of digits and `post` empty or not beginning
/// with a digit.
pub proof fn lemma_first_run_at(pre: Seq<u8>, d: Seq<u8>, post: Seq<u8>)
    requires
        forall|j: int| 0 <= j < pre.len() ==> !is_digit(#[trigger] pre[j]),
        d.len() > 0,
        forall|j: int| 0 <= j < d.len() ==> is_digit(#[trigger] d[j]),
        post.len() > 0 ==> !is_digit(post[0]),
    ensures
        ({
            let s = pre + d + post;
            &&& first_digit_from(s, 0) == Some(pre.len() as int)
            &&& digits_end(s, pre.len() as int) == pre.len() + d.len() as int
            &&& s.subrange(pre.len() as int, pre.len() + d.len() as int) == d
        }),
{
    let s = pre + d + post;
    assert forall|j: int| 0 <= j < pre.len() implies !is_digit(#[trigger] s[j]) by {
        assert(s[j] == pre[j]);
    }
    assert(s[pre.len() as int] == d[0]);
    lemma_first_digit_at(s, 0, pre.len() as int);
    assert forall|j: int| pre.len() <= j < pre.len() + d.len() as int implies is_digit(#[trigger] s[j]) by {
        assert(s[j] == d[j - pre.len()]);
    }
    if post.len() > 0 {
        assert(s[pre.len() + d.len() as int] == post[0]);
    }
    lemma_digits_end_at(s, pre.len() as int, pre.len() + d.len() as int);
    assert(s.subrange(pre.len() as int, pre.len() + d.len() as int) =~= d);
}

/// The first number is the value of the first run of digits, whatever
/// comes before it (no digit) and after it (anything but a digit): as a
/// `u64` or a `u16` when it fits, and none when it does not. Without any
/// digit there is no number.
pub proof fn law_first_number_is_first_run(pre: Seq<u8>, d: Seq<u8>, post: Seq<u8>)
    requires
        forall|j: int| 0 <= j < pre.len() ==> !is_digit(#[trigger] pre[j]),
        d.len() > 0,
        forall|j: int| 0 <= j < d.len() ==> is_digit(#[trigger] d[j]),
        post.len() > 0 ==> !is_digit(post[0]),
    ensures
        first_run_value(pre + d + post) == Some(digits_value(d)),
        spec_first_number(pre + d + post) == if digits_value(d) <= u64::MAX {
            Some(digits_value(d) as u64)
        } else {
            None
        },
        spec_first_number_u16(pre + d + post) == if digits_value(d) <= u16::MAX {
            Some(digits_value(d) as u16)
        } else {
            None
        },
        first_run_value(pre) is None,
        spec_first_number(pre) is None,
        spec_first_number_u16(pre) is None,
{
    lemma_first_run_at(pre, d, post);
    lemma_no_digit(pre, 0);
}

} // verus!
