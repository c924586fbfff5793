//! Episode numbers in release names, read after the known parts of the
//! name (group, title, quality) are taken out.

use vstd::prelude::*;
use vstd::string::StringSliceAdditionalSpecFns;
use crate::scan::{find, find_from, lemma_find_from};
use crate::number::{
    is_digit, digits_value, first_digit_from, digits_end, lemma_digits_end,
    lemma_digits_value_push, lemma_digits_value_monotone,
};

verus! {

/// The bytes of each piece.
pub open spec fn pieces_bytes(pieces: Seq<&str>) -> Seq<Seq<u8>> {
    pieces.map_values(|p: &str| p.spec_bytes())
}

/// Index `idx` of `value` lies inside the first occurrence of some piece.
pub open spec fn removed(value: Seq<u8>, pieces: Seq<Seq<u8>>, idx: int) -> bool {
    exists|p: int|
        0 <= p < pieces.len() && match #[trigger] find_from(value, pieces[p], 0) {
            Some(i) => i <= idx < i + pieces[p].len(),
            None => false,
        }
}

/// The bytes of `value[..n]` that no piece covers, in order.
pub open spec fn kept_prefix(value: Seq<u8>, pieces: Seq<Seq<u8>>, n: int) -> Seq<u8>
    decreases n,
{
    if n <= 0 {
        Seq::empty()
    } else if removed(value, pieces, n - 1) {
        kept_prefix(value, pieces, n - 1)
    } else {
        kept_prefix(value, pieces, n - 1).push(value[n - 1])
    }
}

/// The bytes of `value` that remain once the first occurrence of each piece
/// is taken out.
pub open spec fn kept(value: Seq<u8>, pieces: Seq<Seq<u8>>) -> Seq<u8> {
    kept_prefix(value, pieces, value.len() as int)
}

/// The first number in `s`: its first run of digits, as long as the value
/// fits an `i64` and the run is not the whole part of a decimal number (a
/// dot followed by a digit right after it).
pub open spec fn number_in(s: Seq<u8>) -> Option<i64> {
    match first_digit_from(s, 0) {
        None => None,
        Some(a) => {
            let e = digits_end(s, a);
            let v = digits_value(s.subrange(a, e));
            if v > i64::MAX {
                None
            } else if e + 1 < s.len() && s[e] == 46 && is_digit(s[e + 1]) {
                None
            } else {
                Some(v as i64)
            }
        },
    }
}

/// `r` records where piece `p` first occurs in `value`, as a half-open range.
pub open spec fn range_of(value: Seq<u8>, pieces: Seq<Seq<u8>>, p: int, r: Option<(usize, usize)>) -> bool {
    match r {
        Some((a, b)) => find_from(value, pieces[p], 0) == Some(a as int) && b == a + pieces[p].len(),
        None => find_from(value, pieces[p], 0) is None,
    }
}

/// What `get` gives for the bytes of a name and of its pieces.
pub open spec fn spec_get(value: Seq<u8>, pieces: Seq<Seq<u8>>) -> Option<i64> {
    number_in(kept(value, pieces))
}

/// Reads the episode number in `value` once the first occurrence of each
/// of `pieces` is taken out of it: the first run of digits left, unless it
/// overflows an `i64` or is followed by a dot and another digit (a decimal
/// number), in which cases there is none.
pub fn get(value: &str, pieces: &[&str]) -> (r: Option<i64>)
    ensures
        r == spec_get(value.spec_bytes(), pieces_bytes(pieces@)),
{
    let bytes = value.as_bytes();
    let ghost v = bytes@;
    let ghost ps = pieces_bytes(pieces@);
    let n = bytes.len();
    // -------------------- where each piece first occurs --------------------
    let mut ranges: Vec<Option<(usize, usize)>> = Vec::new();
    let mut q: usize = 0;
    while q < pieces.len()
        invariant
            v == bytes@,
            ps == pieces_bytes(pieces@),
            n == v.len(),
            q <= pieces@.len(),
            ranges@.len() == q,
            forall|p: int| 0 <= p < q ==> range_of(v, ps, p, #[trigger] ranges@[p]),
            forall|p: int| 0 <= p < q ==> match #[trigger] find_from(v, ps[p], 0) {
                Some(i) => i + ps[p].len() <= n,
                None => true,
            },
        decreases pieces@.len() - q,
    {
        let piece = pieces[q].as_bytes();
        let found = find(bytes, piece, 0);
        proof {
            lemma_find_from(v, piece@, 0);
        }
        match found {
            Some(i) => ranges.push(Some((i, i + piece.len()))),
            None => ranges.push(None),
        }
        q = q + 1;
    }
    // -------------------- the bytes left --------------------
    let mut rest: Vec<u8> = Vec::new();
    let mut idx: usize = 0;
    while idx < n
        invariant
            v == bytes@,
            ps == pieces_bytes(pieces@),
            n == v.len(),
            idx <= n,
            ranges@.len() == ps.len(),
            forall|p: int| 0 <= p < ps.len() ==> range_of(v, ps, p, #[trigger] ranges@[p]),
            forall|p: int| 0 <= p < ps.len() ==> match #[trigger] find_from(v, ps[p], 0) {
                Some(i) => i + ps[p].len() <= n,
                None => true,
            },
            rest@ == kept_prefix(v, ps, idx as int),
        decreases n - idx,
    {
        let mut hit = false;
        let mut p: usize = 0;
        while p < ranges.len()
            invariant
                ranges@.len() == ps.len(),
                p <= ranges@.len(),
                forall|j: int| 0 <= j < ps.len() ==> range_of(v, ps, j, #[trigger] ranges@[j]),
                forall|j: int| 0 <= j < ps.len() ==> match #[trigger] find_from(v, ps[j], 0) {
                    Some(i) => i + ps[j].len() <= n,
                    None => true,
                },
                hit <==> exists|j: int|
                    0 <= j < p && match #[trigger] find_from(v, ps[j], 0) {
                        Some(i) => i <= idx < i + ps[j].len(),
                        None => false,
                    },
            decreases ranges@.len() - p,
        {
            match ranges[p] {
                Some((a, b)) => {
                    if a <= idx && idx < b {
                        hit = true;
                    }
                },
                None => {},
            }
            proof {
                let j = p as int;
                assert(range_of(v, ps, j, ranges@[j]));
            }
            p = p + 1;
        }
        assert(hit == removed(v, ps, idx as int));
        if !hit {
            rest.push(bytes[idx]);
        }
        idx = idx + 1;
    }
    proof {
        assert(rest@ == kept(v, ps));
    }
    number_in_bytes(&rest)
}

/// The first number in `s`, as `number_in` says.
fn number_in_bytes(s: &Vec<u8>) -> (r: Option<i64>)
    ensures
        r == number_in(s@),
{
    let ghost t = s@;
    let n = s.len();
    let mut k: usize = 0;
    while k < n && !(48 <= s[k] && s[k] <= 57)
        invariant
            t == s@,
            n == t.len(),
            k <= n,
            first_digit_from(t, 0) == first_digit_from(t, k as int),
        decreases n - k,
    {
        k = k + 1;
    }
    if k == n {
        return None;
    }
    proof {
        lemma_digits_end(t, k as int);
        assert(first_digit_from(t, k as int) == Some(k as int));
    }
    let ghost end = digits_end(t, k as int);
    let mut result: i64 = (s[k] - 48) as i64;
    let mut i: usize = k + 1;
    proof {
        lemma_digits_value_push(t, k as int, k as int);
        assert(t.subrange(k as int, k as int).len() == 0);
    }
    while i < n && 48 <= s[i] && s[i] <= 57
        invariant
            t == s@,
            n == t.len(),
            k < i <= n,
            k as int <= i as int <= end,
            end == digits_end(t, k as int),
            first_digit_from(t, 0) == Some(k as int),
            k as int <= end <= n,
            forall|j: int| k <= j < end ==> is_digit(#[trigger] t[j]),
            end < n ==> !is_digit(t[end]),
            result as int == digits_value(t.subrange(k as int, i as int)),
        decreases n - i,
    {
        let digit = (s[i] - 48) as i64;
        proof {
            lemma_digits_value_push(t, k as int, i as int);
            lemma_digits_value_monotone(t, k as int, i + 1, end);
        }
        result = match result.checked_mul(10) {
            Some(m) => match m.checked_add(digit) {
                Some(x) => x,
                None => {
                    proof {
                        assert(digits_value(t.subrange(k as int, i + 1)) > i64::MAX);
                    }
                    return None;
                },
            },
            None => {
                proof {
                    assert(digits_value(t.subrange(k as int, i + 1)) >= result * 10);
                }
                return None;
            },
        };
        i = i + 1;
    }
    // if next to the number is a dot and next to the dot is another digit, abort
    if i < n && s[i] == 46 && i + 1 < n && 48 <= s[i + 1] && s[i + 1] <= 57 {
        return None;
    }
    Some(result)
}

} // verus!

verus! {

/// With nothing taken out, every byte of the name is kept.
pub proof fn lemma_kept_without_pieces(value: Seq<u8>, n: int)
    requires
        0 <= n <= value.len(),
    ensures
        kept_prefix(value, Seq::empty(), n) == value.subrange(0, n),
    decreases n,
{
    if n > 0 {
        lemma_kept_without_pieces(value, n - 1);
        assert(!removed(value, Seq::empty(), n - 1));
        assert(value.subrange(0, n) =~= value.subrange(0, n - 1).push(value[n - 1]));
    }
}

/// With no pieces, the episode read from a name is its first number: when
/// `get` finds one, `first_number` finds the same.
pub proof fn law_get_without_pieces_is_first_number(value: Seq<u8>)
    ensures
        spec_get(value, Seq::empty()) matches Some(n) ==> crate::number::spec_first_number(value) == Some(
            n as u64,
        ),
{
    lemma_kept_without_pieces(value, value.len() as int);
    assert(value.subrange(0, value.len() as int) =~= value);
}

/// Taking out pieces never brings a number where there was none: if the
/// kept bytes hold a number, it is made of digits of the name, in order.
pub proof fn law_kept_is_a_subsequence(value: Seq<u8>, pieces: Seq<Seq<u8>>, n: int)
    requires
        0 <= n <= value.len(),
    ensures
        kept_prefix(value, pieces, n).len() <= n,
        forall|k: int| 0 <= k < kept_prefix(value, pieces, n).len() ==> exists|j: int|
            0 <= j < n && !removed(value, pieces, j) && value[j] == #[trigger] kept_prefix(value, pieces, n)[k],
    decreases n,
{
    if n > 0 {
        law_kept_is_a_subsequence(value, pieces, n - 1);
        let prev = kept_prefix(value, pieces, n - 1);
        let cur = kept_prefix(value, pieces, n);
        assert forall|k: int| 0 <= k < cur.len() implies exists|j: int|
            0 <= j < n && !removed(value, pieces, j) && value[j] == #[trigger] cur[k] by {
            if k < prev.len() {
                assert(cur[k] == prev[k]);
                let j = choose|j: int| 0 <= j < n - 1 && !removed(value, pieces, j) && value[j] == prev[k];
                assert(0 <= j < n && !removed(value, pieces, j) && value[j] == cur[k]);
            } else {
                assert(0 <= n - 1 < n && !removed(value, pieces, n - 1) && value[n - 1] == cur[k]);
            }
        }
    }
}

/// Each piece of `ps` that covers bytes of `value` is also among `qs`.
pub open spec fn pieces_covered_by(value: Seq<u8>, ps: Seq<Seq<u8>>, qs: Seq<Seq<u8>>) -> bool {
    forall|p: int|
        0 <= p < ps.len() ==> (#[trigger] ps[p]).len() == 0 || find_from(value, ps[p], 0) is None
            || qs.contains(ps[p])
}

/// A byte that a piece of `ps` covers is covered by a piece of `qs` too.
proof fn lemma_removed_covered(value: Seq<u8>, ps: Seq<Seq<u8>>, qs: Seq<Seq<u8>>, idx: int)
    requires
        pieces_covered_by(value, ps, qs),
        removed(value, ps, idx),
    ensures
        removed(value, qs, idx),
{
    let p = choose|p: int|
        0 <= p < ps.len() && match #[trigger] find_from(value, ps[p], 0) {
            Some(i) => i <= idx < i + ps[p].len(),
            None => false,
        };
    assert(ps[p].len() > 0);
    assert(qs.contains(ps[p]));
    let q = choose|q: int| 0 <= q < qs.len() && qs[q] == ps[p];
    assert(match find_from(value, qs[q], 0) {
        Some(i) => i <= idx < i + qs[q].len(),
        None => false,
    });
}

/// Pieces that cover the same bytes keep the same bytes.
proof fn lemma_kept_prefix_same(value: Seq<u8>, ps: Seq<Seq<u8>>, qs: Seq<Seq<u8>>, n: int)
    requires
        forall|idx: int| 0 <= idx < n ==> (removed(value, ps, idx) <==> removed(value, qs, idx)),
    ensures
        kept_prefix(value, ps, n) == kept_prefix(value, qs, n),
    decreases n,
{
    if n > 0 {
        lemma_kept_prefix_same(value, ps, qs, n - 1);
        assert(removed(value, ps, n - 1) <==> removed(value, qs, n - 1));
    }
}

/// The episode read from a name depends only on which pieces occur in it:
/// not on their order, on a piece given twice, or on pieces that are empty
/// or absent from the name.
pub proof fn law_get_depends_only_on_pieces_found(value: Seq<u8>, ps: Seq<Seq<u8>>, qs: Seq<Seq<u8>>)
    requires
        pieces_covered_by(value, ps, qs),
        pieces_covered_by(value, qs, ps),
    ensures
        spec_get(value, ps) == spec_get(value, qs),
{
    assert forall|idx: int| 0 <= idx < value.len() implies (removed(value, ps, idx) <==> removed(
        value,
        qs,
        idx,
    )) by {
        if removed(value, ps, idx) {
            lemma_removed_covered(value, ps, qs, idx);
        }
        if removed(value, qs, idx) {
            lemma_removed_covered(value, qs, ps, idx);
        }
    }
    lemma_kept_prefix_same(value, ps, qs, value.len() as int);
}

/// The number read from `pre + d + post`, with `pre` free of digits, `d`
/// a run of digits and `post` empty or not beginning with a digit, is the
/// value of `d` whatever `post` holds, except that there is none when the
/// value does not fit an `i64` or when `post` begins with a dot and a digit
/// (`d` is then the whole part of a decimal number). Without any digit
/// there is none.
pub proof fn law_number_in_is_first_run(pre: Seq<u8>, d: Seq<u8>, post: Seq<u8>)
    requires
        forall|j: int| 0 <= j < pre.len() ==> !is_digit(#[trigger] pre[j]),
        d.len() > 0,
        forall|j: int| 0 <= j < d.len() ==> is_digit(#[trigger] d[j]),
        post.len() > 0 ==> !is_digit(post[0]),
    ensures
        number_in(pre + d + post) == if digits_value(d) > i64::MAX {
            None
        } else if post.len() >= 2 && post[0] == 46 && is_digit(post[1]) {
            None
        } else {
            Some(digits_value(d) as i64)
        },
        number_in(pre) is None,
{
    crate::number::lemma_first_run_at(pre, d, post);
    crate::number::law_first_number_is_first_run(pre, d, post);
    let s = pre + d + post;
    let e: int = pre.len() + d.len() as int;
    if post.len() > 0 {
        assert(s[e] == post[0]);
    }
    if post.len() > 1 {
        assert(s[e + 1] == post[1]);
    }
    assert(crate::number::first_run_value(pre) is None);
}

/// With no piece, the number is read from the whole name.
pub proof fn law_get_without_pieces(value: Seq<u8>)
    ensures
        spec_get(value, Seq::empty()) == number_in(value),
{
    lemma_kept_without_pieces(value, value.len() as int);
    assert(value.subrange(0, value.len() as int) =~= value);
}

/// The bytes kept from the first `n` of `value` when the one piece taken
/// out covers `i..e`.
proof fn lemma_kept_prefix_one_piece(value: Seq<u8>, p: Seq<u8>, i: int, e: int, n: int)
    requires
        find_from(value, p, 0) == Some(i),
        e == i + p.len(),
        0 <= i <= e <= value.len(),
        0 <= n <= value.len(),
    ensures
        kept_prefix(value, seq![p], n) == if n <= i {
            value.subrange(0, n)
        } else if n <= e {
            value.subrange(0, i)
        } else {
            value.subrange(0, i) + value.subrange(e, n)
        },
    decreases n,
{
    let ps = seq![p];
    if n > 0 {
        lemma_kept_prefix_one_piece(value, p, i, e, n - 1);
        let idx = n - 1;
        if i <= idx < e {
            assert(find_from(value, ps[0], 0) == Some(i));
            assert(removed(value, ps, idx));
        } else {
            assert(!removed(value, ps, idx)) by {
                if removed(value, ps, idx) {
                    let q = choose|q: int|
                        0 <= q < ps.len() && match #[trigger] find_from(value, ps[q], 0) {
                            Some(j) => j <= idx < j + ps[q].len(),
                            None => false,
                        };
                    assert(q == 0);
                }
            }
        }
        if n <= i {
            assert(value.subrange(0, n) =~= value.subrange(0, n - 1).push(value[n - 1]));
        } else if n <= e {
        } else if n == e + 1 {
            assert(value.subrange(e, n) =~= seq![value[n - 1]]);
            assert(value.subrange(0, i) + value.subrange(e, n) =~= value.subrange(0, i).push(value[n - 1]));
        } else {
            assert(value.subrange(0, i) + value.subrange(e, n) =~= (value.subrange(0, i) + value.subrange(
                e,
                n - 1,
            )).push(value[n - 1]));
        }
    } else {
        assert(value.subrange(0, 0) =~= Seq::<u8>::empty());
    }
}

/// Taking out a piece that occurs in the name reads the number from the
/// name without the piece's first occurrence: digits of the piece (a title
/// such as "Mob Psycho 100") never count.
pub proof fn law_get_takes_out_piece(value: Seq<u8>, p: Seq<u8>, i: int)
    requires
        find_from(value, p, 0) == Some(i),
    ensures
        spec_get(value, seq![p]) == number_in(
            value.subrange(0, i) + value.subrange(i + p.len(), value.len() as int),
        ),
{
    lemma_find_from(value, p, 0);
    lemma_kept_prefix_one_piece(value, p, i, i + p.len(), value.len() as int);
    if value.len() <= i + p.len() {
        assert(value.subrange(i + p.len(), value.len() as int) =~= Seq::<u8>::empty());
        assert(value.subrange(0, i) + Seq::<u8>::empty() =~= value.subrange(0, i));
        if value.len() <= i {
            assert(value.subrange(0, value.len() as int) =~= value.subrange(0, i));
        }
    }
}

} // verus!
