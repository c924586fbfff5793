//! Names of the files that downloaded torrents are saved under.

use vstd::prelude::*;

verus! {

/// The index of the last dot among the first `n` bytes of `name`.
pub open spec fn last_dot(name: Seq<u8>, n: int) -> Option<int>
    decreases n,
{
    if n <= 0 {
        None
    } else if name[n - 1] == 46 {
        Some(n - 1)
    } else {
        last_dot(name, n - 1)
    }
}

/// The extension of a file name: what follows its last dot, unless it has
/// no dot, its only dot opens it, or it is `..`.
pub open spec fn extension(name: Seq<u8>) -> Option<Seq<u8>> {
    if name == seq![46u8, 46u8] {
        None
    } else {
        match last_dot(name, name.len() as int) {
            Some(i) if i > 0 => Some(name.subrange(i + 1, name.len() as int)),
            _ => None,
        }
    }
}

/// `b` with an upper-case ASCII letter made lower-case.
pub open spec fn ascii_lower(b: u8) -> u8 {
    if 65 <= b <= 90 {
        (b + 32) as u8
    } else {
        b
    }
}

/// `a` and `b` are equal but for the case of ASCII letters.
pub open spec fn eq_ignore_ascii_case(a: Seq<u8>, b: Seq<u8>) -> bool {
    a.len() == b.len() && forall|i: int| 0 <= i < a.len() ==> ascii_lower(#[trigger] a[i]) == ascii_lower(b[i])
}

/// The bytes of `torrent`.
pub open spec fn torrent() -> Seq<u8> {
    seq![116u8, 111u8, 114u8, 114u8, 101u8, 110u8, 116u8]
}

/// Whether a file named `name` must get the `torrent` extension added: its
/// extension is not `torrent`, whatever the case of its letters.
pub fn needs_torrent_extension(name: &[u8]) -> (r: bool)
    ensures
        r == !(extension(name@) matches Some(e) && eq_ignore_ascii_case(e, torrent())),
{
    let n = name.len();
    if n == 2 && name[0] == 46 && name[1] == 46 {
        proof {
            assert(name@ =~= seq![46u8, 46u8]);
        }
        return true;
    }
    proof {
        if name@ == seq![46u8, 46u8] {
            assert(name@[0] == 46 && name@[1] == 46);
        }
    }
    let mut i: usize = n;
    while i > 0 && name[i - 1] != 46
        invariant
            i <= n,
            n == name@.len(),
            last_dot(name@, n as int) == last_dot(name@, i as int),
        decreases i,
    {
        i = i - 1;
    }
    if i <= 1 {
        return true;
    }
    let dot = i - 1;
    let t: [u8; 7] = [116, 111, 114, 114, 101, 110, 116];
    proof {
        assert(t@ =~= torrent());
        assert(last_dot(name@, i as int) == Some(dot as int));
        assert(extension(name@) == Some(name@.subrange(dot + 1, n as int)));
    }
    if n - (dot + 1) != 7 {
        return true;
    }
    let mut k: usize = 0;
    while k < 7
        invariant
            k <= 7,
            dot + 1 + 7 == n,
            n == name@.len(),
            t@ == torrent(),
            extension(name@) == Some(name@.subrange(dot + 1, n as int)),
            forall|j: int| 0 <= j < k ==> ascii_lower(#[trigger] name@[dot + 1 + j]) == ascii_lower(t@[j]),
        decreases 7 - k,
    {
        let b = name[dot + 1 + k];
        let lower: u8 = if 65 <= b && b <= 90 { b + 32 } else { b };
        if lower != t[k] {
            proof {
                let e = name@.subrange(dot + 1, n as int);
                assert(lower == ascii_lower(name@[dot + 1 + k]));
                assert(e[k as int] == name@[dot + 1 + k]);
                assert(ascii_lower(torrent()[k as int]) == torrent()[k as int]);
                assert(ascii_lower(e[k as int]) != ascii_lower(torrent()[k as int]));
                assert(!eq_ignore_ascii_case(e, torrent()));
            }
            return true;
        }
        k = k + 1;
    }
    proof {
        let e = name@.subrange(dot + 1, n as int);
        assert forall|j: int| 0 <= j < e.len() implies ascii_lower(#[trigger] e[j]) == ascii_lower(torrent()[j]) by {
            assert(e[j] == name@[dot + 1 + j]);
        }
    }
    false
}

} // verus!
