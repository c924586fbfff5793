//! Byte-level searching: where a tag first occurs, and the range that a
//! pair of tags encloses.

use vstd::prelude::*;

verus! {

/// `needle` occurs in `hay` at index `i`.
pub open spec fn matches_at(hay: Seq<u8>, needle: Seq<u8>, i: int) -> bool {
    &&& 0 <= i
    &&& i + needle.len() <= hay.len()
    &&& forall|k: int| 0 <= k < needle.len() ==> hay[i + k] == needle[k]
}

/// The first index at or after `i` where `needle` occurs in `hay`.
pub open spec fn find_from(hay: Seq<u8>, needle: Seq<u8>, i: int) -> Option<int>
    decreases hay.len() - i,
{
    if i < 0 || i + needle.len() > hay.len() {
        None
    } else if matches_at(hay, needle, i) {
        Some(i)
    } else {
        find_from(hay, needle, i + 1)
    }
}

/// The range strictly between the first `open` tag and the first `close`
/// tag that follows it.
pub open spec fn delimited(content: Seq<u8>, open: Seq<u8>, close: Seq<u8>) -> Option<(int, int)> {
    match find_from(content, open, 0) {
        None => None,
        Some(i) => match find_from(content, close, i + open.len()) {
            None => None,
            Some(j) => Some((i + open.len(), j)),
        },
    }
}

/// A found index is a match, and no earlier index (from `i` on) is one.
pub proof fn lemma_find_from(hay: Seq<u8>, needle: Seq<u8>, i: int)
    requires
        0 <= i,
    ensures
        match find_from(hay, needle, i) {
            Some(j) => {
                &&& i <= j
                &&& matches_at(hay, needle, j)
                &&& forall|k: int| i <= k < j ==> !matches_at(hay, needle, k)
            },
            None => forall|k: int| i <= k ==> !matches_at(hay, needle, k),
        },
    decreases hay.len() - i,
{
    if i + needle.len() > hay.len() {
    } else if matches_at(hay, needle, i) {
    } else {
        lemma_find_from(hay, needle, i + 1);
    }
}

fn matches_here(hay: &[u8], needle: &[u8], i: usize) -> (r: bool)
    requires
        i + needle@.len() <= hay@.len(),
    ensures
        r == matches_at(hay@, needle@, i as int),
{
    let hl = hay.len();
    let mut k: usize = 0;
    while k < needle.len()
        invariant
            hl == hay@.len(),
            i + needle@.len() <= hay@.len(),
            k <= needle@.len(),
            forall|m: int| 0 <= m < k ==> hay@[i + m] == needle@[m],
        decreases needle@.len() - k,
    {
        if hay[i + k] != needle[k] {
            return false;
        }
        k = k + 1;
    }
    true
}

/// Index of the first occurrence of `needle` in `hay` at or after `from`.
pub fn find(hay: &[u8], needle: &[u8], from: usize) -> (r: Option<usize>)
    ensures
        r matches Some(j) ==> find_from(hay@, needle@, from as int) == Some(j as int),
        r is None ==> find_from(hay@, needle@, from as int) is None,
{
    if needle.len() > hay.len() {
        return None;
    }
    let last = hay.len() - needle.len();
    let mut i = from;
    while i <= last
        invariant
            last + needle@.len() == hay@.len(),
            from <= i,
            find_from(hay@, needle@, from as int) == find_from(hay@, needle@, i as int),
        decreases last + 1 - i,
    {
        if matches_here(hay, needle, i) {
            return Some(i);
        }
        if i == last {
            return None;
        }
        i = i + 1;
    }
    None
}

/// The range strictly between the first `open` tag in `content` and the
/// first `close` tag after it.
pub fn delimited_range(content: &[u8], open: &[u8], close: &[u8]) -> (r: Option<(usize, usize)>)
    ensures
        r matches Some((s, e)) ==> delimited(content@, open@, close@) == Some((s as int, e as int)),
        r is None ==> delimited(content@, open@, close@) is None,
{
    let cl = content.len();
    let i = match find(content, open, 0) {
        Some(i) => i,
        None => return None,
    };
    proof { lemma_find_from(content@, open@, 0); }
    let start = i + open.len();
    match find(content, close, start) {
        Some(j) => Some((start, j)),
        None => None,
    }
}

} // verus!

verus! {

/// Facts about a delimited range: where its tags stand and that no closing
/// tag starts inside it.
pub proof fn lemma_delimited(content: Seq<u8>, open: Seq<u8>, close: Seq<u8>)
    ensures
        delimited(content, open, close) matches Some((s, e)) ==> {
            &&& open.len() <= s <= e
            &&& e + close.len() <= content.len()
            &&& matches_at(content, open, s - open.len())
            &&& matches_at(content, close, e)
            &&& forall|k: int| s <= k < e ==> !matches_at(content, close, k)
        },
{
    lemma_find_from(content, open, 0);
    if let Some(i) = find_from(content, open, 0) {
        lemma_find_from(content, close, i + open.len());
    }
}

/// The part enclosed by the first `open`..`close` pair, and what follows
/// the closing tag.
pub open spec fn split_block(content: Seq<u8>, open: Seq<u8>, close: Seq<u8>) -> Option<(Seq<u8>, Seq<u8>)> {
    match delimited(content, open, close) {
        Some((s, e)) => Some((content.subrange(s, e), content.subrange(e + close.len(), content.len() as int))),
        None => None,
    }
}

/// The part enclosed by the first `open`..`close` pair.
pub open spec fn field(content: Seq<u8>, open: Seq<u8>, close: Seq<u8>) -> Option<Seq<u8>> {
    match delimited(content, open, close) {
        Some((s, e)) => Some(content.subrange(s, e)),
        None => None,
    }
}

/// What follows a block is shorter than what held it, as long as the
/// opening tag is not empty.
pub proof fn lemma_split_block_shrinks(content: Seq<u8>, open: Seq<u8>, close: Seq<u8>)
    requires
        open.len() > 0,
    ensures
        split_block(content, open, close) matches Some((_, rest)) ==> rest.len() < content.len(),
{
    lemma_delimited(content, open, close);
}

/// Splits off the first `open`..`close` block of `content`: its inside, and
/// the rest after the closing tag.
pub fn split_block_exec<'a>(content: &'a [u8], open: &[u8], close: &[u8]) -> (r: Option<(&'a [u8], &'a [u8])>)
    ensures
        r matches Some((inner, rest)) ==> split_block(content@, open@, close@) == Some((inner@, rest@)),
        r is None ==> split_block(content@, open@, close@) is None,
{
    let cl = content.len();
    proof { lemma_delimited(content@, open@, close@); }
    match delimited_range(content, open, close) {
        Some((s, e)) => {
            let inner = &content[s..e];
            let rest = &content[e + close.len()..content.len()];
            Some((inner, rest))
        },
        None => None,
    }
}

/// The inside of the first `open`..`close` block of `content`.
pub fn field_exec<'a>(content: &'a [u8], open: &[u8], close: &[u8]) -> (r: Option<&'a [u8]>)
    ensures
        r matches Some(f) ==> field(content@, open@, close@) == Some(f@),
        r is None ==> field(content@, open@, close@) is None,
{
    proof { lemma_delimited(content@, open@, close@); }
    match delimited_range(content, open, close) {
        Some((s, e)) => Some(&content[s..e]),
        None => None,
    }
}

/// `needle` occurs somewhere in `hay`.
pub open spec fn contains(hay: Seq<u8>, needle: Seq<u8>) -> bool {
    find_from(hay, needle, 0) is Some
}

/// Whether `needle` occurs somewhere in `hay`.
pub fn contains_exec(hay: &[u8], needle: &[u8]) -> (r: bool)
    ensures
        r == contains(hay@, needle@),
{
    find(hay, needle, 0).is_some()
}

/// A field never holds its own closing tag: the field ends at the first
/// one.
pub proof fn law_field_excludes_close(content: Seq<u8>, open: Seq<u8>, close: Seq<u8>)
    requires
        close.len() > 0,
        field(content, open, close) is Some,
    ensures
        !contains(field(content, open, close).unwrap(), close),
{
    lemma_delimited(content, open, close);
    let (s, e) = delimited(content, open, close).unwrap();
    let f = content.subrange(s, e);
    lemma_find_from(f, close, 0);
    if let Some(k) = find_from(f, close, 0) {
        assert(matches_at(content, close, s + k)) by {
            assert forall|m: int| 0 <= m < close.len() implies content[s + k + m] == close[m] by {
                assert(f[k + m] == close[m]);
            }
        }
    }
}

/// The first occurrence of a single byte `b` in `s` is at `k` when no byte
/// before `k` is `b` and `s[k]` is; there is none when no byte of `s` is.
pub proof fn lemma_find_byte(s: Seq<u8>, b: u8, k: int)
    requires
        0 <= k <= s.len(),
        forall|j: int| 0 <= j < k ==> s[j] != b,
        k < s.len() ==> s[k] == b,
    ensures
        find_from(s, seq![b], 0) == if k < s.len() { Some(k) } else { None::<int> },
{
    lemma_find_from(s, seq![b], 0);
    if k < s.len() {
        assert(matches_at(s, seq![b], k));
    }
    match find_from(s, seq![b], 0) {
        Some(j) => {
            assert(s[j + 0] == seq![b][0]);
            if k < s.len() && k < j {
                assert(!matches_at(s, seq![b], k));
            }
        },
        None => {},
    }
}

} // verus!
