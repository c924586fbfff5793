//! Candidates: series whose releases are wanted, each recognised by the
//! pieces (title, group, quality) that a release name must contain.

use vstd::prelude::*;
use vstd::string::StringSliceAdditionalSpecFns;
use vstd::utf8::encode_utf8;
use crate::scan::{contains, contains_exec};
use crate::extractor::{spec_get, pieces_bytes};

verus! {

/// A series whose releases are wanted: the pieces its release names contain
/// and the episodes already downloaded.
#[derive(PartialEq, Eq, Debug)]
pub struct CandidatesEntry {
    pieces: Vec<String>,
    downloaded: Vec<i64>,
}

impl CandidatesEntry {
    /// The bytes of each piece.
    pub closed spec fn spec_pieces(&self) -> Seq<Seq<u8>> {
        self.pieces@.map_values(|s: String| encode_utf8(s@))
    }

    /// The episodes already downloaded.
    pub closed spec fn spec_downloaded(&self) -> Seq<i64> {
        self.downloaded@
    }

    /// A candidate with no pieces and nothing downloaded.
    pub fn new() -> (r: Self)
        ensures
            r.spec_pieces() == Seq::<Seq<u8>>::empty(),
            r.spec_downloaded() == Seq::<i64>::empty(),
    {
        let r = CandidatesEntry { pieces: Vec::new(), downloaded: Vec::new() };
        proof {
            assert(r.spec_pieces() =~= Seq::<Seq<u8>>::empty());
        }
        r
    }

    /// The same candidate, whose release names must also contain `title`.
    pub fn with_title(self, title: String) -> (r: Self)
        ensures
            r.spec_pieces() == self.spec_pieces().push(encode_utf8(title@)),
            r.spec_downloaded() == self.spec_downloaded(),
    {
        let ghost old_pieces = self.pieces@;
        let mut pieces = self.pieces;
        pieces.push(title);
        let r = CandidatesEntry { pieces, downloaded: self.downloaded };
        proof {
            assert(r.spec_pieces() =~= old_pieces.map_values(|s: String| encode_utf8(s@)).push(
                encode_utf8(title@),
            ));
        }
        r
    }

    /// The same candidate, with `episode` among those downloaded.
    pub fn with_downloaded(self, episode: i64) -> (r: Self)
        ensures
            r.spec_pieces() == self.spec_pieces(),
            r.spec_downloaded() == self.spec_downloaded().push(episode),
    {
        let mut downloaded = self.downloaded;
        downloaded.push(episode);
        CandidatesEntry { pieces: self.pieces, downloaded }
    }

    /// The pieces that a release name of this series contains.
    pub fn pieces(&self) -> (r: Vec<&str>)
        ensures
            pieces_bytes(r@) == self.spec_pieces(),
    {
        let mut r: Vec<&str> = Vec::new();
        let mut i: usize = 0;
        while i < self.pieces.len()
            invariant
                i <= self.pieces@.len(),
                r@.len() == i,
                forall|j: int| 0 <= j < i ==> (#[trigger] r@[j])@ == self.pieces@[j]@,
            decreases self.pieces@.len() - i,
        {
            r.push(self.pieces[i].as_str());
            i = i + 1;
        }
        proof {
            assert(pieces_bytes(r@) =~= self.spec_pieces());
        }
        r
    }

    /// Whether `episode` is among those downloaded.
    pub fn is_downloaded(&self, episode: i64) -> (r: bool)
        ensures
            r == self.spec_downloaded().contains(episode),
    {
        let mut i: usize = 0;
        while i < self.downloaded.len()
            invariant
                i <= self.downloaded@.len(),
                forall|j: int| 0 <= j < i ==> self.downloaded@[j] != episode,
            decreases self.downloaded@.len() - i,
        {
            if self.downloaded[i] == episode {
                return true;
            }
            i = i + 1;
        }
        false
    }
}

/// Every piece of `candidate` occurs in `name`.
pub open spec fn is_relevant(name: Seq<u8>, candidate: CandidatesEntry) -> bool {
    forall|p: int| 0 <= p < candidate.spec_pieces().len() ==> contains(name, #[trigger] candidate.spec_pieces()[p])
}

/// The first candidate, from `i` on, all of whose pieces occur in `name`.
pub open spec fn first_relevant(name: Seq<u8>, candidates: Seq<&CandidatesEntry>, i: int) -> Option<int>
    decreases candidates.len() - i,
{
    if i < 0 || i >= candidates.len() {
        None
    } else if is_relevant(name, *candidates[i]) {
        Some(i)
    } else {
        first_relevant(name, candidates, i + 1)
    }
}

/// The episode that `name` holds for `candidate`.
pub open spec fn episode_for(name: Seq<u8>, candidate: CandidatesEntry) -> Option<i64> {
    spec_get(name, candidate.spec_pieces())
}

/// Whether every piece of `candidate` occurs in `name`.
pub fn relevant(name: &str, candidate: &CandidatesEntry) -> (r: bool)
    ensures
        r == is_relevant(name.spec_bytes(), *candidate),
{
    let bytes = name.as_bytes();
    let pieces = candidate.pieces();
    let mut p: usize = 0;
    while p < pieces.len()
        invariant
            bytes@ == name.spec_bytes(),
            pieces_bytes(pieces@) == candidate.spec_pieces(),
            p <= pieces@.len(),
            forall|j: int| 0 <= j < p ==> contains(bytes@, #[trigger] candidate.spec_pieces()[j]),
        decreases pieces@.len() - p,
    {
        let found = contains_exec(bytes, pieces[p].as_bytes());
        proof {
            assert(pieces_bytes(pieces@)[p as int] == pieces@[p as int].spec_bytes());
        }
        if !found {
            return false;
        }
        p = p + 1;
    }
    true
}

/// The index of the first candidate all of whose pieces occur in `name`.
pub fn find_relevant(name: &str, candidates: &[&CandidatesEntry]) -> (r: Option<usize>)
    ensures
        r matches Some(i) ==> first_relevant(name.spec_bytes(), candidates@, 0) == Some(i as int),
        r is None ==> first_relevant(name.spec_bytes(), candidates@, 0) is None,
{
    let mut i: usize = 0;
    while i < candidates.len()
        invariant
            i <= candidates@.len(),
            first_relevant(name.spec_bytes(), candidates@, 0) == first_relevant(name.spec_bytes(), candidates@, i as int),
        decreases candidates@.len() - i,
    {
        if relevant(name, candidates[i]) {
            return Some(i);
        }
        i = i + 1;
    }
    None
}

} // verus!

verus! {

/// A relevant candidate found is in range, and relevant.
pub proof fn lemma_first_relevant(name: Seq<u8>, candidates: Seq<&CandidatesEntry>, i: int)
    requires
        0 <= i,
    ensures
        first_relevant(name, candidates, i) matches Some(c) ==> i <= c < candidates.len()
            && is_relevant(name, *candidates[c]) && forall|j: int| i <= j < c ==> !is_relevant(name, *candidates[j]),
        first_relevant(name, candidates, i) is None ==> forall|j: int|
            i <= j < candidates.len() ==> !is_relevant(name, *candidates[j]),
    decreases candidates.len() - i,
{
    if i < candidates.len() && !is_relevant(name, *candidates[i]) {
        lemma_first_relevant(name, candidates, i + 1);
    }
}

} // verus!

verus! {

/// What a candidate offers to the code that selects releases for it.
pub trait IsCandidate {
    fn is_relevant(&self, current: &str) -> bool;

    fn clean(&self, current: &str) -> String;

    fn can_download(&self, episode: i64) -> bool;

    fn can_update(&self, episode: i64) -> bool;

    fn id(&self) -> i64;
}

} // verus!
