//! The files of a library that mark progress: those that belong to a
//! candidate and whose episode can be read from their name.

use vstd::prelude::*;
use vstd::string::StringSliceAdditionalSpecFns;
use crate::candidates::{CandidatesEntry, first_relevant, episode_for, find_relevant};

verus! {

/// The files still to be read, each a name and a path, and the candidates
/// they are held against.
pub struct UpdatesEntries<'f, 'c, P> {
    files: &'f [(&'f str, P)],
    candidates: &'c [&'c CandidatesEntry],
}

/// A file that marks progress: its name and path, its episode, and the
/// candidate it belongs to.
#[derive(PartialEq, Eq, Debug)]
pub struct UpdatesEntry<'f, 'c, P> {
    pub name: &'f str,
    pub path: P,
    pub episode: i64,
    pub candidate: &'c CandidatesEntry,
}

/// The candidate and episode that a file name stands for: the first
/// candidate all of whose pieces the name contains decides, and its
/// episode must be readable.
pub open spec fn update_of(name: Seq<u8>, candidates: Seq<&CandidatesEntry>) -> Option<(int, i64)> {
    match first_relevant(name, candidates, 0) {
        Some(c) => match episode_for(name, *candidates[c]) {
            Some(ep) => Some((c, ep)),
            None => None,
        },
        None => None,
    }
}

/// The index of the first file, from `i` on, that stands for an update.
pub open spec fn first_update<P>(files: Seq<(&str, P)>, candidates: Seq<&CandidatesEntry>, i: int) -> Option<int>
    decreases files.len() - i,
{
    if i < 0 || i >= files.len() {
        None
    } else if update_of(files[i].0.spec_bytes(), candidates) is Some {
        Some(i)
    } else {
        first_update(files, candidates, i + 1)
    }
}

/// The updates that `files` stand for, in order: name, path, candidate
/// index and episode.
pub open spec fn updates_of<'f, P>(files: Seq<(&'f str, P)>, candidates: Seq<&CandidatesEntry>) -> Seq<(&'f str, P, int, i64)>
    decreases files.len(),
{
    if files.len() == 0 {
        Seq::empty()
    } else {
        let rest = updates_of(files.drop_first(), candidates);
        match update_of(files[0].0.spec_bytes(), candidates) {
            Some((c, ep)) => seq![(files[0].0, files[0].1, c, ep)] + rest,
            None => rest,
        }
    }
}

/// The updates from index `i` on are the first of them, then those after
/// it.
pub proof fn lemma_updates_of_from<'f, P>(files: Seq<(&'f str, P)>, candidates: Seq<&CandidatesEntry>, i: int)
    requires
        0 <= i <= files.len(),
    ensures
        match first_update(files, candidates, i) {
            Some(j) => {
                let (c, ep) = update_of(files[j].0.spec_bytes(), candidates).unwrap();
                &&& i <= j < files.len()
                &&& updates_of(files.skip(i), candidates) == seq![(files[j].0, files[j].1, c, ep)]
                    + updates_of(files.skip(j + 1), candidates)
            },
            None => updates_of(files.skip(i), candidates) == Seq::<(&'f str, P, int, i64)>::empty(),
        },
    decreases files.len() - i,
{
    if i < files.len() {
        assert(files.skip(i).drop_first() =~= files.skip(i + 1));
        assert(files.skip(i)[0] == files[i]);
        lemma_updates_of_from(files, candidates, i + 1);
    } else {
        assert(files.skip(i).len() == 0);
    }
}

impl<'f, 'c, P: Copy> UpdatesEntries<'f, 'c, P> {
    /// The updates of `files` against `candidates`.
    pub fn get(files: &'f [(&'f str, P)], candidates: &'c [&'c CandidatesEntry]) -> (r: Self)
        ensures
            r.spec_files() == files@,
            r.spec_candidates() == candidates@,
    {
        Self { files, candidates }
    }

    /// The files still to be read.
    pub closed spec fn spec_files(&self) -> Seq<(&'f str, P)> {
        self.files@
    }

    /// The candidates.
    pub closed spec fn spec_candidates(&self) -> Seq<&'c CandidatesEntry> {
        self.candidates@
    }

    /// The next file that stands for an update, or `None` when none is
    /// left; the files up to it are passed over.
    pub fn next(&mut self) -> (r: Option<UpdatesEntry<'f, 'c, P>>)
        ensures
            final(self).spec_candidates() == old(self).spec_candidates(),
            match first_update(old(self).spec_files(), old(self).spec_candidates(), 0) {
                Some(i) => {
                    let (c, ep) = update_of(old(self).spec_files()[i].0.spec_bytes(), old(self).spec_candidates()).unwrap();
                    &&& final(self).spec_files() == old(self).spec_files().skip(i + 1)
                    &&& r matches Some(e) && e.name == old(self).spec_files()[i].0
                        && e.path == old(self).spec_files()[i].1 && e.episode == ep
                        && *e.candidate == *old(self).spec_candidates()[c]
                },
                None => r is None && final(self).spec_files().len() == 0,
            },
    {
        let ghost start = self.files@;
        let ghost mut skipped: int = 0;
        while self.files.len() > 0
            invariant
                self.candidates@ == old(self).candidates@,
                start == old(self).files@,
                0 <= skipped <= start.len(),
                self.files@ == start.skip(skipped),
                first_update(start, self.candidates@, 0) == first_update(start, self.candidates@, skipped),
            decreases self.files@.len(),
        {
            let files: &'f [(&'f str, P)] = self.files;
            let (name, path) = files[0];
            self.files = &files[1..files.len()];
            proof {
                assert(start[skipped] == files@[0]);
                assert(self.files@ =~= start.skip(skipped + 1));
                skipped = skipped + 1;
            }
            if let Some(c) = find_relevant(name, self.candidates) {
                proof {
                    crate::candidates::lemma_first_relevant(name.spec_bytes(), self.candidates@, 0);
                }
                let candidate: &'c CandidatesEntry = self.candidates[c];
                let pieces = candidate.pieces();
                if let Some(episode) = crate::extractor::get(name, pieces.as_slice()) {
                    return Some(UpdatesEntry { name, path, episode, candidate });
                }
            }
        }
        None
    }

    /// Reads the remaining updates, in order.
    pub fn collect_all(&mut self) -> (r: Vec<UpdatesEntry<'f, 'c, P>>)
        ensures
            final(self).spec_files().len() == 0,
            r@.len() == updates_of(old(self).spec_files(), old(self).spec_candidates()).len(),
            forall|i: int| 0 <= i < r@.len() ==> {
                let u = updates_of(old(self).spec_files(), old(self).spec_candidates())[i];
                &&& (#[trigger] r@[i]).name == u.0
                &&& r@[i].path == u.1
                &&& *r@[i].candidate == *old(self).spec_candidates()[u.2]
                &&& r@[i].episode == u.3
            },
    {
        let mut out: Vec<UpdatesEntry<'f, 'c, P>> = Vec::new();
        loop
            invariant
                self.spec_candidates() == old(self).spec_candidates(),
                out@.len() + updates_of(self.spec_files(), self.spec_candidates()).len()
                    == updates_of(old(self).spec_files(), old(self).spec_candidates()).len(),
                forall|i: int| 0 <= i < out@.len() ==> {
                    let u = updates_of(old(self).spec_files(), old(self).spec_candidates())[i];
                    &&& (#[trigger] out@[i]).name == u.0
                    &&& out@[i].path == u.1
                    &&& *out@[i].candidate == *old(self).spec_candidates()[u.2]
                    &&& out@[i].episode == u.3
                },
                forall|i: int| 0 <= i < updates_of(self.spec_files(), self.spec_candidates()).len() ==>
                    updates_of(self.spec_files(), self.spec_candidates())[i]
                        == updates_of(old(self).spec_files(), old(self).spec_candidates())[out@.len() + i],
            decreases self.spec_files().len(),
        {
            let ghost before = self.spec_files();
            proof {
                lemma_updates_of_from(before, self.spec_candidates(), 0);
                assert(before.skip(0) =~= before);
            }
            match self.next() {
                Some(e) => {
                    let ghost prev = out@;
                    proof {
                        let j = first_update(before, self.spec_candidates(), 0).unwrap();
                        assert(self.spec_files() == before.skip(j + 1));
                        let us = updates_of(before, self.spec_candidates());
                        let (c, ep) = update_of(before[j].0.spec_bytes(), self.spec_candidates()).unwrap();
                        assert(us[0] == (before[j].0, before[j].1, c, ep));
                        assert forall|i: int| 0 <= i < updates_of(self.spec_files(), self.spec_candidates()).len()
                            implies updates_of(self.spec_files(), self.spec_candidates())[i] == us[1 + i] by {}
                    }
                    out.push(e);
                    proof {
                        assert(out@[prev.len() as int] == e);
                    }
                },
                None => {
                    return out;
                },
            }
        }
    }
}

/// A file stands for an update of the first candidate all of whose pieces
/// its name holds, and the update carries the episode read from the name
/// with that candidate's own pieces taken out; when that reads nothing, or
/// no candidate's pieces are all in the name, there is no update.
pub proof fn law_update_reads_episode_without_candidate_pieces(name: Seq<u8>, candidates: Seq<&CandidatesEntry>)
    ensures
        update_of(name, candidates) matches Some((c, ep)) ==> {
            &&& 0 <= c < candidates.len()
            &&& crate::candidates::is_relevant(name, *candidates[c])
            &&& forall|j: int| 0 <= j < c ==> !crate::candidates::is_relevant(name, *candidates[j])
            &&& crate::extractor::spec_get(name, candidates[c].spec_pieces()) == Some(ep)
        },
        forall|c: int|
            0 <= c < candidates.len() && crate::candidates::is_relevant(name, *candidates[c]) && (forall|j: int|
                0 <= j < c ==> !crate::candidates::is_relevant(name, *candidates[j])) ==> update_of(name, candidates)
                == match crate::extractor::spec_get(name, candidates[c].spec_pieces()) {
                Some(ep) => Some((c, ep)),
                None => None,
            },
        (forall|c: int| 0 <= c < candidates.len() ==> !crate::candidates::is_relevant(name, *candidates[c]))
            ==> update_of(name, candidates) is None,
{
    crate::candidates::lemma_first_relevant(name, candidates, 0);
    assert forall|c: int|
        0 <= c < candidates.len() && crate::candidates::is_relevant(name, *candidates[c]) && (forall|j: int|
            0 <= j < c ==> !crate::candidates::is_relevant(name, *candidates[j])) implies update_of(name, candidates)
        == match crate::extractor::spec_get(name, candidates[c].spec_pieces()) {
        Some(ep) => Some((c, ep)),
        None => None,
    } by {
        match first_relevant(name, candidates, 0) {
            Some(f) => {
                if f < c {
                    assert(!crate::candidates::is_relevant(name, *candidates[f]));
                } else if f > c {
                    assert(!crate::candidates::is_relevant(name, *candidates[c]));
                }
            },
            None => {
                assert(!crate::candidates::is_relevant(name, *candidates[c]));
            },
        }
    }
}

/// The file `next` stops at is the first, from `i` on, that stands for an
/// update: every file before it stands for none. With none found, no file
/// from `i` on stands for one.
pub proof fn law_first_update_is_first<P>(files: Seq<(&str, P)>, candidates: Seq<&CandidatesEntry>, i: int)
    requires
        0 <= i,
    ensures
        first_update(files, candidates, i) matches Some(j) ==> i <= j < files.len()
            && update_of(files[j].0.spec_bytes(), candidates) is Some && forall|k: int|
            i <= k < j ==> update_of((#[trigger] files[k]).0.spec_bytes(), candidates) is None,
        first_update(files, candidates, i) is None ==> forall|k: int|
            i <= k < files.len() ==> update_of((#[trigger] files[k]).0.spec_bytes(), candidates) is None,
    decreases files.len() - i,
{
    if i < files.len() && update_of(files[i].0.spec_bytes(), candidates) is None {
        law_first_update_is_first(files, candidates, i + 1);
    }
}

} // verus!
