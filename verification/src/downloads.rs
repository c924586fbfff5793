//! The releases of a feed that are worth downloading: those that belong to
//! a candidate and whose episode is not downloaded yet.

use vstd::prelude::*;
use vstd::string::StringSliceAdditionalSpecFns;
use vstd::utf8::valid_utf8;
use crate::scan::{field, field_exec, split_block_exec, lemma_split_block_shrinks};
use crate::feed::next_item;
use crate::tags::{
    item_open, item_close, title_open, title_close, link_open, link_close, item_open_tag,
    item_close_tag, title_open_tag, title_close_tag, link_open_tag, link_close_tag,
    lemma_item_open_len,
};
use crate::candidates::{CandidatesEntry, first_relevant, episode_for, find_relevant};
use crate::text::str_from_utf8;

verus! {

/// The items of a feed still to be read, and the candidates they are held
/// against.
pub struct DownloadsEntries<'f, 'c> {
    feed: &'f [u8],
    candidates: &'c [&'c CandidatesEntry],
}

/// A release to download: its title and link, its episode, and the
/// candidate it belongs to.
#[derive(PartialEq, Eq, Debug)]
pub struct DownloadsEntry<'f, 'c> {
    pub title: &'f str,
    pub link: &'f str,
    pub episode: i64,
    pub candidate: &'c CandidatesEntry,
}

/// What an item yields: title, link, episode and the index of the candidate.
pub type DownloadSpec = (Seq<u8>, Seq<u8>, i64, int);

/// The download that an item makes: its title must be UTF-8 and contain
/// every piece of some candidate; the first such candidate decides; its
/// episode must be readable and not downloaded yet; the item must also
/// have a UTF-8 link.
pub open spec fn download_of(item: Seq<u8>, candidates: Seq<&CandidatesEntry>) -> Option<DownloadSpec> {
    match field(item, title_open(), title_close()) {
        Some(title) if valid_utf8(title) => match first_relevant(title, candidates, 0) {
            Some(c) => match episode_for(title, *candidates[c]) {
                Some(ep) if !candidates[c].spec_downloaded().contains(ep) => match field(item, link_open(), link_close()) {
                    Some(link) if valid_utf8(link) => Some((title, link, ep, c)),
                    _ => None,
                },
                _ => None,
            },
            None => None,
        },
        _ => None,
    }
}

/// The next download in `feed`, and what is left after its item.
pub open spec fn next_download(feed: Seq<u8>, candidates: Seq<&CandidatesEntry>) -> (Option<DownloadSpec>, Seq<u8>)
    decreases feed.len(),
{
    match next_item(feed) {
        None => (None, feed),
        Some((item, rest)) => {
            if rest.len() < feed.len() {
                match download_of(item, candidates) {
                    Some(d) => (Some(d), rest),
                    None => next_download(rest, candidates),
                }
            } else {
                (None, feed)
            }
        },
    }
}

/// `e` is what `d` describes, against `candidates`.
pub open spec fn entry_is(e: DownloadsEntry, d: DownloadSpec, candidates: Seq<&CandidatesEntry>) -> bool {
    &&& e.title.spec_bytes() == d.0
    &&& e.link.spec_bytes() == d.1
    &&& e.episode == d.2
    &&& 0 <= d.3 < candidates.len()
    &&& *e.candidate == *candidates[d.3]
}

/// The download that `item` makes, as `download_of` says.
fn build_entry<'f, 'c>(item: &'f [u8], candidates: &'c [&'c CandidatesEntry]) -> (r: Option<DownloadsEntry<'f, 'c>>)
    ensures
        match download_of(item@, candidates@) {
            Some(d) => r matches Some(e) && entry_is(e, d, candidates@),
            None => r is None,
        },
{
    let title_bytes = field_exec(item, title_open_tag(), title_close_tag())?;
    let title = str_from_utf8(title_bytes)?;
    let c = find_relevant(title, candidates)?;
    proof {
        crate::candidates::lemma_first_relevant(title.spec_bytes(), candidates@, 0);
    }
    let candidate: &'c CandidatesEntry = candidates[c];
    let pieces = candidate.pieces();
    let episode = crate::extractor::get(title, pieces.as_slice())?;
    if candidate.is_downloaded(episode) {
        return None;
    }
    let link_bytes = field_exec(item, link_open_tag(), link_close_tag())?;
    let link = str_from_utf8(link_bytes)?;
    Some(DownloadsEntry { title, link, episode, candidate })
}

impl<'f, 'c> DownloadsEntries<'f, 'c> {
    /// The downloads of `feed` against `candidates`.
    pub fn get(feed: &'f [u8], candidates: &'c [&'c CandidatesEntry]) -> (r: Self)
        ensures
            r.spec_feed() == feed@,
            r.spec_candidates() == candidates@,
    {
        Self { feed, candidates }
    }

    /// What is left of the feed.
    pub closed spec fn spec_feed(&self) -> Seq<u8> {
        self.feed@
    }

    /// The candidates.
    pub closed spec fn spec_candidates(&self) -> Seq<&'c CandidatesEntry> {
        self.candidates@
    }

    /// The next download, or `None` when no item left makes one.
    pub fn next(&mut self) -> (r: Option<DownloadsEntry<'f, 'c>>)
        ensures
            final(self).spec_candidates() == old(self).spec_candidates(),
            ({
                let (first, rest) = next_download(old(self).spec_feed(), old(self).spec_candidates());
                &&& final(self).spec_feed() == rest
                &&& match first {
                    Some(d) => r matches Some(e) && entry_is(e, d, old(self).spec_candidates()),
                    None => r is None,
                }
            }),
    {
        loop
            invariant
                self.candidates@ == old(self).candidates@,
                next_download(old(self).feed@, self.candidates@) == next_download(self.feed@, self.candidates@),
            decreases self.feed@.len(),
        {
            let feed: &'f [u8] = self.feed;
            proof {
                lemma_item_open_len();
                lemma_split_block_shrinks(feed@, item_open(), item_close());
            }
            let (item, rest) = match split_block_exec(feed, item_open_tag(), item_close_tag()) {
                Some(pair) => pair,
                None => return None,
            };
            let entry = build_entry(item, self.candidates);
            self.feed = rest;
            if entry.is_some() {
                return entry;
            }
        }
    }

    /// Reads the remaining downloads, in order.
    pub fn collect_all(&mut self) -> (r: Vec<DownloadsEntry<'f, 'c>>)
        ensures
            final(self).spec_candidates() == old(self).spec_candidates(),
            next_download(final(self).spec_feed(), final(self).spec_candidates()).0 is None,
            r@.len() == downloads(old(self).spec_feed(), old(self).spec_candidates()).len(),
            forall|i: int| 0 <= i < r@.len() ==> entry_is(
                #[trigger] r@[i],
                downloads(old(self).spec_feed(), old(self).spec_candidates())[i],
                old(self).spec_candidates(),
            ),
    {
        let mut out: Vec<DownloadsEntry<'f, 'c>> = Vec::new();
        loop
            invariant
                self.spec_candidates() == old(self).spec_candidates(),
                out@.len() + downloads(self.spec_feed(), self.spec_candidates()).len()
                    == downloads(old(self).spec_feed(), old(self).spec_candidates()).len(),
                forall|i: int| 0 <= i < out@.len() ==> entry_is(
                    #[trigger] out@[i],
                    downloads(old(self).spec_feed(), old(self).spec_candidates())[i],
                    old(self).spec_candidates(),
                ),
                forall|i: int| 0 <= i < downloads(self.spec_feed(), self.spec_candidates()).len() ==>
                    downloads(self.spec_feed(), self.spec_candidates())[i]
                        == downloads(old(self).spec_feed(), old(self).spec_candidates())[out@.len() + i],
            decreases self.spec_feed().len(),
        {
            let ghost before = self.spec_feed();
            proof {
                lemma_next_download_shrinks(before, self.spec_candidates());
            }
            match self.next() {
                Some(e) => {
                    proof {
                        let ds = downloads(before, self.spec_candidates());
                        assert(ds == seq![next_download(before, self.spec_candidates()).0.unwrap()]
                            + downloads(self.spec_feed(), self.spec_candidates()));
                        assert(ds[0] == next_download(before, self.spec_candidates()).0.unwrap());
                        assert forall|i: int| 0 <= i < downloads(self.spec_feed(), self.spec_candidates()).len()
                            implies downloads(self.spec_feed(), self.spec_candidates())[i] == ds[1 + i] by {}
                    }
                    out.push(e);
                },
                None => {
                    proof {
                        law_exhausted_downloads_stay_exhausted(before, self.spec_candidates());
                    }
                    return out;
                },
            }
        }
    }
}

/// The downloads of `feed`, read one after the other.
pub open spec fn downloads(feed: Seq<u8>, candidates: Seq<&CandidatesEntry>) -> Seq<DownloadSpec>
    decreases feed.len(),
{
    let (first, rest) = next_download(feed, candidates);
    match first {
        Some(d) => {
            if rest.len() < feed.len() {
                seq![d] + downloads(rest, candidates)
            } else {
                Seq::empty()
            }
        },
        None => Seq::empty(),
    }
}

/// Once no download is left, reading again finds none and leaves the
/// feed as it is.
pub proof fn law_exhausted_downloads_stay_exhausted(feed: Seq<u8>, candidates: Seq<&CandidatesEntry>)
    requires
        next_download(feed, candidates).0 is None,
    ensures
        next_download(next_download(feed, candidates).1, candidates) == next_download(feed, candidates),
    decreases feed.len(),
{
    if let Some((item, rest)) = next_item(feed) {
        if rest.len() < feed.len() && download_of(item, candidates) is None {
            law_exhausted_downloads_stay_exhausted(rest, candidates);
        }
    }
}

/// Each download read leaves less of the feed.
pub proof fn lemma_next_download_shrinks(feed: Seq<u8>, candidates: Seq<&CandidatesEntry>)
    ensures
        next_download(feed, candidates).0 is Some ==> next_download(feed, candidates).1.len() < feed.len(),
        next_download(feed, candidates).1.len() <= feed.len(),
    decreases feed.len(),
{
    lemma_item_open_len();
    lemma_split_block_shrinks(feed, item_open(), item_close());
    if let Some((item, rest)) = next_item(feed) {
        if rest.len() < feed.len() && download_of(item, candidates) is None {
            lemma_next_download_shrinks(rest, candidates);
        }
    }
}

} // verus!

verus! {

/// A download is never of an episode its candidate has already, and its
/// title holds every piece of that candidate.
pub proof fn law_download_is_new_and_relevant(feed: Seq<u8>, candidates: Seq<&CandidatesEntry>)
    requires
        next_download(feed, candidates).0 is Some,
    ensures
        ({
            let d = next_download(feed, candidates).0.unwrap();
            &&& 0 <= d.3 < candidates.len()
            &&& !candidates[d.3].spec_downloaded().contains(d.2)
            &&& crate::candidates::is_relevant(d.0, *candidates[d.3])
            &&& episode_for(d.0, *candidates[d.3]) == Some(d.2)
            &&& crate::extractor::spec_get(d.0, candidates[d.3].spec_pieces()) == Some(d.2)
        }),
    decreases feed.len(),
{
    if let Some((item, rest)) = next_item(feed) {
        if rest.len() < feed.len() {
            match download_of(item, candidates) {
                Some(d) => {
                    crate::candidates::lemma_first_relevant(d.0, candidates, 0);
                },
                None => {
                    law_download_is_new_and_relevant(rest, candidates);
                },
            }
        }
    }
}

} // verus!
