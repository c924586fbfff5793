//! The releases of a fetched RSS feed, read one after the other.

use vstd::prelude::*;
use crate::rss_feed::{next_release, read_release, releases_of, law_releases_of_unfolds};

verus! {

/// The content of a feed of releases, as fetched.
pub struct Releases {
    content: Vec<u8>,
}

/// The releases that are still to be read.
pub struct ReleasesIter<'c> {
    rest: &'c [u8],
}

/// A release: the title and the link of an item.
#[derive(PartialEq, Eq, Debug)]
pub struct ReleasesEntry<'c> {
    pub title: &'c [u8],
    pub link: &'c [u8],
}

impl View for Releases {
    type V = Seq<u8>;

    closed spec fn view(&self) -> Seq<u8> {
        self.content@
    }
}

impl<'c> View for ReleasesIter<'c> {
    type V = Seq<u8>;

    closed spec fn view(&self) -> Seq<u8> {
        self.rest@
    }
}

impl Releases {
    /// The releases held in the bytes that were fetched.
    pub fn from_bytes(content: Vec<u8>) -> (r: Self)
        ensures
            r@ == content@,
    {
        Self { content }
    }

    /// The releases, from the first one.
    pub fn iter(&self) -> (r: ReleasesIter<'_>)
        ensures
            r@ == self@,
    {
        ReleasesIter { rest: self.content.as_slice() }
    }
}

impl<'c> ReleasesIter<'c> {
    /// The next item with a title and a link, or `None` when none is left.
    pub fn next(&mut self) -> (r: Option<ReleasesEntry<'c>>)
        ensures
            ({
                let (first, rest) = next_release(old(self)@);
                &&& final(self)@ == rest
                &&& match first {
                    Some((t, l)) => r matches Some(e) && e.title@ == t && e.link@ == l,
                    None => r is None,
                }
            }),
            releases_of(old(self)@) == match r {
                Some(e) => seq![(e.title@, e.link@)] + releases_of(final(self)@),
                None => Seq::empty(),
            },
    {
        proof {
            law_releases_of_unfolds(self@);
        }
        let mut rest: &'c [u8] = self.rest;
        let r = read_release(&mut rest);
        self.rest = rest;
        match r {
            Some((title, link)) => Some(ReleasesEntry { title, link }),
            None => None,
        }
    }
}

} // verus!
