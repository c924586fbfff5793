//! An RSS feed read item by item; each item is handed out whole and its
//! title and link are read from it on demand.

use vstd::prelude::*;
use crate::scan::{split_block, split_block_exec, field, field_exec, lemma_split_block_shrinks};
use crate::tags::{item_open, item_close, title_open, title_close, link_open, link_close, item_open_tag, item_close_tag, title_open_tag, title_close_tag, link_open_tag, link_close_tag, lemma_item_open_len};

verus! {

/// The content of a feed, as fetched.
pub struct Feed {
    content: Vec<u8>,
}

/// The items of a feed that are still to be read.
pub struct FeedEntries<'c> {
    content: &'c [u8],
}

/// One item of a feed: what stands between `<item>` and `</item>`.
#[derive(PartialEq, Eq, Debug)]
pub struct FeedEntry<'c> {
    pub content: &'c [u8],
}

impl View for Feed {
    type V = Seq<u8>;

    closed spec fn view(&self) -> Seq<u8> {
        self.content@
    }
}

impl<'c> View for FeedEntries<'c> {
    type V = Seq<u8>;

    closed spec fn view(&self) -> Seq<u8> {
        self.content@
    }
}

/// The next item of `content` and what is left after it.
pub open spec fn next_item(content: Seq<u8>) -> Option<(Seq<u8>, Seq<u8>)> {
    split_block(content, item_open(), item_close())
}

impl Feed {
    /// A feed over the bytes that were fetched.
    pub fn from_bytes(content: Vec<u8>) -> (r: Feed)
        ensures
            r@ == content@,
    {
        Feed { content }
    }

    /// The items of the feed, from the first one.
    pub fn iter(&self) -> (r: FeedEntries<'_>)
        ensures
            r@ == self@,
    {
        FeedEntries { content: self.content.as_slice() }
    }
}

impl<'c> FeedEntries<'c> {
    /// The next item, or `None` when no complete item is left; what is left
    /// then stays as it is.
    pub fn next(&mut self) -> (r: Option<FeedEntry<'c>>)
        ensures
            match next_item(old(self)@) {
                Some((item, rest)) => r matches Some(e) && e.content@ == item && final(self)@ == rest,
                None => r is None && final(self)@ == old(self)@,
            },
    {
        let content: &'c [u8] = self.content;
        match split_block_exec(content, item_open_tag(), item_close_tag()) {
            Some((item, rest)) => {
                self.content = rest;
                Some(FeedEntry { content: item })
            },
            None => None,
        }
    }

    /// Reads the remaining items, in order.
    pub fn collect_all(&mut self) -> (r: Vec<FeedEntry<'c>>)
        ensures
            r@.len() == items(old(self)@).len(),
            forall|i: int| 0 <= i < r@.len() ==> (#[trigger] r@[i]).content@ == items(old(self)@)[i],
            next_item(final(self)@) is None,
    {
        let mut out: Vec<FeedEntry<'c>> = Vec::new();
        loop
            invariant
                items(old(self)@) == out@.map_values(|e: FeedEntry<'c>| e.content@) + items(self@),
            decreases self@.len(),
        {
            proof {
                lemma_item_open_len();
                lemma_split_block_shrinks(self@, item_open(), item_close());
            }
            let ghost before = self@;
            match self.next() {
                Some(e) => {
                    let ghost prev = out@;
                    out.push(e);
                    proof {
                        assert(out@.map_values(|e: FeedEntry<'c>| e.content@)
                            =~= prev.map_values(|e: FeedEntry<'c>| e.content@).push(e.content@));
                    }
                },
                None => {
                    proof {
                        assert(out@.map_values(|e: FeedEntry<'c>| e.content@) + items(self@)
                            =~= out@.map_values(|e: FeedEntry<'c>| e.content@));
                    }
                    return out;
                },
            }
        }
    }
}

/// The items that `content` holds, read one after the other.
pub open spec fn items(content: Seq<u8>) -> Seq<Seq<u8>>
    decreases content.len(),
{
    match next_item(content) {
        Some((item, rest)) => {
            if rest.len() < content.len() {
                seq![item] + items(rest)
            } else {
                Seq::empty()
            }
        },
        None => Seq::empty(),
    }
}

impl<'c> FeedEntry<'c> {
    /// The title of the item: what its first `<title>`..`</title>` pair holds.
    pub fn title(&self) -> (r: Option<&'c [u8]>)
        ensures
            r matches Some(t) ==> field(self.content@, title_open(), title_close()) == Some(t@),
            r is None ==> field(self.content@, title_open(), title_close()) is None,
    {
        field_exec(self.content, title_open_tag(), title_close_tag())
    }

    /// The link of the item: what its first `<link>`..`</link>` pair holds.
    pub fn link(&self) -> (r: Option<&'c [u8]>)
        ensures
            r matches Some(l) ==> field(self.content@, link_open(), link_close()) == Some(l@),
            r is None ==> field(self.content@, link_open(), link_close()) is None,
    {
        field_exec(self.content, link_open_tag(), link_close_tag())
    }
}

} // verus!
