//! An RSS feed read as releases: items that have both a title and a link.

use vstd::prelude::*;
use crate::scan::{split_block_exec, field, field_exec, lemma_split_block_shrinks};
use crate::feed::next_item;
use crate::tags::{
    item_open, item_close, title_open, title_close, link_open, link_close, item_open_tag,
    item_close_tag, title_open_tag, title_close_tag, link_open_tag, link_close_tag,
    lemma_item_open_len,
};

verus! {

/// The releases of an RSS feed that are still to be read.
pub struct RssFeed<'c> {
    content: &'c [u8],
}

/// A release: the title and the link of an item.
#[derive(PartialEq, Eq, Debug)]
pub struct RssFeedEntry<'c> {
    pub title: &'c [u8],
    pub link: &'c [u8],
}

impl<'c> View for RssFeed<'c> {
    type V = Seq<u8>;

    closed spec fn view(&self) -> Seq<u8> {
        self.content@
    }
}

/// The title and link of an item, when it has both.
pub open spec fn title_and_link(item: Seq<u8>) -> Option<(Seq<u8>, Seq<u8>)> {
    match (field(item, title_open(), title_close()), field(item, link_open(), link_close())) {
        (Some(t), Some(l)) => Some((t, l)),
        _ => None,
    }
}

/// The next release in `content` (items without a title or a link are
/// passed over), and what is left after its item; when there is none, what
/// is left is the part in which no complete item remains.
pub open spec fn next_release(content: Seq<u8>) -> (Option<(Seq<u8>, Seq<u8>)>, Seq<u8>)
    decreases content.len(),
{
    match next_item(content) {
        None => (None, content),
        Some((item, rest)) => {
            if rest.len() < content.len() {
                match title_and_link(item) {
                    Some(tl) => (Some(tl), rest),
                    None => next_release(rest),
                }
            } else {
                (None, content)
            }
        },
    }
}

/// The releases of `content`, in order: what reading it release after
/// release gives until none is left.
pub open spec fn releases_of(content: Seq<u8>) -> Seq<(Seq<u8>, Seq<u8>)>
    decreases content.len(),
{
    match next_release(content) {
        (Some(x), rest) => if rest.len() < content.len() {
            seq![x] + releases_of(rest)
        } else {
            seq![x]
        },
        (None, _) => Seq::empty(),
    }
}

/// A release found leaves less to read.
proof fn lemma_next_release_shrinks(content: Seq<u8>)
    ensures
        next_release(content).0 is Some ==> next_release(content).1.len() < content.len(),
    decreases content.len(),
{
    if let Some((item, rest)) = next_item(content) {
        if rest.len() < content.len() && title_and_link(item) is None {
            lemma_next_release_shrinks(rest);
        }
    }
}

/// Reading one release takes the first of the releases of `content`, and
/// the releases of what is left are the others; when none is found, there
/// are none. Every reader of releases that reads by `next_release` (an
/// `RssFeed`, a `ReleasesIter`) thus gives `releases_of` of its content.
pub proof fn law_releases_of_unfolds(content: Seq<u8>)
    ensures
        releases_of(content) == match next_release(content).0 {
            Some(x) => seq![x] + releases_of(next_release(content).1),
            None => Seq::empty(),
        },
{
    lemma_next_release_shrinks(content);
}

/// Reads the next release out of `content`, as `next_release` says.
pub fn read_release<'c>(content: &mut &'c [u8]) -> (r: Option<(&'c [u8], &'c [u8])>)
    ensures
        ({
            let (first, rest) = next_release(old(content)@);
            &&& final(content)@ == rest
            &&& match first {
                Some((t, l)) => r matches Some((rt, rl)) && rt@ == t && rl@ == l,
                None => r is None,
            }
        }),
{
    loop
        invariant
            next_release(old(content)@) == next_release(content@),
        decreases content@.len(),
    {
        let current: &'c [u8] = *content;
        proof {
            lemma_item_open_len();
            lemma_split_block_shrinks(current@, item_open(), item_close());
        }
        let (item, rest) = match split_block_exec(current, item_open_tag(), item_close_tag()) {
            Some(pair) => pair,
            None => return None,
        };
        *content = rest;
        let title = match field_exec(item, title_open_tag(), title_close_tag()) {
            Some(t) => t,
            None => continue,
        };
        let link = match field_exec(item, link_open_tag(), link_close_tag()) {
            Some(l) => l,
            None => continue,
        };
        return Some((title, link));
    }
}

impl<'c> RssFeed<'c> {
    /// The releases of the feed whose content is `content`.
    pub fn new(content: &'c [u8]) -> (r: Self)
        ensures
            r@ == content@,
    {
        Self { content }
    }

    /// The next release, or `None` when no item with a title and a link is
    /// left.
    pub fn next(&mut self) -> (r: Option<RssFeedEntry<'c>>)
        ensures
            ({
                let (first, rest) = next_release(old(self)@);
                &&& final(self)@ == rest
                &&& match first {
                    Some((t, l)) => r matches Some(e) && e.title@ == t && e.link@ == l,
                    None => r is None,
                }
            }),
            releases_of(old(self)@) == match r {
                Some(e) => seq![(e.title@, e.link@)] + releases_of(final(self)@),
                None => Seq::empty(),
            },
    {
        proof {
            law_releases_of_unfolds(self@);
        }
        let mut content: &'c [u8] = self.content;
        let r = read_release(&mut content);
        self.content = content;
        match r {
            Some((title, link)) => Some(RssFeedEntry { title, link }),
            None => None,
        }
    }
}

} // verus!

verus! {

/// Once no release is left, none ever comes back: reading again from what
/// is left finds nothing and leaves it as it is.
pub proof fn law_exhausted_feed_stays_exhausted(content: Seq<u8>)
    requires
        next_release(content).0 is None,
    ensures
        next_release(next_release(content).1) == next_release(content),
    decreases content.len(),
{
    if let Some((item, rest)) = next_item(content) {
        if rest.len() < content.len() && title_and_link(item) is None {
            law_exhausted_feed_stays_exhausted(rest);
        }
    }
}

/// A release's title never holds `</title>`, and its link never holds
/// `</link>`.
pub proof fn law_release_fields_exclude_closing_tags(content: Seq<u8>)
    requires
        next_release(content).0 is Some,
    ensures
        ({
            let (t, l) = next_release(content).0.unwrap();
            !crate::scan::contains(t, title_close()) && !crate::scan::contains(l, link_close())
        }),
    decreases content.len(),
{
    crate::tags::lemma_close_tags_len();
    if let Some((item, rest)) = next_item(content) {
        if rest.len() < content.len() {
            if title_and_link(item) is Some {
                crate::scan::law_field_excludes_close(item, title_open(), title_close());
                crate::scan::law_field_excludes_close(item, link_open(), link_close());
            } else {
                law_release_fields_exclude_closing_tags(rest);
            }
        }
    }
}

} // verus!
