//! The RSS tags that releases are read between.

use vstd::prelude::*;
use vstd::string::StringSliceAdditionalSpecFns;

verus! {

pub open spec fn item_open() -> Seq<u8> { "<item>".spec_bytes() }
pub open spec fn item_close() -> Seq<u8> { "</item>".spec_bytes() }
pub open spec fn title_open() -> Seq<u8> { "<title>".spec_bytes() }
pub open spec fn title_close() -> Seq<u8> { "</title>".spec_bytes() }
pub open spec fn link_open() -> Seq<u8> { "<link>".spec_bytes() }
pub open spec fn link_close() -> Seq<u8> { "</link>".spec_bytes() }

pub fn item_open_tag() -> (r: &'static [u8]) ensures r@ == item_open() { "<item>".as_bytes() }
pub fn item_close_tag() -> (r: &'static [u8]) ensures r@ == item_close() { "</item>".as_bytes() }
pub fn title_open_tag() -> (r: &'static [u8]) ensures r@ == title_open() { "<title>".as_bytes() }
pub fn title_close_tag() -> (r: &'static [u8]) ensures r@ == title_close() { "</title>".as_bytes() }
pub fn link_open_tag() -> (r: &'static [u8]) ensures r@ == link_open() { "<link>".as_bytes() }
pub fn link_close_tag() -> (r: &'static [u8]) ensures r@ == link_close() { "</link>".as_bytes() }

/// The item tags are not empty, so each item read shortens what is left.
pub proof fn lemma_item_open_len()
    ensures
        item_open().len() == 6,
{
    broadcast use vstd::string::is_ascii_spec_bytes;
    reveal_strlit("<item>");
    assert(vstd::string::is_ascii("<item>"));
}

} // verus!

verus! {

/// The closing tags of a title and of a link are not empty.
pub proof fn lemma_close_tags_len()
    ensures
        title_close().len() == 8,
        link_close().len() == 7,
{
    broadcast use vstd::string::is_ascii_spec_bytes;
    reveal_strlit("</title>");
    reveal_strlit("</link>");
    assert(vstd::string::is_ascii("</title>"));
    assert(vstd::string::is_ascii("</link>"));
}

} // verus!
