//! Report lines for the items of a listing.

use crate::models::{Listing, ThingView};
use crate::reddit_client::{KIND_COMMENT, KIND_LINK};
use crate::text::str_equal;
use vstd::prelude::*;
use vstd::string::*;

verus! {

/// What a report line says of a listing item. A key that the item lacks is held as
/// the empty text.
#[derive(Debug)]
pub struct Digest {
    pub id: String,
    pub subreddit: String,
    pub title: String,
    pub body: String,
}

/// A digest with its texts as sequences of characters.
pub struct DigestView {
    pub id: Seq<char>,
    pub subreddit: Seq<char>,
    pub title: Seq<char>,
    pub body: Seq<char>,
}

impl View for Digest {
    type V = DigestView;

    open spec fn view(&self) -> DigestView {
        DigestView {
            id: self.id@,
            subreddit: self.subreddit@,
            title: self.title@,
            body: self.body@,
        }
    }
}

impl DeepView for Digest {
    type V = DigestView;

    open spec fn deep_view(&self) -> DigestView {
        self@
    }
}

/// The report line for one listing item: a post with its title, a comment with its
/// body, and anything else with its kind alone.
pub open spec fn debug_line(thing: ThingView<DigestView>) -> Seq<char> {
    if thing.kind == KIND_LINK@ {
        "POST t3 id="@ + thing.data.id + " subreddit="@ + thing.data.subreddit + " title="@
            + thing.data.title
    } else if thing.kind == KIND_COMMENT@ {
        "POST t3 id="@ + thing.data.id + " subreddit="@ + thing.data.subreddit + " body="@
            + thing.data.body
    } else {
        "Other kind="@ + thing.kind
    }
}

/// The report lines for a listing, one for each item, in the order of the items.
pub fn debug_posts(posts: &Listing<Digest>) -> (lines: Vec<String>)
    ensures
        lines.len() == posts.data.children.len(),
        forall|i: int|
            0 <= i < lines.len() ==> (#[trigger] lines[i])@ == debug_line(
                posts.data.children[i].deep_view(),
            ),
{
    let children = &posts.data.children;
    let mut lines: Vec<String> = Vec::new();
    let mut i: usize = 0;
    while i < children.len()
        invariant
            i <= children.len(),
            lines.len() == i,
            forall|j: int|
                0 <= j < i ==> (#[trigger] lines[j])@ == debug_line(children[j].deep_view()),
        decreases children.len() - i,
    {
        let child = &children[i];
        let mut line: String;
        if str_equal(child.kind.as_str(), KIND_LINK) {
            line = String::from_str("POST t3 id=");
            line.append(child.data.id.as_str());
            line.append(" subreddit=");
            line.append(child.data.subreddit.as_str());
            line.append(" title=");
            line.append(child.data.title.as_str());
        } else if str_equal(child.kind.as_str(), KIND_COMMENT) {
            line = String::from_str("POST t3 id=");
            line.append(child.data.id.as_str());
            line.append(" subreddit=");
            line.append(child.data.subreddit.as_str());
            line.append(" body=");
            line.append(child.data.body.as_str());
        } else {
            line = String::from_str("Other kind=");
            line.append(child.kind.as_str());
        }
        lines.push(line);
        i += 1;
    }
    lines
}

} // verus!
