//! The one entity of the service: a link from a short id to its target.

use vstd::prelude::*;

verus! {

/// What a link says, as mathematics: the id and the target it stands for.
pub struct LinkView {
    pub id: Seq<char>,
    pub url: Seq<char>,
}

/// A stored link. The id is its key: a table never holds two links with the
/// same id, and neither field changes once the link is stored.
#[derive(Debug, PartialEq, Eq)]
pub struct Link {
    pub id: String,
    pub url: String,
}

/// A link that is about to be stored, borrowing its two texts.
#[derive(Debug, Clone, Copy, PartialEq, Eq)]
pub struct NewLink<'a> {
    pub id: &'a str,
    pub url: &'a str,
}

impl View for Link {
    type V = LinkView;

    open spec fn view(&self) -> LinkView {
        LinkView { id: self.id@, url: self.url@ }
    }
}

impl<'a> View for NewLink<'a> {
    type V = LinkView;

    open spec fn view(&self) -> LinkView {
        LinkView { id: self.id@, url: self.url@ }
    }
}

impl Clone for Link {
    fn clone(&self) -> (copy: Self)
        ensures
            copy@ == self@,
    {
        Link { id: self.id.clone(), url: self.url.clone() }
    }
}

impl Link {
    /// Builds a link from its two texts.
    pub fn new(id: String, url: String) -> (link: Self)
        ensures
            link.id == id,
            link.url == url,
    {
        Link { id, url }
    }

    /// The same link, borrowed in the shape in which it is handed to storage.
    pub fn as_new(&self) -> (new_link: NewLink<'_>)
        ensures
            new_link@ == self@,
    {
        NewLink { id: self.id.as_str(), url: self.url.as_str() }
    }
}

impl<'a> NewLink<'a> {
    /// Pairs an id with the target it is to stand for.
    pub fn new(id: &'a str, url: &'a str) -> (new_link: Self)
        ensures
            new_link.id == id,
            new_link.url == url,
    {
        NewLink { id, url }
    }

    /// The link that storage holds once this one has been inserted.
    pub fn to_link(&self) -> (link: Link)
        ensures
            link@ == self@,
    {
        Link { id: self.id.to_owned(), url: self.url.to_owned() }
    }
}

} // verus!
