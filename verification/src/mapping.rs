//! Bookmarks: names that a user has given to URLs.

use crate::assoc::{lookup, put, Pairs};
use crate::resource::Resource;
use crate::text::starts_with;
use crate::urls;
use vstd::prelude::*;

verus! {

/// The prefix of a URL that is fetched over HTTP.
pub const HTTP_PREFIX: &'static str = "http";

/// `s` is shaped like a URL: it starts with `http`, or with the prefix of a
/// subject local to a store.
pub open spec fn url_shaped(s: Seq<char>) -> bool {
    HTTP_PREFIX@.is_prefix_of(s) || urls::LOCAL_PREFIX@.is_prefix_of(s)
}

/// What `name` stands for: the URL it is a bookmark of; failing that, itself
/// where it is shaped like a URL.
pub open spec fn resolved(bookmarks: Pairs, name: Seq<char>) -> Option<Seq<char>> {
    match lookup(bookmarks, name) {
        Some(url) => Some(url),
        None => if url_shaped(name) {
            Some(name)
        } else {
            None
        },
    }
}

/// Whether `s` is shaped like a URL.
pub fn is_url(s: &str) -> (r: bool)
    ensures
        r == url_shaped(s@),
{
    starts_with(s, HTTP_PREFIX) || starts_with(s, urls::LOCAL_PREFIX)
}

/// Bookmarks, each a name with the URL it stands for.
pub struct Mapping {
    bookmarks: Resource,
}

impl View for Mapping {
    type V = Pairs;

    closed spec fn view(&self) -> Self::V {
        self.bookmarks@
    }
}

impl Mapping {
    /// No bookmarks.
    pub fn init() -> (mapping: Mapping)
        ensures
            mapping@ == Pairs::empty(),
    {
        Mapping { bookmarks: Resource::new() }
    }

    /// Makes `name` a bookmark of `url`, in place of what it stood for.
    pub fn insert(&mut self, name: String, url: String)
        ensures
            final(self)@ == put(old(self)@, name@, url@),
            lookup(final(self)@, name@) == Some(url@),
            forall|other: Seq<char>|
                other != name@ ==> lookup(final(self)@, other) == lookup(old(self)@, other),
    {
        self.bookmarks.insert(name, url);
    }

    /// The URL that `name` is a bookmark of.
    pub fn get(&self, name: &str) -> (r: Option<&String>)
        ensures
            match r {
                Some(url) => lookup(self@, name@) == Some(url@),
                None => lookup(self@, name@) is None,
            },
    {
        self.bookmarks.get(name)
    }

    /// What `name` stands for: see [`resolved`].
    pub fn try_mapping_or_url(&self, name: &str) -> (r: Option<String>)
        ensures
            match r {
                Some(url) => resolved(self@, name@) == Some(url@),
                None => resolved(self@, name@) is None,
            },
    {
        match self.get(name) {
            Some(url) => Some(url.clone()),
            None => {
                if is_url(name) {
                    Some(name.to_owned())
                } else {
                    None
                }
            },
        }
    }
}

} // verus!
