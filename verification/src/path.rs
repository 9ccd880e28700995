//! Atomic paths: a start, then properties and indexes, separated by spaces.
//! A path walks from a subject to one of its values, and from an item of an
//! array value to the subject that the item names.

use crate::assoc::{lookup, Pairs, Resources};
use crate::decimal::{as_u32, parse_u32};
use crate::errors::{outcome, Error, ErrorView};
use crate::json::{json_string_array, read_string_array};
use crate::mapping::{is_url, resolved, url_shaped, Mapping};
use crate::schema::{property_of, url_of_shortname};
use crate::store::{Atom, AtomView, Store};
use crate::text::{read_texts, split, split_at_char, texts};
use crate::values::{decode, Value};
use vstd::prelude::*;
use vstd::slice::slice_subrange;

verus! {

/// Where a path stands: at a subject, or at one value of a subject.
#[derive(Debug, Clone, PartialEq, Eq)]
pub enum PathReturn {
    Subject(String),
    Atom(Atom),
}

/// [`PathReturn`] as a mathematical value.
pub ghost enum PathView {
    Subject(Seq<char>),
    Atom(AtomView),
}

impl View for PathReturn {
    type V = PathView;

    open spec fn view(&self) -> PathView {
        match *self {
            PathReturn::Subject(s) => PathView::Subject(s@),
            PathReturn::Atom(a) => PathView::Atom(a@),
        }
    }
}

/// The subject that the path stands at or in.
pub open spec fn subject_of(state: PathView) -> Seq<char> {
    match state {
        PathView::Subject(s) => s,
        PathView::Atom(a) => a.subject,
    }
}

/// The step of an index, given what the value at hand was read as. At a bare
/// subject, and at a value that is no array, it fails. In an array it leads
/// to the subject that the item names. Past the end of the array it leads
/// nowhere: the path stays where it is.
pub open spec fn index_step(state: PathView, read: Option<Seq<Seq<char>>>, index: nat) -> Result<
    PathView,
    ErrorView,
> {
    match state {
        PathView::Subject(subject) => Err(ErrorView::IndexOnSubject { subject }),
        PathView::Atom(atom) => match read {
            None => Err(
                ErrorView::IndexOnValue { subject: atom.subject, property: atom.property },
            ),
            Some(items) => if index < items.len() {
                Ok(PathView::Subject(items[index as int]))
            } else {
                Ok(state)
            },
        },
    }
}

/// The property that `token` refers to in `resource`: itself where it is
/// shaped like a URL, otherwise the property with that shortname.
pub open spec fn property_named(
    store: Resources,
    resource: Pairs,
    token: Seq<char>,
) -> Result<Seq<char>, ErrorView> {
    if url_shaped(token) {
        Ok(token)
    } else {
        url_of_shortname(store, token, resource)
    }
}

/// The step of a property: to the value that the subject at hand has for it,
/// decoded under the property's datatype.
pub open spec fn property_step(
    store: Resources,
    state: PathView,
    token: Seq<char>,
) -> Result<PathView, ErrorView> {
    let subject = subject_of(state);
    match lookup(store, subject) {
        None => Err(ErrorView::ResourceNotFound { subject }),
        Some(resource) => match property_named(store, resource, token) {
            Err(e) => Err(e),
            Ok(property) => match lookup(resource, property) {
                None => Err(ErrorView::ValueNotFound { subject, property }),
                Some(raw) => match property_of(store, property) {
                    Err(e) => Err(e),
                    Ok(described) => match decode(raw, described.data_type) {
                        Err(e) => Err(e),
                        Ok(value) => Ok(
                            PathView::Atom(
                                AtomView { subject, property, value: raw, native_value: Some(value) },
                            ),
                        ),
                    },
                },
            },
        },
    }
}

/// What the value at hand reads as, where the path stands at a value.
pub open spec fn array_at(state: PathView) -> Option<Seq<Seq<char>>> {
    match state {
        PathView::Subject(_) => None,
        PathView::Atom(atom) => json_string_array(atom.value),
    }
}

/// One step: an empty token changes nothing, an unsigned number is an index,
/// anything else refers to a property.
pub open spec fn step(
    store: Resources,
    state: PathView,
    token: Seq<char>,
) -> Result<PathView, ErrorView> {
    if token.len() == 0 {
        Ok(state)
    } else {
        match as_u32(token) {
            Some(index) => index_step(state, array_at(state), index as nat),
            None => property_step(store, state, token),
        }
    }
}

/// The steps of `tokens` in order, from `state`, up to the first that fails.
pub open spec fn walk(
    store: Resources,
    state: PathView,
    tokens: Seq<Seq<char>>,
) -> Result<PathView, ErrorView>
    decreases tokens.len(),
{
    if tokens.len() == 0 {
        Ok(state)
    } else {
        match walk(store, state, tokens.drop_last()) {
            Err(e) => Err(e),
            Ok(before) => step(store, before, tokens.last()),
        }
    }
}

/// The subject that the first token of a path names: none where it is empty.
pub open spec fn start_of(bookmarks: Pairs, token: Seq<char>) -> Option<Seq<char>> {
    if token.len() == 0 {
        None
    } else {
        resolved(bookmarks, token)
    }
}

/// Where `path` leads: its first token, which must not be empty, names the
/// start, through a bookmark or as a URL; every further token is a step.
pub open spec fn path_end(
    store: Resources,
    bookmarks: Pairs,
    path: Seq<char>,
) -> Result<PathView, ErrorView> {
    let tokens = split(path, ' ');
    match start_of(bookmarks, tokens[0]) {
        None => Err(ErrorView::UnknownBookmark { name: tokens[0] }),
        Some(start) => walk(store, PathView::Subject(start), tokens.skip(1)),
    }
}

impl PathReturn {
    /// The subject that the path stands at or in.
    pub fn subject(&self) -> (subject: &String)
        ensures
            subject@ == subject_of(self@),
    {
        match self {
            PathReturn::Subject(s) => s,
            PathReturn::Atom(a) => &a.subject,
        }
    }
}

impl Store {
    /// The step of an index, given what the value at hand was read as: see
    /// [`index_step`].
    pub fn index_step(
        state: PathReturn,
        read: Option<Vec<String>>,
        index: u32,
    ) -> (r: Result<PathReturn, Error>)
        ensures
            outcome(r) == index_step(state@, read_texts(read), index as nat),
    {
        match state {
            PathReturn::Subject(subject) => Err(Error::IndexOnSubject { subject }),
            PathReturn::Atom(atom) => match read {
                None => Err(
                    Error::IndexOnValue { subject: atom.subject, property: atom.property },
                ),
                Some(items) => {
                    if (index as usize) < items.len() {
                        Ok(PathReturn::Subject(items[index as usize].clone()))
                    } else {
                        Ok(PathReturn::Atom(atom))
                    }
                },
            },
        }
    }

    /// The step of a property: see [`property_step`].
    pub fn property_step(&self, state: PathReturn, token: &str) -> (r: Result<PathReturn, Error>)
        ensures
            outcome(r) == property_step(self@, state@, token@),
    {
        let subject = state.subject();
        let resource = match self.get(subject) {
            Some(resource) => resource,
            None => return Err(Error::ResourceNotFound { subject: subject.clone() }),
        };
        let property = if is_url(token) {
            token.to_owned()
        } else {
            match self.property_shortname_to_url(&token.to_owned(), resource) {
                Ok(url) => url,
                Err(e) => return Err(e),
            }
        };
        let raw = match resource.get(property.as_str()) {
            Some(raw) => raw,
            None => return Err(
                Error::ValueNotFound { subject: subject.clone(), property },
            ),
        };
        let described = match self.get_property(&property) {
            Ok(described) => described,
            Err(e) => return Err(e),
        };
        match Value::new(raw.as_str(), &described.data_type) {
            Err(e) => Err(e),
            Ok(value) => Ok(
                PathReturn::Atom(
                    Atom {
                        subject: subject.clone(),
                        property,
                        value: raw.clone(),
                        native_value: Some(value),
                    },
                ),
            ),
        }
    }

    /// One step of a path: see [`step`].
    pub fn path_step(&self, state: PathReturn, token: &str) -> (r: Result<PathReturn, Error>)
        ensures
            outcome(r) == step(self@, state@, token@),
    {
        if token.is_empty() {
            return Ok(state);
        }
        match parse_u32(token) {
            Some(index) => {
                let read = match &state {
                    PathReturn::Subject(_) => None,
                    PathReturn::Atom(atom) => read_string_array(atom.value.as_str()),
                };
                Store::index_step(state, read, index)
            },
            None => self.property_step(state, token),
        }
    }

    /// Takes the steps of `tokens` in order, from `start`: see [`walk`]. For
    /// a path whose start was found by other means than bookmarks.
    pub fn walk(&self, start: PathReturn, tokens: &[String]) -> (r: Result<PathReturn, Error>)
        ensures
            outcome(r) == walk(self@, start@, texts(tokens@)),
    {
        let ghost all = texts(tokens@);
        let mut current = start;
        let mut i: usize = 0;
        assert(all.take(0) =~= Seq::<Seq<char>>::empty());
        while i < tokens.len()
            invariant
                i <= tokens.len(),
                all == texts(tokens@),
                walk(self@, start@, all.take(i as int)) == Ok::<PathView, ErrorView>(current@),
            decreases tokens.len() - i,
        {
            assert(all.take(i + 1).drop_last() =~= all.take(i as int));
            assert(all.take(i + 1).last() == tokens@[i as int]@);
            match self.path_step(current, tokens[i].as_str()) {
                Ok(next) => {
                    current = next;
                },
                Err(e) => {
                    proof {
                        assert(walk(self@, start@, all.take(i + 1)) is Err);
                        lemma_walk_fails(self@, start@, all, i + 1);
                    }
                    return Err(e);
                },
            }
            i += 1;
        }
        assert(all.take(tokens.len() as int) =~= all);
        Ok(current)
    }

    /// Accepts an Atomic Path string, returns the result value (resource or property value)
    pub fn get_path(&self, atomic_path: &str, mapping: &Mapping) -> (r: Result<PathReturn, Error>)
        ensures
            outcome(r) == path_end(self@, mapping@, atomic_path@),
    {
        let tokens = split_at_char(atomic_path, ' ');
        if tokens[0].as_str().is_empty() {
            return Err(Error::UnknownBookmark { name: tokens[0].clone() });
        }
        let start = match mapping.try_mapping_or_url(tokens[0].as_str()) {
            Some(start) => start,
            None => return Err(Error::UnknownBookmark { name: tokens[0].clone() }),
        };
        let rest = slice_subrange(tokens.as_slice(), 1, tokens.len());
        assert(texts(rest@) =~= texts(tokens@).skip(1));
        self.walk(PathReturn::Subject(start), rest)
    }
}

/// Where a beginning of `tokens` fails, the whole walk fails in the same way.
pub proof fn lemma_walk_fails(store: Resources, state: PathView, tokens: Seq<Seq<char>>, k: int)
    requires
        0 <= k <= tokens.len(),
        walk(store, state, tokens.take(k)) is Err,
    ensures
        walk(store, state, tokens) == walk(store, state, tokens.take(k)),
    decreases tokens.len() - k,
{
    if k < tokens.len() {
        assert(tokens.take(k + 1).drop_last() =~= tokens.take(k));
        lemma_walk_fails(store, state, tokens, k + 1);
    } else {
        assert(tokens.take(k) =~= tokens);
    }
}

} // verus!
