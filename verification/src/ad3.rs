//! AD3: one atom on a line, written as an array of three strings. Lines that
//! are empty or start with `#` say nothing.

use crate::assoc::{
    distinct_keys, has_key, lemma_position_unique, lookup, position, put, Pairs, Resources,
};
use crate::errors::{outcome, Error, ErrorView};
use crate::json::{
    is_line_of, json_array_text, json_string_array, read_string_array, write_string_array,
};
use crate::store::{store_wf, with_atom, Store};
use crate::text::{
    chars_of, lemma_scan_append, lines, read_texts, scan_lines, split_lines, starts_with, strip_cr,
    text_at, texts,
};
use crate::urls;
use vstd::prelude::*;

verus! {

/// What a line that opens an array does to `store`, given what the line was
/// read as: an array of three strings is an atom; anything else is a failure
/// that names the line.
pub open spec fn line_effect(
    store: Resources,
    line: Seq<char>,
    read: Option<Seq<Seq<char>>>,
) -> Result<Resources, ErrorView> {
    match read {
        None => Err(ErrorView::MalformedLine { line }),
        Some(items) => if items.len() == 3 {
            Ok(with_atom(store, items[0], items[1], items[2]))
        } else {
            Err(ErrorView::WrongLength { line, length: items.len() })
        },
    }
}

/// What `line` does to `store`.
pub open spec fn after_line(store: Resources, line: Seq<char>) -> Result<Resources, ErrorView> {
    if line.len() == 0 || line[0] == '#' {
        Ok(store)
    } else if line[0] == '[' {
        line_effect(store, line, json_string_array(line))
    } else {
        Err(ErrorView::UnexpectedStart { line, start: line[0] })
    }
}

/// `store` after `lines`, taken in order up to the first that fails, and that
/// failure.
pub open spec fn after_lines(
    store: Resources,
    lines: Seq<Seq<char>>,
) -> (Resources, Option<ErrorView>)
    decreases lines.len(),
{
    if lines.len() == 0 {
        (store, None)
    } else {
        let (before, fault) = after_lines(store, lines.drop_last());
        if fault is Some {
            (before, fault)
        } else {
            match after_line(before, lines.last()) {
                Ok(after) => (after, None),
                Err(e) => (before, Some(e)),
            }
        }
    }
}

/// The subject as it is written: a local subject, where a domain is given,
/// has its prefix replaced by the domain.
pub open spec fn written_subject(subject: Seq<char>, domain: Option<Seq<char>>) -> Seq<char> {
    match domain {
        Some(d) => if urls::LOCAL_PREFIX@.is_prefix_of(subject) {
            d + subject.skip(urls::LOCAL_PREFIX@.len() as int)
        } else {
            subject
        },
        None => subject,
    }
}

/// The three strings of an atom.
pub open spec fn atom_items(subject: Seq<char>, pair: (Seq<char>, Seq<char>)) -> Seq<Seq<char>> {
    seq![subject, pair.0, pair.1]
}

/// The lines of a resource, one for each pair in order, each closed by a line
/// feed; `None` where a line cannot be written.
pub open spec fn resource_text(subject: Seq<char>, pairs: Pairs) -> Option<Seq<char>>
    decreases pairs.len(),
{
    if pairs.len() == 0 {
        Some(Seq::empty())
    } else {
        match resource_text(subject, pairs.drop_last()) {
            None => None,
            Some(text) => match json_array_text(atom_items(subject, pairs.last())) {
                None => None,
                Some(line) => Some(text + line + seq!['\n']),
            },
        }
    }
}

/// The AD3 of the resource at `subject`, or why there is none.
pub open spec fn resource_ad3(
    store: Resources,
    subject: Seq<char>,
    domain: Option<Seq<char>>,
) -> Result<Seq<char>, ErrorView> {
    match lookup(store, subject) {
        None => Err(ErrorView::ResourceNotFound { subject }),
        Some(pairs) => match resource_text(written_subject(subject, domain), pairs) {
            None => Err(ErrorView::NotWritten { subject }),
            Some(text) => Ok(text),
        },
    }
}

/// The lines of every resource of `store`, in order, subjects unchanged;
/// `None` where a line cannot be written.
pub open spec fn store_text(store: Resources) -> Option<Seq<char>>
    decreases store.len(),
{
    if store.len() == 0 {
        Some(Seq::empty())
    } else {
        match store_text(store.drop_last()) {
            None => None,
            Some(text) => match resource_text(store.last().0, store.last().1) {
                None => None,
                Some(more) => Some(text + more),
            },
        }
    }
}

/// The subject of the first resource that cannot be written, where there is one.
pub open spec fn unwritten_subject(store: Resources) -> Seq<char>
    decreases store.len(),
{
    if store.len() == 0 {
        Seq::empty()
    } else if store_text(store.drop_last()) is None {
        unwritten_subject(store.drop_last())
    } else {
        store.last().0
    }
}

/// Every line written for a pair of the resource reads back as that pair.
pub open spec fn faithful_resource(subject: Seq<char>, pairs: Pairs) -> bool {
    forall|k: int|
        0 <= k < pairs.len() ==> (#[trigger] json_array_text(
            atom_items(subject, pairs[k]),
        ) matches Some(line) ==> is_line_of(line, atom_items(subject, pairs[k])))
}

/// Every line written for an atom of the store reads back as that atom.
pub open spec fn faithful_store(store: Resources) -> bool {
    forall|i: int| 0 <= i < store.len() ==> faithful_resource(#[trigger] store[i].0, store[i].1)
}

/// No resource of the store is without properties.
pub open spec fn no_empty_resource(store: Resources) -> bool {
    forall|i: int| 0 <= i < store.len() ==> (#[trigger] store[i]).1.len() > 0
}

/// `store` with the resource (`subject`, `pairs`) at its end, where there are pairs.
pub open spec fn grown(store: Resources, subject: Seq<char>, pairs: Pairs) -> Resources {
    if pairs.len() == 0 {
        store
    } else {
        store.push((subject, pairs))
    }
}

/// One more atom of a new subject's resource makes the resource one pair longer.
proof fn lemma_grow(store: Resources, subject: Seq<char>, pairs: Pairs, j: int)
    requires
        distinct_keys(store),
        !has_key(store, subject),
        distinct_keys(pairs),
        0 <= j < pairs.len(),
    ensures
        with_atom(grown(store, subject, pairs.take(j)), subject, pairs[j].0, pairs[j].1) == grown(
            store,
            subject,
            pairs.take(j + 1),
        ),
{
    let before = grown(store, subject, pairs.take(j));
    let (property, value) = pairs[j];
    if j == 0 {
        assert(pairs.take(1) =~= seq![(property, value)]);
        assert(put(store, subject, seq![(property, value)]) =~= store.push(
            (subject, pairs.take(1)),
        ));
    } else {
        let n = store.len() as int;
        assert(before[n] == (subject, pairs.take(j)));
        assert(distinct_keys(before)) by {
            assert forall|a: int, b: int| 0 <= a < b < before.len() implies (#[trigger] before[a]).0
                != (#[trigger] before[b]).0 by {
                if b < n {
                    assert(before[a] == store[a] && before[b] == store[b]);
                } else {
                    assert(before[a] == store[a]);
                }
            }
        }
        lemma_position_unique(before, n);
        assert(!has_key(pairs.take(j), property)) by {
            if has_key(pairs.take(j), property) {
                let k = position(pairs.take(j), property);
                assert(pairs.take(j)[k] == pairs[k]);
                assert(pairs[k].0 != pairs[j].0);
            }
        }
        assert(pairs.take(j).push((property, value)) =~= pairs.take(j + 1));
        assert(before.update(n, (subject, pairs.take(j + 1))) =~= store.push(
            (subject, pairs.take(j + 1)),
        ));
    }
}

/// A text that ends its last line, followed by one more faithful line, is
/// read as the same lines and that line.
proof fn lemma_line_added(text: Seq<char>, line: Seq<char>, items: Seq<Seq<char>>)
    requires
        scan_lines(text).1.len() == 0,
        is_line_of(line, items),
    ensures
        scan_lines(text + line + seq!['\n']) == (lines(text).push(line), Seq::<char>::empty()),
        lines(text + line + seq!['\n']) == lines(text).push(line),
{
    lemma_scan_append(text, line);
    assert(scan_lines(text).1 + line =~= line);
    assert(line.last() == line[line.len() - 1]);
    assert(strip_cr(line) == line);
}

/// Reading the lines written for the pairs of a resource, after a text that
/// gave `store`, gives `store` grown by that resource.
proof fn lemma_resource_read_back(
    origin: Resources,
    text: Seq<char>,
    store: Resources,
    subject: Seq<char>,
    pairs: Pairs,
)
    requires
        scan_lines(text).1.len() == 0,
        after_lines(origin, lines(text)) == (store, None::<ErrorView>),
        distinct_keys(store),
        !has_key(store, subject),
        distinct_keys(pairs),
        faithful_resource(subject, pairs),
        resource_text(subject, pairs) is Some,
    ensures
        scan_lines(text + resource_text(subject, pairs)->0).1.len() == 0,
        after_lines(origin, lines(text + resource_text(subject, pairs)->0)) == (
            grown(store, subject, pairs),
            None::<ErrorView>,
        ),
    decreases pairs.len(),
{
    if pairs.len() == 0 {
        assert(text + resource_text(subject, pairs)->0 =~= text);
    } else {
        let shorter = pairs.drop_last();
        let j = pairs.len() - 1;
        assert(shorter =~= pairs.take(j));
        assert(faithful_resource(subject, shorter)) by {
            assert forall|k: int| 0 <= k < shorter.len() implies (#[trigger] json_array_text(
                atom_items(subject, shorter[k]),
            ) matches Some(line) ==> is_line_of(line, atom_items(subject, shorter[k]))) by {
                assert(shorter[k] == pairs[k]);
            }
        }
        assert(distinct_keys(shorter));
        lemma_resource_read_back(origin, text, store, subject, shorter);
        let head = text + resource_text(subject, shorter)->0;
        let items = atom_items(subject, pairs.last());
        let line = json_array_text(items)->0;
        assert(pairs.last() == pairs[j]);
        assert(is_line_of(line, items));
        lemma_line_added(head, line, items);
        assert(text + resource_text(subject, pairs)->0 =~= head + line + seq!['\n']);
        let all = lines(head).push(line);
        assert(all.drop_last() =~= lines(head));
        assert(all.last() == line);
        assert(line[0] == line.first());
        assert(items.len() == 3);
        lemma_grow(store, subject, pairs, j);
        assert(pairs.take(j + 1) =~= pairs);
    }
}

/// Reading what was written gives the store back: the lines written for a
/// well-formed store without empty resources, read into an empty store, give
/// that store and no failure. Holds where each written line is faithful,
/// which is so of every line that the writer has produced.
pub proof fn lemma_ad3_round_trip(store: Resources)
    requires
        store_wf(store),
        no_empty_resource(store),
        faithful_store(store),
        store_text(store) is Some,
    ensures
        scan_lines(store_text(store)->0).1.len() == 0,
        after_lines(Seq::empty(), lines(store_text(store)->0)) == (store, None::<ErrorView>),
    decreases store.len(),
{
    if store.len() == 0 {
    } else {
        let shorter = store.drop_last();
        let n = store.len() - 1;
        assert(store_wf(shorter)) by {
            assert forall|i: int| 0 <= i < shorter.len() implies distinct_keys(
                #[trigger] shorter[i].1,
            ) by {
                assert(shorter[i] == store[i]);
            }
        }
        assert(no_empty_resource(shorter)) by {
            assert forall|i: int| 0 <= i < shorter.len() implies (#[trigger] shorter[i]).1.len()
                > 0 by {
                assert(shorter[i] == store[i]);
            }
        }
        assert(faithful_store(shorter)) by {
            assert forall|i: int| 0 <= i < shorter.len() implies faithful_resource(
                #[trigger] shorter[i].0,
                shorter[i].1,
            ) by {
                assert(shorter[i] == store[i]);
            }
        }
        lemma_ad3_round_trip(shorter);
        let (subject, pairs) = store.last();
        assert(store.last() == store[n]);
        assert(!has_key(shorter, subject)) by {
            if has_key(shorter, subject) {
                let k = position(shorter, subject);
                assert(shorter[k] == store[k]);
                assert(store[k].0 != store[n].0);
            }
        }
        assert(faithful_resource(store[n].0, store[n].1));
        assert(distinct_keys(store[n].1));
        lemma_resource_read_back(Seq::empty(), store_text(shorter)->0, shorter, subject, pairs);
        assert(grown(shorter, subject, pairs) =~= store);
    }
}

impl Store {
    /// Adds the atom of a line that opens an array, given what the line was
    /// read as. A line that is no array of three strings changes nothing.
    pub fn add_line_read(&mut self, line: &str, read: Option<Vec<String>>) -> (r: Result<(), Error>)
        ensures
            match line_effect(old(self)@, line@, read_texts(read)) {
                Ok(store) => r is Ok && final(self)@ == store,
                Err(e) => r matches Err(f) && f@ == e && final(self)@ == old(self)@,
            },
    {
        match read {
            None => Err(Error::MalformedLine { line: line.to_owned() }),
            Some(items) => {
                if items.len() == 3 {
                    self.add_atom(items[0].as_str(), items[1].as_str(), items[2].as_str());
                    Ok(())
                } else {
                    Err(Error::WrongLength { line: line.to_owned(), length: items.len() })
                }
            },
        }
    }

    /// Reads one line of AD3 into the store.
    pub fn add_line(&mut self, line: &str) -> (r: Result<(), Error>)
        ensures
            match after_line(old(self)@, line@) {
                Ok(store) => r is Ok && final(self)@ == store,
                Err(e) => r matches Err(f) && f@ == e && final(self)@ == old(self)@,
            },
    {
        if line.is_empty() {
            return Ok(());
        }
        let start = line.get_char(0);
        if start == '#' {
            Ok(())
        } else if start == '[' {
            self.add_line_read(line, read_string_array(line))
        } else {
            Err(Error::UnexpectedStart { line: line.to_owned(), start })
        }
    }

    /// Parses an Atomic Data Triples (.ad3) string and adds the Atoms to the store.
    /// Allows comments and empty lines. Stops at the first line that fails;
    /// the lines before it stay read.
    pub fn parse_ad3(&mut self, string: &String) -> (r: Result<(), Error>)
        ensures
            final(self)@ == after_lines(old(self)@, lines(string@)).0,
            match r {
                Ok(_) => after_lines(old(self)@, lines(string@)).1 is None,
                Err(e) => after_lines(old(self)@, lines(string@)).1 == Some(e@),
            },
    {
        let all = split_lines(string.as_str());
        let ghost whole = texts(all@);
        let mut i: usize = 0;
        assert(whole.take(0) =~= Seq::<Seq<char>>::empty());
        while i < all.len()
            invariant
                i <= all.len(),
                whole == texts(all@),
                whole == lines(string@),
                after_lines(old(self)@, whole.take(i as int)) == (self@, None::<ErrorView>),
            decreases all.len() - i,
        {
            assert(whole.take(i + 1).drop_last() =~= whole.take(i as int));
            assert(whole.take(i + 1).last() == all@[i as int]@);
            match self.add_line(all[i].as_str()) {
                Ok(_) => {},
                Err(e) => {
                    proof {
                        lemma_lines_fail(old(self)@, whole, i + 1);
                    }
                    return Err(e);
                },
            }
            i += 1;
        }
        assert(whole.take(all.len() as int) =~= whole);
        Ok(())
    }

    /// Adds to `text` the line written for an atom, and a line feed; a
    /// failure where no line was written.
    pub fn push_line(
        text: &mut String,
        subject: &str,
        written: Option<String>,
    ) -> (r: Result<(), Error>)
        ensures
            match written {
                Some(line) => r is Ok && final(text)@ == old(text)@ + line@ + seq!['\n'],
                None => r matches Err(e) && e@ == (ErrorView::NotWritten { subject: subject@ })
                    && final(text)@ == old(text)@,
            },
    {
        match written {
            Some(line) => {
                text.append(line.as_str());
                text.push('\n');
                assert(text@ =~= old(text)@ + line@ + seq!['\n']);
                Ok(())
            },
            None => Err(Error::NotWritten { subject: subject.to_owned() }),
        }
    }

    /// The subject as it is written: see [`written_subject`].
    pub fn written_subject(subject: &str, domain: Option<&String>) -> (r: String)
        ensures
            r@ == written_subject(subject@, text_at(domain)),
    {
        match domain {
            Some(d) => {
                if starts_with(subject, urls::LOCAL_PREFIX) {
                    let chars = chars_of(subject);
                    let prefix = chars_of(urls::LOCAL_PREFIX);
                    let mut r = d.clone();
                    let mut i: usize = prefix.len();
                    assert(subject@.skip(prefix.len() as int).take(0) =~= Seq::<char>::empty());
                    assert(r@ =~= d@ + subject@.skip(prefix.len() as int).take(0));
                    while i < chars.len()
                        invariant
                            prefix.len() <= i <= chars.len(),
                            chars@ == subject@,
                            r@ == d@ + subject@.skip(prefix.len() as int).take(i - prefix.len()),
                        decreases chars.len() - i,
                    {
                        r.push(chars[i]);
                        assert(subject@.skip(prefix.len() as int).take(i + 1 - prefix.len())
                            =~= subject@.skip(prefix.len() as int).take(i - prefix.len()).push(
                            subject@[i as int],
                        ));
                        i += 1;
                    }
                    assert(subject@.skip(prefix.len() as int).take(chars.len() - prefix.len())
                        =~= subject@.skip(prefix.len() as int));
                    r
                } else {
                    subject.to_owned()
                }
            },
            None => subject.to_owned(),
        }
    }

    /// The AD3 of one resource: a line for each of its pairs, in order. With
    /// a domain, a local subject is written under that domain. Read into an
    /// empty store, the text gives the resource back under the subject as
    /// written.
    pub fn resource_to_ad3(
        &self,
        subject: &String,
        domain: Option<&String>,
    ) -> (r: Result<String, Error>)
        ensures
            outcome(r) == resource_ad3(self@, subject@, text_at(domain)),
            r is Ok ==> faithful_resource(
                written_subject(subject@, text_at(domain)),
                lookup(self@, subject@)->0,
            ),
            r matches Ok(text) ==> after_lines(Resources::empty(), lines(text@)) == (
                grown(
                    Resources::empty(),
                    written_subject(subject@, text_at(domain)),
                    lookup(self@, subject@)->0,
                ),
                None::<ErrorView>,
            ),
    {
        let resource = match self.get(subject) {
            Some(resource) => resource,
            None => return Err(Error::ResourceNotFound { subject: subject.clone() }),
        };
        let name = Store::written_subject(subject.as_str(), domain);
        let mut text = String::new();
        let mut i: usize = 0;
        assert(resource@.take(0) =~= Pairs::empty());
        while i < resource.len()
            invariant
                i <= resource@.len(),
                lookup(self@, subject@) == Some(resource@),
                name@ == written_subject(subject@, text_at(domain)),
                resource_text(name@, resource@.take(i as int)) == Some(text@),
                faithful_resource(name@, resource@.take(i as int)),
            decreases resource@.len() - i,
        {
            let ghost before = resource@.take(i as int);
            let ghost now = resource@.take(i + 1);
            assert(now.drop_last() =~= before);
            assert(now.last() == resource@[i as int]);
            let mut items: Vec<String> = Vec::new();
            items.push(name.clone());
            items.push(resource.property_at(i).clone());
            items.push(resource.value_at(i).clone());
            assert(texts(items@) =~= atom_items(name@, resource@[i as int]));
            let written = write_string_array(&items);
            match Store::push_line(&mut text, subject.as_str(), written) {
                Ok(_) => {},
                Err(e) => {
                    proof {
                        assert(resource_text(name@, now) is None);
                        lemma_text_fails(name@, resource@, i + 1);
                    }
                    return Err(e);
                },
            }
            assert(faithful_resource(name@, now)) by {
                assert forall|k: int| 0 <= k < now.len() implies (#[trigger] json_array_text(
                    atom_items(name@, now[k]),
                ) matches Some(line) ==> is_line_of(line, atom_items(name@, now[k]))) by {
                    if k < i {
                        assert(now[k] == before[k]);
                    }
                }
            }
            i += 1;
        }
        assert(resource@.take(resource@.len() as int) =~= resource@);
        proof {
            use_type_invariant(resource);
            let nothing = Seq::<char>::empty();
            assert(lines(nothing) =~= Seq::<Seq<char>>::empty());
            lemma_resource_read_back(
                Resources::empty(),
                nothing,
                Resources::empty(),
                name@,
                resource@,
            );
            assert(nothing + text@ =~= text@);
        }
        Ok(text)
    }

    /// The AD3 of the whole store: the lines of each resource, in order,
    /// subjects as they are. Read into an empty store, the text gives this
    /// store back, unless a resource has no properties: such a resource has
    /// no line.
    pub fn to_ad3(&self) -> (r: Result<String, Error>)
        ensures
            match r {
                Ok(text) => store_text(self@) == Some(text@),
                Err(e) => store_text(self@) is None && e@ == (ErrorView::NotWritten {
                    subject: unwritten_subject(self@),
                }),
            },
            r matches Ok(text) ==> (no_empty_resource(self@) ==> after_lines(
                Seq::empty(),
                lines(text@),
            ) == (self@, None::<ErrorView>)),
    {
        proof {
            use_type_invariant(self);
        }
        let mut text = String::new();
        let mut i: usize = 0;
        assert(self@.take(0) =~= Resources::empty());
        while i < self.len()
            invariant
                i <= self@.len(),
                store_wf(self@),
                store_text(self@.take(i as int)) == Some(text@),
                faithful_store(self@.take(i as int)),
            decreases self@.len() - i,
        {
            let ghost before = self@.take(i as int);
            let ghost now = self@.take(i + 1);
            assert(now.drop_last() =~= before);
            assert(now.last() == self@[i as int]);
            proof {
                lemma_position_unique(self@, i as int);
            }
            match self.resource_to_ad3(self.subject_at(i), None) {
                Ok(more) => {
                    text.append(more.as_str());
                },
                Err(e) => {
                    proof {
                        lemma_store_text_fails(self@, i + 1);
                    }
                    return Err(e);
                },
            }
            assert(faithful_store(now)) by {
                assert forall|k: int| 0 <= k < now.len() implies faithful_resource(
                    #[trigger] now[k].0,
                    now[k].1,
                ) by {
                    if k < i {
                        assert(now[k] == before[k]);
                    }
                }
            }
            i += 1;
        }
        assert(self@.take(self@.len() as int) =~= self@);
        proof {
            if no_empty_resource(self@) {
                lemma_ad3_round_trip(self@);
            }
        }
        Ok(text)
    }
}

/// Where a beginning of `lines` fails, the whole fails in the same way and
/// leaves the same store.
pub proof fn lemma_lines_fail(store: Resources, lines: Seq<Seq<char>>, k: int)
    requires
        0 <= k <= lines.len(),
        after_lines(store, lines.take(k)).1 is Some,
    ensures
        after_lines(store, lines) == after_lines(store, lines.take(k)),
    decreases lines.len() - k,
{
    if k < lines.len() {
        assert(lines.take(k + 1).drop_last() =~= lines.take(k));
        lemma_lines_fail(store, lines, k + 1);
    } else {
        assert(lines.take(k) =~= lines);
    }
}

/// Where a beginning of the pairs cannot be written, neither can the whole.
pub proof fn lemma_text_fails(subject: Seq<char>, pairs: Pairs, k: int)
    requires
        0 <= k <= pairs.len(),
        resource_text(subject, pairs.take(k)) is None,
    ensures
        resource_text(subject, pairs) is None,
    decreases pairs.len() - k,
{
    if k < pairs.len() {
        assert(pairs.take(k + 1).drop_last() =~= pairs.take(k));
        lemma_text_fails(subject, pairs, k + 1);
    } else {
        assert(pairs.take(k) =~= pairs);
    }
}

/// Where a beginning of the store cannot be written, neither can the whole.
pub proof fn lemma_store_text_fails(store: Resources, k: int)
    requires
        0 <= k <= store.len(),
        store_text(store.take(k)) is None,
    ensures
        store_text(store) is None,
        unwritten_subject(store) == unwritten_subject(store.take(k)),
    decreases store.len() - k,
{
    if k < store.len() {
        assert(store.take(k + 1).drop_last() =~= store.take(k));
        lemma_store_text_fails(store, k + 1);
    } else {
        assert(store.take(k) =~= store);
    }
}

} // verus!
