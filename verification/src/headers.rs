//! Header fields: a map from names to values that remembers the order in
//! which the names came.

use crate::text::same_text;
use vstd::prelude::*;

verus! {

/// One header field as a contract sees it: its name and its value.
pub type Field = (Seq<char>, Seq<char>);

/// The first position at or after `i` whose field is called `name`, or the
/// length of `fields` where none follows.
pub open spec fn position_from(fields: Seq<Field>, name: Seq<char>, i: int) -> int
    decreases fields.len() - i,
{
    if 0 <= i < fields.len() && fields[i].0 != name {
        position_from(fields, name, i + 1)
    } else {
        i
    }
}

/// The position of the field called `name`, or the length of `fields` where
/// there is none.
pub open spec fn position(fields: Seq<Field>, name: Seq<char>) -> int {
    position_from(fields, name, 0)
}

/// Whether no name occurs twice in `fields`.
pub open spec fn distinct_names(fields: Seq<Field>) -> bool {
    forall|i: int, j: int| 0 <= i < j < fields.len() ==> fields[i].0 != fields[j].0
}

/// `fields` after `name` is set to `value`: a field of that name keeps its
/// place and gets the value, a new name goes to the end.
pub open spec fn with_field(fields: Seq<Field>, name: Seq<char>, value: Seq<char>) -> Seq<Field> {
    let at = position(fields, name);
    if at < fields.len() {
        fields.update(at, (name, value))
    } else {
        fields.push((name, value))
    }
}

/// The map that `fields` stands for.
pub open spec fn field_map(fields: Seq<Field>) -> Map<Seq<char>, Seq<char>> {
    Map::new(
        |name: Seq<char>| position(fields, name) < fields.len(),
        |name: Seq<char>| fields[position(fields, name)].1,
    )
}

/// What `position_from` returns, said without recursion.
pub proof fn lemma_position_from(fields: Seq<Field>, name: Seq<char>, i: int)
    requires
        0 <= i <= fields.len(),
    ensures
        i <= position_from(fields, name, i) <= fields.len(),
        forall|k: int| i <= k < position_from(fields, name, i) ==> (#[trigger] fields[k]).0 != name,
        position_from(fields, name, i) < fields.len() ==> fields[position_from(fields, name, i)].0
            == name,
    decreases fields.len() - i,
{
    if i < fields.len() && fields[i].0 != name {
        lemma_position_from(fields, name, i + 1);
    }
}

/// A place that holds `name`, with no field of that name before it, is the
/// position of `name`.
pub proof fn lemma_position_is(fields: Seq<Field>, name: Seq<char>, at: int)
    requires
        0 <= at <= fields.len(),
        forall|k: int| 0 <= k < at ==> (#[trigger] fields[k]).0 != name,
        at < fields.len() ==> fields[at].0 == name,
    ensures
        position(fields, name) == at,
{
    lemma_position_from(fields, name, 0);
    let p = position(fields, name);
    if p < at {
        assert(fields[p].0 != name);
    }
}

/// Setting a field is inserting into the map, and keeps names distinct.
pub proof fn lemma_with_field(fields: Seq<Field>, name: Seq<char>, value: Seq<char>)
    ensures
        field_map(with_field(fields, name, value)) == field_map(fields).insert(name, value),
        distinct_names(fields) ==> distinct_names(with_field(fields, name, value)),
        with_field(fields, name, value).len() >= fields.len(),
{
    let after = with_field(fields, name, value);
    let at = position(fields, name);
    lemma_position_from(fields, name, 0);
    assert forall|k: Seq<char>|
        (#[trigger] position(after, k) < after.len()) == (k == name || position(fields, k)
            < fields.len()) && (position(after, k) < after.len() ==> after[position(after, k)].1 == (
        if k == name {
            value
        } else {
            fields[position(fields, k)].1
        })) by {
        lemma_position_from(fields, k, 0);
        let p = position(fields, k);
        if k == name {
            lemma_position_is(after, k, at);
        } else if p < fields.len() {
            lemma_position_is(after, k, p);
        } else {
            lemma_position_is(after, k, after.len() as int);
        }
    }
    assert(field_map(after) =~= field_map(fields).insert(name, value));
    if distinct_names(fields) {
        assert forall|i: int, j: int| 0 <= i < j < after.len() implies after[i].0 != after[j].0 by {
            if at < fields.len() {
                assert(after[i].0 == fields[i].0);
                assert(after[j].0 == fields[j].0);
            } else if j == fields.len() {
                assert(after[i].0 == fields[i].0);
            }
        }
    }
}

/// The fields that stored pairs of texts stand for.
spec fn fields_of(entries: Seq<(String, String)>) -> Seq<Field> {
    Seq::new(entries.len(), |i: int| (entries[i].0@, entries[i].1@))
}

/// Header fields by name. No name occurs twice; setting a name again
/// replaces its value and keeps its place.
#[derive(Debug)]
pub struct HeaderMap {
    entries: Vec<(String, String)>,
}

impl View for HeaderMap {
    type V = Map<Seq<char>, Seq<char>>;

    open spec fn view(&self) -> Map<Seq<char>, Seq<char>> {
        field_map(self.fields())
    }
}

impl HeaderMap {
    #[verifier::type_invariant]
    spec fn no_name_twice(self) -> bool {
        distinct_names(self.fields())
    }

    /// The fields in the order in which their names first came.
    pub closed spec fn fields(&self) -> Seq<Field> {
        fields_of(self.entries@)
    }

    /// A map without fields.
    pub fn new() -> (map: HeaderMap)
        ensures
            map.fields() == Seq::<Field>::empty(),
            map@ == Map::<Seq<char>, Seq<char>>::empty(),
    {
        let map = HeaderMap { entries: Vec::new() };
        assert(map.fields() =~= Seq::<Field>::empty());
        assert(map@ =~= Map::<Seq<char>, Seq<char>>::empty());
        map
    }

    /// The number of fields.
    pub fn len(&self) -> (n: usize)
        ensures
            n == self.fields().len(),
            distinct_names(self.fields()),
    {
        proof {
            use_type_invariant(self);
        }
        self.entries.len()
    }

    /// The name of the field at place `i`.
    pub fn name_at(&self, i: usize) -> (name: &str)
        requires
            i < self.fields().len(),
        ensures
            name@ == self.fields()[i as int].0,
    {
        self.entries[i].0.as_str()
    }

    /// The value of the field at place `i`.
    pub fn value_at(&self, i: usize) -> (value: &str)
        requires
            i < self.fields().len(),
        ensures
            value@ == self.fields()[i as int].1,
    {
        self.entries[i].1.as_str()
    }

    /// The place of the field called `name`.
    fn find(&self, name: &str) -> (at: usize)
        ensures
            at == position(self.fields(), name@),
            at <= self.fields().len(),
    {
        let mut i: usize = 0;
        while i < self.entries.len() && !same_text(self.entries[i].0.as_str(), name)
            invariant
                i <= self.entries.len(),
                position(self.fields(), name@) == position_from(self.fields(), name@, i as int),
            decreases self.entries.len() - i,
        {
            i += 1;
        }
        i
    }

    /// The value of the field called `name`, if there is one.
    pub fn get(&self, name: &str) -> (value: Option<&str>)
        ensures
            match value {
                Some(v) => self@.contains_key(name@) && v@ == self@[name@],
                None => !self@.contains_key(name@),
            },
    {
        let at = self.find(name);
        if at < self.entries.len() {
            Some(self.entries[at].1.as_str())
        } else {
            None
        }
    }

    /// Sets the field called `name` to `value`.
    pub fn insert(&mut self, name: String, value: String)
        ensures
            final(self).fields() == with_field(old(self).fields(), name@, value@),
            final(self)@ == old(self)@.insert(name@, value@),
    {
        proof {
            use_type_invariant(&*self);
            lemma_with_field(self.fields(), name@, value@);
        }
        let at = self.find(name.as_str());
        let mut entries: Vec<(String, String)> = Vec::new();
        std::mem::swap(&mut self.entries, &mut entries);
        if at < entries.len() {
            entries.set(at, (name, value));
        } else {
            entries.push((name, value));
        }
        assert(fields_of(entries@) =~= with_field(old(self).fields(), name@, value@));
        self.entries = entries;
    }

    /// Appends `separator` and `more` to the value of the field at place
    /// `at`, which keeps its place and its name.
    pub fn append_at(&mut self, at: usize, separator: &str, more: &str)
        requires
            at < old(self).fields().len(),
        ensures
            final(self).fields() == old(self).fields().update(
                at as int,
                (
                    old(self).fields()[at as int].0,
                    old(self).fields()[at as int].1 + separator@ + more@,
                ),
            ),
            final(self)@ == old(self)@.insert(
                old(self).fields()[at as int].0,
                old(self).fields()[at as int].1 + separator@ + more@,
            ),
    {
        let mut value = self.entries[at].1.clone();
        value.append(separator);
        value.append(more);
        let key = self.entries[at].0.clone();
        proof {
            use_type_invariant(&*self);
            let fields = self.fields();
            assert(key@ == fields[at as int].0);
            assert forall|k: int| 0 <= k < at implies (#[trigger] fields[k]).0 != key@ by {
                assert(fields[k].0 != fields[at as int].0);
            }
            lemma_position_is(fields, key@, at as int);
            lemma_with_field(fields, key@, value@);
        }
        let mut entries: Vec<(String, String)> = Vec::new();
        std::mem::swap(&mut self.entries, &mut entries);
        entries.set(at, (key, value));
        assert(fields_of(entries@) =~= old(self).fields().update(
            at as int,
            (
                old(self).fields()[at as int].0,
                old(self).fields()[at as int].1 + separator@ + more@,
            ),
        ));
        self.entries = entries;
    }

    /// Appends `separator` and `more` to the value of the field called
    /// `name`, and tells whether there is such a field. Without one nothing
    /// changes.
    pub fn append_to(&mut self, name: &str, separator: &str, more: &str) -> (found: bool)
        ensures
            found == old(self)@.contains_key(name@),
            found ==> final(self).fields() == with_field(
                old(self).fields(),
                name@,
                old(self)@[name@] + separator@ + more@,
            ),
            found ==> final(self)@ == old(self)@.insert(
                name@,
                old(self)@[name@] + separator@ + more@,
            ),
            !found ==> final(self).fields() == old(self).fields(),
    {
        let at = self.find(name);
        if at < self.entries.len() {
            proof {
                lemma_position_from(self.fields(), name@, 0);
            }
            self.append_at(at, separator, more);
            true
        } else {
            false
        }
    }
}

} // verus!
