//! The header table of a request or a response: names are compared without
//! regard to case, each name holds one value, and a later value replaces an
//! earlier one.

use vstd::prelude::*;
use crate::text::lowercase_of;
use crate::text::str_eq;
use crate::text::to_lowercase;

verus! {

/// Header fields as mathematics: pairs of name and value, in the order in
/// which the names were first set.
pub type Fields = Seq<(Seq<char>, Seq<char>)>;

/// Whether some field has the name `key`.
pub open spec fn has_key(fields: Fields, key: Seq<char>) -> bool {
    exists|i: int| 0 <= i < fields.len() && (#[trigger] fields[i]).0 == key
}

/// The position of a field named `key`.
pub open spec fn index_of(fields: Fields, key: Seq<char>) -> int {
    choose|i: int| 0 <= i < fields.len() && (#[trigger] fields[i]).0 == key
}

/// The value under `key`, or the empty text where there is none.
pub open spec fn lookup(fields: Fields, key: Seq<char>) -> Seq<char> {
    if has_key(fields, key) {
        fields[index_of(fields, key)].1
    } else {
        Seq::empty()
    }
}

/// The fields after `key` is given `value`: an existing field keeps its
/// place and takes the new value, a new one goes to the end.
pub open spec fn store(fields: Fields, key: Seq<char>, value: Seq<char>) -> Fields {
    if has_key(fields, key) {
        fields.update(index_of(fields, key), (key, value))
    } else {
        fields.push((key, value))
    }
}

/// The fields without the one named `key`.
pub open spec fn erase(fields: Fields, key: Seq<char>) -> Fields {
    if has_key(fields, key) {
        fields.remove(index_of(fields, key))
    } else {
        fields
    }
}

/// No two fields share a name.
pub open spec fn distinct_keys(fields: Fields) -> bool {
    forall|i: int, j: int|
        0 <= i < j < fields.len() ==> (#[trigger] fields[i]).0 != (#[trigger] fields[j]).0
}

/// Where names are distinct, the field at a position is the one its name
/// finds.
pub proof fn lemma_index_of_unique(fields: Fields, i: int)
    requires
        distinct_keys(fields),
        0 <= i < fields.len(),
    ensures
        has_key(fields, fields[i].0),
        index_of(fields, fields[i].0) == i,
        lookup(fields, fields[i].0) == fields[i].1,
{
}

/// Storing keeps names distinct, and afterwards the key holds the value
/// that was stored last.
pub proof fn lemma_store(fields: Fields, key: Seq<char>, value: Seq<char>)
    requires
        distinct_keys(fields),
    ensures
        distinct_keys(store(fields, key, value)),
        has_key(store(fields, key, value), key),
        lookup(store(fields, key, value), key) == value,
{
    let after = store(fields, key, value);
    let i = if has_key(fields, key) {
        index_of(fields, key)
    } else {
        fields.len() as int
    };
    assert(distinct_keys(after));
    lemma_index_of_unique(after, i);
}

/// The last value stored under a name is the one that stays: storing
/// twice is storing the second value.
pub proof fn lemma_last_write_wins(
    fields: Fields,
    key: Seq<char>,
    first: Seq<char>,
    second: Seq<char>,
)
    requires
        distinct_keys(fields),
    ensures
        store(store(fields, key, first), key, second) == store(fields, key, second),
{
    let once = store(fields, key, first);
    lemma_store(fields, key, first);
    let i = if has_key(fields, key) {
        index_of(fields, key)
    } else {
        fields.len() as int
    };
    lemma_index_of_unique(once, i);
}

/// Storing under one name leaves the value under every other name as it
/// was.
pub proof fn lemma_store_other(fields: Fields, key: Seq<char>, value: Seq<char>, other: Seq<char>)
    requires
        distinct_keys(fields),
        other != key,
    ensures
        has_key(store(fields, key, value), other) == has_key(fields, other),
        lookup(store(fields, key, value), other) == lookup(fields, other),
{
    let after = store(fields, key, value);
    lemma_store(fields, key, value);
    if has_key(fields, other) {
        lemma_index_of_unique(after, index_of(fields, other));
    }
}

/// Erasing keeps names distinct, and afterwards the key holds nothing.
pub proof fn lemma_erase(fields: Fields, key: Seq<char>)
    requires
        distinct_keys(fields),
    ensures
        distinct_keys(erase(fields, key)),
        !has_key(erase(fields, key), key),
        lookup(erase(fields, key), key) == Seq::<char>::empty(),
{
    let after = erase(fields, key);
    if has_key(fields, key) {
        assert forall|a: int| 0 <= a < after.len() implies (#[trigger] after[a]).0 != key by {}
        assert(distinct_keys(after));
    }
}

/// Erasing one name leaves the value under every other name as it was.
pub proof fn lemma_erase_other(fields: Fields, key: Seq<char>, other: Seq<char>)
    requires
        distinct_keys(fields),
        other != key,
    ensures
        has_key(erase(fields, key), other) == has_key(fields, other),
        lookup(erase(fields, key), other) == lookup(fields, other),
{
    let after = erase(fields, key);
    lemma_erase(fields, key);
    if has_key(fields, key) && has_key(fields, other) {
        let i = index_of(fields, key);
        let j = index_of(fields, other);
        lemma_index_of_unique(after, if j < i { j } else { j - 1 });
    }
}

/// A table of header fields.
pub struct HttpHeader {
    data: Vec<(String, String)>,
}

/// The fields that a vector of pairs of strings holds.
pub open spec fn fields_of(data: Seq<(String, String)>) -> Fields {
    Seq::new(data.len(), |i: int| (data[i].0@, data[i].1@))
}

impl View for HttpHeader {
    type V = Fields;

    closed spec fn view(&self) -> Fields {
        fields_of(self.data@)
    }
}

/// An empty table.
pub fn new() -> (header: HttpHeader)
    ensures
        header@ == Seq::<(Seq<char>, Seq<char>)>::empty(),
{
    HttpHeader::new()
}

impl HttpHeader {
    #[verifier::type_invariant]
    spec fn names_are_distinct(&self) -> bool {
        distinct_keys(fields_of(self.data@))
    }

    /// An empty table.
    pub fn new() -> (header: HttpHeader)
        ensures
            header@ == Seq::<(Seq<char>, Seq<char>)>::empty(),
    {
        let header = HttpHeader { data: Vec::new() };
        header
    }

    fn take_data(&mut self) -> (data: Vec<(String, String)>)
        ensures
            data@ == old(self).data@,
            final(self).data@.len() == 0,
    {
        let mut data: Vec<(String, String)> = Vec::new();
        core::mem::swap(&mut self.data, &mut data);
        data
    }

    fn position(&self, key: &str) -> (r: Option<usize>)
        ensures
            r is Some <==> has_key(self@, key@),
            r matches Some(i) ==> i < self.data.len() && i == index_of(self@, key@),
    {
        proof {
            use_type_invariant(self);
        }
        let mut i: usize = 0;
        while i < self.data.len()
            invariant
                i <= self.data.len(),
                distinct_keys(self@),
                forall|j: int| 0 <= j < i ==> (#[trigger] self@[j]).0 != key@,
            decreases self.data.len() - i,
        {
            if str_eq(self.data[i].0.as_str(), key) {
                proof {
                    lemma_index_of_unique(self@, i as int);
                }
                return Some(i);
            }
            i += 1;
        }
        None
    }

    /// The value stored under exactly this key, or the empty text where
    /// the table has none. Names set through `set` are stored in
    /// lowercase.
    pub fn get_exact(&self, key: &str) -> (value: &str)
        ensures
            value@ == lookup(self@, key@),
    {
        match self.position(key) {
            Some(i) => self.data[i].1.as_str(),
            None => {
                proof {
                    reveal_strlit("");
                }
                ""
            },
        }
    }

    /// Stores the value under exactly this key, replacing any value it
    /// had.
    pub fn set_exact(&mut self, key: String, value: String)
        ensures
            final(self)@ == store(old(self)@, key@, value@),
            distinct_keys(final(self)@),
    {
        let found = self.position(key.as_str());
        proof {
            use_type_invariant(&*self);
            lemma_store(self@, key@, value@);
        }
        let ghost after = store(self@, key@, value@);
        let mut data = self.take_data();
        match found {
            Some(i) => {
                data.set(i, (key, value));
            },
            None => {
                data.push((key, value));
            },
        }
        assert(fields_of(data@) =~= after);
        self.data = data;
    }

    /// Takes the field with exactly this key out of the table.
    pub fn remove_exact(&mut self, key: &str)
        ensures
            final(self)@ == erase(old(self)@, key@),
            distinct_keys(final(self)@),
    {
        let found = self.position(key);
        proof {
            use_type_invariant(&*self);
            lemma_erase(self@, key@);
        }
        let ghost after = erase(self@, key@);
        let mut data = self.take_data();
        match found {
            Some(i) => {
                data.remove(i);
            },
            None => {},
        }
        assert(fields_of(data@) =~= after);
        self.data = data;
    }

    /// The value of the header with this name, whatever the case of its
    /// letters, or the empty text where the table has none.
    pub fn get(&self, header: &str) -> (value: &str)
        ensures
            value@ == lookup(self@, lowercase_of(header@)),
    {
        let key = to_lowercase(header);
        self.get_exact(key.as_str())
    }

    /// Gives the header with this name the value, replacing any value it
    /// had. The name is kept in lowercase.
    pub fn set(&mut self, header: &str, value: &str)
        ensures
            final(self)@ == store(old(self)@, lowercase_of(header@), value@),
            distinct_keys(final(self)@),
    {
        self.set_exact(to_lowercase(header), value.to_owned());
    }

    /// Takes the header with this name out of the table.
    pub fn remove(&mut self, header: &str)
        ensures
            final(self)@ == erase(old(self)@, lowercase_of(header@)),
            distinct_keys(final(self)@),
    {
        let key = to_lowercase(header);
        self.remove_exact(key.as_str());
    }

    /// The fields of the table, in the order in which their names were
    /// first set.
    pub fn to_map(&self) -> (entries: &Vec<(String, String)>)
        ensures
            fields_of(entries@) == self@,
            distinct_keys(fields_of(entries@)),
    {
        proof {
            use_type_invariant(self);
        }
        &self.data
    }
}

} // verus!
