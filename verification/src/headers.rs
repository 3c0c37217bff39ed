//! The header fields of a message, by name.

use crate::pairs::{keys_unique, lemma_position_extends, lemma_put, position, put, value_of, Pairs};
use crate::text::same_text;
use vstd::prelude::*;

verus! {

/// The views of a sequence of fields.
pub open spec fn field_views(fields: Seq<(String, String)>) -> Pairs<Seq<char>> {
    Seq::new(fields.len(), |i: int| (fields[i].0@, fields[i].1@))
}

/// The header fields of a message: each name has one value, and the names
/// stay in the order in which they first came.
#[derive(Debug)]
pub struct Headers {
    fields: Vec<(String, String)>,
}

impl View for Headers {
    type V = Pairs<Seq<char>>;

    closed spec fn view(&self) -> Pairs<Seq<char>> {
        field_views(self.fields@)
    }
}

impl Headers {
    #[verifier::type_invariant]
    spec fn well_formed(self) -> bool {
        keys_unique(field_views(self.fields@))
    }

    /// No fields.
    pub fn new() -> (headers: Self)
        ensures
            headers@ == Pairs::<Seq<char>>::empty(),
            keys_unique(headers@),
    {
        let headers = Self { fields: Vec::new() };
        assert(headers@ =~= Pairs::<Seq<char>>::empty());
        headers
    }

    /// The number of fields.
    pub fn len(&self) -> (len: usize)
        ensures
            len == self@.len(),
    {
        self.fields.len()
    }

    fn find(&self, name: &str) -> (at: Option<usize>)
        ensures
            match at {
                Some(at) => position(self@, name@, self@.len() as int) == Some(at as int) && at
                    < self.fields@.len(),
                None => position(self@, name@, self@.len() as int) is None,
            },
    {
        let mut i: usize = 0;
        while i < self.fields.len()
            invariant
                0 <= i <= self.fields.len(),
                position(field_views(self.fields@), name@, i as int) is None,
            decreases self.fields.len() - i,
        {
            assert(field_views(self.fields@)[i as int] == (
                self.fields@[i as int].0@,
                self.fields@[i as int].1@,
            ));
            if same_text(self.fields[i].0.as_str(), name) {
                proof {
                    lemma_position_extends(
                        field_views(self.fields@),
                        name@,
                        i + 1,
                        self.fields@.len() as int,
                    );
                }
                return Some(i);
            }
            i += 1;
        }
        None
    }

    /// The value of the field `name`. The name is compared as it is written.
    pub fn get(&self, name: &str) -> (value: Option<&String>)
        ensures
            match value {
                Some(v) => value_of(self@, name@) == Some(v@),
                None => value_of(self@, name@) is None,
            },
    {
        match self.find(name) {
            Some(at) => {
                assert(field_views(self.fields@)[at as int] == (
                    self.fields@[at as int].0@,
                    self.fields@[at as int].1@,
                ));
                Some(&self.fields[at].1)
            },
            None => None,
        }
    }

    /// Gives the field `name` the value `value`, in place of the value it had.
    pub fn insert(&mut self, name: String, value: String)
        ensures
            final(self)@ == put(old(self)@, name@, value@),
            keys_unique(final(self)@),
            value_of(final(self)@, name@) == Some(value@),
            forall|other: Seq<char>|
                other != name@ ==> value_of(final(self)@, other) == value_of(old(self)@, other),
    {
        proof {
            use_type_invariant(&*self);
            lemma_put(self@, name@, value@);
        }
        let ghost before = self@;
        let at = self.find(name.as_str());
        let mut fields = Vec::new();
        std::mem::swap(&mut fields, &mut self.fields);
        match at {
            Some(at) => {
                fields.set(at, (name, value));
                assert(field_views(fields@) =~= before.update(at as int, (name@, value@)));
            },
            None => {
                fields.push((name, value));
                assert(field_views(fields@) =~= before.push((name@, value@)));
            },
        }
        self.fields = fields;
    }

    /// The name and the value of the field at place `at`, if there is one.
    pub fn field(&self, at: usize) -> (field: Option<(&str, &str)>)
        ensures
            match field {
                Some(f) => at < self@.len() && (f.0@, f.1@) == self@[at as int],
                None => at >= self@.len(),
            },
    {
        if at < self.fields.len() {
            Some((self.fields[at].0.as_str(), self.fields[at].1.as_str()))
        } else {
            None
        }
    }
}

} // verus!
