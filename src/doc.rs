use vstd::prelude::*;
use crate::err::Error;
use crate::key::{Thing, ThingView};

verus! {

/// A value held by a field of a document.
#[derive(Clone, Debug)]
pub enum Value {
    Null,
    Bool(bool),
    Number(i64),
    Strand(String),
    Thing(Thing),
}

/// Mathematical value of a field value.
pub enum ValueView {
    Null,
    Bool(bool),
    Number(int),
    Strand(Seq<char>),
    Thing(ThingView),
}

impl View for Value {
    type V = ValueView;

    open spec fn view(&self) -> ValueView {
        match self {
            Value::Null => ValueView::Null,
            Value::Bool(b) => ValueView::Bool(*b),
            Value::Number(n) => ValueView::Number(*n as int),
            Value::Strand(s) => ValueView::Strand(s@),
            Value::Thing(t) => ValueView::Thing(t@),
        }
    }
}

/// The fields of a document, each name held once.
pub struct Object {
    names: Vec<String>,
    values: Vec<Value>,
}

impl Object {
    /// The value of field `name`, if the document has that field.
    pub closed spec fn field(&self, name: Seq<char>) -> Option<ValueView> {
        if exists|i: int| 0 <= i < self.names.len() && self.names[i]@ == name {
            let i = choose|i: int| 0 <= i < self.names.len() && self.names[i]@ == name;
            Some(self.values[i]@)
        } else {
            None
        }
    }

    /// Each field name is held once, with one value.
    pub closed spec fn wf(&self) -> bool {
        &&& self.names.len() == self.values.len()
        &&& forall|i: int, j: int| 0 <= i < j < self.names.len() ==> self.names[i]@ != self.names[j]@
    }

    /// A document without fields.
    pub fn new() -> (r: Object)
        ensures
            r.wf(),
            forall|name: Seq<char>| r.field(name) is None,
    {
        Object { names: Vec::new(), values: Vec::new() }
    }

    proof fn lemma_field_at(&self, i: int)
        requires
            self.wf(),
            0 <= i < self.names.len(),
        ensures
            self.field(self.names[i]@) == Some(self.values[i]@),
    {
        let j = choose|j: int| 0 <= j < self.names.len() && self.names[j]@ == self.names[i]@;
        assert(i == j);
    }

    fn find(&self, name: &String) -> (r: Option<usize>)
        requires
            self.wf(),
        ensures
            r matches Some(i) ==> i < self.names.len() && self.names[i as int]@ == name@,
            r is None ==> forall|j: int| 0 <= j < self.names.len() ==> self.names[j]@ != name@,
    {
        let mut i: usize = 0;
        while i < self.names.len()
            invariant
                0 <= i <= self.names.len(),
                forall|j: int| 0 <= j < i ==> self.names[j]@ != name@,
            decreases self.names.len() - i,
        {
            if self.names[i] == *name {
                return Some(i);
            }
            i += 1;
        }
        None
    }

    /// The value of field `name`.
    pub fn get(&self, name: &str) -> (r: Option<&Value>)
        requires
            self.wf(),
        ensures
            r matches Some(v) ==> self.field(name@) == Some(v@),
            r is None ==> self.field(name@) is None,
    {
        let name = name.to_owned();
        match self.find(&name) {
            Some(i) => {
                proof {
                    self.lemma_field_at(i as int);
                }
                Some(&self.values[i])
            },
            None => None,
        }
    }

    /// Sets field `name` to `v`, in place of any value it had.
    pub fn put(&mut self, name: &str, v: Value)
        requires
            old(self).wf(),
        ensures
            final(self).wf(),
            final(self).field(name@) == Some(v@),
            forall|other: Seq<char>|
                other != name@ ==> final(self).field(other) == old(self).field(other),
    {
        let ghost vv = v@;
        let name = name.to_owned();
        match self.find(&name) {
            Some(i) => {
                self.values.set(i, v);
                assert(self.names@ == old(self).names@);
                proof {
                    self.lemma_field_at(i as int);
                    assert forall|other: Seq<char>| other != name@ implies self.field(other) == old(self).field(other) by {
                        if exists|j: int| 0 <= j < self.names.len() && self.names[j]@ == other {
                            let j = choose|j: int| 0 <= j < self.names.len() && self.names[j]@ == other;
                            self.lemma_field_at(j);
                            old(self).lemma_field_at(j);
                        }
                    }
                }
            },
            None => {
                let ghost nv = name@;
                self.names.push(name);
                self.values.push(v);
                proof {
                    let last = self.names.len() - 1;
                    self.lemma_field_at(last);
                    assert forall|other: Seq<char>| other != nv implies self.field(other) == old(self).field(other) by {
                        if exists|j: int| 0 <= j < old(self).names.len() && old(self).names[j]@ == other {
                            let j = choose|j: int| 0 <= j < old(self).names.len() && old(self).names[j]@ == other;
                            assert(self.names[j] == old(self).names[j]);
                            self.lemma_field_at(j);
                            old(self).lemma_field_at(j);
                        } else {
                            assert forall|j: int| 0 <= j < self.names.len() implies self.names[j]@ != other by {
                                if j < last {
                                    assert(self.names[j] == old(self).names[j]);
                                }
                            }
                        }
                    }
                }
            },
        }
    }
}

/// The kind of a relation table.
#[derive(Clone, Copy, Debug, PartialEq, Eq, Structural)]
pub struct Relation {
    /// Both endpoints must be stored records before an edge is stored.
    pub enforced: bool,
}

/// The kind of a table.
#[derive(Clone, Copy, Debug, PartialEq, Eq, Structural)]
pub enum TableType {
    Any,
    Normal,
    Relation(Relation),
}

/// The metadata of a table that storing edges reads.
#[derive(Clone, Copy, Debug, PartialEq, Eq, Structural)]
pub struct DefineTable {
    /// The table is a view: its records are never materialized.
    pub drop: bool,
    pub kind: TableType,
}

/// The namespace and database an operation runs in.
#[derive(Clone, Debug)]
pub struct Options {
    pub ns: Option<String>,
    pub db: Option<String>,
}

impl Options {
    /// The active namespace.
    pub fn ns(&self) -> (r: Result<&str, Error>)
        ensures
            match self.ns {
                Some(s) => r matches Ok(x) && x@ == s@,
                None => r matches Err(Error::MissingContext),
            },
    {
        match &self.ns {
            Some(s) => Ok(s.as_str()),
            None => Err(Error::MissingContext),
        }
    }

    /// The active database.
    pub fn db(&self) -> (r: Result<&str, Error>)
        ensures
            match self.db {
                Some(s) => r matches Ok(x) && x@ == s@,
                None => r matches Err(Error::MissingContext),
            },
    {
        match &self.db {
            Some(s) => Ok(s.as_str()),
            None => Err(Error::MissingContext),
        }
    }
}

/// What the mutation being processed brings besides the document.
#[derive(Clone, Debug)]
pub enum Workable {
    Normal,
    /// A relate mutation from the first record to the second.
    Relate(Thing, Thing),
}

/// A document being processed: the identity of its record, the mutation that
/// reached it, and its current fields.
pub struct Document {
    pub id: Thing,
    pub extras: Workable,
    pub current: Object,
}

} // verus!
