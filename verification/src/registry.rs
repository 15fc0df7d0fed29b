//! The registry of user-defined tests: under each name, the object that was
//! registered for it, which should be a list that starts with the function
//! that compares two keys and the function that hashes one.

use crate::object::{Datum, LispObject};
use vstd::prelude::*;

verus! {

/// What was registered under one name.
#[derive(Debug, PartialEq, Eq)]
pub struct TestDefinition {
    pub name: LispObject,
    pub definition: LispObject,
}

/// The mathematical value of a [`TestDefinition`].
pub struct DefinitionView {
    pub name: Datum,
    pub definition: Datum,
}

impl View for TestDefinition {
    type V = DefinitionView;

    open spec fn view(&self) -> DefinitionView {
        DefinitionView { name: self.name@, definition: self.definition@ }
    }
}

/// The registry: the definitions in the order in which they were made.
pub struct HashTestRegistry {
    pub(crate) tests: Vec<TestDefinition>,
}

impl View for HashTestRegistry {
    type V = Seq<DefinitionView>;

    open(crate) spec fn view(&self) -> Seq<DefinitionView> {
        self.tests@.map_values(|d: TestDefinition| d@)
    }
}

/// What is registered under `name`: the object of the latest definition
/// whose name is identical to it, if there is one.
pub open spec fn registered(defs: Seq<DefinitionView>, name: Datum) -> Option<Datum>
    decreases defs.len(),
{
    if defs.len() == 0 {
        None
    } else if defs.last().name.identical(name) {
        Some(defs.last().definition)
    } else {
        registered(defs.drop_last(), name)
    }
}

impl HashTestRegistry {
    /// A registry without definitions.
    pub fn new() -> (out: HashTestRegistry)
        ensures
            out@ == Seq::<DefinitionView>::empty(),
    {
        let out = HashTestRegistry { tests: Vec::new() };
        proof {
            assert(out@ =~= Seq::<DefinitionView>::empty());
        }
        out
    }

    /// Registers `definition` under `name`. It takes the place of what was
    /// registered under that name before.
    pub fn define(&mut self, name: LispObject, definition: LispObject)
        ensures
            final(self)@ == old(self)@.push(
                DefinitionView { name: name@, definition: definition@ },
            ),
    {
        self.tests.push(TestDefinition { name, definition });
        proof {
            assert(self@ =~= old(self)@.push(
                DefinitionView { name: name@, definition: definition@ },
            ));
        }
    }

    /// The object registered under `name`, if there is one.
    pub fn lookup(&self, name: &LispObject) -> (out: Option<&LispObject>)
        ensures
            match out {
                Some(found) => registered(self@, name@) == Some(found@),
                None => registered(self@, name@) is None,
            },
    {
        let mut i: usize = self.tests.len();
        proof {
            assert(self@.subrange(0, i as int) =~= self@);
        }
        while i > 0
            invariant
                0 <= i <= self.tests.len(),
                registered(self@, name@) == registered(self@.subrange(0, i as int), name@),
            decreases i,
        {
            let ghost head = self@.subrange(0, i as int);
            proof {
                assert(head.last() == self.tests@[i - 1]@);
                assert(head.drop_last() =~= self@.subrange(0, i - 1));
            }
            if self.tests[i - 1].name.eq(name) {
                return Some(&self.tests[i - 1].definition);
            }
            i = i - 1;
        }
        proof {
            assert(self@.subrange(0, 0) =~= Seq::<DefinitionView>::empty());
        }
        None
    }
}

} // verus!
