//! How a table tells keys apart: the tests, the runtime that user-defined
//! tests call into, and the wrapper that pairs an object with its test.

use crate::object::{
    lemma_same_objects_hash_alike, lemma_sameness_is_equivalence, Datum, LispObject,
};
use vstd::prelude::*;

verus! {

/// What the runtime answers when it is asked to call a function: the
/// function called and its arguments give the result.
pub type HostModel = spec_fn(Datum, Seq<Datum>) -> Datum;

/// The values of a list of objects.
pub open spec fn data(objects: Seq<LispObject>) -> Seq<Datum> {
    objects.map_values(|o: LispObject| o@)
}

/// The runtime can be asked to call any function on any arguments.
pub open spec fn callable<H: Fn(&LispObject, &Vec<LispObject>) -> LispObject>(host: &H) -> bool {
    forall|f: LispObject, args: Vec<LispObject>| call_requires(*host, (&f, &args))
}

/// Every answer that the runtime `host` can give is the one that `m` names.
pub open spec fn agrees<H: Fn(&LispObject, &Vec<LispObject>) -> LispObject>(
    host: &H,
    m: HostModel,
) -> bool {
    forall|f: LispObject, args: Vec<LispObject>, out: LispObject|
        call_ensures(*host, (&f, &args), out) ==> out@ == m(f@, data(args@))
}

/// The test of a table: how its keys are hashed and compared.
#[derive(Debug, PartialEq, Eq)]
pub enum HashFunction {
    /// Identity.
    Eq,
    /// Numeric identity.
    Eql,
    /// Structural equality.
    Equal,
    /// A test defined by the user: its name, the function that compares two
    /// keys, and the function that hashes a key.
    UserFunc(LispObject, LispObject, LispObject),
}

/// The mathematical value of a [`HashFunction`].
pub enum Test {
    Eq,
    Eql,
    Equal,
    UserFunc(Datum, Datum, Datum),
}

impl View for HashFunction {
    type V = Test;

    open spec fn view(&self) -> Test {
        match *self {
            HashFunction::Eq => Test::Eq,
            HashFunction::Eql => Test::Eql,
            HashFunction::Equal => Test::Equal,
            HashFunction::UserFunc(name, same, hash) => Test::UserFunc(name@, same@, hash@),
        }
    }
}

impl Test {
    /// Whether the test is one of the three that need no runtime.
    pub open spec fn is_builtin(self) -> bool {
        !(self is UserFunc)
    }

    /// The hash code of `d` under this test.
    pub open spec fn hash_of(self, m: HostModel, d: Datum) -> u64 {
        match self {
            Test::Eq => d.word(),
            Test::Eql => if d is Float {
                d.sxhash()
            } else {
                d.word()
            },
            Test::Equal => d.sxhash(),
            Test::UserFunc(_, _, hash) => m(hash, seq![d]).word(),
        }
    }

    /// Whether this test takes `a` and `b` for the same key.
    pub open spec fn same(self, m: HostModel, a: Datum, b: Datum) -> bool {
        match self {
            Test::Eq => a.identical(b),
            Test::Eql => a.eql(b),
            Test::Equal => a.equal(b),
            Test::UserFunc(_, same, _) => !(m(same, seq![a, b]) is Nil),
        }
    }

    /// The test with the functions it refers to moved to permanent storage.
    pub open spec fn frozen(self) -> Test {
        match self {
            Test::UserFunc(name, same, hash) => Test::UserFunc(
                name.frozen(),
                same.frozen(),
                hash.frozen(),
            ),
            _ => self,
        }
    }
}

impl Clone for HashFunction {
    fn clone(&self) -> (out: HashFunction)
        ensures
            out@ == self@,
    {
        match self {
            HashFunction::Eq => HashFunction::Eq,
            HashFunction::Eql => HashFunction::Eql,
            HashFunction::Equal => HashFunction::Equal,
            HashFunction::UserFunc(name, same, hash) => HashFunction::UserFunc(
                name.clone(),
                same.clone(),
                hash.clone(),
            ),
        }
    }
}

impl HashFunction {
    /// The test with the functions it refers to copied to permanent storage.
    pub fn purecopy(&self) -> (out: HashFunction)
        ensures
            out@ == self@.frozen(),
    {
        match self {
            HashFunction::UserFunc(name, same, hash) => HashFunction::UserFunc(
                name.purecopy(),
                same.purecopy(),
                hash.purecopy(),
            ),
            _ => self.clone(),
        }
    }
}

/// An object together with the test that hashes and compares it, so that
/// both can be done with the wrapper alone.
#[derive(Debug, PartialEq, Eq)]
pub struct HashableLispObject {
    pub object: LispObject,
    pub func: HashFunction,
}

/// The mathematical value of a [`HashableLispObject`].
pub struct Keyed {
    pub object: Datum,
    pub func: Test,
}

impl View for HashableLispObject {
    type V = Keyed;

    open spec fn view(&self) -> Keyed {
        Keyed { object: self.object@, func: self.func@ }
    }
}

impl Clone for HashableLispObject {
    fn clone(&self) -> (out: HashableLispObject)
        ensures
            out@ == self@,
    {
        HashableLispObject { object: self.object.clone(), func: self.func.clone() }
    }
}

impl HashableLispObject {
    pub fn with_hashfunc_and_object(o: LispObject, f: HashFunction) -> (out: HashableLispObject)
        ensures
            out.object == o,
            out.func == f,
    {
        HashableLispObject { object: o, func: f }
    }

    /// The hash code of the object under its test. A user-defined test has
    /// the runtime call its hash function on the object; the code is the
    /// identity word of what comes back.
    pub fn hash<H: Fn(&LispObject, &Vec<LispObject>) -> LispObject>(&self, host: &H) -> (code: u64)
        requires
            callable(host),
        ensures
            forall|m: HostModel|
                self.func@.is_builtin() || agrees(host, m) ==> code == #[trigger] self.func@.hash_of(
                    m,
                    self.object@,
                ),
    {
        match &self.func {
            HashFunction::Eq => self.object.to_raw(),
            HashFunction::Eql => {
                if self.object.is_float() {
                    self.object.sxhash()
                } else {
                    self.object.to_raw()
                }
            },
            HashFunction::Equal => self.object.sxhash(),
            HashFunction::UserFunc(_, _, hashfn) => {
                let mut args: Vec<LispObject> = Vec::new();
                args.push(self.object.clone());
                let out = host(hashfn, &args);
                proof {
                    assert(data(args@) =~= seq![self.object@]);
                }
                out.to_raw()
            },
        }
    }

    /// Whether the object's test takes `self` and `other` for the same key.
    /// A user-defined test has the runtime call its comparison function on
    /// the two objects, `self` first; anything but nil means yes.
    pub fn eq<H: Fn(&LispObject, &Vec<LispObject>) -> LispObject>(
        &self,
        other: &HashableLispObject,
        host: &H,
    ) -> (out: bool)
        requires
            callable(host),
        ensures
            forall|m: HostModel|
                self.func@.is_builtin() || agrees(host, m) ==> out == #[trigger] self.func@.same(
                    m,
                    self.object@,
                    other.object@,
                ),
    {
        match &self.func {
            HashFunction::Eq => self.object.eq(&other.object),
            HashFunction::Eql => self.object.eql(&other.object),
            HashFunction::Equal => self.object.equal(&other.object),
            HashFunction::UserFunc(_, samefn, _) => {
                let mut args: Vec<LispObject> = Vec::new();
                args.push(self.object.clone());
                args.push(other.object.clone());
                let out = host(samefn, &args);
                proof {
                    assert(data(args@) =~= seq![self.object@, other.object@]);
                }
                out.is_not_nil()
            },
        }
    }
}

/// The test is one that a table can rely on, given what the runtime answers:
/// it takes every key for the same as itself, agrees with itself whichever
/// key is asked first, takes keys for the same that are the same as a
/// third, and hashes alike the keys it takes for the same.
pub open spec fn lawful(t: Test, m: HostModel) -> bool {
    &&& forall|a: Datum| #[trigger] t.same(m, a, a)
    &&& forall|a: Datum, b: Datum| #[trigger] t.same(m, a, b) ==> t.same(m, b, a)
    &&& forall|a: Datum, b: Datum, c: Datum|
        #[trigger] t.same(m, a, b) && #[trigger] t.same(m, b, c) ==> t.same(m, a, c)
    &&& forall|a: Datum, b: Datum| #[trigger]
        t.same(m, a, b) ==> t.hash_of(m, a) == t.hash_of(m, b)
}

/// Every built-in test is lawful, whatever the runtime answers.
pub proof fn lemma_builtin_is_lawful(t: Test, m: HostModel)
    requires
        t.is_builtin(),
    ensures
        lawful(t, m),
{
    assert forall|a: Datum, b: Datum, c: Datum|
        #[trigger] t.same(m, a, b) && #[trigger] t.same(m, b, c) implies t.same(m, a, c) by {
        lemma_builtin_same_is_equivalence(t, m, a, b, c);
    }
    assert forall|a: Datum, b: Datum| #[trigger] t.same(m, a, b) implies t.same(m, b, a)
        && t.hash_of(m, a) == t.hash_of(m, b) by {
        lemma_builtin_same_is_equivalence(t, m, a, b, a);
        lemma_builtin_hash_respects_same(t, m, a, b);
    }
    assert forall|a: Datum| #[trigger] t.same(m, a, a) by {
        lemma_builtin_same_is_equivalence(t, m, a, a, a);
    }
}

/// Under a built-in test, keys that are the same have the same hash code.
pub proof fn lemma_builtin_hash_respects_same(t: Test, m: HostModel, a: Datum, b: Datum)
    requires
        t.is_builtin(),
        t.same(m, a, b),
    ensures
        t.hash_of(m, a) == t.hash_of(m, b),
{
    lemma_same_objects_hash_alike(a, b);
}

/// A built-in test is an equivalence, whatever the runtime.
pub proof fn lemma_builtin_same_is_equivalence(t: Test, m: HostModel, a: Datum, b: Datum, c: Datum)
    requires
        t.is_builtin(),
    ensures
        t.same(m, a, a),
        t.same(m, a, b) ==> t.same(m, b, a),
        t.same(m, a, b) && t.same(m, b, c) ==> t.same(m, a, c),
{
    lemma_sameness_is_equivalence(a, b, c);
}

} // verus!
