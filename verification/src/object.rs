//! The values that tables hold: a small model of Lisp objects, with the three
//! built-in notions of sameness and the hashes that go with them.

use vstd::prelude::*;

verus! {

/// Symbol `t`, the canonical true value.
pub const QT: u64 = 1;

/// Symbol `eq`: the identity test.
pub const QEQ: u64 = 2;

/// Symbol `eql`: the numeric-identity test.
pub const QEQL: u64 = 3;

/// Symbol `equal`: the structural test.
pub const QEQUAL: u64 = 4;

/// Keyword `:test`.
pub const QCTEST: u64 = 5;

/// Keyword `:size`.
pub const QCSIZE: u64 = 6;

/// Keyword `:weakness`.
pub const QCWEAKNESS: u64 = 7;

/// Keyword `:purecopy`.
pub const QCPURECOPY: u64 = 8;

/// Symbol `key`: only the key is held weakly.
pub const QKEY: u64 = 9;

/// Symbol `value`: only the value is held weakly.
pub const QVALUE: u64 = 10;

/// Symbol `key-and-value`: an entry lives while both its key and its value do.
pub const QKEY_AND_VALUE: u64 = 11;

/// Where a boxed object lives. Two boxed objects are the same object exactly
/// when they live in the same cell.
#[derive(Clone, Copy, Debug, PartialEq, Eq, Structural)]
pub struct Cell {
    /// Whether the cell belongs to permanent storage, which is never collected.
    pub pure: bool,
    /// The address of the cell within its storage.
    pub addr: u64,
}

/// A Lisp object, as far as a hash table looks into one.
#[derive(Debug, PartialEq, Eq)]
pub enum LispObject {
    /// The empty list, which also stands for "false" and "absent".
    Nil,
    /// A fixnum: an immediate value, the same wherever it appears.
    Int(i64),
    /// An interned symbol, known by its number.
    Symbol(u64),
    /// A boxed floating-point number, held as its IEEE 754 bit pattern.
    Float { cell: Cell, bits: u64 },
    /// A boxed string.
    Str { cell: Cell, bytes: Vec<u8> },
    /// A pair of two objects.
    Cons { cell: Cell, car: Box<LispObject>, cdr: Box<LispObject> },
}

/// The mathematical value of a [`LispObject`].
pub enum Datum {
    Nil,
    Int(i64),
    Symbol(u64),
    Float { cell: Cell, bits: u64 },
    Str { cell: Cell, bytes: Seq<u8> },
    Cons { cell: Cell, car: Box<Datum>, cdr: Box<Datum> },
}

/// The mathematical value of an object.
pub open spec fn datum_of(o: LispObject) -> Datum
    decreases o,
{
    match o {
        LispObject::Nil => Datum::Nil,
        LispObject::Int(i) => Datum::Int(i),
        LispObject::Symbol(s) => Datum::Symbol(s),
        LispObject::Float { cell, bits } => Datum::Float { cell, bits },
        LispObject::Str { cell, bytes } => Datum::Str { cell, bytes: bytes@ },
        LispObject::Cons { cell, car, cdr } => Datum::Cons {
            cell,
            car: Box::new(datum_of(*car)),
            cdr: Box::new(datum_of(*cdr)),
        },
    }
}

impl View for LispObject {
    type V = Datum;

    open spec fn view(&self) -> Datum {
        datum_of(*self)
    }
}

/// The machine word of a fixnum: its two's complement bit pattern.
pub open spec fn int_word(i: i64) -> u64 {
    if i >= 0 {
        i as u64
    } else {
        (u64::MAX - (-(i + 1)) as u64) as u64
    }
}

/// Two hashes made one: the first times 31, plus the second, modulo 2^64.
pub open spec fn combine(h: u64, next: u64) -> u64 {
    ((h as int * 31 + next as int) % 0x1_0000_0000_0000_0000) as u64
}

/// The hash of a byte string: `combine` folded over the bytes from the
/// left, starting at 0.
pub open spec fn string_hash(bytes: Seq<u8>) -> u64
    decreases bytes.len(),
{
    if bytes.len() == 0 {
        0
    } else {
        combine(string_hash(bytes.drop_last()), bytes.last() as u64)
    }
}

impl Datum {
    /// The first part of a pair; nil for anything else.
    pub open spec fn first(self) -> Datum {
        match self {
            Datum::Cons { car, .. } => *car,
            _ => Datum::Nil,
        }
    }

    /// The second part of a pair; nil for anything else.
    pub open spec fn rest(self) -> Datum {
        match self {
            Datum::Cons { cdr, .. } => *cdr,
            _ => Datum::Nil,
        }
    }

    /// The cell of a boxed object; immediate values have none.
    pub open spec fn cell(self) -> Option<Cell> {
        match self {
            Datum::Float { cell, .. } => Some(cell),
            Datum::Str { cell, .. } => Some(cell),
            Datum::Cons { cell, .. } => Some(cell),
            _ => None,
        }
    }

    /// The word that stands for the object's identity when it is hashed: the
    /// value of an immediate, the address of a boxed object.
    pub open spec fn word(self) -> u64 {
        match self {
            Datum::Nil => 0,
            Datum::Int(i) => int_word(i),
            Datum::Symbol(s) => s,
            Datum::Float { cell, .. } => cell.addr,
            Datum::Str { cell, .. } => cell.addr,
            Datum::Cons { cell, .. } => cell.addr,
        }
    }

    /// Identity: the same immediate value, or the same boxed object.
    pub open spec fn identical(self, other: Datum) -> bool {
        match (self, other) {
            (Datum::Nil, Datum::Nil) => true,
            (Datum::Int(a), Datum::Int(b)) => a == b,
            (Datum::Symbol(a), Datum::Symbol(b)) => a == b,
            (Datum::Float { cell: a, .. }, Datum::Float { cell: b, .. }) => a == b,
            (Datum::Str { cell: a, .. }, Datum::Str { cell: b, .. }) => a == b,
            (Datum::Cons { cell: a, .. }, Datum::Cons { cell: b, .. }) => a == b,
            _ => false,
        }
    }

    /// Numeric identity: two floats are the same when their bit patterns
    /// are; anything else goes by identity.
    pub open spec fn eql(self, other: Datum) -> bool {
        match (self, other) {
            (Datum::Float { bits: a, .. }, Datum::Float { bits: b, .. }) => a == b,
            _ => self.identical(other),
        }
    }

    /// What is left of an object when the places that it and its parts
    /// live in are forgotten.
    pub open spec fn content(self) -> Datum
        decreases self,
    {
        match self {
            Datum::Float { bits, .. } => Datum::Float {
                cell: Cell { pure: false, addr: 0 },
                bits,
            },
            Datum::Str { bytes, .. } => Datum::Str { cell: Cell { pure: false, addr: 0 }, bytes },
            Datum::Cons { car, cdr, .. } => Datum::Cons {
                cell: Cell { pure: false, addr: 0 },
                car: Box::new(car.content()),
                cdr: Box::new(cdr.content()),
            },
            _ => self,
        }
    }

    /// Structural equality: the same content, wherever the objects live.
    pub open spec fn equal(self, other: Datum) -> bool {
        self.content() == other.content()
    }

    /// The hash of an object's content.
    pub open spec fn sxhash(self) -> u64
        decreases self,
    {
        match self {
            Datum::Nil => 0,
            Datum::Int(i) => int_word(i),
            Datum::Symbol(s) => s,
            Datum::Float { bits, .. } => bits,
            Datum::Str { bytes, .. } => string_hash(bytes),
            Datum::Cons { car, cdr, .. } => combine(car.sxhash(), cdr.sxhash()),
        }
    }

    /// The object as permanent storage holds it: a boxed object moves to the
    /// permanent cell of the same address, and so do its parts; an immediate
    /// value stays as it is.
    pub open spec fn frozen(self) -> Datum
        decreases self,
    {
        match self {
            Datum::Cons { cell, car, cdr } => Datum::Cons {
                cell: Cell { pure: true, addr: cell.addr },
                car: Box::new(car.frozen()),
                cdr: Box::new(cdr.frozen()),
            },
            Datum::Float { cell, bits } => Datum::Float {
                cell: Cell { pure: true, addr: cell.addr },
                bits,
            },
            Datum::Str { cell, bytes } => Datum::Str {
                cell: Cell { pure: true, addr: cell.addr },
                bytes,
            },
            _ => self,
        }
    }
}

fn string_hash_of(bytes: &Vec<u8>) -> (h: u64)
    ensures
        h == string_hash(bytes@),
{
    let mut h: u64 = 0;
    let mut i: usize = 0;
    while i < bytes.len()
        invariant
            0 <= i <= bytes.len(),
            h == string_hash(bytes@.subrange(0, i as int)),
        decreases bytes.len() - i,
    {
        proof {
            let next = bytes@.subrange(0, i + 1);
            assert(next.drop_last() =~= bytes@.subrange(0, i as int));
            assert(next.last() == bytes@[i as int]);
        }
        h = h.wrapping_mul(31).wrapping_add(bytes[i] as u64);
        i = i + 1;
    }
    proof {
        assert(bytes@.subrange(0, i as int) =~= bytes@);
    }
    h
}

fn same_bytes(a: &Vec<u8>, b: &Vec<u8>) -> (same: bool)
    ensures
        same == (a@ == b@),
{
    if a.len() != b.len() {
        return false;
    }
    let mut i: usize = 0;
    while i < a.len()
        invariant
            a.len() == b.len(),
            0 <= i <= a.len(),
            forall|j: int| 0 <= j < i ==> a@[j] == b@[j],
        decreases a.len() - i,
    {
        if a[i] != b[i] {
            return false;
        }
        i = i + 1;
    }
    proof {
        assert(a@ =~= b@);
    }
    true
}

impl Clone for LispObject {
    fn clone(&self) -> (out: LispObject)
        ensures
            out@ == self@,
        decreases self,
    {
        match self {
            LispObject::Cons { cell, car, cdr } => LispObject::Cons {
                cell: *cell,
                car: Box::new((&**car).clone()),
                cdr: Box::new((&**cdr).clone()),
            },
            LispObject::Nil => LispObject::Nil,
            LispObject::Int(i) => LispObject::Int(*i),
            LispObject::Symbol(s) => LispObject::Symbol(*s),
            LispObject::Float { cell, bits } => LispObject::Float { cell: *cell, bits: *bits },
            LispObject::Str { cell, bytes } => LispObject::Str {
                cell: *cell,
                bytes: bytes.clone(),
            },
        }
    }
}

impl LispObject {
    /// The canonical "false" and "absent" value.
    pub fn constant_nil() -> (out: LispObject)
        ensures
            out@ == Datum::Nil,
    {
        LispObject::Nil
    }

    /// The canonical true value, the symbol `t`.
    pub fn constant_t() -> (out: LispObject)
        ensures
            out@ == Datum::Symbol(QT),
    {
        LispObject::Symbol(QT)
    }

    /// The fixnum of a natural number, or `None` where it is too large for one.
    pub fn from_natnum(n: u64) -> (out: Option<LispObject>)
        ensures
            out matches Some(o) ==> n <= i64::MAX && o@ == Datum::Int(n as i64),
            out is Some <==> n <= i64::MAX,
    {
        if n <= 0x7fff_ffff_ffff_ffff {
            Some(LispObject::Int(n as i64))
        } else {
            None
        }
    }

    /// The natural number that a fixnum holds; `None` for a negative fixnum
    /// and for anything that is no fixnum.
    pub fn as_natnum(&self) -> (out: Option<u64>)
        ensures
            out == (match self@ {
                Datum::Int(i) if i >= 0 => Some(i as u64),
                _ => None,
            }),
    {
        match self {
            LispObject::Int(i) => {
                if *i >= 0 {
                    Some(*i as u64)
                } else {
                    None
                }
            },
            _ => None,
        }
    }

    pub fn is_nil(&self) -> (out: bool)
        ensures
            out == (self@ is Nil),
    {
        match self {
            LispObject::Nil => true,
            _ => false,
        }
    }

    pub fn is_not_nil(&self) -> (out: bool)
        ensures
            out == !(self@ is Nil),
    {
        !self.is_nil()
    }

    pub fn is_float(&self) -> (out: bool)
        ensures
            out == (self@ is Float),
    {
        match self {
            LispObject::Float { .. } => true,
            _ => false,
        }
    }

    pub fn is_cons(&self) -> (out: bool)
        ensures
            out == (self@ is Cons),
    {
        match self {
            LispObject::Cons { .. } => true,
            _ => false,
        }
    }

    /// The pair of `car` and `cdr` that lives in `cell`.
    pub fn cons(cell: Cell, car: LispObject, cdr: LispObject) -> (out: LispObject)
        ensures
            out@ == (Datum::Cons { cell, car: Box::new(car@), cdr: Box::new(cdr@) }),
    {
        LispObject::Cons { cell, car: Box::new(car), cdr: Box::new(cdr) }
    }

    /// The first part of a pair; nil for anything else.
    pub fn car(&self) -> (out: LispObject)
        ensures
            out@ == self@.first(),
    {
        match self {
            LispObject::Cons { car, .. } => (&**car).clone(),
            _ => LispObject::Nil,
        }
    }

    /// The second part of a pair; nil for anything else.
    pub fn cdr(&self) -> (out: LispObject)
        ensures
            out@ == self@.rest(),
    {
        match self {
            LispObject::Cons { cdr, .. } => (&**cdr).clone(),
            _ => LispObject::Nil,
        }
    }

    /// The identity word of the object.
    pub fn to_raw(&self) -> (out: u64)
        ensures
            out == self@.word(),
    {
        match self {
            LispObject::Nil => 0,
            LispObject::Int(i) => {
                if *i >= 0 {
                    *i as u64
                } else {
                    0xffff_ffff_ffff_ffff - ((-(*i + 1)) as u64)
                }
            },
            LispObject::Symbol(s) => *s,
            LispObject::Float { cell, .. } => cell.addr,
            LispObject::Str { cell, .. } => cell.addr,
            LispObject::Cons { cell, .. } => cell.addr,
        }
    }

    /// Identity comparison.
    pub fn eq(&self, other: &LispObject) -> (out: bool)
        ensures
            out == self@.identical(other@),
    {
        match (self, other) {
            (LispObject::Nil, LispObject::Nil) => true,
            (LispObject::Int(a), LispObject::Int(b)) => *a == *b,
            (LispObject::Symbol(a), LispObject::Symbol(b)) => *a == *b,
            (LispObject::Float { cell: a, .. }, LispObject::Float { cell: b, .. }) => {
                a.pure == b.pure && a.addr == b.addr
            },
            (LispObject::Str { cell: a, .. }, LispObject::Str { cell: b, .. }) => {
                a.pure == b.pure && a.addr == b.addr
            },
            (LispObject::Cons { cell: a, .. }, LispObject::Cons { cell: b, .. }) => {
                a.pure == b.pure && a.addr == b.addr
            },
            _ => false,
        }
    }

    /// Numeric-identity comparison.
    pub fn eql(&self, other: &LispObject) -> (out: bool)
        ensures
            out == self@.eql(other@),
    {
        match (self, other) {
            (LispObject::Float { bits: a, .. }, LispObject::Float { bits: b, .. }) => *a == *b,
            _ => self.eq(other),
        }
    }

    /// Structural comparison.
    pub fn equal(&self, other: &LispObject) -> (out: bool)
        ensures
            out == self@.equal(other@),
        decreases self,
    {
        match (self, other) {
            (
                LispObject::Cons { car: a, cdr: b, .. },
                LispObject::Cons { car: c, cdr: d, .. },
            ) => (&**a).equal(&**c) && (&**b).equal(&**d),
            (LispObject::Nil, LispObject::Nil) => true,
            (LispObject::Int(a), LispObject::Int(b)) => *a == *b,
            (LispObject::Symbol(a), LispObject::Symbol(b)) => *a == *b,
            (LispObject::Float { bits: a, .. }, LispObject::Float { bits: b, .. }) => *a == *b,
            (LispObject::Str { bytes: a, .. }, LispObject::Str { bytes: b, .. }) => same_bytes(
                a,
                b,
            ),
            _ => false,
        }
    }

    /// The content hash of the object.
    pub fn sxhash(&self) -> (out: u64)
        ensures
            out == self@.sxhash(),
        decreases self,
    {
        match self {
            LispObject::Cons { car, cdr, .. } => (&**car).sxhash().wrapping_mul(31).wrapping_add(
                (&**cdr).sxhash(),
            ),
            LispObject::Float { bits, .. } => *bits,
            LispObject::Str { bytes, .. } => string_hash_of(bytes),
            _ => self.to_raw(),
        }
    }

    /// The copy of the object that permanent storage holds.
    pub fn purecopy(&self) -> (out: LispObject)
        ensures
            out@ == self@.frozen(),
        decreases self,
    {
        match self {
            LispObject::Cons { cell, car, cdr } => LispObject::Cons {
                cell: Cell { pure: true, addr: cell.addr },
                car: Box::new((&**car).purecopy()),
                cdr: Box::new((&**cdr).purecopy()),
            },
            LispObject::Float { cell, bits } => LispObject::Float {
                cell: Cell { pure: true, addr: cell.addr },
                bits: *bits,
            },
            LispObject::Str { cell, bytes } => LispObject::Str {
                cell: Cell { pure: true, addr: cell.addr },
                bytes: bytes.clone(),
            },
            _ => self.clone(),
        }
    }
}

/// The hash of an object is the hash of its content.
pub proof fn lemma_sxhash_of_content(a: Datum)
    ensures
        a.content().sxhash() == a.sxhash(),
    decreases a,
{
    match a {
        Datum::Cons { car, cdr, .. } => {
            lemma_sxhash_of_content(*car);
            lemma_sxhash_of_content(*cdr);
        },
        _ => {},
    }
}

/// Objects that a built-in test takes for the same hash alike under it.
pub proof fn lemma_same_objects_hash_alike(a: Datum, b: Datum)
    ensures
        a.identical(b) ==> a.word() == b.word(),
        a.eql(b) ==> (a is Float <==> b is Float),
        a.eql(b) && a is Float ==> a.sxhash() == b.sxhash(),
        a.eql(b) && !(a is Float) ==> a.word() == b.word(),
        a.equal(b) ==> a.sxhash() == b.sxhash(),
{
    lemma_sxhash_of_content(a);
    lemma_sxhash_of_content(b);
}

/// Each of the three built-in kinds of sameness is an equivalence.
pub proof fn lemma_sameness_is_equivalence(a: Datum, b: Datum, c: Datum)
    ensures
        a.identical(a) && a.eql(a) && a.equal(a),
        a.identical(b) ==> b.identical(a),
        a.eql(b) ==> b.eql(a),
        a.equal(b) ==> b.equal(a),
        a.identical(b) && b.identical(c) ==> a.identical(c),
        a.eql(b) && b.eql(c) ==> a.eql(c),
        a.equal(b) && b.equal(c) ==> a.equal(c),
{
}

/// Freezing an object changes neither its content nor its hashes, and a
/// frozen object is its own frozen form.
pub proof fn lemma_frozen(a: Datum)
    ensures
        a.frozen().content() == a.content(),
        a.frozen().word() == a.word(),
        a.frozen().sxhash() == a.sxhash(),
        a.frozen().frozen() == a.frozen(),
        a.frozen() is Float <==> a is Float,
    decreases a,
{
    match a {
        Datum::Cons { car, cdr, .. } => {
            lemma_frozen(*car);
            lemma_frozen(*cdr);
        },
        _ => {},
    }
}

} // verus!
