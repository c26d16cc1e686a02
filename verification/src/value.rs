//! The dynamically typed value model that crosses the host/native boundary.
//!
//! A `Value` is a closed tagged union of four variants. Text is carried as a
//! sequence of bytes, one byte per character; a real number is carried as the
//! bit pattern of its 8-byte little-endian wire representation, so that the
//! codec and the bridge never interpret it.

use vstd::prelude::*;
use crate::error::Error;

verus! {

/// The mathematical model of a [`Value`]: the same tagged union over `Seq`
/// instead of `Vec`. Contracts and laws are stated over this type.
pub enum Val {
    /// The unit/absent value.
    Undefined,
    /// A text payload: one byte per character.
    String(Seq<u8>),
    /// An 8-byte real number, kept as its raw bit pattern.
    Real(u64),
    /// An ordered sequence of values.
    Array(Seq<Val>),
}

/// A dynamically typed value that can cross the host/native boundary.
#[derive(Debug, PartialEq)]
pub enum Value {
    /// The unit/absent value.
    Undefined,
    /// A text payload: one byte per character.
    String(Vec<u8>),
    /// An 8-byte real number, kept as its raw bit pattern.
    Real(u64),
    /// An ordered sequence of values; may nest arbitrarily deep.
    Array(Vec<Value>),
}

/// The model denoted by a value.
pub open spec fn val_of(v: Value) -> Val
    decreases v,
{
    match v {
        Value::Undefined => Val::Undefined,
        Value::String(bytes) => Val::String(bytes@),
        Value::Real(bits) => Val::Real(bits),
        Value::Array(items) => {
            proof {
                assert(decreases_to!(v => items));
                assert(decreases_to!(items => items@));
            }
            Val::Array(vals_of(items@))
        },
    }
}

/// The models denoted by a sequence of values, in order.
pub open spec fn vals_of(items: Seq<Value>) -> Seq<Val>
    decreases items,
{
    if items.len() == 0 {
        Seq::empty()
    } else {
        seq![val_of(items[0])] + vals_of(items.subrange(1, items.len() as int))
    }
}

/// `vals_of` takes each element to its own model.
pub proof fn lemma_vals_of(items: Seq<Value>)
    ensures
        vals_of(items).len() == items.len(),
        forall|i: int| 0 <= i < items.len() ==> vals_of(items)[i] == val_of(#[trigger] items[i]),
    decreases items.len(),
{
    if items.len() > 0 {
        let rest = items.subrange(1, items.len() as int);
        lemma_vals_of(rest);
        assert forall|i: int| 0 <= i < items.len() implies vals_of(items)[i] == val_of(
            #[trigger] items[i],
        ) by {
            if i > 0 {
                assert(rest[i - 1] == items[i]);
                assert(vals_of(items)[i] == vals_of(rest)[i - 1]);
            }
        }
    }
}

/// Appending a value appends its model.
pub proof fn lemma_vals_of_push(items: Seq<Value>, v: Value)
    ensures
        vals_of(items.push(v)) == vals_of(items).push(val_of(v)),
{
    lemma_vals_of(items);
    lemma_vals_of(items.push(v));
    assert forall|j: int| 0 <= j < items.len() + 1 implies vals_of(items.push(v))[j] == vals_of(
        items,
    ).push(val_of(v))[j] by {
        assert(vals_of(items.push(v))[j] == val_of(items.push(v)[j]));
    }
    assert(vals_of(items.push(v)) =~= vals_of(items).push(val_of(v)));
}

impl View for Value {
    type V = Val;

    open spec fn view(&self) -> Val {
        val_of(*self)
    }
}

impl DeepView for Value {
    type V = Val;

    open spec fn deep_view(&self) -> Val {
        val_of(*self)
    }
}

impl Clone for Value {
    /// A clone denotes the same value as the original.
    #[verifier::loop_isolation(false)]
    fn clone(&self) -> (r: Self)
        ensures
            r@ == self@,
        decreases self,
    {
        match self {
            Value::Undefined => Value::Undefined,
            Value::String(bytes) => Value::String(bytes.clone()),
            Value::Real(bits) => Value::Real(*bits),
            Value::Array(items) => {
                let mut copy: Vec<Value> = Vec::new();
                let mut i: usize = 0;
                while i < items.len()
                    invariant
                        i <= items.len(),
                        copy@.len() == i,
                        forall|j: int| 0 <= j < i ==> copy@[j]@ == items@[j]@,
                    decreases items.len() - i,
                {
                    proof {
                        assert(*self == Value::Array(*items));
                        assert(decreases_to!(Value::Array(*items) => *items));
                        assert(decreases_to!(*items => items@));
                        assert(decreases_to!(items@ => items@[i as int]));
                    }
                    copy.push(items[i].clone());
                    i = i + 1;
                }
                let r = Value::Array(copy);
                proof {
                    lemma_vals_of(copy@);
                    lemma_vals_of(items@);
                    assert forall|j: int| 0 <= j < copy@.len() implies vals_of(copy@)[j]
                        == vals_of(items@)[j] by {
                        assert(copy@[j]@ == items@[j]@);
                    }
                    assert(vals_of(copy@) =~= vals_of(items@));
                }
                r
            },
        }
    }
}

impl Value {
    /// True exactly when the value is `Undefined`.
    pub fn is_undefined(&self) -> (r: bool)
        ensures
            r == (self is Undefined),
    {
        match self {
            Self::Undefined => true,
            _ => false,
        }
    }

    /// The text payload, or `None` when the value is not a `String`.
    pub fn as_string(self) -> (r: Option<Vec<u8>>)
        ensures
            self matches Value::String(s) ==> r == Some(s),
            !(self is String) ==> r is None,
    {
        match self {
            Self::String(string) => Some(string),
            _ => None,
        }
    }

    /// The text payload of a value known to be a `String`.
    pub fn to_string(self) -> (r: Vec<u8>)
        requires
            self is String,
        ensures
            self matches Value::String(s) ==> r == s,
    {
        match self {
            Self::String(string) => string,
            _ => Vec::new(),
        }
    }

    /// The bit pattern of the real number, or `None` when the value is not a
    /// `Real`.
    pub fn as_real(self) -> (r: Option<u64>)
        ensures
            self matches Value::Real(x) ==> r == Some(x),
            !(self is Real) ==> r is None,
    {
        match self {
            Self::Real(bits) => Some(bits),
            _ => None,
        }
    }

    /// The bit pattern of a value known to be a `Real`.
    pub fn to_real(self) -> (r: u64)
        requires
            self is Real,
        ensures
            self matches Value::Real(x) ==> r == x,
    {
        match self {
            Self::Real(bits) => bits,
            _ => 0,
        }
    }

    /// The text payload, or a `TypeMismatch` error when the value is not a
    /// `String`: narrowing never coerces.
    pub fn expect_string(self) -> (r: Result<Vec<u8>, Error>)
        ensures
            self matches Value::String(s) ==> r == Ok::<Vec<u8>, Error>(s),
            !(self is String) ==> r == Err::<Vec<u8>, Error>(Error::TypeMismatch),
    {
        match self {
            Self::String(string) => Ok(string),
            _ => Err(Error::TypeMismatch),
        }
    }

    /// The bit pattern of the real number, or a `TypeMismatch` error when
    /// the value is not a `Real`: narrowing never coerces.
    pub fn expect_real(self) -> (r: Result<u64, Error>)
        ensures
            self matches Value::Real(x) ==> r == Ok::<u64, Error>(x),
            !(self is Real) ==> r == Err::<u64, Error>(Error::TypeMismatch),
    {
        match self {
            Self::Real(bits) => Ok(bits),
            _ => Err(Error::TypeMismatch),
        }
    }

    /// The elements, or a `TypeMismatch` error when the value is not an
    /// `Array`: narrowing never coerces.
    pub fn expect_array(self) -> (r: Result<Vec<Value>, Error>)
        ensures
            self matches Value::Array(a) ==> r == Ok::<Vec<Value>, Error>(a),
            !(self is Array) ==> r == Err::<Vec<Value>, Error>(Error::TypeMismatch),
    {
        match self {
            Self::Array(array) => Ok(array),
            _ => Err(Error::TypeMismatch),
        }
    }

    /// The elements, or `None` when the value is not an `Array`.
    pub fn as_array(self) -> (r: Option<Vec<Value>>)
        ensures
            self matches Value::Array(a) ==> r == Some(a),
            !(self is Array) ==> r is None,
    {
        match self {
            Self::Array(array) => Some(array),
            _ => None,
        }
    }

    /// The elements of a value known to be an `Array`.
    pub fn to_array(self) -> (r: Vec<Value>)
        requires
            self is Array,
        ensures
            self matches Value::Array(a) ==> r == a,
    {
        match self {
            Self::Array(array) => array,
            _ => Vec::new(),
        }
    }
}

} // verus!
