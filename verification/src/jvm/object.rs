//! Opaque Java object identities and the host-owned object operations the
//! interpreter routes through: allocation, `instanceof`,
//! `checkcast`, reference arrays, `Integer.toString` and virtual `equals`.
//!
//! The host owns every object; this layer owns only the null checks and the
//! exceptions whose cut points precede host dispatch.

use vstd::prelude::*;
use super::JavaError;

verus! {

/// An opaque, non-null Java object identity owned by the host runtime.
/// `Option<JavaObjectRef>` stands for a nullable reference.
#[derive(Clone, Copy, Debug, Eq, Hash, Ord, PartialEq, PartialOrd)]
pub struct JavaObjectRef(u32);

impl JavaObjectRef {
    /// Wraps a host arena identifier; zero is Java `null`.
    pub fn from_raw(raw: u32) -> (r: Option<Self>)
        ensures raw == 0 ==> r is None, raw != 0 ==> (r matches Some(o) && o.raw_spec() == raw),
    {
        if raw == 0 { None } else { Some(JavaObjectRef(raw)) }
    }

    pub closed spec fn raw_spec(self) -> u32 {
        self.0
    }

    /// The identifier, for host arena indexing and tracing.
    pub fn raw(self) -> (r: u32)
        ensures r == self.raw_spec(),
    {
        self.0
    }
}

/// An opaque host token for a resolved Java class or interface.
#[derive(Clone, Copy, Debug, Eq, Hash, Ord, PartialEq, PartialOrd)]
pub struct JavaClassRef(u32);

impl JavaClassRef {
    /// Wraps a host class-table identifier; zero is rejected.
    pub fn from_raw(raw: u32) -> (r: Option<Self>)
        ensures raw == 0 ==> r is None, raw != 0 ==> (r matches Some(c) && c.raw_spec() == raw),
    {
        if raw == 0 { None } else { Some(JavaClassRef(raw)) }
    }

    pub closed spec fn raw_spec(self) -> u32 {
        self.0
    }

    pub fn raw(self) -> (r: u32)
        ensures r == self.raw_spec(),
    {
        self.0
    }
}

/// Host callbacks for identity-bearing `java.lang.Object` operations. A host
/// implements it over its own object arena and class table.
pub trait JavaObjectRuntime {
    type Error;

    /// The host failure that stands for a JVM exception of this layer.
    closed spec fn error_of(error: JavaError) -> Self::Error {
        arbitrary()
    }

    /// Converts a JVM exception raised by this layer into the host failure type.
    fn java_error(error: JavaError) -> (r: Self::Error)
        ensures
            r == Self::error_of(error),
    ;

    /// What the host's `new Integer(value)` answers in this state.
    closed spec fn integer_answer(&self, value: i32) -> Result<JavaObjectRef, Self::Error> {
        arbitrary()
    }

    /// `new Integer(value)`: always a fresh identity.
    fn allocate_integer(&mut self, value: i32) -> (r: Result<JavaObjectRef, Self::Error>)
        ensures
            r == old(self).integer_answer(value),
    ;

    /// What the host's allocation of an array answers in this state.
    closed spec fn array_answer(&self, component_class: JavaClassRef, length: i32) -> Result<JavaObjectRef, Self::Error> {
        arbitrary()
    }

    /// `anewarray` after the non-negative length check: a fresh array of nulls.
    fn allocate_reference_array(&mut self, component_class: JavaClassRef, length: i32)
        -> (r: Result<JavaObjectRef, Self::Error>)
        ensures
            r == old(self).array_answer(component_class, length),
    ;

    /// What the host's type test answers in this state.
    closed spec fn instance_answer(&self, object: JavaObjectRef, class: JavaClassRef) -> Result<bool, Self::Error> {
        arbitrary()
    }

    /// The type test for a known non-null object.
    fn is_instance_of_non_null(&mut self, object: JavaObjectRef, class: JavaClassRef) -> (r: Result<bool, Self::Error>)
        ensures
            r == old(self).instance_answer(object, class),
    ;

    /// What the host answers for an array's length in this state.
    closed spec fn length_answer(&self, array: JavaObjectRef) -> Result<i32, Self::Error> {
        arbitrary()
    }

    /// The length of a known non-null reference array.
    fn reference_array_length_non_null(&mut self, array: JavaObjectRef) -> (r: Result<i32, Self::Error>)
        ensures
            r == old(self).length_answer(array),
    ;

    /// What the host answers for an array element in this state.
    closed spec fn get_answer(&self, array: JavaObjectRef, index: i32) -> Result<Option<JavaObjectRef>, Self::Error> {
        arbitrary()
    }

    /// `aaload` on a known non-null reference array.
    fn reference_array_get_non_null(&mut self, array: JavaObjectRef, index: i32)
        -> (r: Result<Option<JavaObjectRef>, Self::Error>)
        ensures
            r == old(self).get_answer(array, index),
    ;

    /// What the host answers for an element store in this state.
    closed spec fn set_answer(&self, array: JavaObjectRef, index: i32, value: Option<JavaObjectRef>) -> Result<(), Self::Error> {
        arbitrary()
    }

    /// `aastore` on a known non-null reference array.
    fn reference_array_set_non_null(&mut self, array: JavaObjectRef, index: i32, value: Option<JavaObjectRef>)
        -> (r: Result<(), Self::Error>)
        ensures
            r == old(self).set_answer(array, index, value),
    ;

    /// What the host's `Integer.toString()` answers in this state.
    closed spec fn to_string_answer(&self, integer: JavaObjectRef) -> Result<JavaObjectRef, Self::Error> {
        arbitrary()
    }

    /// `Integer.toString()` on a known non-null Integer.
    fn integer_to_string_non_null(&mut self, integer: JavaObjectRef) -> (r: Result<JavaObjectRef, Self::Error>)
        ensures
            r == old(self).to_string_answer(integer),
    ;

    /// The UTF-16 units the host holds for a String.
    closed spec fn utf16_answer(&self, string: JavaObjectRef) -> Result<Seq<u16>, Self::Error> {
        arbitrary()
    }

    /// The exact UTF-16 code units of a known non-null String.
    fn string_utf16_non_null(&self, string: JavaObjectRef) -> (r: Result<&[u16], Self::Error>)
        ensures
            match self.utf16_answer(string) {
                Ok(units) => r matches Ok(x) && x@ == units,
                Err(e) => r == Err::<&[u16], Self::Error>(e),
            },
    ;

    /// What the host's virtual `equals` answers in this state.
    closed spec fn equals_answer(&self, receiver: JavaObjectRef, argument: Option<JavaObjectRef>) -> Result<bool, Self::Error> {
        arbitrary()
    }

    /// Virtual `receiver.equals(argument)` dispatch.
    fn invoke_object_equals(&mut self, receiver: JavaObjectRef, argument: Option<JavaObjectRef>)
        -> (r: Result<bool, Self::Error>)
        ensures
            r == old(self).equals_answer(receiver, argument),
    ;
}

/// Java `new Integer(value)` through the host arena.
pub fn new_integer<R: JavaObjectRuntime>(runtime: &mut R, value: i32) -> (r: Result<JavaObjectRef, R::Error>)
    ensures
        r == old(runtime).integer_answer(value),
{
    runtime.allocate_integer(value)
}

/// Java `anewarray`: `NegativeArraySizeException` before any allocation.
pub fn new_reference_array<R: JavaObjectRuntime>(runtime: &mut R, component_class: JavaClassRef, length: i32)
    -> (r: Result<JavaObjectRef, R::Error>)
    ensures
        length < 0 ==> r == Err::<JavaObjectRef, R::Error>(R::error_of(JavaError::NegativeArraySize { length }))
            && *final(runtime) == *old(runtime),
        length >= 0 ==> r == old(runtime).array_answer(component_class, length),
{
    if length < 0 {
        Err(R::java_error(JavaError::NegativeArraySize { length }))
    } else {
        runtime.allocate_reference_array(component_class, length)
    }
}

/// Java `instanceof`: `null` is never an instance, and no host test runs.
pub fn instance_of<R: JavaObjectRuntime>(runtime: &mut R, object: Option<JavaObjectRef>, class: JavaClassRef)
    -> (r: Result<bool, R::Error>)
    ensures
        object is None ==> (r matches Ok(b) && !b) && *final(runtime) == *old(runtime),
        object matches Some(o) ==> r == old(runtime).instance_answer(o, class),
{
    match object {
        Some(object) => runtime.is_instance_of_non_null(object, class),
        None => Ok(false),
    }
}

/// Java `checkcast`: `null` passes through; a passing cast keeps the exact
/// identity; a failing one is `ClassCastException`.
pub fn check_cast<R: JavaObjectRuntime>(runtime: &mut R, object: Option<JavaObjectRef>, class: JavaClassRef)
    -> (r: Result<Option<JavaObjectRef>, R::Error>)
    ensures
        object is None ==> (r matches Ok(o) && o is None) && *final(runtime) == *old(runtime),
        object matches Some(o) ==> match old(runtime).instance_answer(o, class) {
            Ok(true) => r == Ok::<Option<JavaObjectRef>, R::Error>(Some(o)),
            Ok(false) => r == Err::<Option<JavaObjectRef>, R::Error>(R::error_of(JavaError::ClassCast)),
            Err(e) => r == Err::<Option<JavaObjectRef>, R::Error>(e),
        },
{
    let object = match object {
        Some(object) => object,
        None => return Ok(None),
    };
    match runtime.is_instance_of_non_null(object, class) {
        Ok(true) => Ok(Some(object)),
        Ok(false) => Err(R::java_error(JavaError::ClassCast)),
        Err(e) => Err(e),
    }
}

fn require_non_null<R: JavaObjectRuntime>(object: Option<JavaObjectRef>) -> (r: Result<JavaObjectRef, R::Error>)
    ensures
        object matches Some(o) ==> r == Ok::<JavaObjectRef, R::Error>(o),
        object is None ==> r == Err::<JavaObjectRef, R::Error>(R::error_of(JavaError::NullPointer)),
{
    match object {
        Some(o) => Ok(o),
        None => Err(R::java_error(JavaError::NullPointer)),
    }
}

/// A reference array's length; `NullPointerException` before host dispatch.
pub fn reference_array_length<R: JavaObjectRuntime>(runtime: &mut R, array: Option<JavaObjectRef>)
    -> (r: Result<i32, R::Error>)
    ensures
        array is None ==> r == Err::<i32, R::Error>(R::error_of(JavaError::NullPointer)) && *final(runtime) == *old(
            runtime,
        ),
        array matches Some(a) ==> r == old(runtime).length_answer(a),
{
    let array = require_non_null::<R>(array)?;
    runtime.reference_array_length_non_null(array)
}

/// `aaload`; `NullPointerException` before host dispatch on a null array.
pub fn reference_array_get<R: JavaObjectRuntime>(runtime: &mut R, array: Option<JavaObjectRef>, index: i32)
    -> (r: Result<Option<JavaObjectRef>, R::Error>)
    ensures
        array is None ==> r == Err::<Option<JavaObjectRef>, R::Error>(R::error_of(JavaError::NullPointer))
            && *final(runtime) == *old(runtime),
        array matches Some(a) ==> r == old(runtime).get_answer(a, index),
{
    let array = require_non_null::<R>(array)?;
    runtime.reference_array_get_non_null(array, index)
}

/// `aastore`; `NullPointerException` before host dispatch on a null array.
pub fn reference_array_set<R: JavaObjectRuntime>(runtime: &mut R, array: Option<JavaObjectRef>, index: i32,
    value: Option<JavaObjectRef>) -> (r: Result<(), R::Error>)
    ensures
        array is None ==> r == Err::<(), R::Error>(R::error_of(JavaError::NullPointer)) && *final(runtime) == *old(
            runtime,
        ),
        array matches Some(a) ==> r == old(runtime).set_answer(a, index, value),
{
    let array = require_non_null::<R>(array)?;
    runtime.reference_array_set_non_null(array, index, value)
}

/// `Integer.toString()`; `NullPointerException` before host dispatch.
pub fn integer_to_string<R: JavaObjectRuntime>(runtime: &mut R, integer: Option<JavaObjectRef>)
    -> (r: Result<JavaObjectRef, R::Error>)
    ensures
        integer is None ==> r == Err::<JavaObjectRef, R::Error>(R::error_of(JavaError::NullPointer))
            && *final(runtime) == *old(runtime),
        integer matches Some(i) ==> r == old(runtime).to_string_answer(i),
{
    let integer = require_non_null::<R>(integer)?;
    runtime.integer_to_string_non_null(integer)
}

/// A String's UTF-16 units; `NullPointerException` before host access.
pub fn string_utf16<R: JavaObjectRuntime>(runtime: &R, string: Option<JavaObjectRef>) -> (r: Result<&[u16], R::Error>)
    ensures
        string is None ==> r == Err::<&[u16], R::Error>(R::error_of(JavaError::NullPointer)),
        string matches Some(s) ==> match runtime.utf16_answer(s) {
            Ok(units) => r matches Ok(x) && x@ == units,
            Err(e) => r == Err::<&[u16], R::Error>(e),
        },
{
    let string = require_non_null::<R>(string)?;
    runtime.string_utf16_non_null(string)
}

/// Virtual `Object.equals`: `NullPointerException` on a null receiver before
/// dispatch; a null argument is passed through.
pub fn object_equals<R: JavaObjectRuntime>(runtime: &mut R, receiver: Option<JavaObjectRef>,
    argument: Option<JavaObjectRef>) -> (r: Result<bool, R::Error>)
    ensures
        receiver is None ==> r == Err::<bool, R::Error>(R::error_of(JavaError::NullPointer)) && *final(runtime)
            == *old(runtime),
        receiver matches Some(o) ==> r == old(runtime).equals_answer(o, argument),
{
    let receiver = require_non_null::<R>(receiver)?;
    runtime.invoke_object_equals(receiver, argument)
}

} // verus!
