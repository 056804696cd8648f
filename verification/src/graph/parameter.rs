//! Parameters: typed handles to values that graph nodes produce and consume, and the
//! store that holds those values.

use std::any::TypeId;
use std::marker::PhantomData;
use vstd::prelude::*;

verus! {

/// Generator of parameter indices: each call of `next` hands out the next number.
#[derive(Debug)]
pub struct IdGenerator(usize);

impl IdGenerator {
    /// Number the next call of `next` hands out.
    pub closed spec fn count(&self) -> usize {
        self.0
    }

    /// Create a generator that starts at zero.
    pub fn new() -> (r: Self)
        ensures
            r.count() == 0,
    {
        IdGenerator(0)
    }

    /// Hand out the next index.
    pub fn next(&mut self) -> (r: usize)
        requires
            old(self).count() < usize::MAX,
        ensures
            r == old(self).count(),
            final(self).count() == old(self).count() + 1,
    {
        let num = self.0;
        self.0 = self.0 + 1;
        num
    }
}

/// Indices handed out by one generator are all different: a later call returns a larger one.
pub proof fn lemma_ids_increase(g0: IdGenerator, g1: IdGenerator, g2: IdGenerator, a: usize, b: usize)
    requires
        a == g0.count(),
        g1.count() == g0.count() + 1,
        g1.count() <= g2.count(),
        b == g2.count(),
    ensures
        a < b,
{
}

/// Identity of a type, as the standard library gives it.
#[verifier::external_type_specification]
#[verifier::external_body]
pub struct ExTypeId(TypeId);

/// `std::any::TypeId::of`: the identity of type `T`.
#[verifier::external_body]
fn type_id_of<T: 'static>() -> (r: TypeId) {
    TypeId::of::<T>()
}

/// `TypeId`'s `==`: two identities are equal exactly when they are the same value.
#[verifier::external_body]
fn type_ids_equal(a: &TypeId, b: &TypeId) -> (r: bool)
    ensures
        r == (*a == *b),
{
    *a == *b
}

/// Typed handle of a parameter value.
#[derive(Debug)]
pub struct Parameter<T: 'static>(usize, PhantomData<T>);

impl<T: 'static> Parameter<T> {
    /// Index of the parameter.
    pub closed spec fn index_view(&self) -> usize {
        self.0
    }

    /// Create the parameter of index `index`.
    pub fn from_index(index: usize) -> (r: Self)
        ensures
            r.index_view() == index,
    {
        Parameter(index, PhantomData)
    }

    /// Index of the parameter.
    pub fn index(&self) -> (r: usize)
        ensures
            r == self.index_view(),
    {
        self.0
    }

    /// Copy of the handle.
    pub fn copy(&self) -> (r: Self)
        ensures
            r.index_view() == self.index_view(),
    {
        Parameter(self.0, PhantomData)
    }

    /// Type-erased version of the parameter, carrying the identity of `T`.
    pub fn into_dynamic(self) -> (r: DynamicParameter)
        ensures
            r.index_view() == self.index_view(),
    {
        DynamicParameter(self.0, type_id_of::<T>())
    }
}

/// A reified version of `Parameter`: its index and the identity of its value's type.
#[derive(Debug, Copy, Clone)]
pub struct DynamicParameter(usize, TypeId);

impl DynamicParameter {
    /// Index of the parameter.
    pub closed spec fn index_view(&self) -> usize {
        self.0
    }

    /// Identity of the parameter's value type.
    pub closed spec fn type_view(&self) -> TypeId {
        self.1
    }

    /// Index of the parameter.
    pub fn index(&self) -> (r: usize)
        ensures
            r == self.index_view(),
    {
        self.0
    }

    /// Whether the parameter's value type is the one of identity `id`.
    pub fn has_type(&self, id: &TypeId) -> (r: bool)
        ensures
            r == (self.type_view() == *id),
    {
        type_ids_equal(&self.1, id)
    }

    /// Typed handle, when the parameter's value type is `T`.
    pub fn downcast<T: 'static>(self) -> (r: Option<Parameter<T>>)
        ensures
            r matches Some(p) ==> p.index_view() == self.index_view(),
    {
        let id = type_id_of::<T>();
        if self.has_type(&id) {
            Some(Parameter(self.0, PhantomData))
        } else {
            None
        }
    }
}

} // verus!
