//! The mathematical content of executable values: a `String` stands for a sequence of
//! characters, a `Vec` for a sequence of contents, and so on.

use std::collections::HashMap;
use std::sync::Arc;

use vstd::prelude::*;

verus! {

/// A type whose values have a mathematical content.
pub trait HasModel: Sized {
    /// The mathematical content of a value.
    type Model;

    /// The mathematical content of this value.
    spec fn model(&self) -> Self::Model;
}

/// The contents of the items of a sequence, in order.
pub open spec fn models<T: HasModel>(items: Seq<T>) -> Seq<T::Model> {
    Seq::new(items.len(), |i: int| items[i].model())
}

/// The contents of the values of a map, under the same keys.
pub open spec fn map_models<K, V: HasModel>(m: Map<K, V>) -> Map<K, V::Model> {
    m.map_values(|v: V| v.model())
}

pub broadcast proof fn models_empty<T: HasModel>()
    ensures
        #[trigger] models(Seq::<T>::empty()) == Seq::<T::Model>::empty(),
{
    assert(models(Seq::<T>::empty()) =~= Seq::<T::Model>::empty());
}

pub broadcast proof fn models_push<T: HasModel>(items: Seq<T>, item: T)
    ensures
        #[trigger] models(items.push(item)) == models(items).push(item.model()),
{
    assert(models(items.push(item)) =~= models(items).push(item.model()));
}

pub broadcast proof fn models_concat<T: HasModel>(a: Seq<T>, b: Seq<T>)
    ensures
        #[trigger] models(a + b) == models(a) + models(b),
{
    assert(models(a + b) =~= models(a) + models(b));
}

pub broadcast proof fn map_models_empty<K, V: HasModel>()
    ensures
        #[trigger] map_models(Map::<K, V>::empty()) == Map::<K, V::Model>::empty(),
{
    assert(map_models(Map::<K, V>::empty()) =~= Map::<K, V::Model>::empty());
}

pub broadcast proof fn map_models_insert<K, V: HasModel>(m: Map<K, V>, k: K, v: V)
    ensures
        #[trigger] map_models(m.insert(k, v)) == map_models(m).insert(k, v.model()),
{
    assert(map_models(m.insert(k, v)) =~= map_models(m).insert(k, v.model()));
}

pub broadcast proof fn map_models_remove<K, V: HasModel>(m: Map<K, V>, k: K)
    ensures
        #[trigger] map_models(m.remove(k)) == map_models(m).remove(k),
{
    assert(map_models(m.remove(k)) =~= map_models(m).remove(k));
}

pub broadcast group group_models {
    models_empty,
    models_push,
    models_concat,
    map_models_empty,
    map_models_insert,
    map_models_remove,
}

impl HasModel for () {
    type Model = ();

    open spec fn model(&self) -> () {
        ()
    }
}

impl HasModel for bool {
    type Model = bool;

    open spec fn model(&self) -> bool {
        *self
    }
}

impl HasModel for u8 {
    type Model = u8;

    open spec fn model(&self) -> u8 {
        *self
    }
}

impl HasModel for u16 {
    type Model = u16;

    open spec fn model(&self) -> u16 {
        *self
    }
}

impl HasModel for u32 {
    type Model = u32;

    open spec fn model(&self) -> u32 {
        *self
    }
}

impl HasModel for u64 {
    type Model = u64;

    open spec fn model(&self) -> u64 {
        *self
    }
}

impl HasModel for i8 {
    type Model = i8;

    open spec fn model(&self) -> i8 {
        *self
    }
}

impl HasModel for i32 {
    type Model = i32;

    open spec fn model(&self) -> i32 {
        *self
    }
}

impl HasModel for i64 {
    type Model = i64;

    open spec fn model(&self) -> i64 {
        *self
    }
}

impl HasModel for String {
    type Model = Seq<char>;

    open spec fn model(&self) -> Seq<char> {
        self@
    }
}

impl<A: HasModel, B: HasModel> HasModel for (A, B) {
    type Model = (A::Model, B::Model);

    open spec fn model(&self) -> (A::Model, B::Model) {
        (self.0.model(), self.1.model())
    }
}

impl<T: HasModel> HasModel for Option<T> {
    type Model = Option<T::Model>;

    open spec fn model(&self) -> Option<T::Model> {
        match self {
            Some(v) => Some(v.model()),
            None => None,
        }
    }
}

impl<A: HasModel, B: HasModel> HasModel for Result<A, B> {
    type Model = Result<A::Model, B::Model>;

    open spec fn model(&self) -> Result<A::Model, B::Model> {
        match self {
            Ok(v) => Ok(v.model()),
            Err(e) => Err(e.model()),
        }
    }
}

impl<T: HasModel> HasModel for Vec<T> {
    type Model = Seq<T::Model>;

    open spec fn model(&self) -> Seq<T::Model> {
        models(self@)
    }
}

impl<K, V: HasModel> HasModel for HashMap<K, V> {
    type Model = Map<K, V::Model>;

    open spec fn model(&self) -> Map<K, V::Model> {
        map_models(self@)
    }
}

impl<T: HasModel> HasModel for Arc<T> {
    type Model = T::Model;

    open spec fn model(&self) -> T::Model {
        (**self).model()
    }
}

/// `Arc::clone`: another handle on the same value.
#[verifier::external_body]
pub(crate) fn share<T>(value: &Arc<T>) -> (res: Arc<T>)
    ensures
        res == *value,
{
    Arc::clone(value)
}

} // verus!
