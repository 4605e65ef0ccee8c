use vstd::prelude::*;

use crate::track_graph::TrackGraphID;

verus! {

/// A bag of values keyed by their type: one slot for each type that can be
/// attached, so a bag never holds two values of one type.
#[derive(Debug, Default)]
pub struct Extensions {
    pub name: Option<String>,
    pub number: Option<u64>,
    pub position: Option<usize>,
    pub dense: Option<TrackGraphID>,
}

/// A type that has a slot in every [`Extensions`].
pub trait Extension: Sized {
    /// What the slot of this type holds in `bag`.
    spec fn slot(bag: Extensions) -> Option<Self>;

    /// `bag` with the slot of this type set to `value`.
    spec fn store(bag: Extensions, value: Option<Self>) -> Extensions;

    /// A slot holds what was stored last, and storing what it holds changes nothing.
    proof fn lemma_slot(bag: Extensions, first: Option<Self>, second: Option<Self>)
        ensures
            Self::slot(Self::store(bag, first)) == first,
            Self::store(bag, Self::slot(bag)) == bag,
            Self::store(Self::store(bag, first), second) == Self::store(bag, second),
    ;

    fn field(bag: &Extensions) -> (r: &Option<Self>)
        ensures
            *r == Self::slot(*bag),
    ;

    fn field_mut(bag: &mut Extensions) -> (r: &mut Option<Self>)
        ensures
            *r == Self::slot(*old(bag)),
            *final(bag) == Self::store(*old(bag), *final(r)),
    ;
}

impl Extension for String {
    open spec fn slot(bag: Extensions) -> Option<String> {
        bag.name
    }

    open spec fn store(bag: Extensions, value: Option<String>) -> Extensions {
        Extensions { name: value, ..bag }
    }

    proof fn lemma_slot(bag: Extensions, first: Option<String>, second: Option<String>) {
    }

    fn field(bag: &Extensions) -> (r: &Option<String>) {
        &bag.name
    }

    fn field_mut(bag: &mut Extensions) -> (r: &mut Option<String>) {
        &mut bag.name
    }
}

impl Extension for u64 {
    open spec fn slot(bag: Extensions) -> Option<u64> {
        bag.number
    }

    open spec fn store(bag: Extensions, value: Option<u64>) -> Extensions {
        Extensions { number: value, ..bag }
    }

    proof fn lemma_slot(bag: Extensions, first: Option<u64>, second: Option<u64>) {
    }

    fn field(bag: &Extensions) -> (r: &Option<u64>) {
        &bag.number
    }

    fn field_mut(bag: &mut Extensions) -> (r: &mut Option<u64>) {
        &mut bag.number
    }
}

impl Extension for usize {
    open spec fn slot(bag: Extensions) -> Option<usize> {
        bag.position
    }

    open spec fn store(bag: Extensions, value: Option<usize>) -> Extensions {
        Extensions { position: value, ..bag }
    }

    proof fn lemma_slot(bag: Extensions, first: Option<usize>, second: Option<usize>) {
    }

    fn field(bag: &Extensions) -> (r: &Option<usize>) {
        &bag.position
    }

    fn field_mut(bag: &mut Extensions) -> (r: &mut Option<usize>) {
        &mut bag.position
    }
}

impl Extension for TrackGraphID {
    open spec fn slot(bag: Extensions) -> Option<TrackGraphID> {
        bag.dense
    }

    open spec fn store(bag: Extensions, value: Option<TrackGraphID>) -> Extensions {
        Extensions { dense: value, ..bag }
    }

    proof fn lemma_slot(bag: Extensions, first: Option<TrackGraphID>, second: Option<TrackGraphID>) {
    }

    fn field(bag: &Extensions) -> (r: &Option<TrackGraphID>) {
        &bag.dense
    }

    fn field_mut(bag: &mut Extensions) -> (r: &mut Option<TrackGraphID>) {
        &mut bag.dense
    }
}

impl Extensions {
    /// The bag with every slot empty.
    pub open spec fn empty() -> Extensions {
        Extensions { name: None, number: None, position: None, dense: None }
    }

    /// `self` with every filled slot of `other` written over its own.
    pub open spec fn merged(self, other: Extensions) -> Extensions {
        Extensions {
            name: if other.name is Some { other.name } else { self.name },
            number: if other.number is Some { other.number } else { self.number },
            position: if other.position is Some { other.position } else { self.position },
            dense: if other.dense is Some { other.dense } else { self.dense },
        }
    }

    #[must_use]
    pub fn new() -> (r: Extensions)
        ensures
            r == Extensions::empty(),
    {
        Extensions { name: None, number: None, position: None, dense: None }
    }

    /// Puts `val` into the slot of its type and hands back what the slot held.
    pub fn insert<T: Extension>(&mut self, val: T) -> (r: Option<T>)
        ensures
            r == T::slot(*old(self)),
            *final(self) == T::store(*old(self), Some(val)),
            T::slot(*final(self)) == Some(val),
    {
        proof {
            T::lemma_slot(*self, Some(val), None);
        }
        let field = T::field_mut(self);
        let previous = field.take();
        *field = Some(val);
        previous
    }

    #[must_use]
    pub fn contains<T: Extension>(&self) -> (r: bool)
        ensures
            r == T::slot(*self).is_some(),
    {
        T::field(self).is_some()
    }

    #[must_use]
    pub fn get<T: Extension>(&self) -> (r: Option<&T>)
        ensures
            r is Some <==> T::slot(*self) is Some,
            r is Some ==> *r->0 == T::slot(*self)->0,
    {
        T::field(self).as_ref()
    }

    /// A mutable borrow of the value of type `T`, if there is one: what is
    /// written through it is what the slot holds afterwards.
    pub fn get_mut<T: Extension>(&mut self) -> (r: Option<&mut T>)
        ensures
            r is Some <==> T::slot(*old(self)) is Some,
            r is Some ==> *r->0 == T::slot(*old(self))->0 && *final(self) == T::store(
                *old(self),
                Some(*final(r->0)),
            ),
            r is None ==> *final(self) == *old(self),
    {
        proof {
            T::lemma_slot(*self, None, None);
        }
        match T::field_mut(self) {
            Some(v) => Some(v),
            None => None,
        }
    }

    /// The value of type `T`, after `value` was stored if the slot was empty.
    pub fn get_or_insert<T: Extension>(&mut self, value: T) -> (r: &mut T)
        ensures
            *r == (if T::slot(*old(self)) is Some { T::slot(*old(self))->0 } else { value }),
            *final(self) == T::store(*old(self), Some(*final(r))),
    {
        let field = T::field_mut(self);
        if field.is_none() {
            *field = Some(value);
        }
        match field {
            Some(v) => v,
            None => vstd::pervasive::unreached(),
        }
    }

    /// The value of type `T`, after the result of `default` was stored if the
    /// slot was empty; `default` is called in that case only.
    pub fn get_or_insert_with<T: Extension, F: FnOnce() -> T>(&mut self, default: F) -> (r: &mut T)
        requires
            T::slot(*old(self)) is None ==> default.requires(()),
        ensures
            T::slot(*old(self)) is Some ==> *r == T::slot(*old(self))->0,
            T::slot(*old(self)) is None ==> default.ensures((), *r),
            *final(self) == T::store(*old(self), Some(*final(r))),
    {
        let field = T::field_mut(self);
        if field.is_none() {
            *field = Some(default());
        }
        match field {
            Some(v) => v,
            None => vstd::pervasive::unreached(),
        }
    }

    /// Empties the slot of type `T` and hands back what it held.
    pub fn remove<T: Extension>(&mut self) -> (r: Option<T>)
        ensures
            r == T::slot(*old(self)),
            *final(self) == T::store(*old(self), None),
            T::slot(*final(self)) is None,
    {
        proof {
            T::lemma_slot(*self, None, None);
        }
        T::field_mut(self).take()
    }

    pub fn clear(&mut self)
        ensures
            *final(self) == Extensions::empty(),
    {
        self.name = None;
        self.number = None;
        self.position = None;
        self.dense = None;
    }

    /// Merges `other` into `self`: a value of `other` replaces the value of
    /// the same type in `self`.
    pub fn extend(&mut self, other: Extensions)
        ensures
            *final(self) == old(self).merged(other),
    {
        let Extensions { name, number, position, dense } = other;
        if name.is_some() {
            self.name = name;
        }
        if number.is_some() {
            self.number = number;
        }
        if position.is_some() {
            self.position = position;
        }
        if dense.is_some() {
            self.dense = dense;
        }
    }
}

} // verus!
