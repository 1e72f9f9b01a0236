//! The incremental hasher.

use vstd::prelude::*;
use std::rc::Rc;
use std::sync::Arc;
use crate::model::Params;
use crate::CrcHasher;
use crate::CrcSpec;
use super::crc_table::CrcTable;
use super::ValueType;

verus! {

/// Read-only access to a parameter set. A hasher works through it, so that
/// the parameter set can be owned by the hasher, borrowed, or shared by a
/// handle.
pub trait SpecRef<T: ValueType> {
    /// The parameter set that is reached.
    spec fn target(&self) -> CrcTable<T>;

    /// A reference to the parameter set.
    fn get(&self) -> (spec: &CrcTable<T>)
        ensures
            *spec == self.target(),
    ;
}

impl<T: ValueType> SpecRef<T> for CrcTable<T> {
    open spec fn target(&self) -> CrcTable<T> {
        *self
    }

    fn get(&self) -> (spec: &CrcTable<T>) {
        self
    }
}

impl<'a, T: ValueType> SpecRef<T> for &'a CrcTable<T> {
    open spec fn target(&self) -> CrcTable<T> {
        **self
    }

    fn get(&self) -> (spec: &CrcTable<T>) {
        *self
    }
}

impl<T: ValueType> SpecRef<T> for Box<CrcTable<T>> {
    open spec fn target(&self) -> CrcTable<T> {
        **self
    }

    fn get(&self) -> (spec: &CrcTable<T>) {
        &**self
    }
}

impl<T: ValueType> SpecRef<T> for Rc<CrcTable<T>> {
    open spec fn target(&self) -> CrcTable<T> {
        **self
    }

    fn get(&self) -> (spec: &CrcTable<T>) {
        &**self
    }
}

impl<T: ValueType> SpecRef<T> for Arc<CrcTable<T>> {
    open spec fn target(&self) -> CrcTable<T> {
        **self
    }

    fn get(&self) -> (spec: &CrcTable<T>) {
        &**self
    }
}

/// A hasher that computes by the lookup table of a parameter set, which it
/// reaches through `S`.
///
/// Hashers are made by `from`, of anything that gives access to a parameter
/// set:
///
/// ```
/// use crc_rocksoft::primitive::CrcTable;
/// use crc_rocksoft::primitive::CrcTableHasher;
///
/// let owned = CrcTableHasher::from(CrcTable::new(0x07u8, 0u8, false, false, 0u8));
///
/// let spec = CrcTable::new(0x07u8, 0u8, false, false, 0u8);
/// let referenced = CrcTableHasher::from(&spec);
///
/// let boxed = CrcTableHasher::from(Box::new(CrcTable::new(0x07u8, 0u8, false, false, 0u8)));
/// ```
pub struct CrcTableHasher<T: ValueType, S: SpecRef<T>> {
    value: T,
    spec: S,
}

impl<T: ValueType, S: SpecRef<T>> CrcTableHasher<T, S> {
    /// The access to the parameter set that the hasher was made from.
    pub closed spec fn spec_ref(&self) -> S {
        self.spec
    }

    /// The hasher that `from` makes of `spec_ref`: its register holds the
    /// initial value of the parameter set.
    pub closed spec fn fresh(spec_ref: S) -> Self {
        CrcTableHasher { value: spec_ref.target().spec_init(), spec: spec_ref }
    }
}

impl<T: ValueType, S: SpecRef<T>> CrcHasher<T> for CrcTableHasher<T, S> {
    closed spec fn params(&self) -> Params {
        self.spec.target()@
    }

    closed spec fn register(&self) -> Seq<bool> {
        self.value.bits()
    }

    fn reset(&mut self)
        ensures
            *final(self) == Self::fresh(old(self).spec_ref()),
    {
        self.value = self.spec.get().init();
    }

    fn update(&mut self, byte: u8) {
        self.value = self.spec.get().update(self.value, byte);
    }

    fn finish(&self) -> (checksum: T) {
        self.spec.get().finish(self.value)
    }
}

impl<T: ValueType, S: SpecRef<T>> From<S> for CrcTableHasher<T, S> {
    /// A hasher on the parameter set that `spec_ref` reaches, with the
    /// register at its initial value.
    fn from(spec_ref: S) -> (hasher: Self)
        ensures
            hasher == Self::fresh(spec_ref),
            hasher.params() == spec_ref.target()@,
            hasher.register() == spec_ref.target()@.init,
    {
        let mut hasher = CrcTableHasher { value: T::from_u8(0), spec: spec_ref };
        hasher.reset();
        hasher
    }
}

impl<T: ValueType, S: SpecRef<T>> vstd::std_specs::convert::FromSpecImpl<S> for CrcTableHasher<T, S> {
    open spec fn obeys_from_spec() -> bool {
        true
    }

    open spec fn from_spec(spec_ref: S) -> Self {
        Self::fresh(spec_ref)
    }
}

} // verus!
