//! A cached on-disk value together with whether it holds changes not yet written back.

use vstd::prelude::*;

verus! {

/// A value and its dirty flag.
pub struct Dirty<T> {
    value: T,
    dirty: bool,
}

impl<T> Dirty<T> {
    pub closed spec fn value(&self) -> T {
        self.value
    }

    pub closed spec fn dirty_spec(&self) -> bool {
        self.dirty
    }

    /// A value read from disk: clean.
    pub fn new(value: T) -> (r: Self)
        ensures
            r.value() == value,
            !r.dirty_spec(),
    {
        Dirty { value, dirty: false }
    }

    /// A value made in memory and not written yet: dirty.
    pub fn new_dirty(value: T) -> (r: Self)
        ensures
            r.value() == value,
            r.dirty_spec(),
    {
        Dirty { value, dirty: true }
    }

    pub fn get(&self) -> (r: &T)
        ensures
            *r == self.value(),
    {
        &self.value
    }

    /// Replaces the value, which marks it dirty.
    pub fn set(&mut self, value: T)
        ensures
            final(self).value() == value,
            final(self).dirty_spec(),
    {
        self.value = value;
        self.dirty = true;
    }

    pub fn is_dirty(&self) -> (r: bool)
        ensures
            r == self.dirty_spec(),
    {
        self.dirty
    }

    /// Marks the value dirty, after a change made elsewhere.
    pub fn mark_dirty(&mut self)
        ensures
            final(self).value() == old(self).value(),
            final(self).dirty_spec(),
    {
        self.dirty = true;
    }

    /// Marks the value clean, after it was written back.
    pub fn mark_clean(&mut self)
        ensures
            final(self).value() == old(self).value(),
            !final(self).dirty_spec(),
    {
        self.dirty = false;
    }
}

} // verus!
