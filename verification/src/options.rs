use vstd::prelude::*;

verus! {

/// A true/false engine option and its default.
pub struct CheckBool {
    value: bool,
    default: bool,
}

impl CheckBool {
    pub closed spec fn spec_value(&self) -> bool {
        self.value
    }

    pub closed spec fn spec_default(&self) -> bool {
        self.default
    }

    pub fn new(value: bool) -> (r: CheckBool)
        ensures
            r.spec_value() == value,
            r.spec_default() == value,
    {
        CheckBool { value, default: value }
    }

    pub fn set_value(&mut self, new_value: bool)
        ensures
            final(self).spec_value() == new_value,
            final(self).spec_default() == old(self).spec_default(),
    {
        self.value = new_value;
    }

    pub fn get(&self) -> (r: bool)
        ensures
            r == self.spec_value(),
    {
        self.value
    }

    pub fn default_value(&self) -> (r: bool)
        ensures
            r == self.spec_default(),
    {
        self.default
    }
}

/// An integer engine option with its default and its allowed range.
pub struct SpinOptionInt {
    value: i32,
    default: i32,
    min: i32,
    max: i32,
}

impl SpinOptionInt {
    pub closed spec fn spec_value(&self) -> i32 {
        self.value
    }

    pub closed spec fn spec_default(&self) -> i32 {
        self.default
    }

    pub closed spec fn spec_min(&self) -> i32 {
        self.min
    }

    pub closed spec fn spec_max(&self) -> i32 {
        self.max
    }

    pub fn new(value: i32, min: i32, max: i32) -> (r: SpinOptionInt)
        ensures
            r.spec_value() == value,
            r.spec_default() == value,
            r.spec_min() == min,
            r.spec_max() == max,
    {
        SpinOptionInt { value, default: value, min, max }
    }

    /// Takes the new value where it lies in the allowed range; returns whether it did.
    pub fn set_value(&mut self, new_value: i32) -> (accepted: bool)
        ensures
            accepted == (old(self).spec_min() <= new_value <= old(self).spec_max()),
            final(self).spec_value() == if accepted { new_value } else { old(self).spec_value() },
            final(self).spec_default() == old(self).spec_default(),
            final(self).spec_min() == old(self).spec_min(),
            final(self).spec_max() == old(self).spec_max(),
    {
        if new_value >= self.min && new_value <= self.max {
            self.value = new_value;
            true
        } else {
            false
        }
    }

    pub fn get(&self) -> (r: i32)
        ensures
            r == self.spec_value(),
    {
        self.value
    }

    pub fn default_value(&self) -> (r: i32)
        ensures
            r == self.spec_default(),
    {
        self.default
    }

    pub fn min(&self) -> (r: i32)
        ensures
            r == self.spec_min(),
    {
        self.min
    }

    pub fn max(&self) -> (r: i32)
        ensures
            r == self.spec_max(),
    {
        self.max
    }
}

} // verus!
