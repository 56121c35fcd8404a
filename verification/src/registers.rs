//! The register file: a mapping from register locators to optionally
//! assigned values, under a single-assignment discipline.

use vstd::prelude::*;
use std::collections::HashMap;

use crate::value::{Value, value_wf};

verus! {

broadcast use vstd::std_specs::hash::group_hash_axioms;

/// A reference to a register, by its locator.
#[derive(Clone, Copy, PartialEq, Eq, Structural, Debug)]
pub struct Register {
    pub locator: u64,
}

impl Register {
    /// The register with the given locator.
    pub fn new(locator: u64) -> (r: Self)
        ensures
            r.locator == locator,
    {
        Register { locator }
    }
}

/// A fatal evaluation halt. Halts abort the enclosing program's evaluation;
/// they are not recovered locally.
#[derive(Clone, Copy, PartialEq, Eq, Structural, Debug)]
pub enum Halt {
    /// A register was read or written without having been defined.
    UndefinedRegister(u64),
    /// A source register was defined but never assigned.
    UnassignedRegister(u64),
    /// A destination register already holds a value.
    AlreadyAssigned(u64),
    /// A register was defined twice.
    AlreadyDefined(u64),
    /// The operand's shape is not one the instruction can hash.
    InvalidInstruction,
}

impl Halt {
    /// The human-readable diagnostic of the halt.
    pub fn message(&self) -> (r: String)
        ensures
            *self is UndefinedRegister ==> r@ == "register is not defined"@,
            *self is UnassignedRegister ==> r@ == "register is not assigned"@,
            *self is AlreadyAssigned ==> r@ == "register is already assigned"@,
            *self is AlreadyDefined ==> r@ == "register is already defined"@,
            *self is InvalidInstruction ==> r@ == "Invalid 'hash.psd8' instruction"@,
    {
        match self {
            Halt::UndefinedRegister(_) => "register is not defined".to_owned(),
            Halt::UnassignedRegister(_) => "register is not assigned".to_owned(),
            Halt::AlreadyAssigned(_) => "register is already assigned".to_owned(),
            Halt::AlreadyDefined(_) => "register is already defined".to_owned(),
            Halt::InvalidInstruction => "Invalid 'hash.psd8' instruction".to_owned(),
        }
    }
}

/// The register file. A register is first defined, then assigned at most one
/// value, and the value is never replaced.
pub struct Registers {
    slots: HashMap<u64, Option<Value>>,
}

impl Registers {
    /// The state of the register file: which locators are defined, and what
    /// each defined one holds.
    pub closed spec fn view(self) -> Map<u64, Option<Value>> {
        self.slots@
    }

    /// Every value held in the file is well formed.
    pub open spec fn wf(self) -> bool {
        forall|k: u64|
            self@.contains_key(k) && self@[k] is Some ==> value_wf(#[trigger] self@[k]->0)
    }

    /// An empty register file.
    pub fn new() -> (r: Self)
        ensures
            r@ == Map::<u64, Option<Value>>::empty(),
            r.wf(),
    {
        Registers { slots: HashMap::new() }
    }

    /// Defines a register, initially unassigned; halts if it is already
    /// defined.
    pub fn define(&mut self, r: &Register) -> (res: Result<(), Halt>)
        requires
            old(self).wf(),
        ensures
            final(self).wf(),
            old(self)@.contains_key(r.locator) ==> res == Result::<(), Halt>::Err(
                Halt::AlreadyDefined(r.locator),
            ) && final(self)@ == old(self)@,
            !old(self)@.contains_key(r.locator) ==> res is Ok && final(self)@ == old(
                self,
            )@.insert(r.locator, None),
    {
        if self.slots.contains_key(&r.locator) {
            Err(Halt::AlreadyDefined(r.locator))
        } else {
            self.slots.insert(r.locator, None);
            Ok(())
        }
    }

    /// Assigns a value to a defined, not yet assigned register; halts
    /// otherwise.
    pub fn assign(&mut self, r: &Register, v: Value) -> (res: Result<(), Halt>)
        requires
            old(self).wf(),
            value_wf(v),
        ensures
            final(self).wf(),
            !old(self)@.contains_key(r.locator) ==> res == Result::<(), Halt>::Err(
                Halt::UndefinedRegister(r.locator),
            ) && final(self)@ == old(self)@,
            old(self)@.contains_key(r.locator) && old(self)@[r.locator] is Some ==> res
                == Result::<(), Halt>::Err(Halt::AlreadyAssigned(r.locator)) && final(self)@
                == old(self)@,
            old(self)@.contains_key(r.locator) && old(self)@[r.locator] is None ==> res is Ok
                && final(self)@ == old(self)@.insert(r.locator, Some(v)),
    {
        match self.slots.get(&r.locator) {
            None => Err(Halt::UndefinedRegister(r.locator)),
            Some(Some(_)) => Err(Halt::AlreadyAssigned(r.locator)),
            Some(None) => {
                self.slots.insert(r.locator, Some(v));
                Ok(())
            },
        }
    }

    /// Loads the value of an assigned register; halts on an undefined or
    /// unassigned one.
    pub fn load(&self, r: &Register) -> (res: Result<&Value, Halt>)
        requires
            self.wf(),
        ensures
            match res {
                Ok(v) => self@.contains_key(r.locator) && self@[r.locator] == Some(*v)
                    && value_wf(*v),
                Err(h) => {
                    ||| (!self@.contains_key(r.locator) && h == Halt::UndefinedRegister(
                        r.locator,
                    ))
                    ||| (self@.contains_key(r.locator) && self@[r.locator] is None && h
                        == Halt::UnassignedRegister(r.locator))
                },
            },
    {
        match self.slots.get(&r.locator) {
            None => Err(Halt::UndefinedRegister(r.locator)),
            Some(None) => Err(Halt::UnassignedRegister(r.locator)),
            Some(Some(v)) => Ok(v),
        }
    }
}

impl Default for Registers {
    /// An empty register file.
    fn default() -> (r: Self)
        ensures
            r@ == Map::<u64, Option<Value>>::empty(),
            r.wf(),
    {
        Registers::new()
    }
}

} // verus!
