//! A slot that is filled exactly once. The kernel's global singletons (the
//! screen writer, the local APIC handle, the event queues) each live in one:
//! filling it twice, or using it before it is filled, is refused.
use vstd::prelude::*;

verus! {

/// Why the slot refused.
#[derive(Clone, Copy, Debug, PartialEq, Eq, Structural)]
pub enum OnceError {
    /// The slot was filled before.
    AlreadyInitialized,
    /// The slot was not filled yet.
    NotInitialized,
}

/// A slot that goes from uninitialized to ready once and never back.
pub struct OnceSlot<T> {
    value: Option<T>,
}

impl<T> View for OnceSlot<T> {
    type V = Option<T>;

    closed spec fn view(&self) -> Option<T> {
        self.value
    }
}

impl<T> OnceSlot<T> {
    /// An empty slot.
    pub fn uninit() -> (slot: OnceSlot<T>)
        ensures
            slot@ is None,
    {
        OnceSlot { value: None }
    }

    /// Whether the slot was filled.
    pub fn is_initialized(&self) -> (b: bool)
        ensures
            b == (self@ is Some),
    {
        self.value.is_some()
    }

    /// Fills the slot with `value`. A slot that was filled before is
    /// refused and keeps what it holds.
    pub fn init_once(&mut self, value: T) -> (r: Result<(), OnceError>)
        ensures
            old(self)@ is None ==> r is Ok && final(self)@ == Some(value),
            old(self)@ is Some ==> r == Err::<(), OnceError>(OnceError::AlreadyInitialized)
                && final(self)@ == old(self)@,
    {
        if self.value.is_some() {
            return Err(OnceError::AlreadyInitialized);
        }
        self.value = Some(value);
        Ok(())
    }

    /// What the slot holds. An empty slot is refused.
    pub fn get(&self) -> (r: Result<&T, OnceError>)
        ensures
            match self@ {
                Some(v) => r == Ok::<&T, OnceError>(&v),
                None => r == Err::<&T, OnceError>(OnceError::NotInitialized),
            },
    {
        match &self.value {
            Some(v) => Ok(v),
            None => Err(OnceError::NotInitialized),
        }
    }
}

} // verus!
