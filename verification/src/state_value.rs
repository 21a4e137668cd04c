//! A placeholder for values that persist themselves: subclasses are meant
//! to supply the load and save behaviour, and the base refuses both.

use vstd::prelude::*;

verus! {

/// The base persistable value; it implements neither direction itself.
#[derive(Debug)]
pub struct StateValue {
}

impl StateValue {
    /// A fresh base value.
    pub fn new() -> (r: Self)
        ensures
            r == (StateValue {  }),
    {
        StateValue {  }
    }

    /// Reconstructing a base value from bytes is not implemented: always
    /// an error.
    pub fn load(_data: &[u8]) -> (r: Result<StateValue, String>)
        ensures
            r is Err,
    {
        Err("The 'load' method has not been implemented.".to_owned())
    }

    /// Saving a base value to bytes is not implemented: always an error.
    pub fn save(&self) -> (r: Result<Vec<u8>, String>)
        ensures
            r is Err,
    {
        Err("The 'save' method has not been implemented.".to_owned())
    }
}

} // verus!
