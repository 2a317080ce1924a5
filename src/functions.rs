use vstd::prelude::*;
use crate::instructions::StoredData;
use crate::runtime::RuntimeError;

verus! {

/// A function supplied by the host. It checks the number and the types of its
/// arguments itself and reports a mismatch through its error.
pub trait NativeFunction {
    fn execute(&self, args: &Vec<StoredData>) -> Result<StoredData, RuntimeError>;
}

/// What a function name is bound to.
pub enum DefinedFunction<F> {
    Bytecode,
    Native(F),
}

} // verus!
