//! Loaded method descriptors.
//!
//! A method is either defined by archive bytecode or by a native (built-in)
//! implementation, identified by a number the embedder chose. A native body
//! substituted from a side-table keeps the bytecode-declared parameter
//! signature and variadic-ness.

use vstd::prelude::*;

verus! {

/// One declared parameter of a method: its name symbol and the multiname pool
/// index of its declared type.
#[derive(Clone, Copy, PartialEq, Eq, Structural, Debug)]
pub struct ParamConfig {
    pub param_name: usize,
    pub declared_type: u32,
}

impl ParamConfig {
    /// A parameter of the given type with an unnamed placeholder name.
    pub fn of_type(declared_type: u32) -> (r: ParamConfig)
        ensures
            r == (ParamConfig { param_name: 0usize, declared_type }),
    {
        ParamConfig { param_name: 0, declared_type }
    }
}

/// What executes when a method is called.
#[derive(Clone, Copy, PartialEq, Eq, Structural, Debug)]
pub enum MethodBody {
    /// Bytecode at the given method index of the given unit (unit arena index).
    Bytecode { unit: usize, method_index: u32 },
    /// A native implementation, by the embedder's function number.
    Native { native: u32 },
}

/// One loaded method: name, signature, variadic-ness and body.
#[derive(Clone, Debug)]
pub struct MethodData {
    /// Name symbol; 0 for an unnamed method.
    pub name: usize,
    /// The declared parameters, in order.
    pub signature: Vec<ParamConfig>,
    /// Whether the method accepts a variable number of trailing arguments.
    pub is_variadic: bool,
    /// Whether the method was loaded as a free function value rather than a
    /// class member; the evaluator treats receivers differently for these.
    pub is_function: bool,
    pub body: MethodBody,
}

} // verus!
