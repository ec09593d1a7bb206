//! The shared-object entry points the loader core answers by itself.
//!
//! Persistence lives with the host: reading and writing the backing store,
//! and the serialized form, are outside this crate. The `close` and `clear`
//! operations have no modelled effect and answer undefined.

use crate::context::Activation;
use crate::error::Error;
use crate::value::Value;
use vstd::prelude::*;

verus! {

/// Close a shared object: nothing to release in this model; undefined.
pub fn close(activation: &Activation, this: Option<usize>, args: &Vec<Value>) -> (r: Result<
    Value,
    Error,
>)
    ensures
        r == Ok::<Value, Error>(Value::Undefined),
{
    Ok(Value::Undefined)
}

/// Clear a shared object's data: nothing stored in this model; undefined.
pub fn clear(activation: &Activation, this: Option<usize>, args: &Vec<Value>) -> (r: Result<
    Value,
    Error,
>)
    ensures
        r == Ok::<Value, Error>(Value::Undefined),
{
    Ok(Value::Undefined)
}

} // verus!
