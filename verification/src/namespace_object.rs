//! Boxed namespaces: plain objects that carry one namespace value.

use crate::context::{Activation, ObjectData};
use crate::value::Namespace;
use vstd::prelude::*;

verus! {

/// The state of one boxed namespace.
#[derive(Clone, Copy, PartialEq, Eq, Structural, Debug)]
pub struct NamespaceObjectData {
    /// The namespace this object is associated with.
    pub namespace: Namespace,
}

impl NamespaceObjectData {
    /// The boxed namespace.
    pub fn namespace(&self) -> (r: Namespace)
        ensures
            r == self.namespace,
    {
        self.namespace
    }

    /// Re-point the box at another namespace.
    pub fn init_namespace(&mut self, namespace: Namespace)
        ensures
            final(self).namespace == namespace,
    {
        self.namespace = namespace;
    }
}

/// Box a namespace into a fresh object of the arena and return its index.
pub fn from_namespace(activation: &mut Activation, namespace: Namespace) -> (r: usize)
    ensures
        r == old(activation).objects@.len(),
        final(activation).objects@.len() == old(activation).objects@.len() + 1,
        forall|i: int|
            0 <= i < old(activation).objects@.len() ==> final(activation).objects@[i] == old(
                activation,
            ).objects@[i],
        final(activation).objects@.last().namespace == Some(namespace),
        *final(activation) == (Activation {
            objects: final(activation).objects,
            ..*old(activation)
        }),
{
    let r = activation.objects.len();
    activation.objects.push(
        ObjectData {
            instance_of: None,
            vtable: None,
            slots: Vec::new(),
            namespace: Some(namespace),
            bound_method: None,
            bound_receiver: None,
            function_method: None,
            function_scope: None,
        },
    );
    r
}

} // verus!
