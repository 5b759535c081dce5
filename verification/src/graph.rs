//! Data types of the node-graph collaborator that the engine's surroundings
//! use: slot identifiers, slot values and the graph error kind. The graph
//! editor itself lives outside this crate.

use vstd::prelude::*;

verus! {

/// Identifier of a node's input slot.
#[derive(Debug, Clone, Copy, PartialEq, Eq, Hash, Structural)]
pub struct InputSlotId {
    pub id: u128,
}

/// Identifier of a node's output slot.
#[derive(Debug, Clone, Copy, PartialEq, Eq, Hash, Structural)]
pub struct OutputSlotId {
    pub id: u128,
}

/// Identifier of a graph node.
#[derive(Debug, Clone, Copy, PartialEq, Eq, Hash, Structural)]
pub struct NodeId {
    pub id: u128,
}

/// Either side's slot identifier, as the editor addresses slots.
#[derive(Debug, Clone, Copy, PartialEq, Eq, Hash, Structural)]
pub enum GraphSlotId {
    Input(InputSlotId),
    Output(OutputSlotId),
}

/// Which side of a node a slot is drawn on: inputs on the left, outputs on
/// the right.
#[derive(Debug, Clone, Copy, PartialEq, Eq, Structural)]
pub enum SlotSide {
    Left,
    Right,
}

impl From<GraphSlotId> for SlotSide {
    fn from(value: GraphSlotId) -> (side: SlotSide) {
        match value {
            GraphSlotId::Input(_) => SlotSide::Left,
            GraphSlotId::Output(_) => SlotSide::Right,
        }
    }
}

impl vstd::std_specs::convert::FromSpecImpl<GraphSlotId> for SlotSide {
    open spec fn obeys_from_spec() -> bool {
        true
    }

    open spec fn from_spec(value: GraphSlotId) -> SlotSide {
        match value {
            GraphSlotId::Input(_) => SlotSide::Left,
            GraphSlotId::Output(_) => SlotSide::Right,
        }
    }
}

/// Why a graph operation failed: a slot or node was missing, empty, or held
/// a value of another type than requested.
#[derive(Debug, Clone, PartialEq, Eq)]
pub enum GraphError {
    InputSlotNotFoundAt(usize),
    InputSlotNotFound(InputSlotId),
    EmptyInputSlot(&'static str),
    InputSlotTypeMismatch(&'static str, &'static str, &'static str),
    OutputSlotNotFoundAt(usize),
    OutputSlotNotFound(OutputSlotId),
    OutputSlotTypeMismatch(&'static str, &'static str, &'static str),
    NodeNotFound(NodeId),
}

/// A slot's value of type `T`, present or empty. (Slot values are statically
/// typed here; the type-erased storage of the surrounding editor stays
/// outside the verified crate.)
#[derive(Debug)]
pub struct ErasedSlotValue<T> {
    data: Option<T>,
}

impl<T> ErasedSlotValue<T> {
    /// The value this slot holds, if any.
    pub closed spec fn value(&self) -> Option<T> {
        self.data
    }

    /// An empty slot value.
    pub fn empty() -> (s: ErasedSlotValue<T>)
        ensures
            s.value() is None,
    {
        ErasedSlotValue { data: None }
    }

    /// A slot holding the given value.
    pub fn new(data: T) -> (s: ErasedSlotValue<T>)
        ensures
            s.value() == Some(data),
    {
        ErasedSlotValue { data: Some(data) }
    }

    /// Whether the slot holds no value.
    pub fn is_empty(&self) -> (r: bool)
        ensures
            r == (self.value() is None),
    {
        self.data.is_none()
    }

    /// Empty the slot.
    pub fn clear(&mut self)
        ensures
            final(self).value() is None,
    {
        self.data = None;
    }

    /// Borrow the held value, if any.
    pub fn as_ref(&self) -> (r: Option<&T>)
        ensures
            match r {
                Some(v) => self.value() == Some(*v),
                None => self.value() is None,
            },
    {
        self.data.as_ref()
    }

    /// Replace whatever the slot held with the given value.
    pub fn reset(&mut self, value: T)
        ensures
            final(self).value() == Some(value),
    {
        self.data = Some(value);
    }
}

} // verus!
