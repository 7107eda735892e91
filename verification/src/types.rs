use vstd::prelude::*;

verus! {

/// Which attribute-pointer path a vertex attribute takes: integer-like data
/// goes through the non-converting integer path, everything else through the
/// floating-point path with normalization turned off.
#[derive(Clone, Copy, PartialEq, Eq, Structural, Debug)]
pub enum DataType {
    IntegerLike,
    FloatLike,
}

/// One attribute a vertex buffer exposes: the shader-facing name it is looked
/// up under, the pointer path its data type selects, the number of components
/// per vertex, and the byte offset of its first component within a vertex.
#[derive(Debug)]
pub struct AttributeBinding {
    pub name: String,
    pub data_type: DataType,
    pub element_count: u32,
    pub byte_offset: u32,
}

/// What the binding logic reads from a vertex buffer: its context-side
/// identifier, the byte distance between consecutive vertices (stride), and
/// the ordered attributes it exposes.
#[derive(Debug)]
pub struct BufferDescriptor {
    pub id: u32,
    pub stride: u32,
    pub attributes: Vec<AttributeBinding>,
}

/// The bindings the shared graphics context tracks: which binding object
/// (vertex array) is currently active and which buffer is currently bound to
/// the array-buffer target; `None` means nothing is bound. Only units of work
/// run by the serialized executor ever change these fields.
#[derive(Clone, Copy, PartialEq, Eq, Debug)]
pub struct ContextState {
    pub current_bound_array: Option<u32>,
    pub current_bound_buffer: Option<u32>,
}

impl ContextState {
    /// A fresh context: no vertex array active, no buffer bound.
    pub fn initial() -> (r: ContextState)
        ensures
            r.current_bound_array is None,
            r.current_bound_buffer is None,
    {
        ContextState { current_bound_array: None, current_bound_buffer: None }
    }
}

} // verus!
