use vstd::prelude::*;

verus! {

/// What can go wrong in the pipeline.
#[derive(Copy, Clone, Debug, PartialEq, Eq, Structural)]
pub enum RenderError {
    /// An attribute's values have another format than its descriptor names.
    SchemaMismatch,
    /// The attributes of a mesh disagree on the number of vertices.
    RaggedAttributes,
    /// A vertex or index buffer is shorter than a draw demands.
    BufferOverflow,
    /// A vertex layout names a format that the vertex stage cannot decode.
    UnsupportedFormat,
    /// An asset declares a primitive topology other than a triangle list.
    UnsupportedPrimitive,
    /// A shader took a binding and did not put it back.
    BindingNotRestored,
}

} // verus!
