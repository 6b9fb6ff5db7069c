use vstd::prelude::*;

verus! {

/// Failures of decoding, lookup and geometry generation.
#[derive(PartialEq, Eq, Structural, Clone, Copy, Debug)]
pub enum MapError {
    /// A buffer is shorter than its header or its declared contents.
    Decode,
    /// A position lies outside the grid, or a channel outside the raster.
    OutOfBounds,
    /// A run of equal country ids is longer than a run length can count.
    RleOverflow,
    /// A grid whose cell count is not a whole number of rows, or two grids of
    /// different dimensions.
    ShapeMismatch,
    /// A grid or a mesh with more cells or vertices than `u32` can index.
    TooLarge,
    /// A border trace that did not return to its start.
    Unclosed,
}

/// Failures of the renderer, each with the driver's message.
#[derive(Debug)]
pub enum ErrorKind {
    CreateBuffer(String),
    CreateTexture(String),
    ShaderCompileError(String),
    ProgramLinkError(String),
    VertexArray(String),
    IndexArray(String),
    InstanceArray(String),
}

impl ErrorKind {
    /// The driver's message.
    pub open spec fn text(&self) -> Seq<char> {
        match self {
            ErrorKind::CreateBuffer(x) => x@,
            ErrorKind::CreateTexture(x) => x@,
            ErrorKind::ShaderCompileError(x) => x@,
            ErrorKind::ProgramLinkError(x) => x@,
            ErrorKind::VertexArray(x) => x@,
            ErrorKind::IndexArray(x) => x@,
            ErrorKind::InstanceArray(x) => x@,
        }
    }

    /// The driver's message, as the error is shown.
    pub fn message(&self) -> (m: &str)
        ensures
            m@ == self.text(),
    {
        match self {
            ErrorKind::CreateBuffer(x) => x.as_str(),
            ErrorKind::CreateTexture(x) => x.as_str(),
            ErrorKind::ShaderCompileError(x) => x.as_str(),
            ErrorKind::ProgramLinkError(x) => x.as_str(),
            ErrorKind::VertexArray(x) => x.as_str(),
            ErrorKind::IndexArray(x) => x.as_str(),
            ErrorKind::InstanceArray(x) => x.as_str(),
        }
    }
}

} // verus!
