//! Shapes of values a shader program can carry across the GPU boundary:
//! plain descriptions the backend reads when it allocates bindings.

use vstd::prelude::*;

verus! {

/// A scalar element type of a shader variable.
#[derive(Debug, Clone, Copy, PartialEq, Eq, Structural)]
pub enum ShaderScalarType {
    F32,
    I32,
    U8,
    U32,
}

/// How many lanes a shader vector has.
#[derive(Debug, Clone, Copy, PartialEq, Eq, Structural)]
pub enum ShaderVectorLength {
    Two,
    Three,
    Four,
}

/// A vector type: element type and lane count.
#[derive(Debug, Clone, Copy, PartialEq, Eq, Structural)]
pub struct ShaderVectorType(pub ShaderScalarType, pub ShaderVectorLength);

/// A shader variable: a scalar or a vector.
#[derive(Debug, Clone, Copy, PartialEq, Eq, Structural)]
pub enum ShaderVariableType {
    Scalar(ShaderScalarType),
    Vector(ShaderVectorType),
}

/// A named entry point of a shader module.
#[derive(Debug)]
pub struct ShaderEntryPoint {}

/// A shader program handle.
#[derive(Debug)]
pub struct ShaderProgram {}

} // verus!
