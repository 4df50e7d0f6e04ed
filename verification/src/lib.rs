//! A visual shader-graph compiler core: a dataflow graph of typed nodes is
//! statically analyzed for type correctness and lowered into a fragment-shader
//! program that computes per-pixel color.

pub mod text;
pub mod typetypes;
pub mod nodegraph;
pub mod typechecking;
pub mod emitter;
pub mod type_parsing;
pub mod parsing;
pub mod programs;
pub mod vnode_infos;
pub mod visual_graph;
pub mod execution_types;
