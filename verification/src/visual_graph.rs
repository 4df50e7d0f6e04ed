//! Identities of nodes and ports as the visual editor addresses them, the
//! state of a wire being dragged, and a graph paired with its analysis.

use vstd::prelude::*;

verus! {

use crate::nodegraph::NodeGraph;
use crate::typechecking::NodeGraphFormalTypeAnalysis;

/// The identity of one visual node.
#[derive(Debug, Clone, Copy, PartialEq, Eq, Structural)]
pub struct VNodeId(pub usize);

/// One output port of a visual node.
#[derive(Debug, Clone, Copy, PartialEq, Eq, Structural)]
pub struct VNodeOutputRef {
    pub source: VNodeId,
    pub output_ind: usize,
}

/// One input port of a visual node.
#[derive(Debug, Clone, Copy, PartialEq, Eq, Structural)]
pub struct VNodeInputRef {
    pub dest: VNodeId,
    pub input_ind: usize,
}

/// Whether a wire is being dragged, and from which port.
#[derive(Debug)]
pub enum DraggingState {
    NotDraggingLine,
    DraggingLineFromInputPort(VNodeInputRef, Option<VNodeOutputRef>),
    DraggingLineFromOutputPort(Option<VNodeInputRef>, VNodeOutputRef),
}

impl Default for DraggingState {
    /// No wire in hand.
    fn default() -> (r: Self)
        ensures
            r is NotDraggingLine,
    {
        DraggingState::NotDraggingLine
    }
}

impl DraggingState {
    /// Whether input ports should light up: only while no wire already
    /// starts at an input.
    pub fn hover_inputs(&self) -> (r: bool)
        ensures
            r == !(self is DraggingLineFromInputPort),
    {
        match self {
            DraggingState::DraggingLineFromInputPort(_, _) => false,
            _ => true,
        }
    }

    /// Whether output ports should light up: only while no wire already
    /// starts at an output.
    pub fn hover_outputs(&self) -> (r: bool)
        ensures
            r == !(self is DraggingLineFromOutputPort),
    {
        match self {
            DraggingState::DraggingLineFromOutputPort(_, _) => false,
            _ => true,
        }
    }
}

/// A graph together with the products of analyzing it, if it has been
/// analyzed since it last changed.
pub struct FormalGraph {
    pub formal_graph: NodeGraph,
    pub typecheck: Option<NodeGraphFormalTypeAnalysis>,
}

} // verus!
