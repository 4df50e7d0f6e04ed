//! The node-graph data model: node instances with wired inputs, shared
//! node-type descriptors, and the registry that owns those descriptors.

use vstd::prelude::*;

verus! {

use crate::typetypes::{ValueType, TypeError, TypeV, tv_wf, vt_view};

/// What a node instance may carry as its annotation.
pub trait NodeAnnotation {

}

/// What a port declaration may carry as its type annotation.
pub trait PortTypeAnnotation {

}

impl NodeAnnotation for NodeTypeRef {

}

impl PortTypeAnnotation for Result<ValueType, TypeError> {

}

/// The stable identity of one node instance in a graph.
#[derive(Debug, Clone, Copy, PartialEq, Eq, Structural)]
pub struct NodeRef {
    pub id: usize,
}

/// One specific output of one node: the value it produces.
#[derive(Debug, Clone, Copy, PartialEq, Eq, Structural)]
pub struct ValueRef {
    pub node: NodeRef,
    pub output_index: usize,
}

/// A handle to a node-type descriptor owned by a `SimpleTypeWorld`.
#[derive(Debug, Clone, Copy, PartialEq, Eq, Structural)]
pub enum NodeTypeRef {
    Custom(usize),
}

impl NodeTypeRef {
    /// The index of the descriptor inside its registry.
    pub open spec fn spec_index(self) -> int {
        match self {
            NodeTypeRef::Custom(i) => i as int,
        }
    }

    /// The index of the descriptor inside its registry.
    pub fn index(self) -> (r: usize)
        ensures
            r as int == self.spec_index(),
    {
        match self {
            NodeTypeRef::Custom(i) => i,
        }
    }
}

/// The emitter's case for a node kind. A descriptor whose declared name
/// matches no emission rule carries the sentinel `ERR`; such nodes can be
/// analyzed but not emitted.
#[derive(Debug, Clone, Copy, PartialEq, Eq, Structural)]
pub enum ExecutionInformation {
    Add,
    Exp,
    Constant,
    Attr,
    Out,
    Vector3,
    ERR,
}

/// The declaration of one input port: its name and its declared type, or
/// the error its type declaration failed with.
#[derive(Debug)]
pub struct InputInfo {
    pub name: String,
    pub value_type: Result<ValueType, TypeError>,
}

/// The declaration of one output port; output names may be absent.
#[derive(Debug)]
pub struct OutputInfo {
    pub name: Option<String>,
    pub value_type: Result<ValueType, TypeError>,
}

/// The declaration of a node kind: its ports and its execution tag.
#[derive(Debug)]
pub struct NodeTypeInfo {
    pub inputs: Vec<InputInfo>,
    pub outputs: Vec<OutputInfo>,
    pub annotation: ExecutionInformation,
}

/// One node instance: a handle to its shared descriptor, one slot per
/// declared input (`None` is a deliberately unconnected free variable),
/// and an opaque per-instance payload.
#[derive(Debug)]
pub struct Node {
    pub node_type: NodeTypeRef,
    pub inputs: Vec<Option<ValueRef>>,
    pub extra_data: Option<String>,
}

/// A DAG of node instances. Identities are issued monotonically: a node's
/// `NodeRef` is its position in insertion order.
#[derive(Debug)]
pub struct NodeGraph {
    pub nodes: Vec<Node>,
}

/// The registry of node-type descriptors, keyed by declared name. Every
/// reference to the same declared name resolves to the same entry.
#[derive(Debug)]
pub struct SimpleTypeWorld {
    pub node_types: Vec<(String, NodeTypeInfo)>,
}

// ----------------------------------------------------------------------
// Mathematical models.

/// The model of an input-port declaration.
pub struct InputInfoV {
    pub name: Seq<char>,
    pub ty: Result<TypeV, TypeError>,
}

/// The model of an output-port declaration.
pub struct OutputInfoV {
    pub name: Option<Seq<char>>,
    pub ty: Result<TypeV, TypeError>,
}

/// The model of a node-type descriptor.
pub struct NodeTypeV {
    pub inputs: Seq<InputInfoV>,
    pub outputs: Seq<OutputInfoV>,
    pub tag: ExecutionInformation,
}

/// The model of a node instance. Port references are pairs of node id and
/// output index.
pub struct NodeV {
    pub ty: int,
    pub inputs: Seq<Option<(int, int)>>,
    pub extra: Option<Seq<char>>,
}

/// The model of a graph: its nodes in identity order.
pub type GraphV = Seq<NodeV>;

/// The model of a registry: name/descriptor pairs in insertion order.
pub type WorldV = Seq<(Seq<char>, NodeTypeV)>;

/// The model of a `Result<ValueType, TypeError>` port annotation.
pub open spec fn slot_view(s: Result<ValueType, TypeError>) -> Result<TypeV, TypeError> {
    match s {
        Ok(v) => Ok(vt_view(v)),
        Err(e) => Err(e),
    }
}

impl View for InputInfo {
    type V = InputInfoV;

    open spec fn view(&self) -> InputInfoV {
        InputInfoV { name: self.name@, ty: slot_view(self.value_type) }
    }
}

impl View for OutputInfo {
    type V = OutputInfoV;

    open spec fn view(&self) -> OutputInfoV {
        OutputInfoV {
            name: match self.name {
                Some(n) => Some(n@),
                None => None,
            },
            ty: slot_view(self.value_type),
        }
    }
}

impl View for NodeTypeInfo {
    type V = NodeTypeV;

    open spec fn view(&self) -> NodeTypeV {
        NodeTypeV {
            inputs: Seq::new(self.inputs@.len(), |i: int| self.inputs@[i]@),
            outputs: Seq::new(self.outputs@.len(), |i: int| self.outputs@[i]@),
            tag: self.annotation,
        }
    }
}

impl View for Node {
    type V = NodeV;

    open spec fn view(&self) -> NodeV {
        NodeV {
            ty: self.node_type.spec_index(),
            inputs: Seq::new(
                self.inputs@.len(),
                |i: int|
                    match self.inputs@[i] {
                        Some(v) => Some((v.node.id as int, v.output_index as int)),
                        None => None,
                    },
            ),
            extra: match self.extra_data {
                Some(ref s) => Some(s@),
                None => None,
            },
        }
    }
}

impl View for NodeGraph {
    type V = GraphV;

    open spec fn view(&self) -> GraphV {
        Seq::new(self.nodes@.len(), |i: int| self.nodes@[i]@)
    }
}

impl View for SimpleTypeWorld {
    type V = WorldV;

    open spec fn view(&self) -> WorldV {
        Seq::new(self.node_types@.len(), |i: int| (self.node_types@[i].0@, self.node_types@[i].1@))
    }
}

// ----------------------------------------------------------------------
// Well-formedness.

/// Every port type that parsed is well-formed.
pub open spec fn nt_wf(nt: NodeTypeV) -> bool {
    (forall|i: int|
        0 <= i < nt.inputs.len() ==> (#[trigger] nt.inputs[i].ty matches Ok(t) ==> tv_wf(t)))
        && (forall|k: int|
        0 <= k < nt.outputs.len() ==> (#[trigger] nt.outputs[k].ty matches Ok(t) ==> tv_wf(t)))
}

/// Every descriptor of the registry is well-formed.
pub open spec fn world_wf(w: WorldV) -> bool {
    forall|k: int| 0 <= k < w.len() ==> nt_wf(#[trigger] w[k].1)
}

/// Well-formedness of one node of a graph against a registry: the
/// descriptor handle resolves, the node carries one input slot per declared
/// input, and every wired slot references an earlier node and one of its
/// declared outputs. References to earlier nodes only make the graph a DAG.
pub open spec fn node_wf(g: GraphV, w: WorldV, n: int) -> bool {
    &&& 0 <= g[n].ty < w.len()
    &&& g[n].inputs.len() == w[g[n].ty].1.inputs.len()
    &&& forall|i: int|
        0 <= i < g[n].inputs.len() ==> (#[trigger] g[n].inputs[i] matches Some(v) ==> {
            &&& 0 <= v.0 < n
            &&& 0 <= v.1 < w[g[v.0].ty].1.outputs.len()
        })
}

/// Well-formedness of a graph against a registry.
pub open spec fn graph_wf(g: GraphV, w: WorldV) -> bool {
    forall|n: int| 0 <= n < g.len() ==> node_wf(g, w, n)
}

/// The first registry entry declared under `name`, searching from `i`.
pub open spec fn world_find(w: WorldV, name: Seq<char>, i: int) -> Option<int>
    decreases w.len() - i,
{
    if !(0 <= i < w.len()) {
        None
    } else if w[i].0 == name {
        Some(i)
    } else {
        world_find(w, name, i + 1)
    }
}

/// What declaring a name does to a registry: the first entry of that name
/// is replaced in place, or a new entry is appended.
pub open spec fn world_declare(w: WorldV, name: Seq<char>, nt: NodeTypeV) -> WorldV {
    match world_find(w, name, 0) {
        Some(i) => w.update(i, (name, nt)),
        None => w.push((name, nt)),
    }
}

/// Port-count invariant: in a well-formed graph, every node carries exactly
/// one input slot per input its descriptor declares.
pub proof fn lemma_port_count(g: GraphV, w: WorldV, n: int)
    requires
        graph_wf(g, w),
        0 <= n < g.len(),
    ensures
        g[n].inputs.len() == w[g[n].ty].1.inputs.len(),
{
    assert(node_wf(g, w, n));
}

// ----------------------------------------------------------------------
// Operations.

impl NodeGraph {
    /// An empty graph.
    pub fn new() -> (r: NodeGraph)
        ensures
            r@.len() == 0,
    {
        NodeGraph { nodes: Vec::new() }
    }

    /// Adds a node; its identity is the next unused one.
    pub fn add_node(&mut self, node: Node) -> (r: NodeRef)
        ensures
            final(self)@ =~= old(self)@.push(node@),
            r.id == old(self)@.len(),
    {
        let id = self.nodes.len();
        self.nodes.push(node);
        NodeRef { id }
    }

    /// The node with the given identity, if it exists.
    pub fn get_node(&self, node_ref: NodeRef) -> (r: Option<&Node>)
        ensures
            match r {
                Some(node) => node_ref.id < self@.len() && node@ == self@[node_ref.id as int],
                None => node_ref.id >= self@.len(),
            },
    {
        if node_ref.id < self.nodes.len() {
            Some(&self.nodes[node_ref.id])
        } else {
            None
        }
    }

    /// The number of nodes.
    pub fn len(&self) -> (r: usize)
        ensures
            r == self@.len(),
    {
        self.nodes.len()
    }

    /// The identities of all nodes, in issuance order.
    pub fn iter_nodes(&self) -> (r: Vec<NodeRef>)
        ensures
            r@.len() == self@.len(),
            forall|i: int| 0 <= i < r@.len() ==> (#[trigger] r@[i]).id == i,
    {
        let mut out: Vec<NodeRef> = Vec::new();
        let n = self.nodes.len();
        for i in 0..n
            invariant
                out@.len() == i,
                forall|j: int| 0 <= j < i ==> (#[trigger] out@[j]).id == j,
        {
            out.push(NodeRef { id: i });
        }
        out
    }
}

impl SimpleTypeWorld {
    /// An empty registry.
    pub fn new() -> (r: SimpleTypeWorld)
        ensures
            r@.len() == 0,
    {
        SimpleTypeWorld { node_types: Vec::new() }
    }

    /// The index of the descriptor declared under `name`, if any; the first
    /// entry with that name.
    pub fn lookup(&self, name: &str) -> (r: Option<usize>)
        ensures
            match r {
                Some(i) => i < self@.len() && self@[i as int].0 == name@ && (forall|j: int|
                    0 <= j < i ==> self@[j].0 != name@) && world_find(self@, name@, 0) == Some(
                    i as int,
                ),
                None => (forall|i: int| 0 <= i < self@.len() ==> self@[i].0 != name@)
                    && world_find(self@, name@, 0) is None,
            },
    {
        let n = self.node_types.len();
        let mut i: usize = 0;
        while i < n
            invariant
                i <= n,
                n == self@.len(),
                forall|j: int| 0 <= j < i ==> self@[j].0 != name@,
            decreases n - i,
        {
            if crate::text::str_eq_str(self.node_types[i].0.as_str(), name) {
                proof {
                    lemma_world_find_skips(self@, name@, i as int);
                }
                return Some(i);
            }
            i = i + 1;
        }
        proof {
            lemma_world_find_skips(self@, name@, n as int);
        }
        None
    }

    /// The descriptor at a registry index.
    pub fn get(&self, i: usize) -> (r: Option<&NodeTypeInfo>)
        ensures
            match r {
                Some(nt) => i < self@.len() && nt@ == self@[i as int].1,
                None => i >= self@.len(),
            },
    {
        if i < self.node_types.len() {
            Some(&self.node_types[i].1)
        } else {
            None
        }
    }

    /// Declares `name` with the given descriptor. A previous declaration of
    /// the same name is replaced in place; otherwise the descriptor is
    /// appended.
    pub fn add(&mut self, name: String, info: NodeTypeInfo) -> (r: usize)
        ensures
            final(self)@ == world_declare(old(self)@, name@, info@),
            r < final(self)@.len(),
            final(self)@[r as int] == (name@, info@),
            old(self)@.len() <= final(self)@.len() <= old(self)@.len() + 1,
            final(self)@.len() == old(self)@.len() + 1 ==> r == old(self)@.len(),
            forall|j: int|
                0 <= j < old(self)@.len() && j != r ==> final(self)@[j] == #[trigger] old(
                    self,
                )@[j],
    {
        let r = self.lookup(name.as_str());
        match r {
            Some(i) => {
                self.node_types.set(i, (name, info));
                proof {
                    assert(final(self)@ =~= old(self)@.update(i as int, (name@, info@)));
                }
                i
            },
            None => {
                let i = self.node_types.len();
                self.node_types.push((name, info));
                proof {
                    assert(final(self)@ =~= old(self)@.push((name@, info@)));
                }
                i
            },
        }
    }
}

/// A name absent from the first `i` entries is found at or after `i`, if
/// at all.
proof fn lemma_world_find_skips(w: WorldV, name: Seq<char>, i: int)
    requires
        0 <= i <= w.len(),
        forall|j: int| 0 <= j < i ==> w[j].0 != name,
    ensures
        world_find(w, name, 0) == world_find(w, name, i),
    decreases i,
{
    if i > 0 {
        lemma_world_find_skips(w, name, i - 1);
    }
}

} // verus!
