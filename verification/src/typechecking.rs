//! The formal type analyzer: computes, for every input and output port of
//! every node, the port's effective arrow type together with the provenance
//! of each argument appearing in it.
//!
//! An input wired to an upstream output whose arrow is narrower than the
//! declaration demands is promoted to a constant function over the missing
//! arguments; arguments the upstream carries beyond the declaration are
//! absorbed into the consumer's own output arrow.

use vstd::prelude::*;

verus! {

use crate::text::lex_lt;
use crate::typetypes::{
    Arg,
    ArgsV,
    PrimitiveType,
    TypeError,
    TypeV,
    U32Boundedness,
    ValueType,
    al_get,
    al_has,
    al_insert,
    al_names_not_in,
    al_sorted,
    tv_wf,
    args_view,
    arg_view,
    vt_view,
};
use crate::nodegraph::{
    GraphV,
    InputInfoV,
    NodeGraph,
    NodeRef,
    OutputInfoV,
    SimpleTypeWorld,
    ValueRef,
    WorldV,
    graph_wf,
    node_wf,
};

// ----------------------------------------------------------------------
// Auxiliary assessment of primitive types.

/// What a bare primitive value can be used for.
#[derive(Debug, Clone, Copy, PartialEq, Eq, Structural)]
pub struct ValueTypeProperties {
    pub can_index_texture_axis: bool,
    pub can_index_vector: bool,
}

impl Default for ValueTypeProperties {
    /// No capabilities.
    fn default() -> (r: Self)
        ensures
            !r.can_index_texture_axis,
            !r.can_index_vector,
    {
        ValueTypeProperties { can_index_texture_axis: false, can_index_vector: false }
    }
}

/// Capabilities of a bare primitive: only a sufficiently bounded `u32` can
/// index a texture axis (bound at most 1024) or a vector (bound at most 4).
pub fn assess_known_constant_type(typ: PrimitiveType) -> (r: ValueTypeProperties)
    ensures
        r.can_index_texture_axis == (typ matches PrimitiveType::U32(U32Boundedness::Bounded(n))
            && n <= 1024),
        r.can_index_vector == (typ matches PrimitiveType::U32(U32Boundedness::Bounded(n)) && n
            <= 4),
{
    match typ {
        PrimitiveType::F32 => Default::default(),
        PrimitiveType::I32 => Default::default(),
        PrimitiveType::U32(u32_boundedness) => match u32_boundedness {
            U32Boundedness::Unbounded => Default::default(),
            U32Boundedness::Bounded(n) => ValueTypeProperties {
                can_index_texture_axis: n <= 1024u32,
                can_index_vector: n <= 4,
            },
        },
    }
}

/// Capabilities of a value type: a parameterized type has none; a scalar is
/// assessed as its primitive.
pub fn assess_value_type(typ: &ValueType) -> (r: ValueTypeProperties)
    ensures
        typ@.inputs.len() != 0 ==> !r.can_index_texture_axis && !r.can_index_vector,
        typ@.inputs.len() == 0 ==> r.can_index_texture_axis == (typ@.output
            matches PrimitiveType::U32(U32Boundedness::Bounded(n)) && n <= 1024) && r.can_index_vector
            == (typ@.output matches PrimitiveType::U32(U32Boundedness::Bounded(n)) && n <= 4),
{
    proof {
        crate::typetypes::lemma_args_view(typ.inputs@);
    }
    if typ.inputs.len() == 0 {
        return assess_known_constant_type(typ.output);
    }
    Default::default()
}

// ----------------------------------------------------------------------
// Mathematical model of analysis results.

/// Model of the notes attached to one output port.
pub struct OutputNotesV {
    pub formal_type: TypeV,
    pub step_computation_requires: ArgsV,
    pub inputs_parameterized_by: ArgsV,
}

/// Model of the provenance of a free-variable input.
pub struct FreeVariableSourceV {
    pub types_from_fv: ArgsV,
    pub itself: (Seq<char>, TypeV),
}

/// Model of the provenance of an input wired to an upstream output.
pub struct OutputPromotionV {
    pub types_from_output: ArgsV,
    pub added_constant_wrt: ArgsV,
    pub underspecified_args: Seq<Seq<char>>,
}

/// Model of where an input's formal type came from.
pub enum InputSourceV {
    FreeVariable(FreeVariableSourceV),
    FromOutput(OutputPromotionV),
}

/// Model of the notes attached to one input port.
pub struct InputNotesV {
    pub formal_type: TypeV,
    pub type_source: InputSourceV,
}

// ----------------------------------------------------------------------
// The analysis, as recursive functions over the graph model. Recursion is
// bounded by a fuel argument; on well-formed graphs (whose wired inputs
// reference earlier nodes only) any fuel above the node's identity gives
// the same result, so the fuel never shows in the analyzer's answers.

/// Whether `(n, i)` denotes an input slot both declared and carried.
pub open spec fn valid_input_port(w: WorldV, g: GraphV, n: int, i: int) -> bool {
    &&& 0 <= n < g.len()
    &&& 0 <= g[n].ty < w.len()
    &&& 0 <= i < w[g[n].ty].1.inputs.len()
    &&& 0 <= i < g[n].inputs.len()
}

/// Whether `(n, k)` denotes a declared output port.
pub open spec fn valid_output_port(w: WorldV, g: GraphV, n: int, k: int) -> bool {
    &&& 0 <= n < g.len()
    &&& 0 <= g[n].ty < w.len()
    &&& 0 <= k < w[g[n].ty].1.outputs.len()
}

/// The declaration of input `i` of node `n`.
pub open spec fn input_slot(w: WorldV, g: GraphV, n: int, i: int) -> InputInfoV {
    w[g[n].ty].1.inputs[i]
}

/// The declaration of output `k` of node `n`.
pub open spec fn output_slot(w: WorldV, g: GraphV, n: int, k: int) -> OutputInfoV {
    w[g[n].ty].1.outputs[k]
}

/// Promotion of an upstream arrow to a declared input arrow: every declared
/// argument missing upstream is recorded as a constant-with-respect-to
/// argument and added to the result; a declared argument the upstream also
/// carries must carry the same type. `acc_result` starts as the upstream's
/// arguments, `acc_added` as the empty list.
pub open spec fn promote_args(
    spec_args: ArgsV,
    actual: ArgsV,
    acc_result: ArgsV,
    acc_added: ArgsV,
) -> Result<(ArgsV, ArgsV), TypeError>
    decreases spec_args.len(),
{
    if spec_args.len() == 0 {
        Ok((acc_result, acc_added))
    } else {
        let (an, at) = spec_args[0];
        if !al_has(actual, an) {
            promote_args(
                spec_args.drop_first(),
                actual,
                al_insert(acc_result, an, at),
                al_insert(acc_added, an, at),
            )
        } else if al_get(actual, an) != at {
            Err(TypeError::ArgumentTypeMismatch)
        } else {
            promote_args(spec_args.drop_first(), actual, acc_result, acc_added)
        }
    }
}

/// Absorbs one input's formal arguments into the accumulated excess
/// arguments of a node: an argument consumed by the input's own declaration
/// is skipped; an argument already accumulated under the same name must
/// carry the same type; the rest are added.
pub open spec fn merge_excess(
    acc: ArgsV,
    formal_args: ArgsV,
    declared: ArgsV,
) -> Result<ArgsV, TypeError>
    decreases formal_args.len(),
{
    if formal_args.len() == 0 {
        Ok(acc)
    } else {
        let (an, at) = formal_args[0];
        if al_has(declared, an) {
            merge_excess(acc, formal_args.drop_first(), declared)
        } else if al_has(acc, an) {
            if al_get(acc, an) != at {
                Err(TypeError::ConflictingExcessArgument)
            } else {
                merge_excess(acc, formal_args.drop_first(), declared)
            }
        } else {
            merge_excess(al_insert(acc, an, at), formal_args.drop_first(), declared)
        }
    }
}

/// Unions the declared output arguments into the excess arguments, with the
/// same conflict rule as between excess arguments.
pub open spec fn merge_out(acc: ArgsV, out_args: ArgsV) -> Result<ArgsV, TypeError>
    decreases out_args.len(),
{
    if out_args.len() == 0 {
        Ok(acc)
    } else {
        let (an, at) = out_args[0];
        if al_has(acc, an) {
            if al_get(acc, an) != at {
                Err(TypeError::ConflictingExcessArgument)
            } else {
                merge_out(acc, out_args.drop_first())
            }
        } else {
            merge_out(al_insert(acc, an, at), out_args.drop_first())
        }
    }
}

/// The analysis of one input port.
pub open spec fn spec_analyze_input(
    w: WorldV,
    g: GraphV,
    n: int,
    i: int,
    fuel: nat,
) -> Result<InputNotesV, TypeError>
    decreases fuel, 0int, 0int,
{
    if !valid_input_port(w, g, n, i) {
        Err(TypeError::MissingNodeType)
    } else {
        let slot = input_slot(w, g, n, i);
        match slot.ty {
            Err(e) => Err(e),
            Ok(spec_vt) => match g[n].inputs[i] {
                None => Ok(
                    InputNotesV {
                        formal_type: TypeV {
                            inputs: al_insert(spec_vt.inputs, slot.name, spec_vt),
                            output: spec_vt.output,
                        },
                        type_source: InputSourceV::FreeVariable(
                            FreeVariableSourceV {
                                types_from_fv: spec_vt.inputs,
                                itself: (slot.name, spec_vt),
                            },
                        ),
                    },
                ),
                Some(vref) => {
                    if fuel == 0 {
                        Err(TypeError::CyclicGraph)
                    } else {
                        match spec_analyze_output(w, g, vref.0, vref.1, (fuel - 1) as nat) {
                            Err(e) => Err(e),
                            Ok(actual) => {
                                if actual.formal_type.output != spec_vt.output {
                                    Err(TypeError::PrimitiveMismatch)
                                } else {
                                    match promote_args(
                                        spec_vt.inputs,
                                        actual.formal_type.inputs,
                                        actual.formal_type.inputs,
                                        Seq::empty(),
                                    ) {
                                        Err(e) => Err(e),
                                        Ok(ra) => Ok(
                                            InputNotesV {
                                                formal_type: TypeV {
                                                    inputs: ra.0,
                                                    output: spec_vt.output,
                                                },
                                                type_source: InputSourceV::FromOutput(
                                                    OutputPromotionV {
                                                        types_from_output: actual.formal_type.inputs,
                                                        added_constant_wrt: ra.1,
                                                        underspecified_args: al_names_not_in(
                                                            actual.formal_type.inputs,
                                                            spec_vt.inputs,
                                                        ),
                                                    },
                                                ),
                                            },
                                        ),
                                    }
                                }
                            },
                        }
                    }
                },
            },
        }
    }
}

/// The excess arguments gathered from inputs `i ..` of node `n`, given the
/// excess gathered so far.
pub open spec fn collect_excess(
    w: WorldV,
    g: GraphV,
    n: int,
    i: int,
    acc: ArgsV,
    fuel: nat,
) -> Result<ArgsV, TypeError>
    decreases fuel, 1int, w[g[n].ty].1.inputs.len() - i,
{
    if i >= w[g[n].ty].1.inputs.len() {
        Ok(acc)
    } else {
        match spec_analyze_input(w, g, n, i, fuel) {
            Err(e) => Err(e),
            Ok(pn) => {
                let declared = match input_slot(w, g, n, i).ty {
                    Ok(t) => t.inputs,
                    Err(_) => Seq::empty(),
                };
                match merge_excess(acc, pn.formal_type.inputs, declared) {
                    Err(e) => Err(e),
                    Ok(acc2) => collect_excess(w, g, n, i + 1, acc2, fuel),
                }
            },
        }
    }
}

/// The analysis of one output port.
pub open spec fn spec_analyze_output(
    w: WorldV,
    g: GraphV,
    n: int,
    k: int,
    fuel: nat,
) -> Result<OutputNotesV, TypeError>
    decreases fuel, 2int, 0int,
{
    if !valid_output_port(w, g, n, k) {
        Err(TypeError::MissingNodeType)
    } else {
        let oslot = output_slot(w, g, n, k);
        match oslot.ty {
            Err(e) => Err(e),
            Ok(out_vt) => match collect_excess(w, g, n, 0, Seq::empty(), fuel) {
                Err(e) => Err(e),
                Ok(excess) => match merge_out(excess, out_vt.inputs) {
                    Err(e) => Err(e),
                    Ok(args) => Ok(
                        OutputNotesV {
                            formal_type: TypeV { inputs: args, output: out_vt.output },
                            step_computation_requires: out_vt.inputs,
                            inputs_parameterized_by: excess,
                        },
                    ),
                },
            },
        }
    }
}

/// On a well-formed graph, the analysis of an input port reads the same
/// under any fuel above the node's identity: wired inputs only reach
/// earlier nodes, so the recursion never runs out.
pub proof fn lemma_fuel_input(w: WorldV, g: GraphV, n: int, i: int, f1: nat, f2: nat)
    requires
        graph_wf(g, w),
        f1 >= n + 1,
        f2 >= n + 1,
    ensures
        spec_analyze_input(w, g, n, i, f1) == spec_analyze_input(w, g, n, i, f2),
    decreases n, 0int, 0int,
{
    if valid_input_port(w, g, n, i) {
        let slot = input_slot(w, g, n, i);
        match slot.ty {
            Ok(spec_vt) => match g[n].inputs[i] {
                Some(vref) => {
                    assert(node_wf(g, w, n));
                    assert(0 <= vref.0 < n);
                    lemma_fuel_output(w, g, vref.0, vref.1, (f1 - 1) as nat, (f2 - 1) as nat);
                },
                None => {},
            },
            Err(_) => {},
        }
    }
}

/// Fuel irrelevance for the excess-argument walk over a node's inputs.
pub proof fn lemma_fuel_collect(w: WorldV, g: GraphV, n: int, i: int, acc: ArgsV, f1: nat, f2: nat)
    requires
        graph_wf(g, w),
        f1 >= n + 1,
        f2 >= n + 1,
        0 <= n < g.len(),
        0 <= g[n].ty < w.len(),
        0 <= i,
    ensures
        collect_excess(w, g, n, i, acc, f1) == collect_excess(w, g, n, i, acc, f2),
    decreases n, 1int, w[g[n].ty].1.inputs.len() - i,
{
    if i < w[g[n].ty].1.inputs.len() {
        lemma_fuel_input(w, g, n, i, f1, f2);
        match spec_analyze_input(w, g, n, i, f1) {
            Ok(pn) => {
                let declared = match input_slot(w, g, n, i).ty {
                    Ok(t) => t.inputs,
                    Err(_) => Seq::empty(),
                };
                match merge_excess(acc, pn.formal_type.inputs, declared) {
                    Ok(acc2) => {
                        lemma_fuel_collect(w, g, n, i + 1, acc2, f1, f2);
                    },
                    Err(_) => {},
                }
            },
            Err(_) => {},
        }
    }
}

/// Fuel irrelevance for the analysis of an output port.
pub proof fn lemma_fuel_output(w: WorldV, g: GraphV, n: int, k: int, f1: nat, f2: nat)
    requires
        graph_wf(g, w),
        f1 >= n + 1,
        f2 >= n + 1,
    ensures
        spec_analyze_output(w, g, n, k, f1) == spec_analyze_output(w, g, n, k, f2),
    decreases n, 2int, 0int,
{
    if valid_output_port(w, g, n, k) {
        lemma_fuel_collect(w, g, n, 0, Seq::empty(), f1, f2);
    }
}

/// The notes of input `(n, i)`: the analysis with fuel that any well-formed
/// graph stays within.
pub open spec fn input_notes_spec(w: WorldV, g: GraphV, n: int, i: int) -> Result<
    InputNotesV,
    TypeError,
> {
    spec_analyze_input(w, g, n, i, g.len() as nat)
}

/// The notes of output `(n, k)`.
pub open spec fn output_notes_spec(w: WorldV, g: GraphV, n: int, k: int) -> Result<
    OutputNotesV,
    TypeError,
> {
    spec_analyze_output(w, g, n, k, g.len() as nat)
}

// ----------------------------------------------------------------------
// Executable analysis results.

/// One input port of one node.
#[derive(Debug, Clone, Copy, PartialEq, Eq, Structural)]
pub struct NodeInputReference {
    pub source_node: NodeRef,
    pub input_ind: usize,
}

/// Notes attached to one output port: its effective arrow type, the
/// arguments its own computation step consumes, and the arguments it is
/// parameterized by only because its inputs are.
#[derive(Debug)]
pub struct OutputTypeNotes {
    pub formal_type: ValueType,
    pub step_computation_requires: Vec<Arg>,
    pub inputs_parameterized_by: Vec<Arg>,
}

/// Notes of one output port, or the error its analysis failed with.
pub type MaybeOutputTypeNotes = Result<OutputTypeNotes, TypeError>;

/// Provenance of a free-variable input: the arguments of the declared type,
/// and the self-referential argument named after the input itself.
#[derive(Debug)]
pub struct FreeVariableTypeSource {
    pub types_from_fv: Vec<Arg>,
    pub itself: (String, ValueType),
}

/// Provenance of an input wired to an upstream output.
#[derive(Debug)]
pub struct OutputPromotion {
    /// Arguments that come from the upstream value.
    pub types_from_output: Vec<Arg>,
    /// Declared arguments absent upstream, added as constant promotions.
    pub added_constant_wrt: Vec<Arg>,
    /// Upstream argument names the declaration did not advertise.
    pub underspecified_args: Vec<String>,
}

/// Where an input's formal type came from.
#[derive(Debug)]
pub enum InputValueTypeSource {
    FreeVariable(FreeVariableTypeSource),
    FromOutput(OutputPromotion),
}

/// Notes attached to one input port.
#[derive(Debug)]
pub struct InputTypeNotes {
    pub formal_type: ValueType,
    pub type_source: InputValueTypeSource,
}

/// Notes of one input port, or the error its analysis failed with.
pub type MaybeInputTypeNotes = Result<InputTypeNotes, TypeError>;

/// The models of a sequence of names.
pub open spec fn strs_view(s: Seq<String>) -> Seq<Seq<char>> {
    Seq::new(s.len(), |i: int| s[i]@)
}

impl View for OutputTypeNotes {
    type V = OutputNotesV;

    open spec fn view(&self) -> OutputNotesV {
        OutputNotesV {
            formal_type: self.formal_type@,
            step_computation_requires: args_view(self.step_computation_requires@),
            inputs_parameterized_by: args_view(self.inputs_parameterized_by@),
        }
    }
}

impl View for InputTypeNotes {
    type V = InputNotesV;

    open spec fn view(&self) -> InputNotesV {
        InputNotesV { formal_type: self.formal_type@, type_source: self.type_source@ }
    }
}

impl View for InputValueTypeSource {
    type V = InputSourceV;

    open spec fn view(&self) -> InputSourceV {
        match self {
            InputValueTypeSource::FreeVariable(fv) => InputSourceV::FreeVariable(
                FreeVariableSourceV {
                    types_from_fv: args_view(fv.types_from_fv@),
                    itself: (fv.itself.0@, fv.itself.1@),
                },
            ),
            InputValueTypeSource::FromOutput(op) => InputSourceV::FromOutput(
                OutputPromotionV {
                    types_from_output: args_view(op.types_from_output@),
                    added_constant_wrt: args_view(op.added_constant_wrt@),
                    underspecified_args: strs_view(op.underspecified_args@),
                },
            ),
        }
    }
}

/// The model of cached input notes.
pub open spec fn in_notes_view(x: MaybeInputTypeNotes) -> Result<InputNotesV, TypeError> {
    match x {
        Ok(v) => Ok(v@),
        Err(e) => Err(e),
    }
}

/// The model of cached output notes.
pub open spec fn out_notes_view(x: MaybeOutputTypeNotes) -> Result<OutputNotesV, TypeError> {
    match x {
        Ok(v) => Ok(v@),
        Err(e) => Err(e),
    }
}

/// Copies an argument list, keeping its model.
pub fn clone_args(args: &Vec<Arg>) -> (r: Vec<Arg>)
    ensures
        args_view(r@) == args_view(args@),
{
    let mut out: Vec<Arg> = Vec::new();
    let n = args.len();
    for i in 0..n
        invariant
            n == args@.len(),
            out@.len() == i,
            forall|j: int| 0 <= j < i ==> out@[j]@ == args@[j]@,
    {
        out.push(args[i].clone());
    }
    proof {
        crate::typetypes::lemma_args_view(out@);
        crate::typetypes::lemma_args_view(args@);
        assert(args_view(out@) =~= args_view(args@));
    }
    out
}

/// Copies a list of names, keeping its model.
fn clone_strings(v: &Vec<String>) -> (r: Vec<String>)
    ensures
        strs_view(r@) == strs_view(v@),
{
    let mut out: Vec<String> = Vec::new();
    let n = v.len();
    for i in 0..n
        invariant
            n == v@.len(),
            out@.len() == i,
            forall|j: int| 0 <= j < i ==> out@[j]@ == v@[j]@,
    {
        out.push(clone_string(&v[i]));
    }
    proof {
        assert(strs_view(out@) =~= strs_view(v@));
    }
    out
}

/// Copies a string, keeping its characters.
fn clone_string(s: &String) -> (r: String)
    ensures
        r@ == s@,
{
    s.clone()
}

impl Clone for OutputTypeNotes {
    fn clone(&self) -> (r: Self)
        ensures
            r@ == self@,
    {
        OutputTypeNotes {
            formal_type: self.formal_type.clone(),
            step_computation_requires: clone_args(&self.step_computation_requires),
            inputs_parameterized_by: clone_args(&self.inputs_parameterized_by),
        }
    }
}

impl Clone for InputTypeNotes {
    fn clone(&self) -> (r: Self)
        ensures
            r@ == self@,
    {
        InputTypeNotes {
            formal_type: self.formal_type.clone(),
            type_source: match &self.type_source {
                InputValueTypeSource::FreeVariable(fv) => InputValueTypeSource::FreeVariable(
                    FreeVariableTypeSource {
                        types_from_fv: clone_args(&fv.types_from_fv),
                        itself: (clone_string(&fv.itself.0), fv.itself.1.clone()),
                    },
                ),
                InputValueTypeSource::FromOutput(op) => InputValueTypeSource::FromOutput(
                    OutputPromotion {
                        types_from_output: clone_args(&op.types_from_output),
                        added_constant_wrt: clone_args(&op.added_constant_wrt),
                        underspecified_args: clone_strings(&op.underspecified_args),
                    },
                ),
            },
        }
    }
}

/// Copies cached input notes, keeping their model.
fn clone_maybe_input(x: &MaybeInputTypeNotes) -> (r: MaybeInputTypeNotes)
    ensures
        in_notes_view(r) == in_notes_view(*x),
{
    match x {
        Ok(v) => Ok(v.clone()),
        Err(e) => Err(*e),
    }
}

/// Copies cached output notes, keeping their model.
fn clone_maybe_output(x: &MaybeOutputTypeNotes) -> (r: MaybeOutputTypeNotes)
    ensures
        out_notes_view(r) == out_notes_view(*x),
{
    match x {
        Ok(v) => Ok(v.clone()),
        Err(e) => Err(*e),
    }
}

// ----------------------------------------------------------------------
// The analysis pass: memoized walk over every port of every node.

/// The products of analyzing a graph: notes for every input and every
/// output port, kept per node and per port index. Entries are written once
/// and never changed. The analyzed graph and registry are remembered in
/// ghost form, so the notes can be read against them.
pub struct NodeGraphFormalTypeAnalysis {
    input_type_notes: Vec<Vec<Option<MaybeInputTypeNotes>>>,
    output_type_notes: Vec<Vec<Option<MaybeOutputTypeNotes>>>,
    world: Ghost<WorldV>,
    graph: Ghost<GraphV>,
}

impl NodeGraphFormalTypeAnalysis {
    /// The model of the registry this analysis was made against.
    pub closed spec fn spec_world(&self) -> WorldV {
        self.world@
    }

    /// The model of the graph this analysis was made against.
    pub closed spec fn spec_graph(&self) -> GraphV {
        self.graph@
    }

    /// The cached entry for input `(n, i)`.
    pub closed spec fn input_entry(&self, n: int, i: int) -> Option<MaybeInputTypeNotes> {
        self.input_type_notes@[n]@[i]
    }

    /// The cached entry for output `(n, k)`.
    pub closed spec fn output_entry(&self, n: int, k: int) -> Option<MaybeOutputTypeNotes> {
        self.output_type_notes@[n]@[k]
    }

    /// The caches have one row per node and one slot per declared port.
    spec fn shape_ok(&self) -> bool {
        &&& self.input_type_notes@.len() == self.graph@.len()
        &&& self.output_type_notes@.len() == self.graph@.len()
        &&& forall|n: int|
            0 <= n < self.graph@.len() ==> (#[trigger] self.input_type_notes@[n])@.len()
                == self.world@[self.graph@[n].ty].1.inputs.len()
        &&& forall|n: int|
            0 <= n < self.graph@.len() ==> (#[trigger] self.output_type_notes@[n])@.len()
                == self.world@[self.graph@[n].ty].1.outputs.len()
    }

    /// Every filled entry holds the value the analysis assigns to its port.
    spec fn entries_ok(&self) -> bool {
        &&& forall|n: int, i: int|
            0 <= n < self.graph@.len() && 0 <= i < self.input_type_notes@[n]@.len() ==> ((
            #[trigger] self.input_type_notes@[n]@[i]) matches Some(e) ==> in_notes_view(e)
                == input_notes_spec(self.world@, self.graph@, n, i))
        &&& forall|n: int, k: int|
            0 <= n < self.graph@.len() && 0 <= k < self.output_type_notes@[n]@.len() ==> ((
            #[trigger] self.output_type_notes@[n]@[k]) matches Some(e) ==> out_notes_view(e)
                == output_notes_spec(self.world@, self.graph@, n, k))
    }

    /// The cache invariant: filled entries agree with the analysis.
    pub closed spec fn inv(&self) -> bool {
        self.shape_ok() && self.entries_ok()
    }

    /// Every port of every node has its notes filled in.
    pub closed spec fn complete(&self) -> bool {
        &&& forall|n: int, i: int|
            0 <= n < self.graph@.len() && 0 <= i < self.input_type_notes@[n]@.len() ==> (
            #[trigger] self.input_type_notes@[n]@[i]) is Some
        &&& forall|n: int, k: int|
            0 <= n < self.graph@.len() && 0 <= k < self.output_type_notes@[n]@.len() ==> (
            #[trigger] self.output_type_notes@[n]@[k]) is Some
    }

    /// `post` keeps every entry `pre` had filled, the same shape, and the
    /// same subjects.
    spec fn cache_extends(post: &Self, pre: &Self) -> bool {
        &&& post.world == pre.world
        &&& post.graph == pre.graph
        &&& post.input_type_notes@.len() == pre.input_type_notes@.len()
        &&& post.output_type_notes@.len() == pre.output_type_notes@.len()
        &&& forall|n: int|
            0 <= n < pre.input_type_notes@.len() ==> (#[trigger] post.input_type_notes@[n])@.len()
                == pre.input_type_notes@[n]@.len()
        &&& forall|n: int|
            0 <= n < pre.output_type_notes@.len() ==> (#[trigger] post.output_type_notes@[n])@.len()
                == pre.output_type_notes@[n]@.len()
        &&& forall|n: int, i: int|
            0 <= n < pre.input_type_notes@.len() && 0 <= i < pre.input_type_notes@[n]@.len() && (
            #[trigger] pre.input_type_notes@[n]@[i]) is Some ==> post.input_type_notes@[n]@[i] is Some
        &&& forall|n: int, k: int|
            0 <= n < pre.output_type_notes@.len() && 0 <= k < pre.output_type_notes@[n]@.len() && (
            #[trigger] pre.output_type_notes@[n]@[k]) is Some ==> post.output_type_notes@[n]@[k] is Some
    }
}

/// `cache_extends` chains across successive calls.
proof fn lemma_extends_trans(
    a: &NodeGraphFormalTypeAnalysis,
    b: &NodeGraphFormalTypeAnalysis,
    c: &NodeGraphFormalTypeAnalysis,
)
    requires
        NodeGraphFormalTypeAnalysis::cache_extends(b, a),
        NodeGraphFormalTypeAnalysis::cache_extends(c, b),
    ensures
        NodeGraphFormalTypeAnalysis::cache_extends(c, a),
{
}

impl NodeGraphFormalTypeAnalysis {
    /// Stores the notes of input `(n, i)`.
    fn cache_input(&mut self, n: usize, i: usize, r: &MaybeInputTypeNotes)
        requires
            old(self).inv(),
            n < old(self).spec_graph().len(),
            valid_input_port(old(self).spec_world(), old(self).spec_graph(), n as int, i as int),
            in_notes_view(*r) == input_notes_spec(
                old(self).spec_world(),
                old(self).spec_graph(),
                n as int,
                i as int,
            ),
        ensures
            final(self).inv(),
            Self::cache_extends(final(self), old(self)),
            final(self).input_entry(n as int, i as int) is Some,
    {
        let row = &mut self.input_type_notes[n];
        row.set(i, Some(clone_maybe_input(r)));
        proof {
            let pre = old(self).input_type_notes@;
            let post = final(self).input_type_notes@;
            assert(post.len() == pre.len());
            assert forall|m: int| 0 <= m < pre.len() && m != n implies post[m] == pre[m] by {}
            assert(post[n as int]@ =~= pre[n as int]@.update(i as int, post[n as int]@[i as int]));
            assert(final(self).output_type_notes@ == old(self).output_type_notes@);
        }
    }

    /// Stores the notes of output `(n, k)`.
    fn cache_output(&mut self, n: usize, k: usize, r: &MaybeOutputTypeNotes)
        requires
            old(self).inv(),
            n < old(self).spec_graph().len(),
            valid_output_port(old(self).spec_world(), old(self).spec_graph(), n as int, k as int),
            out_notes_view(*r) == output_notes_spec(
                old(self).spec_world(),
                old(self).spec_graph(),
                n as int,
                k as int,
            ),
        ensures
            final(self).inv(),
            Self::cache_extends(final(self), old(self)),
            final(self).output_entry(n as int, k as int) is Some,
    {
        let row = &mut self.output_type_notes[n];
        row.set(k, Some(clone_maybe_output(r)));
        proof {
            let pre = old(self).output_type_notes@;
            let post = final(self).output_type_notes@;
            assert(post.len() == pre.len());
            assert forall|m: int| 0 <= m < pre.len() && m != n implies post[m] == pre[m] by {}
            assert(post[n as int]@ =~= pre[n as int]@.update(k as int, post[n as int]@[k as int]));
            assert(final(self).input_type_notes@ == old(self).input_type_notes@);
        }
    }
}


impl NodeGraphFormalTypeAnalysis {
    /// Analyzes one input port, filling the cache. The result is the value
    /// `input_notes_spec` assigns to the port.
    #[verifier::loop_isolation(false)]
    fn analyze_single_input(
        &mut self,
        graph: &NodeGraph,
        world: &SimpleTypeWorld,
        inp_ref: NodeInputReference,
        fuel: usize,
    ) -> (r: MaybeInputTypeNotes)
        requires
            graph_wf(graph@, world@),
            old(self).inv(),
            old(self).spec_world() == world@,
            old(self).spec_graph() == graph@,
            inp_ref.source_node.id < graph@.len(),
            fuel >= inp_ref.source_node.id + 1,
        ensures
            final(self).inv(),
            Self::cache_extends(final(self), old(self)),
            in_notes_view(r) == input_notes_spec(
                world@,
                graph@,
                inp_ref.source_node.id as int,
                inp_ref.input_ind as int,
            ),
            valid_input_port(
                world@,
                graph@,
                inp_ref.source_node.id as int,
                inp_ref.input_ind as int,
            ) ==> final(self).input_entry(
                inp_ref.source_node.id as int,
                inp_ref.input_ind as int,
            ) is Some,
        decreases fuel, 0int,
    {
        let n = inp_ref.source_node.id;
        let i = inp_ref.input_ind;
        let ghost w = world@;
        let ghost g = graph@;
        let ghost ni = n as int;
        let ghost ii = i as int;
        let ghost glen = g.len() as nat;

        let node = &graph.nodes[n];
        proof {
            assert(node_wf(g, w, ni));
            assert(node@ == g[ni]);
        }
        let tyi = node.node_type.index();
        let nt = &world.node_types[tyi].1;
        proof {
            assert(nt@ == w[g[ni].ty].1);
        }
        if i >= nt.inputs.len() {
            proof {
                assert(!valid_input_port(w, g, ni, ii));
            }
            return Err(TypeError::MissingNodeType);
        }
        proof {
            assert(g[ni].inputs.len() == node.inputs@.len());
            assert(valid_input_port(w, g, ni, ii));
        }

        // Memoized?
        {
            let row = &self.input_type_notes[n];
            match &row[i] {
                Some(e) => {
                    let r = clone_maybe_input(e);
                    return r;
                },
                None => {},
            }
        }

        let slot = &nt.inputs[i];
        proof {
            assert(slot@ == input_slot(w, g, ni, ii));
        }
        let r: MaybeInputTypeNotes = match &slot.value_type {
            Err(e) => Err(*e),
            Ok(spec_vt) => {
                match node.inputs[i] {
                    None => {
                        // A free variable: the declared type, augmented with
                        // the self-referential argument named after the input.
                        proof {
                            assert(g[ni].inputs[ii] is None);
                        }
                        let mut formal = spec_vt.clone();
                        let itself_ty = spec_vt.clone();
                        let types_from = clone_args(&spec_vt.inputs);
                        crate::typetypes::args_insert(
                            &mut formal.inputs,
                            clone_string(&slot.name),
                            spec_vt.clone(),
                        );
                        let r = Ok(
                            InputTypeNotes {
                                formal_type: formal,
                                type_source: InputValueTypeSource::FreeVariable(
                                    FreeVariableTypeSource {
                                        types_from_fv: types_from,
                                        itself: (clone_string(&slot.name), itself_ty),
                                    },
                                ),
                            },
                        );
                        proof {
                            crate::typetypes::lemma_args_view(spec_vt.inputs@);
                        }
                        r
                    },
                    Some(vref) => {
                        let ghost mi = vref.node.id as int;
                        let ghost ki = vref.output_index as int;
                        proof {
                            assert(g[ni].inputs[ii] == Some((mi, ki)));
                            assert(0 <= mi < ni);
                        }
                        let actual_r = self.analyze_single_output(graph, world, vref, fuel - 1);
                        proof {
                            lemma_fuel_output(w, g, mi, ki, (glen - 1) as nat, glen);
                        }
                        match actual_r {
                            Err(e) => Err(e),
                            Ok(actual) => {
                                if actual.formal_type.output != spec_vt.output {
                                    Err(TypeError::PrimitiveMismatch)
                                } else {
                                    self.promote_input(spec_vt, &actual, Ghost(w), Ghost(g), Ghost(
                                        ni,
                                    ), Ghost(ii))
                                }
                            },
                        }
                    },
                }
            },
        };
        self.cache_input(n, i, &r);
        r
    }

    /// The promotion step of input analysis: builds the notes of an input
    /// wired to an upstream output whose primitive already matches.
    #[verifier::loop_isolation(false)]
    fn promote_input(
        &self,
        spec_vt: &ValueType,
        actual: &OutputTypeNotes,
        Ghost(w): Ghost<WorldV>,
        Ghost(g): Ghost<GraphV>,
        Ghost(ni): Ghost<int>,
        Ghost(ii): Ghost<int>,
    ) -> (r: MaybeInputTypeNotes)
        requires
            valid_input_port(w, g, ni, ii),
            input_slot(w, g, ni, ii).ty == Ok::<TypeV, TypeError>(spec_vt@),
            g[ni].inputs[ii] is Some,
            g.len() > 0,
            spec_analyze_output(
                w,
                g,
                g[ni].inputs[ii]->Some_0.0,
                g[ni].inputs[ii]->Some_0.1,
                (g.len() - 1) as nat,
            ) == Ok::<OutputNotesV, TypeError>(actual@),
            actual.formal_type@.output == spec_vt@.output,
        ensures
            in_notes_view(r) == input_notes_spec(w, g, ni, ii),
    {
        let ghost glen = g.len() as nat;
        let ghost sargs = spec_vt@.inputs;
        let ghost actual_v = actual.formal_type@.inputs;
        let ghost target = promote_args(sargs, actual_v, actual_v, Seq::empty());

        proof {
            crate::typetypes::lemma_args_view(spec_vt.inputs@);
            crate::typetypes::lemma_args_view(actual.formal_type.inputs@);
        }

        let mut result_args = clone_args(&actual.formal_type.inputs);
        let mut added: Vec<Arg> = Vec::new();
        proof {
            assert(sargs.skip(0) =~= sargs);
            assert(args_view(added@) =~= Seq::<(Seq<char>, TypeV)>::empty());
        }
        let m = spec_vt.inputs.len();
        let mut j: usize = 0;
        while j < m
            invariant
                j <= m,
                m == spec_vt.inputs@.len(),
                sargs == spec_vt@.inputs,
                actual_v == actual.formal_type@.inputs,
                sargs.len() == m,
                target == promote_args(sargs, actual_v, actual_v, Seq::empty()),
                promote_args(
                    sargs.skip(j as int),
                    actual_v,
                    args_view(result_args@),
                    args_view(added@),
                ) == target,
            decreases m - j,
        {
            proof {
                crate::typetypes::lemma_args_view(spec_vt.inputs@);
                assert(sargs[j as int] == arg_view(spec_vt.inputs@[j as int]));
                assert(sargs.skip(j as int)[0] == sargs[j as int]);
                assert(sargs.skip(j as int).drop_first() =~= sargs.skip(j as int + 1));
            }
            let a = &spec_vt.inputs[j];
            match crate::typetypes::args_find(&actual.formal_type.inputs, a.name.as_str()) {
                None => {
                    crate::typetypes::args_insert(
                        &mut result_args,
                        clone_string(&a.name),
                        a.ty.clone(),
                    );
                    crate::typetypes::args_insert(&mut added, clone_string(&a.name), a.ty.clone());
                },
                Some(idx) => {
                    if !crate::typetypes::value_type_eq(&actual.formal_type.inputs[idx].ty, &a.ty) {
                        proof {
                            assert(target == Err::<(ArgsV, ArgsV), TypeError>(
                                TypeError::ArgumentTypeMismatch,
                            ));
                        }
                        return Err(TypeError::ArgumentTypeMismatch);
                    }
                },
            }
            j = j + 1;
        }
        proof {
            assert(sargs.skip(m as int).len() == 0);
            assert(target == Ok::<(ArgsV, ArgsV), TypeError>(
                (args_view(result_args@), args_view(added@)),
            ));
        }

        // Names the upstream carries that the declaration did not advertise.
        let mut unders: Vec<String> = Vec::new();
        let alen = actual.formal_type.inputs.len();
        let ghost target_u = al_names_not_in(actual_v, sargs);
        proof {
            assert(actual_v.skip(0) =~= actual_v);
            assert(strs_view(unders@) =~= Seq::<Seq<char>>::empty());
            assert(strs_view(unders@) + al_names_not_in(actual_v.skip(0), sargs) =~= target_u);
        }
        let mut j2: usize = 0;
        while j2 < alen
            invariant
                j2 <= alen,
                alen == actual.formal_type.inputs@.len(),
                sargs == spec_vt@.inputs,
                actual_v == actual.formal_type@.inputs,
                actual_v.len() == alen,
                target_u == al_names_not_in(actual_v, sargs),
                strs_view(unders@) + al_names_not_in(actual_v.skip(j2 as int), sargs) == target_u,
            decreases alen - j2,
        {
            proof {
                crate::typetypes::lemma_args_view(actual.formal_type.inputs@);
                assert(actual_v[j2 as int] == arg_view(actual.formal_type.inputs@[j2 as int]));
                assert(actual_v.skip(j2 as int)[0] == actual_v[j2 as int]);
                assert(actual_v.skip(j2 as int).drop_first() =~= actual_v.skip(j2 as int + 1));
            }
            let a = &actual.formal_type.inputs[j2];
            let found = crate::typetypes::args_find(&spec_vt.inputs, a.name.as_str());
            match found {
                None => {
                    unders.push(clone_string(&a.name));
                    proof {
                        assert(strs_view(unders@) =~= strs_view(unders@.drop_last()).push(
                            a.name@,
                        ));
                        assert(strs_view(unders@.drop_last()) + (seq![a.name@]
                            + al_names_not_in(actual_v.skip(j2 as int + 1), sargs)) =~= strs_view(
                            unders@,
                        ) + al_names_not_in(actual_v.skip(j2 as int + 1), sargs));
                    }
                },
                Some(_) => {},
            }
            j2 = j2 + 1;
        }
        proof {
            assert(actual_v.skip(alen as int).len() == 0);
            assert(strs_view(unders@) + al_names_not_in(actual_v.skip(alen as int), sargs)
                =~= strs_view(unders@));
            assert(strs_view(unders@) == target_u);
        }

        let r = Ok(
            InputTypeNotes {
                formal_type: ValueType { inputs: result_args, output: spec_vt.output },
                type_source: InputValueTypeSource::FromOutput(
                    OutputPromotion {
                        types_from_output: clone_args(&actual.formal_type.inputs),
                        added_constant_wrt: added,
                        underspecified_args: unders,
                    },
                ),
            },
        );
        proof {
            let spec_r = input_notes_spec(w, g, ni, ii);
            assert(spec_r == spec_analyze_input(w, g, ni, ii, glen));
            assert(in_notes_view(r) == spec_r);
        }
        r
    }
}

impl NodeGraphFormalTypeAnalysis {
    /// Analyzes one output port, filling the cache. The result is the value
    /// `output_notes_spec` assigns to the port.
    #[verifier::loop_isolation(false)]
    fn analyze_single_output(
        &mut self,
        graph: &NodeGraph,
        world: &SimpleTypeWorld,
        val_ref: ValueRef,
        fuel: usize,
    ) -> (r: MaybeOutputTypeNotes)
        requires
            graph_wf(graph@, world@),
            old(self).inv(),
            old(self).spec_world() == world@,
            old(self).spec_graph() == graph@,
            val_ref.node.id < graph@.len(),
            fuel >= val_ref.node.id + 1,
        ensures
            final(self).inv(),
            Self::cache_extends(final(self), old(self)),
            out_notes_view(r) == output_notes_spec(
                world@,
                graph@,
                val_ref.node.id as int,
                val_ref.output_index as int,
            ),
            valid_output_port(
                world@,
                graph@,
                val_ref.node.id as int,
                val_ref.output_index as int,
            ) ==> final(self).output_entry(
                val_ref.node.id as int,
                val_ref.output_index as int,
            ) is Some,
        decreases fuel, 1int,
    {
        let n = val_ref.node.id;
        let k = val_ref.output_index;
        let ghost w = world@;
        let ghost g = graph@;
        let ghost ni = n as int;
        let ghost ki = k as int;
        let ghost glen = g.len() as nat;

        let node = &graph.nodes[n];
        proof {
            assert(node_wf(g, w, ni));
            assert(node@ == g[ni]);
        }
        let tyi = node.node_type.index();
        let nt = &world.node_types[tyi].1;
        proof {
            assert(nt@ == w[g[ni].ty].1);
        }
        if k >= nt.outputs.len() {
            proof {
                assert(!valid_output_port(w, g, ni, ki));
            }
            return Err(TypeError::MissingNodeType);
        }
        proof {
            assert(valid_output_port(w, g, ni, ki));
        }

        // Memoized?
        {
            let row = &self.output_type_notes[n];
            match &row[k] {
                Some(e) => {
                    let r = clone_maybe_output(e);
                    return r;
                },
                None => {},
            }
        }

        let oslot = &nt.outputs[k];
        proof {
            assert(oslot@ == output_slot(w, g, ni, ki));
        }
        let out_vt = match &oslot.value_type {
            Err(e) => {
                let r = Err(*e);
                self.cache_output(n, k, &r);
                return r;
            },
            Ok(out_vt) => out_vt,
        };

        // Gather the excess arguments of all inputs: arguments an input's
        // formal type carries beyond what the input's own declaration
        // consumes.
        let mut acc: Vec<Arg> = Vec::new();
        proof {
            assert(args_view(acc@) =~= Seq::<(Seq<char>, TypeV)>::empty());
        }
        let m = nt.inputs.len();
        let mut i: usize = 0;
        while i < m
            invariant
                graph_wf(g, w),
                w == world@,
                g == graph@,
                self.inv(),
                self.spec_world() == w,
                self.spec_graph() == g,
                Self::cache_extends(self, old(self)),
                n == val_ref.node.id,
                ni == n as int,
                n < g.len(),
                fuel >= n + 1,
                glen == g.len() as nat,
                0 <= g[ni].ty < w.len(),
                m == w[g[ni].ty].1.inputs.len(),
                i <= m,
                collect_excess(w, g, ni, i as int, args_view(acc@), glen) == collect_excess(
                    w,
                    g,
                    ni,
                    0,
                    Seq::empty(),
                    glen,
                ),
            decreases m - i,
        {
            let ghost self_at_iter = *self;
            let ghost acc_v = args_view(acc@);
            let pn_r = self.analyze_single_input(
                graph,
                world,
                NodeInputReference { source_node: NodeRef { id: n }, input_ind: i },
                fuel,
            );
            proof {
                lemma_extends_trans(old(self), &self_at_iter, self);
            }
            let pn = match pn_r {
                Err(e) => {
                    let r = Err(e);
                    proof {
                        assert(collect_excess(w, g, ni, i as int, args_view(acc@), glen) == Err::<
                            ArgsV,
                            TypeError,
                        >(e));
                        assert(out_notes_view(r) == output_notes_spec(w, g, ni, ki));
                    }
                    let ghost self_before_cache = *self;
                    self.cache_output(n, k, &r);
                    proof {
                        lemma_extends_trans(old(self), &self_before_cache, self);
                    }
                    return r;
                },
                Ok(pn) => pn,
            };
            // The input analysis succeeded, so its declared type parsed.
            let slot = &nt.inputs[i];
            proof {
                assert(slot@ == input_slot(w, g, ni, i as int));
            }
            let declared = match &slot.value_type {
                Ok(d) => d,
                Err(_) => {
                    proof {
                        assert(valid_input_port(w, g, ni, i as int));
                        assert(input_slot(w, g, ni, i as int).ty is Err);
                        assert(spec_analyze_input(w, g, ni, i as int, glen) is Err);
                        assert(false);
                    }
                    let r = Err(TypeError::MissingNodeType);
                    self.cache_output(n, k, &r);
                    return r;
                },
            };
            // Absorb this input's formal arguments into the excess set.
            let ghost pnv = pn.formal_type@.inputs;
            let ghost dv = vt_view(*declared).inputs;
            let ghost target2 = merge_excess(acc_v, pnv, dv);
            proof {
                crate::typetypes::lemma_args_view(pn.formal_type.inputs@);
                assert(pnv.skip(0) =~= pnv);
                assert(acc_v == args_view(acc@));
            }
            let plen = pn.formal_type.inputs.len();
            let mut j: usize = 0;
            while j < plen
                invariant
                    self.inv(),
                    self.spec_world() == w,
                    self.spec_graph() == g,
                    Self::cache_extends(self, old(self)),
                    j <= plen,
                    plen == pn.formal_type.inputs@.len(),
                    pnv == pn.formal_type@.inputs,
                    pnv.len() == plen,
                    dv == vt_view(*declared).inputs,
                    target2 == merge_excess(acc_v, pnv, dv),
                    merge_excess(args_view(acc@), pnv.skip(j as int), dv) == target2,
                decreases plen - j,
            {
                proof {
                    crate::typetypes::lemma_args_view(pn.formal_type.inputs@);
                    assert(pnv[j as int] == arg_view(pn.formal_type.inputs@[j as int]));
                    assert(pnv.skip(j as int)[0] == pnv[j as int]);
                    assert(pnv.skip(j as int).drop_first() =~= pnv.skip(j as int + 1));
                }
                let a = &pn.formal_type.inputs[j];
                let in_declared = crate::typetypes::args_find(&declared.inputs, a.name.as_str());
                match in_declared {
                    Some(_) => {},
                    None => {
                        match crate::typetypes::args_find(&acc, a.name.as_str()) {
                            Some(idx) => {
                                if !crate::typetypes::value_type_eq(&acc[idx].ty, &a.ty) {
                                    let r = Err(TypeError::ConflictingExcessArgument);
                                    proof {
                                        assert(target2 == Err::<ArgsV, TypeError>(
                                            TypeError::ConflictingExcessArgument,
                                        ));
                                        assert(collect_excess(w, g, ni, i as int, acc_v, glen)
                                            == Err::<ArgsV, TypeError>(
                                            TypeError::ConflictingExcessArgument,
                                        ));
                                        assert(out_notes_view(r) == output_notes_spec(
                                            w,
                                            g,
                                            ni,
                                            ki,
                                        ));
                                    }
                                    let ghost self_before_cache = *self;
                                    self.cache_output(n, k, &r);
                                    proof {
                                        lemma_extends_trans(old(self), &self_before_cache, self);
                                    }
                                    return r;
                                }
                            },
                            None => {
                                crate::typetypes::args_insert(
                                    &mut acc,
                                    clone_string(&a.name),
                                    a.ty.clone(),
                                );
                            },
                        }
                    },
                }
                j = j + 1;
            }
            proof {
                assert(pnv.skip(plen as int).len() == 0);
                assert(target2 == Ok::<ArgsV, TypeError>(args_view(acc@)));
                assert(collect_excess(w, g, ni, i as int, acc_v, glen) == collect_excess(
                    w,
                    g,
                    ni,
                    i as int + 1,
                    args_view(acc@),
                    glen,
                ));
            }
            i = i + 1;
        }
        proof {
            assert(collect_excess(w, g, ni, m as int, args_view(acc@), glen) == Ok::<
                ArgsV,
                TypeError,
            >(args_view(acc@)));
        }
        let ghost collected = args_view(acc@);

        let inputs_param = clone_args(&acc);

        // Union the declared output arguments into the excess arguments.
        let ghost outv = vt_view(*out_vt).inputs;
        let ghost target3 = merge_out(collected, outv);
        proof {
            crate::typetypes::lemma_args_view(out_vt.inputs@);
            assert(outv.skip(0) =~= outv);
        }
        let p = out_vt.inputs.len();
        let mut j: usize = 0;
        while j < p
            invariant
                graph_wf(g, w),
                w == world@,
                g == graph@,
                self.inv(),
                self.spec_world() == w,
                self.spec_graph() == g,
                Self::cache_extends(self, old(self)),
                n == val_ref.node.id,
                k == val_ref.output_index,
                ni == n as int,
                ki == k as int,
                n < g.len(),
                glen == g.len() as nat,
                valid_output_port(w, g, ni, ki),
                j <= p,
                p == out_vt.inputs@.len(),
                outv == vt_view(*out_vt).inputs,
                outv.len() == p,
                target3 == merge_out(collected, outv),
                merge_out(args_view(acc@), outv.skip(j as int)) == target3,
            decreases p - j,
        {
            proof {
                crate::typetypes::lemma_args_view(out_vt.inputs@);
                assert(outv[j as int] == arg_view(out_vt.inputs@[j as int]));
                assert(outv.skip(j as int)[0] == outv[j as int]);
                assert(outv.skip(j as int).drop_first() =~= outv.skip(j as int + 1));
            }
            let a = &out_vt.inputs[j];
            match crate::typetypes::args_find(&acc, a.name.as_str()) {
                Some(idx) => {
                    if !crate::typetypes::value_type_eq(&acc[idx].ty, &a.ty) {
                        let r = Err(TypeError::ConflictingExcessArgument);
                        proof {
                            assert(target3 == Err::<ArgsV, TypeError>(
                                TypeError::ConflictingExcessArgument,
                            ));
                            assert(out_notes_view(r) == output_notes_spec(w, g, ni, ki));
                        }
                        let ghost self_before_cache = *self;
                        self.cache_output(n, k, &r);
                        proof {
                            lemma_extends_trans(old(self), &self_before_cache, self);
                        }
                        return r;
                    }
                },
                None => {
                    crate::typetypes::args_insert(&mut acc, clone_string(&a.name), a.ty.clone());
                },
            }
            j = j + 1;
        }
        proof {
            assert(outv.skip(p as int).len() == 0);
            assert(target3 == Ok::<ArgsV, TypeError>(args_view(acc@)));
        }

        let r = Ok(
            OutputTypeNotes {
                formal_type: ValueType { inputs: acc, output: out_vt.output },
                step_computation_requires: clone_args(&out_vt.inputs),
                inputs_parameterized_by: inputs_param,
            },
        );
        proof {
            assert(out_notes_view(r) == output_notes_spec(w, g, ni, ki));
        }
        let ghost self_before_cache = *self;
        self.cache_output(n, k, &r);
        proof {
            lemma_extends_trans(old(self), &self_before_cache, self);
        }
        r
    }
}

impl NodeGraphFormalTypeAnalysis {
    /// Analyzes every port of every node of the graph against the registry.
    /// Memoization makes the walk linear in graph size; per-port failures
    /// are stored like results and do not stop the pass.
    #[verifier::loop_isolation(false)]
    pub fn analyze(graph: &NodeGraph, world: &SimpleTypeWorld) -> (r: NodeGraphFormalTypeAnalysis)
        requires
            graph_wf(graph@, world@),
        ensures
            r.inv(),
            r.spec_world() == world@,
            r.spec_graph() == graph@,
            r.complete(),
    {
        let ghost w = world@;
        let ghost g = graph@;
        let nn = graph.nodes.len();

        let mut input_rows: Vec<Vec<Option<MaybeInputTypeNotes>>> = Vec::new();
        let mut output_rows: Vec<Vec<Option<MaybeOutputTypeNotes>>> = Vec::new();
        for n in 0..nn
            invariant
                input_rows@.len() == n,
                output_rows@.len() == n,
                forall|m: int|
                    0 <= m < n ==> (#[trigger] input_rows@[m])@.len()
                        == w[g[m].ty].1.inputs.len(),
                forall|m: int|
                    0 <= m < n ==> (#[trigger] output_rows@[m])@.len()
                        == w[g[m].ty].1.outputs.len(),
                forall|m: int, i: int|
                    0 <= m < n && 0 <= i < input_rows@[m]@.len() ==> (
                    #[trigger] input_rows@[m]@[i]) is None,
                forall|m: int, i: int|
                    0 <= m < n && 0 <= i < output_rows@[m]@.len() ==> (
                    #[trigger] output_rows@[m]@[i]) is None,
        {
            let node = &graph.nodes[n];
            proof {
                assert(node_wf(g, w, n as int));
                assert(node@ == g[n as int]);
            }
            let tyi = node.node_type.index();
            let nt = &world.node_types[tyi].1;
            proof {
                assert(nt@ == w[g[n as int].ty].1);
            }
            let mut irow: Vec<Option<MaybeInputTypeNotes>> = Vec::new();
            let mi = nt.inputs.len();
            for i in 0..mi
                invariant
                    irow@.len() == i,
                    forall|j: int| 0 <= j < i ==> (#[trigger] irow@[j]) is None,
            {
                irow.push(None);
            }
            let mut orow: Vec<Option<MaybeOutputTypeNotes>> = Vec::new();
            let mo = nt.outputs.len();
            for i in 0..mo
                invariant
                    orow@.len() == i,
                    forall|j: int| 0 <= j < i ==> (#[trigger] orow@[j]) is None,
            {
                orow.push(None);
            }
            input_rows.push(irow);
            output_rows.push(orow);
        }

        let mut analysis = NodeGraphFormalTypeAnalysis {
            input_type_notes: input_rows,
            output_type_notes: output_rows,
            world: Ghost(w),
            graph: Ghost(g),
        };
        proof {
            assert(analysis.inv());
        }

        let fuel = nn;
        for n in 0..nn
            invariant
                analysis.inv(),
                analysis.spec_world() == w,
                analysis.spec_graph() == g,
                analysis.input_type_notes@.len() == g.len(),
                analysis.output_type_notes@.len() == g.len(),
                forall|m: int, i: int|
                    0 <= m < n && 0 <= i < analysis.input_type_notes@[m]@.len() ==> (
                    #[trigger] analysis.input_type_notes@[m]@[i]) is Some,
                forall|m: int, k: int|
                    0 <= m < n && 0 <= k < analysis.output_type_notes@[m]@.len() ==> (
                    #[trigger] analysis.output_type_notes@[m]@[k]) is Some,
        {
            let node = &graph.nodes[n];
            proof {
                assert(node_wf(g, w, n as int));
                assert(node@ == g[n as int]);
            }
            let tyi = node.node_type.index();
            let nt = &world.node_types[tyi].1;
            proof {
                assert(nt@ == w[g[n as int].ty].1);
            }
            let mi = nt.inputs.len();
            for i in 0..mi
                invariant
                    analysis.inv(),
                    analysis.spec_world() == w,
                    analysis.spec_graph() == g,
                    analysis.input_type_notes@.len() == g.len(),
                    analysis.output_type_notes@.len() == g.len(),
                    forall|m: int, i2: int|
                        0 <= m < n && 0 <= i2 < analysis.input_type_notes@[m]@.len() ==> (
                        #[trigger] analysis.input_type_notes@[m]@[i2]) is Some,
                    forall|m: int, k: int|
                        0 <= m < n && 0 <= k < analysis.output_type_notes@[m]@.len() ==> (
                        #[trigger] analysis.output_type_notes@[m]@[k]) is Some,
                    forall|i2: int|
                        0 <= i2 < i ==> (#[trigger] analysis.input_type_notes@[n as int]@[i2]) is Some,
            {
                let ghost pre = analysis;
                let _ = analysis.analyze_single_input(
                    graph,
                    world,
                    NodeInputReference { source_node: NodeRef { id: n }, input_ind: i },
                    fuel,
                );
                proof {
                    assert(valid_input_port(w, g, n as int, i as int));
                    assert forall|m: int, i2: int|
                        0 <= m < g.len() && 0 <= i2 < analysis.input_type_notes@[m]@.len() && (
                        #[trigger] pre.input_type_notes@[m]@[i2]) is Some implies analysis.input_type_notes@[m]@[i2] is Some by {}
                    assert forall|m: int, k2: int|
                        0 <= m < g.len() && 0 <= k2 < analysis.output_type_notes@[m]@.len() && (
                        #[trigger] pre.output_type_notes@[m]@[k2]) is Some implies analysis.output_type_notes@[m]@[k2] is Some by {}
                    assert forall|m: int, i2: int|
                        0 <= m < n && 0 <= i2 < analysis.input_type_notes@[m]@.len() implies (
                        #[trigger] analysis.input_type_notes@[m]@[i2]) is Some by {
                        assert(pre.input_type_notes@[m]@[i2] is Some);
                    }
                    assert forall|m: int, k2: int|
                        0 <= m < n && 0 <= k2 < analysis.output_type_notes@[m]@.len() implies (
                        #[trigger] analysis.output_type_notes@[m]@[k2]) is Some by {
                        assert(pre.output_type_notes@[m]@[k2] is Some);
                    }
                    assert forall|i2: int|
                        0 <= i2 < i + 1 implies (
                        #[trigger] analysis.input_type_notes@[n as int]@[i2]) is Some by {
                        if i2 < i {
                            assert(pre.input_type_notes@[n as int]@[i2] is Some);
                        }
                    }
                }
            }
            let mo = nt.outputs.len();
            for k in 0..mo
                invariant
                    analysis.inv(),
                    analysis.spec_world() == w,
                    analysis.spec_graph() == g,
                    analysis.input_type_notes@.len() == g.len(),
                    analysis.output_type_notes@.len() == g.len(),
                    forall|m: int, i2: int|
                        0 <= m < n && 0 <= i2 < analysis.input_type_notes@[m]@.len() ==> (
                        #[trigger] analysis.input_type_notes@[m]@[i2]) is Some,
                    forall|m: int, k2: int|
                        0 <= m < n && 0 <= k2 < analysis.output_type_notes@[m]@.len() ==> (
                        #[trigger] analysis.output_type_notes@[m]@[k2]) is Some,
                    forall|i2: int|
                        0 <= i2 < mi ==> (#[trigger] analysis.input_type_notes@[n as int]@[i2]) is Some,
                    forall|k2: int|
                        0 <= k2 < k ==> (#[trigger] analysis.output_type_notes@[n as int]@[k2]) is Some,
            {
                let ghost pre = analysis;
                let _ = analysis.analyze_single_output(
                    graph,
                    world,
                    ValueRef { node: NodeRef { id: n }, output_index: k },
                    fuel,
                );
                proof {
                    assert(valid_output_port(w, g, n as int, k as int));
                    assert forall|m: int, i2: int|
                        0 <= m < g.len() && 0 <= i2 < analysis.input_type_notes@[m]@.len() && (
                        #[trigger] pre.input_type_notes@[m]@[i2]) is Some implies analysis.input_type_notes@[m]@[i2] is Some by {}
                    assert forall|m: int, k2: int|
                        0 <= m < g.len() && 0 <= k2 < analysis.output_type_notes@[m]@.len() && (
                        #[trigger] pre.output_type_notes@[m]@[k2]) is Some implies analysis.output_type_notes@[m]@[k2] is Some by {}
                    assert forall|m: int, i2: int|
                        0 <= m < n && 0 <= i2 < analysis.input_type_notes@[m]@.len() implies (
                        #[trigger] analysis.input_type_notes@[m]@[i2]) is Some by {
                        assert(pre.input_type_notes@[m]@[i2] is Some);
                    }
                    assert forall|m: int, k2: int|
                        0 <= m < n && 0 <= k2 < analysis.output_type_notes@[m]@.len() implies (
                        #[trigger] analysis.output_type_notes@[m]@[k2]) is Some by {
                        assert(pre.output_type_notes@[m]@[k2] is Some);
                    }
                    assert forall|i2: int|
                        0 <= i2 < mi implies (
                        #[trigger] analysis.input_type_notes@[n as int]@[i2]) is Some by {
                        assert(pre.input_type_notes@[n as int]@[i2] is Some);
                    }
                    assert forall|k2: int|
                        0 <= k2 < k + 1 implies (
                        #[trigger] analysis.output_type_notes@[n as int]@[k2]) is Some by {
                        if k2 < k {
                            assert(pre.output_type_notes@[n as int]@[k2] is Some);
                        }
                    }
                }
            }
        }
        analysis
    }

    /// The cached notes of input `input_ind` of `source_node`, or `None`
    /// where no such port exists.
    pub fn input_notes(&self, source_node: NodeRef, input_ind: usize) -> (r: Option<
        &MaybeInputTypeNotes,
    >)
        ensures
            self.inv() ==> match r {
                Some(e) => in_notes_view(*e) == input_notes_spec(
                    self.spec_world(),
                    self.spec_graph(),
                    source_node.id as int,
                    input_ind as int,
                ),
                None => self.complete() ==> !valid_input_port(
                    self.spec_world(),
                    self.spec_graph(),
                    source_node.id as int,
                    input_ind as int,
                ),
            },
    {
        if source_node.id < self.input_type_notes.len() {
            let row = &self.input_type_notes[source_node.id];
            if input_ind < row.len() {
                match &row[input_ind] {
                    Some(e) => Some(e),
                    None => None,
                }
            } else {
                None
            }
        } else {
            None
        }
    }

    /// The cached notes of one output port, or `None` where no such port
    /// exists.
    pub fn output_notes(&self, val_ref: ValueRef) -> (r: Option<&MaybeOutputTypeNotes>)
        ensures
            self.inv() ==> match r {
                Some(e) => out_notes_view(*e) == output_notes_spec(
                    self.spec_world(),
                    self.spec_graph(),
                    val_ref.node.id as int,
                    val_ref.output_index as int,
                ),
                None => self.complete() ==> !valid_output_port(
                    self.spec_world(),
                    self.spec_graph(),
                    val_ref.node.id as int,
                    val_ref.output_index as int,
                ),
            },
    {
        if val_ref.node.id < self.output_type_notes.len() {
            let row = &self.output_type_notes[val_ref.node.id];
            if val_ref.output_index < row.len() {
                match &row[val_ref.output_index] {
                    Some(e) => Some(e),
                    None => None,
                }
            } else {
                None
            }
        } else {
            None
        }
    }
}

// ----------------------------------------------------------------------
// Laws of the analysis.

/// In a sorted list the first name does not recur, and the tail is sorted.
proof fn lemma_sorted_head(al: ArgsV)
    requires
        al_sorted(al),
        al.len() > 0,
    ensures
        !al_has(al.drop_first(), al[0].0),
        al_sorted(al.drop_first()),
{
    assert forall|i: int, j: int|
        0 <= i < j < al.drop_first().len() implies lex_lt(
        #[trigger] al.drop_first()[i].0,
        #[trigger] al.drop_first()[j].0,
    ) by {
        assert(al.drop_first()[i] == al[i + 1]);
        assert(al.drop_first()[j] == al[j + 1]);
    }
    crate::typetypes::lemma_al_index(al.drop_first(), al[0].0);
    if al_has(al.drop_first(), al[0].0) {
        let i = choose|i: int| 0 <= i < al.drop_first().len() && al.drop_first()[i].0 == al[0].0;
        assert(al.drop_first()[i] == al[i + 1]);
        assert(lex_lt(al[0].0, al[i + 1].0));
        crate::text::lemma_lex_lt_trichotomy(al[0].0, al[i + 1].0);
        assert(false);
    }
}

/// What a successful promotion binds that the accumulators did not: exactly
/// the names of the declared arguments, at their declared types, and it
/// never unbinds or changes anything else.
proof fn lemma_promote_args_ok(spec_args: ArgsV, actual: ArgsV, acc_r: ArgsV, acc_a: ArgsV)
    requires
        al_sorted(spec_args),
        promote_args(spec_args, actual, acc_r, acc_a) is Ok,
    ensures
        ({
            let res = promote_args(spec_args, actual, acc_r, acc_a)->Ok_0.0;
            &&& forall|m: Seq<char>|
                al_has(res, m) <==> al_has(acc_r, m) || (al_has(spec_args, m) && !al_has(
                    actual,
                    m,
                ))
            &&& forall|p: int|
                0 <= p < spec_args.len() && !al_has(acc_r, spec_args[p].0) && !al_has(
                    actual,
                    spec_args[p].0,
                ) ==> al_get(res, #[trigger] spec_args[p].0) == spec_args[p].1
            &&& forall|m: Seq<char>|
                al_has(acc_r, m) && !al_has(spec_args, m) ==> al_get(res, m) == al_get(acc_r, m)
        }),
    decreases spec_args.len(),
{
    if spec_args.len() > 0 {
        let (an, at) = spec_args[0];
        lemma_sorted_head(spec_args);
        crate::typetypes::lemma_al_index(spec_args, an);
        if !al_has(actual, an) {
            lemma_promote_args_ok(
                spec_args.drop_first(),
                actual,
                al_insert(acc_r, an, at),
                al_insert(acc_a, an, at),
            );
            crate::typetypes::lemma_al_insert(acc_r, an, at);
            let res = promote_args(spec_args, actual, acc_r, acc_a)->Ok_0.0;
            let res2 = promote_args(
                spec_args.drop_first(),
                actual,
                al_insert(acc_r, an, at),
                al_insert(acc_a, an, at),
            )->Ok_0.0;
            assert(res == res2);
            assert forall|m: Seq<char>|
                al_has(res, m) <==> al_has(acc_r, m) || (al_has(spec_args, m) && !al_has(
                    actual,
                    m,
                )) by {
                assert(al_has(res2, m) <==> al_has(al_insert(acc_r, an, at), m) || (al_has(
                    spec_args.drop_first(),
                    m,
                ) && !al_has(actual, m)));
                crate::typetypes::lemma_al_index(spec_args, m);
                crate::typetypes::lemma_al_index(spec_args.drop_first(), m);
                if m != an && al_has(spec_args, m) {
                    let q = choose|q: int| 0 <= q < spec_args.len() && spec_args[q].0 == m;
                    assert(spec_args.drop_first()[q - 1].0 == m);
                }
                if al_has(spec_args.drop_first(), m) {
                    let q = choose|q: int|
                        0 <= q < spec_args.drop_first().len() && spec_args.drop_first()[q].0 == m;
                    assert(spec_args[q + 1].0 == m);
                }
            }
            assert forall|p: int|
                0 <= p < spec_args.len() && !al_has(acc_r, spec_args[p].0) && !al_has(
                    actual,
                    spec_args[p].0,
                ) implies al_get(res, #[trigger] spec_args[p].0) == spec_args[p].1 by {
                if p == 0 {
                    assert(!al_has(spec_args.drop_first(), an));
                    assert(al_get(res, an) == al_get(al_insert(acc_r, an, at), an));
                } else {
                    assert(spec_args.drop_first()[p - 1] == spec_args[p]);
                    if spec_args[p].0 == an {
                        crate::typetypes::lemma_al_index(spec_args.drop_first(), an);
                        assert(false);
                    }
                }
            }
        } else {
            lemma_promote_args_ok(spec_args.drop_first(), actual, acc_r, acc_a);
            let res = promote_args(spec_args, actual, acc_r, acc_a)->Ok_0.0;
            let res2 = promote_args(spec_args.drop_first(), actual, acc_r, acc_a)->Ok_0.0;
            assert(res == res2);
            assert forall|m: Seq<char>|
                al_has(res, m) <==> al_has(acc_r, m) || (al_has(spec_args, m) && !al_has(
                    actual,
                    m,
                )) by {
                assert(al_has(res2, m) <==> al_has(acc_r, m) || (al_has(
                    spec_args.drop_first(),
                    m,
                ) && !al_has(actual, m)));
                if m != an && al_has(spec_args, m) {
                    crate::typetypes::lemma_al_index(spec_args, m);
                    let q = choose|q: int| 0 <= q < spec_args.len() && spec_args[q].0 == m;
                    assert(spec_args.drop_first()[q - 1].0 == m);
                    crate::typetypes::lemma_al_index(spec_args.drop_first(), m);
                }
                if al_has(spec_args.drop_first(), m) {
                    crate::typetypes::lemma_al_index(spec_args.drop_first(), m);
                    let q = choose|q: int|
                        0 <= q < spec_args.drop_first().len() && spec_args.drop_first()[q].0 == m;
                    assert(spec_args[q + 1].0 == m);
                    crate::typetypes::lemma_al_index(spec_args, m);
                }
            }
            assert forall|p: int|
                0 <= p < spec_args.len() && !al_has(acc_r, spec_args[p].0) && !al_has(
                    actual,
                    spec_args[p].0,
                ) implies al_get(res, #[trigger] spec_args[p].0) == spec_args[p].1 by {
                assert(spec_args[p].0 != an);
                assert(spec_args.drop_first()[p - 1] == spec_args[p]);
            }
        }
    }
}

/// Monotone promotion: at a connected input whose notes come from an
/// upstream output, the formal type binds every argument name the input's
/// declaration binds; a name the upstream did not carry is bound at its
/// declared type.
pub proof fn lemma_monotone_promotion(w: WorldV, g: GraphV, n: int, i: int)
    requires
        input_notes_spec(w, g, n, i) is Ok,
        input_notes_spec(w, g, n, i)->Ok_0.type_source is FromOutput,
        input_slot(w, g, n, i).ty is Ok,
        tv_wf(input_slot(w, g, n, i).ty->Ok_0),
    ensures
        ({
            let notes = input_notes_spec(w, g, n, i)->Ok_0;
            let declared = input_slot(w, g, n, i).ty->Ok_0;
            forall|p: int|
                0 <= p < declared.inputs.len() ==> al_has(
                    notes.formal_type.inputs,
                    #[trigger] declared.inputs[p].0,
                )
        }),
{
    let glen = g.len() as nat;
    let notes = input_notes_spec(w, g, n, i)->Ok_0;
    let declared = input_slot(w, g, n, i).ty->Ok_0;
    let vref = g[n].inputs[i]->Some_0;
    let actual = spec_analyze_output(w, g, vref.0, vref.1, (glen - 1) as nat)->Ok_0;
    lemma_promote_args_ok(
        declared.inputs,
        actual.formal_type.inputs,
        actual.formal_type.inputs,
        Seq::empty(),
    );
    assert forall|p: int|
        0 <= p < declared.inputs.len() implies al_has(
        notes.formal_type.inputs,
        #[trigger] declared.inputs[p].0,
    ) by {
        crate::typetypes::lemma_al_index(declared.inputs, declared.inputs[p].0);
    }
}

/// Free-variable self-reference: at an unconnected input, the formal type
/// binds an argument named after the input itself, carrying the declared
/// type, and the provenance records the same pair.
pub proof fn lemma_free_variable_self_reference(w: WorldV, g: GraphV, n: int, i: int)
    requires
        valid_input_port(w, g, n, i),
        g[n].inputs[i] is None,
        input_slot(w, g, n, i).ty is Ok,
    ensures
        input_notes_spec(w, g, n, i) is Ok,
        ({
            let notes = input_notes_spec(w, g, n, i)->Ok_0;
            let slot = input_slot(w, g, n, i);
            let declared = slot.ty->Ok_0;
            &&& al_has(notes.formal_type.inputs, slot.name)
            &&& al_get(notes.formal_type.inputs, slot.name) == declared
            &&& notes.type_source matches InputSourceV::FreeVariable(fv) && fv.itself == (
                slot.name,
                declared,
            )
        }),
{
    let slot = input_slot(w, g, n, i);
    let declared = slot.ty->Ok_0;
    let glen = g.len() as nat;
    assert(input_notes_spec(w, g, n, i) == spec_analyze_input(w, g, n, i, glen));
    assert(slot.ty == Ok::<TypeV, TypeError>(declared));
    assert(spec_analyze_input(w, g, n, i, glen) == Ok::<InputNotesV, TypeError>(
        InputNotesV {
            formal_type: TypeV {
                inputs: al_insert(declared.inputs, slot.name, declared),
                output: declared.output,
            },
            type_source: InputSourceV::FreeVariable(
                FreeVariableSourceV { types_from_fv: declared.inputs, itself: (slot.name, declared) },
            ),
        },
    ));
    let notes = input_notes_spec(w, g, n, i)->Ok_0;
    assert(notes.formal_type.inputs == al_insert(declared.inputs, slot.name, declared));
    crate::typetypes::lemma_al_insert(declared.inputs, slot.name, declared);
    assert(al_has(al_insert(declared.inputs, slot.name, declared), slot.name));
}

/// Primitive preservation: successful output notes carry the declared
/// output primitive.
pub proof fn lemma_primitive_preservation(w: WorldV, g: GraphV, n: int, k: int)
    requires
        output_notes_spec(w, g, n, k) is Ok,
    ensures
        output_slot(w, g, n, k).ty is Ok,
        output_notes_spec(w, g, n, k)->Ok_0.formal_type.output == output_slot(
            w,
            g,
            n,
            k,
        ).ty->Ok_0.output,
{
}

/// The declared arguments of an input slot; an unparsed slot declares none.
pub open spec fn declared_input_args(w: WorldV, g: GraphV, n: int, i: int) -> ArgsV {
    match input_slot(w, g, n, i).ty {
        Ok(t) => t.inputs,
        Err(_) => Seq::empty(),
    }
}

/// A successful excess merge keeps everything it had and binds every
/// formal argument name the declaration does not consume.
proof fn lemma_merge_excess_ok(acc: ArgsV, f: ArgsV, d: ArgsV)
    requires
        merge_excess(acc, f, d) is Ok,
    ensures
        ({
            let r = merge_excess(acc, f, d)->Ok_0;
            &&& forall|m: Seq<char>| al_has(acc, m) ==> al_has(r, m)
            &&& forall|p: int|
                0 <= p < f.len() && !al_has(d, f[p].0) ==> al_has(r, #[trigger] f[p].0)
        }),
    decreases f.len(),
{
    if f.len() > 0 {
        let (an, at) = f[0];
        let r = merge_excess(acc, f, d)->Ok_0;
        if al_has(d, an) {
            lemma_merge_excess_ok(acc, f.drop_first(), d);
            assert forall|p: int|
                0 <= p < f.len() && !al_has(d, f[p].0) implies al_has(r, #[trigger] f[p].0) by {
                assert(f.drop_first()[p - 1] == f[p]);
            }
        } else if al_has(acc, an) {
            lemma_merge_excess_ok(acc, f.drop_first(), d);
            assert forall|p: int|
                0 <= p < f.len() && !al_has(d, f[p].0) implies al_has(r, #[trigger] f[p].0) by {
                if p > 0 {
                    assert(f.drop_first()[p - 1] == f[p]);
                }
            }
        } else {
            crate::typetypes::lemma_al_insert(acc, an, at);
            lemma_merge_excess_ok(al_insert(acc, an, at), f.drop_first(), d);
            let r2 = merge_excess(al_insert(acc, an, at), f.drop_first(), d)->Ok_0;
            assert(r == r2);
            assert forall|m: Seq<char>| al_has(acc, m) implies al_has(r, m) by {
                assert(al_has(al_insert(acc, an, at), m));
            }
            assert forall|p: int|
                0 <= p < f.len() && !al_has(d, f[p].0) implies al_has(r, #[trigger] f[p].0) by {
                if p == 0 {
                    assert(al_has(al_insert(acc, an, at), an));
                } else {
                    assert(f.drop_first()[p - 1] == f[p]);
                }
            }
        }
    }
}

/// A successful union with the declared output arguments keeps everything
/// and binds every declared output argument name.
proof fn lemma_merge_out_ok(acc: ArgsV, o: ArgsV)
    requires
        merge_out(acc, o) is Ok,
    ensures
        ({
            let r = merge_out(acc, o)->Ok_0;
            &&& forall|m: Seq<char>| al_has(acc, m) ==> al_has(r, m)
            &&& forall|p: int| 0 <= p < o.len() ==> al_has(r, #[trigger] o[p].0)
        }),
    decreases o.len(),
{
    if o.len() > 0 {
        let (an, at) = o[0];
        let r = merge_out(acc, o)->Ok_0;
        if al_has(acc, an) {
            lemma_merge_out_ok(acc, o.drop_first());
            assert forall|p: int| 0 <= p < o.len() implies al_has(r, #[trigger] o[p].0) by {
                if p > 0 {
                    assert(o.drop_first()[p - 1] == o[p]);
                }
            }
        } else {
            crate::typetypes::lemma_al_insert(acc, an, at);
            lemma_merge_out_ok(al_insert(acc, an, at), o.drop_first());
            let r2 = merge_out(al_insert(acc, an, at), o.drop_first())->Ok_0;
            assert(r == r2);
            assert forall|m: Seq<char>| al_has(acc, m) implies al_has(r, m) by {
                assert(al_has(al_insert(acc, an, at), m));
            }
            assert forall|p: int| 0 <= p < o.len() implies al_has(r, #[trigger] o[p].0) by {
                if p == 0 {
                    assert(al_has(al_insert(acc, an, at), an));
                } else {
                    assert(o.drop_first()[p - 1] == o[p]);
                }
            }
        }
    }
}

/// A successful excess walk analyzes every remaining input successfully and
/// binds, for each of them, every formal argument its declaration does not
/// consume; it keeps everything it had.
proof fn lemma_collect_ok(w: WorldV, g: GraphV, n: int, i: int, acc: ArgsV, fuel: nat)
    requires
        collect_excess(w, g, n, i, acc, fuel) is Ok,
        0 <= i,
    ensures
        ({
            let r = collect_excess(w, g, n, i, acc, fuel)->Ok_0;
            &&& forall|m: Seq<char>| al_has(acc, m) ==> al_has(r, m)
            &&& forall|i2: int|
                i <= i2 < w[g[n].ty].1.inputs.len() ==> (#[trigger] spec_analyze_input(
                    w,
                    g,
                    n,
                    i2,
                    fuel,
                )) is Ok
            &&& forall|i2: int, p: int|
                i <= i2 < w[g[n].ty].1.inputs.len() && 0 <= p < spec_analyze_input(
                    w,
                    g,
                    n,
                    i2,
                    fuel,
                )->Ok_0.formal_type.inputs.len() && !al_has(
                    declared_input_args(w, g, n, i2),
                    spec_analyze_input(w, g, n, i2, fuel)->Ok_0.formal_type.inputs[p].0,
                ) ==> al_has(
                    r,
                    #[trigger] spec_analyze_input(w, g, n, i2, fuel)->Ok_0.formal_type.inputs[p].0,
                )
        }),
    decreases w[g[n].ty].1.inputs.len() - i,
{
    let len = w[g[n].ty].1.inputs.len();
    if i < len {
        let r = collect_excess(w, g, n, i, acc, fuel)->Ok_0;
        let pn = spec_analyze_input(w, g, n, i, fuel)->Ok_0;
        let acc2 = merge_excess(acc, pn.formal_type.inputs, declared_input_args(w, g, n, i))->Ok_0;
        lemma_merge_excess_ok(acc, pn.formal_type.inputs, declared_input_args(w, g, n, i));
        lemma_collect_ok(w, g, n, i + 1, acc2, fuel);
        let r2 = collect_excess(w, g, n, i + 1, acc2, fuel)->Ok_0;
        assert(r == r2);
    }
}

/// Parameter propagation: successful output notes bind, for every input of
/// the node, every argument of that input's formal type that the input's
/// own declaration does not consume, and every declared argument of the
/// output's own arrow. Every input's analysis succeeded on the way.
pub proof fn lemma_parameter_propagation(w: WorldV, g: GraphV, n: int, k: int)
    requires
        output_notes_spec(w, g, n, k) is Ok,
    ensures
        ({
            let onotes = output_notes_spec(w, g, n, k)->Ok_0;
            &&& forall|i2: int|
                0 <= i2 < w[g[n].ty].1.inputs.len() ==> (#[trigger] input_notes_spec(
                    w,
                    g,
                    n,
                    i2,
                )) is Ok
            &&& forall|i2: int, p: int|
                0 <= i2 < w[g[n].ty].1.inputs.len() && 0 <= p < input_notes_spec(
                    w,
                    g,
                    n,
                    i2,
                )->Ok_0.formal_type.inputs.len() && !al_has(
                    declared_input_args(w, g, n, i2),
                    input_notes_spec(w, g, n, i2)->Ok_0.formal_type.inputs[p].0,
                ) ==> al_has(
                    onotes.formal_type.inputs,
                    #[trigger] input_notes_spec(w, g, n, i2)->Ok_0.formal_type.inputs[p].0,
                )
            &&& forall|p: int|
                0 <= p < output_slot(w, g, n, k).ty->Ok_0.inputs.len() ==> al_has(
                    onotes.formal_type.inputs,
                    #[trigger] output_slot(w, g, n, k).ty->Ok_0.inputs[p].0,
                )
        }),
{
    let glen = g.len() as nat;
    let onotes = output_notes_spec(w, g, n, k)->Ok_0;
    let out_vt = output_slot(w, g, n, k).ty->Ok_0;
    let excess = collect_excess(w, g, n, 0, Seq::empty(), glen)->Ok_0;
    lemma_collect_ok(w, g, n, 0, Seq::empty(), glen);
    lemma_merge_out_ok(excess, out_vt.inputs);
}

/// Determinism: two analyses of the same graph against the same registry
/// carry the same notes on every port. In particular, re-analyzing an
/// unchanged graph yields the same products as the first run.
pub proof fn lemma_analysis_deterministic(
    a1: &NodeGraphFormalTypeAnalysis,
    a2: &NodeGraphFormalTypeAnalysis,
)
    requires
        a1.inv(),
        a2.inv(),
        a1.spec_world() == a2.spec_world(),
        a1.spec_graph() == a2.spec_graph(),
    ensures
        forall|n: int, i: int|
            (#[trigger] a1.input_entry(n, i)) is Some && (#[trigger] a2.input_entry(n, i)) is Some
                && valid_input_port(a1.spec_world(), a1.spec_graph(), n, i) ==> in_notes_view(
                a1.input_entry(n, i)->Some_0,
            ) == in_notes_view(a2.input_entry(n, i)->Some_0),
        forall|n: int, k: int|
            (#[trigger] a1.output_entry(n, k)) is Some && (#[trigger] a2.output_entry(n, k)) is Some
                && valid_output_port(a1.spec_world(), a1.spec_graph(), n, k) ==> out_notes_view(
                a1.output_entry(n, k)->Some_0,
            ) == out_notes_view(a2.output_entry(n, k)->Some_0),
{
}
} // verus!
