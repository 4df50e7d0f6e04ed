//! The graph-construction surface language: expressions that name, build,
//! and wire node instances (`s = Add(a.value, b.value)`), and the evaluator
//! that materializes them into a `NodeGraph` against a registry.

use vstd::prelude::*;

verus! {

use crate::typetypes::TypeError;
use crate::nodegraph::{
    GraphV,
    Node,
    NodeGraph,
    NodeRef,
    NodeTypeRef,
    SimpleTypeWorld,
    ValueRef,
    WorldV,
    graph_wf,
    node_wf,
    world_find,
    NodeV,
};
use crate::type_parsing::Scanner;

/// One expression of the construction language.
#[derive(Debug)]
pub enum NodeExpression {
    /// A variable reference.
    Identifier(String),
    /// A float literal, kept as its source text.
    FloatLiteral(String),
    /// An integer literal.
    IntLiteral(i32),
    /// Binds a name to the value of an expression.
    Assignment(String, Box<NodeExpression>),
    /// Builds a node: type name, optional per-instance payload, arguments.
    Construction(String, Option<String>, Vec<NodeExpression>),
    /// An explicitly unconnected input, written `NULL`.
    FreeVariable,
    /// Selects a named output of a node.
    Output(Box<NodeExpression>, String),
}

/// A value the evaluator can bind to a name.
#[derive(Debug)]
pub enum Value {
    Float(String),
    Int(i32),
    NodeRef(NodeRef),
    ValueRef(Option<ValueRef>),
}

impl Clone for Value {
    fn clone(&self) -> (r: Self)
        ensures
            r@ == self@,
    {
        match self {
            Value::Float(s) => Value::Float(clone_string(s)),
            Value::Int(i) => Value::Int(*i),
            Value::NodeRef(n) => Value::NodeRef(*n),
            Value::ValueRef(v) => Value::ValueRef(*v),
        }
    }
}

/// Copies a string, keeping its characters.
fn clone_string(s: &String) -> (r: String)
    ensures
        r@ == s@,
{
    s.clone()
}

// ----------------------------------------------------------------------
// Mathematical models.

/// The model of an expression.
pub enum ExprV {
    Identifier(Seq<char>),
    FloatLiteral(Seq<char>),
    IntLiteral(i32),
    Assignment(Seq<char>, Box<ExprV>),
    Construction(Seq<char>, Option<Seq<char>>, Seq<ExprV>),
    FreeVariable,
    Output(Box<ExprV>, Seq<char>),
}

/// The model of one expression.
pub open spec fn expr_view(e: NodeExpression) -> ExprV
    decreases e,
{
    match e {
        NodeExpression::Identifier(s) => ExprV::Identifier(s@),
        NodeExpression::FloatLiteral(s) => ExprV::FloatLiteral(s@),
        NodeExpression::IntLiteral(i) => ExprV::IntLiteral(i),
        NodeExpression::Assignment(s, b) => ExprV::Assignment(s@, Box::new(expr_view(*b))),
        NodeExpression::Construction(s, x, args) => ExprV::Construction(
            s@,
            match x {
                Some(t) => Some(t@),
                None => None,
            },
            exprs_view(args@),
        ),
        NodeExpression::FreeVariable => ExprV::FreeVariable,
        NodeExpression::Output(b, s) => ExprV::Output(Box::new(expr_view(*b)), s@),
    }
}

/// The models of a sequence of expressions, in order.
pub open spec fn exprs_view(s: Seq<NodeExpression>) -> Seq<ExprV>
    decreases s,
{
    if s.len() == 0 {
        Seq::empty()
    } else {
        exprs_view(s.drop_last()).push(expr_view(s.last()))
    }
}

impl View for NodeExpression {
    type V = ExprV;

    open spec fn view(&self) -> ExprV {
        expr_view(*self)
    }
}

/// `exprs_view` is pointwise `expr_view`.
pub proof fn lemma_exprs_view(s: Seq<NodeExpression>)
    ensures
        exprs_view(s).len() == s.len(),
        forall|i: int| 0 <= i < s.len() ==> exprs_view(s)[i] == expr_view(s[i]),
    decreases s,
{
    if s.len() > 0 {
        lemma_exprs_view(s.drop_last());
    }
}

/// The model of a bindable value.
pub enum ValueV {
    Float(Seq<char>),
    Int(i32),
    NodeRef(int),
    ValueRef(Option<(int, int)>),
}

impl View for Value {
    type V = ValueV;

    open spec fn view(&self) -> ValueV {
        match self {
            Value::Float(s) => ValueV::Float(s@),
            Value::Int(i) => ValueV::Int(*i),
            Value::NodeRef(n) => ValueV::NodeRef(n.id as int),
            Value::ValueRef(v) => ValueV::ValueRef(
                match v {
                    Some(vr) => Some((vr.node.id as int, vr.output_index as int)),
                    None => None,
                },
            ),
        }
    }
}

/// The model of the evaluation scope: bindings in the order they were made;
/// the latest binding of a name is in force.
pub type EnvV = Seq<(Seq<char>, ValueV)>;

/// The value bound to a name: the latest binding.
pub open spec fn env_lookup(env: EnvV, name: Seq<char>) -> Option<ValueV>
    decreases env.len(),
{
    if env.len() == 0 {
        None
    } else if env.last().0 == name {
        Some(env.last().1)
    } else {
        env_lookup(env.drop_last(), name)
    }
}

/// The index of the output declared under `name`, searching from `k`.
pub open spec fn output_find(outs: Seq<crate::nodegraph::OutputInfoV>, name: Seq<char>, k: int) -> Option<int>
    decreases outs.len() - k,
{
    if !(0 <= k < outs.len()) {
        None
    } else if outs[k].name == Some(name) {
        Some(k)
    } else {
        output_find(outs, name, k + 1)
    }
}

/// Evaluation of one expression: the value it denotes, together with the
/// scope and the graph afterwards. An unbound name, an argument that is not
/// a value reference, a wrong argument count, or an unknown output name is
/// a parse failure; an unknown node-type name is a missing node type.
pub open spec fn spec_process(e: ExprV, env: EnvV, g: GraphV, w: WorldV) -> Result<
    (ValueV, EnvV, GraphV),
    TypeError,
>
    decreases e,
{
    match e {
        ExprV::Identifier(name) => match env_lookup(env, name) {
            Some(v) => Ok((v, env, g)),
            None => Err(TypeError::ParseFailure),
        },
        ExprV::FloatLiteral(t) => Ok((ValueV::Float(t), env, g)),
        ExprV::IntLiteral(i) => Ok((ValueV::Int(i), env, g)),
        ExprV::FreeVariable => Ok((ValueV::ValueRef(None), env, g)),
        ExprV::Assignment(name, b) => match spec_process(*b, env, g, w) {
            Err(e2) => Err(e2),
            Ok((v, env2, g2)) => Ok((v, env2.push((name, v)), g2)),
        },
        ExprV::Output(b, oname) => match spec_process(*b, env, g, w) {
            Err(e2) => Err(e2),
            Ok((v, env2, g2)) => match v {
                ValueV::NodeRef(nr) => {
                    if !(0 <= nr < g2.len() && 0 <= g2[nr].ty < w.len()) {
                        Err(TypeError::ParseFailure)
                    } else {
                        match output_find(w[g2[nr].ty].1.outputs, oname, 0) {
                            Some(k) => Ok((ValueV::ValueRef(Some((nr, k))), env2, g2)),
                            None => Err(TypeError::ParseFailure),
                        }
                    }
                },
                _ => Err(TypeError::ParseFailure),
            },
        },
        ExprV::Construction(tyname, extra, args) => match spec_process_args(args, env, g, w) {
            Err(e2) => Err(e2),
            Ok((refs, env2, g2)) => match world_find(w, tyname, 0) {
                None => Err(TypeError::MissingNodeType),
                Some(ti) => {
                    if refs.len() != w[ti].1.inputs.len() {
                        Err(TypeError::ParseFailure)
                    } else {
                        let node = NodeV { ty: ti, inputs: refs, extra };
                        Ok((ValueV::NodeRef(g2.len() as int), env2, g2.push(node)))
                    }
                },
            },
        },
    }
}

/// Evaluation of construction arguments, left to right: each must denote a
/// value reference (possibly the free variable).
pub open spec fn spec_process_args(args: Seq<ExprV>, env: EnvV, g: GraphV, w: WorldV) -> Result<
    (Seq<Option<(int, int)>>, EnvV, GraphV),
    TypeError,
>
    decreases args,
{
    if args.len() == 0 {
        Ok((Seq::empty(), env, g))
    } else {
        match spec_process(args[0], env, g, w) {
            Err(e2) => Err(e2),
            Ok((v, env2, g2)) => match v {
                ValueV::ValueRef(vr) => match spec_process_args(args.drop_first(), env2, g2, w) {
                    Err(e2) => Err(e2),
                    Ok((rest, env3, g3)) => Ok((seq![vr] + rest, env3, g3)),
                },
                _ => Err(TypeError::ParseFailure),
            },
        }
    }
}

/// Evaluation of a whole program: each expression in order, threading the
/// scope and the graph.
pub open spec fn spec_build(exprs: Seq<ExprV>, env: EnvV, g: GraphV, w: WorldV) -> Result<
    (EnvV, GraphV),
    TypeError,
>
    decreases exprs.len(),
{
    if exprs.len() == 0 {
        Ok((env, g))
    } else {
        match spec_process(exprs[0], env, g, w) {
            Err(e2) => Err(e2),
            Ok((_, env2, g2)) => spec_build(exprs.drop_first(), env2, g2, w),
        }
    }
}

// ----------------------------------------------------------------------
// Well-formedness of evaluation states.

/// A value is sound for a graph: node references point at nodes, value
/// references at declared outputs.
pub open spec fn val_ok(v: ValueV, g: GraphV, w: WorldV) -> bool {
    match v {
        ValueV::NodeRef(nr) => 0 <= nr < g.len(),
        ValueV::ValueRef(Some(vr)) => {
            &&& 0 <= vr.0 < g.len()
            &&& 0 <= g[vr.0].ty < w.len()
            &&& 0 <= vr.1 < w[g[vr.0].ty].1.outputs.len()
        },
        _ => true,
    }
}

/// Every bound value is sound for the graph.
pub open spec fn env_ok(env: EnvV, g: GraphV, w: WorldV) -> bool {
    forall|j: int| 0 <= j < env.len() ==> val_ok((#[trigger] env[j]).1, g, w)
}

/// `g2` carries `g` unchanged at the front.
pub open spec fn graph_grows(g: GraphV, g2: GraphV) -> bool {
    g2.len() >= g.len() && forall|j: int| 0 <= j < g.len() ==> g2[j] == #[trigger] g[j]
}

/// Soundness of values survives growing the graph.
proof fn lemma_val_ok_grows(v: ValueV, g: GraphV, g2: GraphV, w: WorldV)
    requires
        val_ok(v, g, w),
        graph_grows(g, g2),
    ensures
        val_ok(v, g2, w),
{
}

/// Evaluation preserves graph well-formedness and value soundness, and only
/// ever grows the graph.
pub proof fn lemma_process_wf(e: ExprV, env: EnvV, g: GraphV, w: WorldV)
    requires
        graph_wf(g, w),
        env_ok(env, g, w),
    ensures
        spec_process(e, env, g, w) matches Ok(out) ==> {
            &&& graph_wf(out.2, w)
            &&& graph_grows(g, out.2)
            &&& env_ok(out.1, out.2, w)
            &&& val_ok(out.0, out.2, w)
        },
    decreases e,
{
    match e {
        ExprV::Identifier(name) => {
            match env_lookup(env, name) {
                Some(v) => {
                    lemma_env_lookup_ok(env, name, g, w);
                },
                None => {},
            }
        },
        ExprV::Assignment(name, b) => {
            lemma_process_wf(*b, env, g, w);
        },
        ExprV::Output(b, oname) => {
            lemma_process_wf(*b, env, g, w);
            match spec_process(*b, env, g, w) {
                Ok((v, env2, g2)) => {
                    match v {
                        ValueV::NodeRef(nr) => {
                            if 0 <= nr < g2.len() && 0 <= g2[nr].ty < w.len() {
                                lemma_output_find_some(w[g2[nr].ty].1.outputs, oname, 0);
                            }
                        },
                        _ => {},
                    }
                },
                Err(_) => {},
            }
        },
        ExprV::Construction(tyname, extra, args) => {
            lemma_process_args_wf(args, env, g, w);
            match spec_process_args(args, env, g, w) {
                Ok((refs, env2, g2)) => {
                    match world_find(w, tyname, 0) {
                        Some(ti) => {
                            lemma_world_find_some(w, tyname, 0);
                            if refs.len() == w[ti].1.inputs.len() {
                                let node = NodeV { ty: ti, inputs: refs, extra };
                                let g3 = g2.push(node);
                                assert(graph_grows(g2, g3));
                                assert(graph_grows(g, g3)) by {
                                    assert forall|j: int| 0 <= j < g.len() implies g3[j]
                                        == #[trigger] g[j] by {
                                        assert(g2[j] == g[j]);
                                        assert(g3[j] == g2[j]);
                                    }
                                }
                                assert forall|n: int| 0 <= n < g3.len() implies node_wf(
                                    g3,
                                    w,
                                    n,
                                ) by {
                                    if n < g2.len() {
                                        assert(node_wf(g2, w, n));
                                        assert(g3[n] == g2[n]);
                                        assert forall|i: int|
                                            0 <= i < g3[n].inputs.len() implies (
                                        #[trigger] g3[n].inputs[i] matches Some(v) ==> {
                                            &&& 0 <= v.0 < n
                                            &&& 0 <= v.1 < w[g3[v.0].ty].1.outputs.len()
                                        }) by {
                                            assert(g3[n] == g2[n]);
                                            if g2[n].inputs[i] is Some {
                                                let v = g2[n].inputs[i]->Some_0;
                                                assert(g3[v.0] == g2[v.0]);
                                            }
                                        }
                                    } else {
                                        assert(g3[n] == node);
                                        assert forall|i: int|
                                            0 <= i < g3[n].inputs.len() implies (
                                        #[trigger] g3[n].inputs[i] matches Some(v) ==> {
                                            &&& 0 <= v.0 < n
                                            &&& 0 <= v.1 < w[g3[v.0].ty].1.outputs.len()
                                        }) by {
                                            if refs[i] is Some {
                                                assert(val_ok(
                                                    ValueV::ValueRef(refs[i]),
                                                    g2,
                                                    w,
                                                ));
                                                let v = refs[i]->Some_0;
                                                assert(g3[v.0] == g2[v.0]);
                                            }
                                        }
                                    }
                                }
                                assert forall|j: int| 0 <= j < env2.len() implies val_ok(
                                    (#[trigger] env2[j]).1,
                                    g3,
                                    w,
                                ) by {
                                    lemma_val_ok_grows(env2[j].1, g2, g3, w);
                                }
                            }
                        },
                        None => {},
                    }
                },
                Err(_) => {},
            }
        },
        _ => {},
    }
}

/// Argument evaluation preserves graph well-formedness; every produced
/// reference is sound for the final graph.
pub proof fn lemma_process_args_wf(args: Seq<ExprV>, env: EnvV, g: GraphV, w: WorldV)
    requires
        graph_wf(g, w),
        env_ok(env, g, w),
    ensures
        spec_process_args(args, env, g, w) matches Ok(out) ==> {
            &&& graph_wf(out.2, w)
            &&& graph_grows(g, out.2)
            &&& env_ok(out.1, out.2, w)
            &&& forall|i: int|
                0 <= i < out.0.len() ==> val_ok(ValueV::ValueRef(#[trigger] out.0[i]), out.2, w)
        },
    decreases args,
{
    if args.len() > 0 {
        lemma_process_wf(args[0], env, g, w);
        match spec_process(args[0], env, g, w) {
            Ok((v, env2, g2)) => {
                match v {
                    ValueV::ValueRef(vr) => {
                        lemma_process_args_wf(args.drop_first(), env2, g2, w);
                        match spec_process_args(args.drop_first(), env2, g2, w) {
                            Ok((rest, env3, g3)) => {
                                let out0 = seq![vr] + rest;
                                assert(graph_grows(g, g3));
                                assert forall|i: int| 0 <= i < out0.len() implies val_ok(
                                    ValueV::ValueRef(#[trigger] out0[i]),
                                    g3,
                                    w,
                                ) by {
                                    if i == 0 {
                                        lemma_val_ok_grows(ValueV::ValueRef(vr), g2, g3, w);
                                    } else {
                                        assert(out0[i] == rest[i - 1]);
                                    }
                                }
                            },
                            Err(_) => {},
                        }
                    },
                    _ => {},
                }
            },
            Err(_) => {},
        }
    }
}

/// A found binding is a bound value.
proof fn lemma_env_lookup_ok(env: EnvV, name: Seq<char>, g: GraphV, w: WorldV)
    requires
        env_ok(env, g, w),
    ensures
        env_lookup(env, name) matches Some(v) ==> val_ok(v, g, w),
    decreases env.len(),
{
    if env.len() > 0 && env.last().0 != name {
        assert(env_ok(env.drop_last(), g, w)) by {
            assert(forall|j: int|
                0 <= j < env.drop_last().len() ==> val_ok(
                    (#[trigger] env.drop_last()[j]).1,
                    g,
                    w,
                ));
        }
        lemma_env_lookup_ok(env.drop_last(), name, g, w);
    }
}

/// A found output is in range and carries the name.
proof fn lemma_output_find_some(outs: Seq<crate::nodegraph::OutputInfoV>, name: Seq<char>, k: int)
    ensures
        output_find(outs, name, k) matches Some(r) ==> 0 <= r < outs.len() && outs[r].name
            == Some(name),
    decreases outs.len() - k,
{
    if 0 <= k < outs.len() && outs[k].name != Some(name) {
        lemma_output_find_some(outs, name, k + 1);
    }
}

/// A found registry entry is in range.
proof fn lemma_world_find_some(w: WorldV, name: Seq<char>, i: int)
    ensures
        world_find(w, name, i) matches Some(ti) ==> 0 <= ti < w.len() && w[ti].0 == name,
    decreases w.len() - i,
{
    if 0 <= i < w.len() && w[i].0 != name {
        lemma_world_find_some(w, name, i + 1);
    }
}

/// Whole-program evaluation preserves graph well-formedness.
pub proof fn lemma_build_wf(exprs: Seq<ExprV>, env: EnvV, g: GraphV, w: WorldV)
    requires
        graph_wf(g, w),
        env_ok(env, g, w),
    ensures
        spec_build(exprs, env, g, w) matches Ok(out) ==> graph_wf(out.1, w) && env_ok(
            out.0,
            out.1,
            w,
        ),
    decreases exprs.len(),
{
    if exprs.len() > 0 {
        lemma_process_wf(exprs[0], env, g, w);
        match spec_process(exprs[0], env, g, w) {
            Ok((_, env2, g2)) => {
                lemma_build_wf(exprs.drop_first(), env2, g2, w);
            },
            Err(_) => {},
        }
    }
}


// ----------------------------------------------------------------------
// Executable evaluation.

/// The model of the evaluator's scope vector.
pub open spec fn env_view(s: Seq<(String, Value)>) -> EnvV {
    Seq::new(s.len(), |i: int| (s[i].0@, s[i].1@))
}

/// The model of a vector of wired inputs.
pub open spec fn refs_view(s: Seq<Option<ValueRef>>) -> Seq<Option<(int, int)>> {
    Seq::new(
        s.len(),
        |i: int|
            match s[i] {
                Some(v) => Some((v.node.id as int, v.output_index as int)),
                None => None,
            },
    )
}

/// Looks a name up in the scope: the latest binding wins.
fn env_find(state: &Vec<(String, Value)>, name: &str) -> (r: Option<Value>)
    ensures
        match r {
            Some(v) => env_lookup(env_view(state@), name@) == Some(v@),
            None => env_lookup(env_view(state@), name@) is None,
        },
{
    let ghost ev = env_view(state@);
    proof {
        assert(ev.take(state@.len() as int) =~= ev);
    }
    let mut i: usize = state.len();
    while i > 0
        invariant
            i <= state@.len(),
            ev == env_view(state@),
            ev.len() == state@.len(),
            env_lookup(ev.take(i as int), name@) == env_lookup(ev, name@),
        decreases i,
    {
        i = i - 1;
        proof {
            assert(ev.take(i as int + 1).last() == ev[i as int]);
            assert(ev.take(i as int + 1).drop_last() =~= ev.take(i as int));
            assert(ev[i as int] == (state@[i as int].0@, state@[i as int].1@));
        }
        if crate::text::str_eq_str(state[i].0.as_str(), name) {
            let v = state[i].1.clone();
            return Some(v);
        }
    }
    proof {
        assert(ev.take(0).len() == 0);
    }
    None
}

/// The first registry index searched by name agrees with the registry's
/// own lookup.
proof fn lemma_world_find_at(w: WorldV, name: Seq<char>, i: int)
    requires
        0 <= i <= w.len(),
        forall|j: int| 0 <= j < i ==> w[j].0 != name,
    ensures
        world_find(w, name, 0) == world_find(w, name, i),
    decreases i,
{
    if i > 0 {
        lemma_world_find_at(w, name, i - 1);
    }
}

/// Evaluates one expression against the scope, materializing nodes into the
/// graph. The result, the scope, and the graph afterwards are exactly what
/// `spec_process` assigns; on an error the partial scope and graph are
/// abandoned by the caller.
#[verifier::loop_isolation(false)]
#[verifier::rlimit(60)]
pub fn process_node_expr(
    expr: &NodeExpression,
    state: &mut Vec<(String, Value)>,
    graph: &mut NodeGraph,
    types: &SimpleTypeWorld,
) -> (r: Result<Value, TypeError>)
    ensures
        match (r, spec_process(expr@, env_view(old(state)@), old(graph)@, types@)) {
            (Ok(v), Ok(out)) => v@ == out.0 && env_view(final(state)@) == out.1 && final(graph)@
                == out.2,
            (Err(e1), Err(e2)) => e1 == e2,
            _ => false,
        },
    decreases expr,
{
    let ghost w = types@;
    match expr {
        NodeExpression::Identifier(name) => {
            match env_find(state, name.as_str()) {
                Some(v) => Ok(v),
                None => Err(TypeError::ParseFailure),
            }
        },
        NodeExpression::FloatLiteral(t) => Ok(Value::Float(clone_string(t))),
        NodeExpression::IntLiteral(i) => Ok(Value::Int(*i)),
        NodeExpression::FreeVariable => Ok(Value::ValueRef(None)),
        NodeExpression::Assignment(name, b) => {
            let v = match process_node_expr(b, state, graph, types) {
                Err(e) => {
                    return Err(e);
                },
                Ok(v) => v,
            };
            let v2 = v.clone();
            let ghost pre_env = env_view(state@);
            state.push((clone_string(name), v));
            proof {
                assert(env_view(state@) =~= pre_env.push((name@, v2@)));
            }
            Ok(v2)
        },
        NodeExpression::Output(b, oname) => {
            let v = match process_node_expr(b, state, graph, types) {
                Err(e) => {
                    return Err(e);
                },
                Ok(v) => v,
            };
            let nr = match v {
                Value::NodeRef(nr) => nr,
                _ => {
                    return Err(TypeError::ParseFailure);
                },
            };
            if nr.id >= graph.nodes.len() {
                return Err(TypeError::ParseFailure);
            }
            let node = &graph.nodes[nr.id];
            proof {
                assert(node@ == graph@[nr.id as int]);
            }
            let tyi = node.node_type.index();
            if tyi >= types.node_types.len() {
                return Err(TypeError::ParseFailure);
            }
            let nt = &types.node_types[tyi].1;
            proof {
                assert(nt@ == w[graph@[nr.id as int].ty].1);
            }
            let ghost outs = nt@.outputs;
            let m = nt.outputs.len();
            let mut k: usize = 0;
            while k < m
                invariant
                    k <= m,
                    m == nt.outputs@.len(),
                    outs.len() == m,
                    output_find(outs, oname@, 0) == output_find(outs, oname@, k as int),
                decreases m - k,
            {
                proof {
                    assert(outs[k as int] == nt.outputs@[k as int]@);
                }
                let matches_name = match &nt.outputs[k].name {
                    Some(n) => crate::text::str_eq_str(n.as_str(), oname.as_str()),
                    None => false,
                };
                if matches_name {
                    return Ok(
                        Value::ValueRef(Some(ValueRef { node: nr, output_index: k })),
                    );
                }
                proof {
                    assert(output_find(outs, oname@, k as int) == output_find(
                        outs,
                        oname@,
                        k as int + 1,
                    ));
                }
                k = k + 1;
            }
            proof {
                assert(output_find(outs, oname@, m as int) is None);
            }
            Err(TypeError::ParseFailure)
        },
        NodeExpression::Construction(tyname, extra, args) => {
            let ghost argsv = exprs_view(args@);
            let ghost target = spec_process_args(argsv, env_view(old(state)@), old(graph)@, w);
            proof {
                lemma_exprs_view(args@);
                assert(argsv.skip(0) =~= argsv);
            }
            let mut refs: Vec<Option<ValueRef>> = Vec::new();
            let alen = args.len();
            let mut j: usize = 0;
            while j < alen
                invariant
                    j <= alen,
                    alen == args@.len(),
                    argsv.len() == alen,
                    refs@.len() == j,
                    ({
                        let sub = spec_process_args(
                            argsv.skip(j as int),
                            env_view(state@),
                            graph@,
                            w,
                        );
                        match (target, sub) {
                            (Ok(t), Ok(s)) => t.0 == refs_view(refs@) + s.0 && t.1 == s.1 && t.2
                                == s.2,
                            (Err(e1), Err(e2)) => e1 == e2,
                            (Err(_), Ok(_)) => false,
                            (Ok(_), Err(_)) => false,
                        }
                    }),
                decreases alen - j,
            {
                proof {
                    lemma_exprs_view(args@);
                    assert(argsv.skip(j as int)[0] == argsv[j as int]);
                    assert(argsv.skip(j as int).drop_first() =~= argsv.skip(j as int + 1));
                }
                let v = match process_node_expr(&args[j], state, graph, types) {
                    Err(e) => {
                        return Err(e);
                    },
                    Ok(v) => v,
                };
                let vr = match v {
                    Value::ValueRef(vr) => vr,
                    _ => {
                        return Err(TypeError::ParseFailure);
                    },
                };
                let ghost pre_refs = refs_view(refs@);
                let ghost vrv: Option<(int, int)> = match vr {
                    Some(v2) => Some((v2.node.id as int, v2.output_index as int)),
                    None => None,
                };
                refs.push(vr);
                proof {
                    assert(refs_view(refs@) =~= pre_refs.push(vrv));
                    let sub2 = spec_process_args(
                        argsv.skip(j as int + 1),
                        env_view(state@),
                        graph@,
                        w,
                    );
                    match (target, sub2) {
                        (Ok(t), Ok(s2)) => {
                            assert(t.0 =~= refs_view(refs@) + s2.0) by {
                                assert(t.0 == pre_refs + (seq![vrv] + s2.0));
                                assert(pre_refs + (seq![vrv] + s2.0) =~= pre_refs.push(vrv)
                                    + s2.0);
                            }
                        },
                        _ => {},
                    }
                }
                j = j + 1;
            }
            proof {
                assert(argsv.skip(alen as int).len() == 0);
            }
            // All arguments evaluated; look the node type up.
            let ti = match types.lookup(tyname.as_str()) {
                Some(ti) => ti,
                None => {
                    proof {
                        lemma_world_find_at(w, tyname@, w.len() as int);
                    }
                    return Err(TypeError::MissingNodeType);
                },
            };
            proof {
                lemma_world_find_at(w, tyname@, ti as int);
            }
            let nt = &types.node_types[ti].1;
            proof {
                assert(nt@ == w[ti as int].1);
            }
            if refs.len() != nt.inputs.len() {
                return Err(TypeError::ParseFailure);
            }
            let node = Node {
                node_type: NodeTypeRef::Custom(ti),
                inputs: refs,
                extra_data: match extra {
                    Some(x) => Some(clone_string(x)),
                    None => None,
                },
            };
            let ghost nodev = node@;
            let ghost rv = refs_view(node.inputs@);
            proof {
                assert(nodev.inputs =~= rv);
                let sub = spec_process_args(
                    argsv.skip(alen as int),
                    env_view(state@),
                    graph@,
                    w,
                );
                match (target, sub) {
                    (Ok(t), Ok(s2)) => {
                        assert(t.0 =~= rv) by {
                            assert(s2.0.len() == 0);
                            assert(t.0 == rv + s2.0);
                            assert(rv + s2.0 =~= rv);
                        }
                    },
                    _ => {},
                }
            }
            let node_id = graph.add_node(node);
            Ok(Value::NodeRef(node_id))
        },
    }
}

/// Materializes a program of construction expressions into a graph against
/// the registry. A graph that comes back is well-formed: port counts match
/// the declarations, wires reach earlier nodes at declared outputs.
#[verifier::loop_isolation(false)]
pub fn construct_node_graph(types: &SimpleTypeWorld, exprs: Vec<NodeExpression>) -> (r: Result<
    NodeGraph,
    TypeError,
>)
    ensures
        match (r, spec_build(exprs_view(exprs@), Seq::empty(), Seq::empty(), types@)) {
            (Ok(graph), Ok(out)) => graph@ == out.1 && graph_wf(graph@, types@),
            (Err(e1), Err(e2)) => e1 == e2,
            _ => false,
        },
{
    let ghost w = types@;
    let ghost target = spec_build(exprs_view(exprs@), Seq::empty(), Seq::empty(), w);
    let mut state: Vec<(String, Value)> = Vec::new();
    let mut graph = NodeGraph::new();
    proof {
        lemma_exprs_view(exprs@);
        assert(env_view(state@) =~= Seq::<(Seq<char>, ValueV)>::empty());
        assert(graph@ =~= Seq::<NodeV>::empty());
        assert(exprs_view(exprs@).skip(0) =~= exprs_view(exprs@));
        assert(graph_wf(graph@, w));
        assert(env_ok(env_view(state@), graph@, w));
    }
    let n = exprs.len();
    let mut i: usize = 0;
    while i < n
        invariant
            i <= n,
            n == exprs@.len(),
            exprs_view(exprs@).len() == n,
            graph_wf(graph@, w),
            env_ok(env_view(state@), graph@, w),
            spec_build(exprs_view(exprs@).skip(i as int), env_view(state@), graph@, w) == target,
        decreases n - i,
    {
        proof {
            lemma_exprs_view(exprs@);
            assert(exprs_view(exprs@).skip(i as int)[0] == exprs_view(exprs@)[i as int]);
            assert(exprs_view(exprs@).skip(i as int).drop_first() =~= exprs_view(exprs@).skip(
                i as int + 1,
            ));
            lemma_process_wf(exprs_view(exprs@)[i as int], env_view(state@), graph@, w);
        }
        match process_node_expr(&exprs[i], &mut state, &mut graph, types) {
            Err(e) => {
                return Err(e);
            },
            Ok(_) => {},
        }
        i = i + 1;
    }
    proof {
        assert(exprs_view(exprs@).skip(n as int).len() == 0);
    }
    Ok(graph)
}

// ----------------------------------------------------------------------
// The expression parser.

// ----------------------------------------------------------------------
// The expression grammar, as functions over the character sequence. Each
// parsing function below is pinned to its twin here, so a parse result is
// exactly what these functions assign to the input text. Guards of the
// form `p <= i` keep the recursion visibly well-founded; the cursor never
// actually moves backward, so they are never taken.

/// The cursor at the next `(`, or at the end.
pub open spec fn sp_scan_paren(s: Seq<char>, i: int) -> int
    decreases s.len() - i,
{
    if 0 <= i < s.len() && s[i] != '(' {
        sp_scan_paren(s, i + 1)
    } else {
        i
    }
}

/// The raw text between the cursor (after whitespace) and the next `(`;
/// without a `(` ahead there is no payload.
pub open spec fn sp_take_until_paren(s: Seq<char>, i: int) -> Option<(Seq<char>, int)> {
    let j = crate::type_parsing::sp_skip_ws(s, i);
    let e = sp_scan_paren(s, j);
    if e >= s.len() {
        None
    } else {
        Some((s.subrange(j, e), e))
    }
}

/// The cursor after the digits starting at `i`.
pub open spec fn sp_digits_end(s: Seq<char>, i: int) -> int
    decreases s.len() - i,
{
    if 0 <= i < s.len() && crate::type_parsing::sp_is_digit(s[i]) {
        sp_digits_end(s, i + 1)
    } else {
        i
    }
}

/// A float numeral: an optional sign, digits, and an optional fraction; at
/// least one digit. Kept as its source text.
pub open spec fn sp_parse_numeral(s: Seq<char>, i: int) -> Option<(Seq<char>, int)> {
    let j = crate::type_parsing::sp_skip_ws(s, i);
    let k = if 0 <= j < s.len() && s[j] == '-' {
        j + 1
    } else {
        j
    };
    let d_end = sp_digits_end(s, k);
    if d_end == k {
        None
    } else {
        let f_end = if 0 <= d_end < s.len() && s[d_end] == '.' {
            sp_digits_end(s, d_end + 1)
        } else {
            d_end
        };
        Some((s.subrange(j, f_end), f_end))
    }
}

/// One expression: a base expression, optionally followed by an output
/// selection `.name`.
pub open spec fn sp_parse_expr(s: Seq<char>, i: int) -> Option<(ExprV, int)>
    decreases s.len() - i, 2int,
{
    match sp_parse_expr_base(s, i) {
        None => None,
        Some((b, p)) => {
            let (bd, pd) = crate::type_parsing::sp_try_char(s, p, '.');
            if bd {
                match crate::type_parsing::sp_parse_ident(s, pd) {
                    (Some(f), pf) => Some((ExprV::Output(Box::new(b), f), pf)),
                    (None, _) => None,
                }
            } else {
                Some((b, pd))
            }
        },
    }
}

/// A base expression: `NULL`, an assignment, a construction with optional
/// payload, a variable reference, or a float literal.
pub open spec fn sp_parse_expr_base(s: Seq<char>, i: int) -> Option<(ExprV, int)>
    decreases s.len() - i, 1int,
{
    match crate::type_parsing::sp_parse_ident(s, i) {
        (Some(nm), e) => {
            if nm == "NULL"@ {
                Some((ExprV::FreeVariable, e))
            } else {
                let (beq, peq) = crate::type_parsing::sp_try_char(s, e, '=');
                if beq {
                    if peq <= i || peq > s.len() {
                        None
                    } else {
                        match sp_parse_expr(s, peq) {
                            None => None,
                            Some((rhs, pr)) => Some(
                                (ExprV::Assignment(nm, Box::new(rhs)), pr),
                            ),
                        }
                    }
                } else {
                    let (bc, pc) = crate::type_parsing::sp_try_char(s, peq, ':');
                    if bc {
                        match sp_take_until_paren(s, pc) {
                            None => None,
                            Some((extra, px)) => {
                                let (bp, pp) = crate::type_parsing::sp_try_char(s, px, '(');
                                if !bp || pp <= i || pp > s.len() {
                                    None
                                } else {
                                    match sp_parse_arg_exprs(s, pp) {
                                        None => None,
                                        Some((args, pa)) => Some(
                                            (ExprV::Construction(nm, Some(extra), args), pa),
                                        ),
                                    }
                                }
                            },
                        }
                    } else {
                        let (bp, pp) = crate::type_parsing::sp_try_char(s, pc, '(');
                        if bp {
                            if pp <= i || pp > s.len() {
                                None
                            } else {
                                match sp_parse_arg_exprs(s, pp) {
                                    None => None,
                                    Some((args, pa)) => Some(
                                        (ExprV::Construction(nm, None, args), pa),
                                    ),
                                }
                            }
                        } else {
                            Some((ExprV::Identifier(nm), pp))
                        }
                    }
                }
            }
        },
        (None, jn) => {
            match sp_parse_numeral(s, jn) {
                Some((t, p)) => Some((ExprV::FloatLiteral(t), p)),
                None => None,
            }
        },
    }
}

/// A construction argument list after its opening parenthesis: either an
/// immediate `)`, or expressions separated by `,` and closed by `)`.
pub open spec fn sp_parse_arg_exprs(s: Seq<char>, i: int) -> Option<(Seq<ExprV>, int)>
    decreases s.len() - i, 4int,
{
    let (bq, pq) = crate::type_parsing::sp_try_char(s, i, ')');
    if bq {
        Some((Seq::empty(), pq))
    } else {
        if pq < i || pq > s.len() {
            None
        } else {
            sp_args_loop(s, pq, Seq::empty())
        }
    }
}

/// The expressions of an argument list, accumulated left to right.
pub open spec fn sp_args_loop(s: Seq<char>, i: int, acc: Seq<ExprV>) -> Option<(Seq<ExprV>, int)>
    decreases s.len() - i, 3int,
{
    match sp_parse_expr(s, i) {
        None => None,
        Some((e, p)) => {
            let acc2 = acc.push(e);
            let (bm, pm) = crate::type_parsing::sp_try_char(s, p, ',');
            if bm {
                if pm <= i || pm > s.len() {
                    None
                } else {
                    sp_args_loop(s, pm, acc2)
                }
            } else {
                let (bq, pq) = crate::type_parsing::sp_try_char(s, pm, ')');
                if bq {
                    Some((acc2, pq))
                } else {
                    None
                }
            }
        },
    }
}

/// The cursor after any `;` separators.
pub open spec fn sp_skip_semis(s: Seq<char>, i: int) -> int
    decreases s.len() - i,
{
    let (b, p) = crate::type_parsing::sp_try_char(s, i, ';');
    if b {
        if p <= i || p > s.len() {
            p
        } else {
            sp_skip_semis(s, p)
        }
    } else {
        p
    }
}

/// A whole construction program: expressions in sequence, separated by
/// optional `;`.
pub open spec fn sp_parse_program(s: Seq<char>, i: int, acc: Seq<ExprV>) -> Result<
    Seq<ExprV>,
    TypeError,
>
    decreases s.len() - i,
{
    let j = sp_skip_semis(s, i);
    let j2 = crate::type_parsing::sp_skip_ws(s, j);
    if j2 >= s.len() {
        Ok(acc)
    } else {
        match sp_parse_expr(s, j2) {
            None => Err(TypeError::ParseFailure),
            Some((e, p)) => {
                if p <= i || p > s.len() {
                    Err(TypeError::ParseFailure)
                } else {
                    sp_parse_program(s, p, acc.push(e))
                }
            },
        }
    }
}

/// The expression sequence a construction text denotes.
pub open spec fn spec_parse_program(s: Seq<char>) -> Result<Seq<ExprV>, TypeError> {
    sp_parse_program(s, 0, Seq::empty())
}

impl Scanner {
    /// Consumes the raw text up to the next `(`, after whitespace: the
    /// per-instance payload written between `:` and the argument list.
    fn take_until_paren(&mut self) -> (r: Option<String>)
        requires
            old(self).wf(),
        ensures
            final(self).wf(),
            final(self).chars == old(self).chars,
            final(self).text == old(self).text,
            final(self).pos >= old(self).pos,
            match r {
                Some(x) => sp_take_until_paren(old(self).chars@, old(self).pos as int) == Some(
                    (x@, final(self).pos as int),
                ),
                None => sp_take_until_paren(old(self).chars@, old(self).pos as int) is None,
            },
    {
        let ghost cs = self.chars@;
        self.skip_ws();
        let len = self.chars.len();
        let start = self.pos;
        while self.pos < len && !Self::is_paren_at(&self.chars, self.pos)
            invariant
                self.wf(),
                self.chars == old(self).chars,
                self.text == old(self).text,
                self.pos >= start,
                start >= old(self).pos,
                len == self.chars@.len(),
                cs == self.chars@,
                sp_scan_paren(cs, start as int) == sp_scan_paren(cs, self.pos as int),
            decreases len - self.pos,
        {
            self.pos = self.pos + 1;
        }
        proof {
            assert(sp_scan_paren(cs, self.pos as int) == self.pos as int);
        }
        if self.pos >= len {
            return None;
        }
        let s = self.text.as_str().substring_char(start, self.pos);
        proof {
            assert(s@ == cs.subrange(start as int, self.pos as int));
        }
        Some(s.to_owned())
    }

    /// Whether the character at `i` is an opening parenthesis.
    fn is_paren_at(chars: &Vec<char>, i: usize) -> (r: bool)
        requires
            i < chars@.len(),
        ensures
            r == (chars@[i as int] == '('),
    {
        chars[i] == '('
    }

    /// Consumes a float numeral: an optional sign, digits, and an optional
    /// fraction; at least one digit.
    fn parse_numeral(&mut self) -> (r: Option<String>)
        requires
            old(self).wf(),
        ensures
            final(self).wf(),
            final(self).chars == old(self).chars,
            final(self).text == old(self).text,
            final(self).pos >= old(self).pos,
            r is Some ==> final(self).pos > old(self).pos,
            match r {
                Some(t) => sp_parse_numeral(old(self).chars@, old(self).pos as int) == Some(
                    (t@, final(self).pos as int),
                ),
                None => sp_parse_numeral(old(self).chars@, old(self).pos as int) is None,
            },
    {
        let ghost cs = self.chars@;
        self.skip_ws();
        let len = self.chars.len();
        let start = self.pos;
        if self.pos < len && self.chars[self.pos] == '-' {
            self.pos = self.pos + 1;
        }
        let digits_start = self.pos;
        while self.pos < len && Self::is_digit_char_at(&self.chars, self.pos)
            invariant
                self.wf(),
                self.chars == old(self).chars,
                self.text == old(self).text,
                self.pos >= digits_start,
                digits_start >= start >= old(self).pos,
                len == self.chars@.len(),
                cs == self.chars@,
                sp_digits_end(cs, digits_start as int) == sp_digits_end(cs, self.pos as int),
            decreases len - self.pos,
        {
            self.pos = self.pos + 1;
        }
        proof {
            assert(sp_digits_end(cs, self.pos as int) == self.pos as int);
        }
        if self.pos == digits_start {
            self.pos = start;
            proof {
                assert(self.wf());
            }
            return None;
        }
        let ghost d_end = self.pos as int;
        if self.pos < len && self.chars[self.pos] == '.' {
            self.pos = self.pos + 1;
            let ghost f_start = self.pos as int;
            while self.pos < len && Self::is_digit_char_at(&self.chars, self.pos)
                invariant
                    self.wf(),
                    self.chars == old(self).chars,
                    self.text == old(self).text,
                    self.pos > start,
                    start >= old(self).pos,
                    len == self.chars@.len(),
                    cs == self.chars@,
                    f_start == d_end + 1,
                    sp_digits_end(cs, f_start) == sp_digits_end(cs, self.pos as int),
                decreases len - self.pos,
            {
                self.pos = self.pos + 1;
            }
            proof {
                assert(sp_digits_end(cs, self.pos as int) == self.pos as int);
            }
        }
        let s = self.text.as_str().substring_char(start, self.pos);
        proof {
            assert(s@ == cs.subrange(start as int, self.pos as int));
        }
        Some(s.to_owned())
    }

    /// Whether the character at `i` is a decimal digit.
    fn is_digit_char_at(chars: &Vec<char>, i: usize) -> (r: bool)
        requires
            i < chars@.len(),
        ensures
            r == ('0' <= chars@[i as int] <= '9'),
    {
        let c = chars[i];
        '0' <= c && c <= '9'
    }
}

/// Parses one construction expression: a variable reference, a float
/// literal, an assignment, a construction with optional payload, `NULL`,
/// or any of these followed by an output selection `.name`.
pub fn parse_expr(sc: &mut Scanner) -> (r: Result<NodeExpression, TypeError>)
    requires
        old(sc).wf(),
    ensures
        final(sc).wf(),
        final(sc).chars == old(sc).chars,
        final(sc).text == old(sc).text,
        final(sc).pos >= old(sc).pos,
        r is Ok ==> final(sc).pos > old(sc).pos,
        match r {
            Ok(e) => sp_parse_expr(old(sc).chars@, old(sc).pos as int) == Some(
                (e@, final(sc).pos as int),
            ),
            Err(e) => e == TypeError::ParseFailure && sp_parse_expr(
                old(sc).chars@,
                old(sc).pos as int,
            ) is None,
        },
    decreases old(sc).remaining(), 2int,
{
    let base = match parse_expr_base(sc) {
        Err(e) => {
            return Err(e);
        },
        Ok(b) => b,
    };
    if sc.try_char('.') {
        match sc.parse_ident() {
            Some(field) => Ok(NodeExpression::Output(Box::new(base), field)),
            None => Err(TypeError::ParseFailure),
        }
    } else {
        Ok(base)
    }
}

/// Parses an expression without its optional output selection.
fn parse_expr_base(sc: &mut Scanner) -> (r: Result<NodeExpression, TypeError>)
    requires
        old(sc).wf(),
    ensures
        final(sc).wf(),
        final(sc).chars == old(sc).chars,
        final(sc).text == old(sc).text,
        final(sc).pos >= old(sc).pos,
        r is Ok ==> final(sc).pos > old(sc).pos,
        match r {
            Ok(e) => sp_parse_expr_base(old(sc).chars@, old(sc).pos as int) == Some(
                (e@, final(sc).pos as int),
            ),
            Err(e) => e == TypeError::ParseFailure && sp_parse_expr_base(
                old(sc).chars@,
                old(sc).pos as int,
            ) is None,
        },
    decreases old(sc).remaining(), 1int,
{
    let ghost cs = sc.chars@;
    let ghost i0 = sc.pos as int;
    match sc.parse_ident() {
        Some(name) => {
            if crate::text::str_eq_str(name.as_str(), "NULL") {
                let r = NodeExpression::FreeVariable;
                proof {
                    assert(r@ == ExprV::FreeVariable);
                    assert(sp_parse_expr_base(cs, i0) == Some((r@, sc.pos as int)));
                }
                return Ok(r);
            }
            if sc.try_char('=') {
                let rhs = match parse_expr(sc) {
                    Err(e) => {
                        return Err(e);
                    },
                    Ok(b) => b,
                };
                let ghost rv = rhs@;
                let r = NodeExpression::Assignment(name, Box::new(rhs));
                proof {
                    assert(r@ == ExprV::Assignment(name@, Box::new(rv)));
                    assert(sp_parse_expr_base(cs, i0) == Some((r@, sc.pos as int)));
                }
                return Ok(r);
            }
            if sc.try_char(':') {
                let extra = match sc.take_until_paren() {
                    Some(x) => x,
                    None => {
                        return Err(TypeError::ParseFailure);
                    },
                };
                if !sc.try_char('(') {
                    return Err(TypeError::ParseFailure);
                }
                let args = match parse_arg_exprs(sc) {
                    Err(e) => {
                        return Err(e);
                    },
                    Ok(a) => a,
                };
                let ghost av = exprs_view(args@);
                let r = NodeExpression::Construction(name, Some(extra), args);
                proof {
                    assert(r@ == ExprV::Construction(name@, Some(extra@), av));
                    assert(sp_parse_expr_base(cs, i0) == Some((r@, sc.pos as int)));
                }
                return Ok(r);
            }
            if sc.try_char('(') {
                let args = match parse_arg_exprs(sc) {
                    Err(e) => {
                        return Err(e);
                    },
                    Ok(a) => a,
                };
                let ghost av = exprs_view(args@);
                let r = NodeExpression::Construction(name, None, args);
                proof {
                    assert(r@ == ExprV::Construction(name@, None::<Seq<char>>, av));
                    assert(sp_parse_expr_base(cs, i0) == Some((r@, sc.pos as int)));
                }
                return Ok(r);
            }
            let r = NodeExpression::Identifier(name);
            proof {
                assert(sp_parse_expr_base(cs, i0) == Some((r@, sc.pos as int)));
            }
            Ok(r)
        },
        None => {
            match sc.parse_numeral() {
                Some(t) => {
                    let r = NodeExpression::FloatLiteral(t);
                    proof {
                        assert(sp_parse_expr_base(cs, i0) == Some((r@, sc.pos as int)));
                    }
                    Ok(r)
                },
                None => Err(TypeError::ParseFailure),
            }
        },
    }
}

/// Parses the argument list after its opening parenthesis, through the
/// closing one.
fn parse_arg_exprs(sc: &mut Scanner) -> (r: Result<Vec<NodeExpression>, TypeError>)
    requires
        old(sc).wf(),
    ensures
        final(sc).wf(),
        final(sc).chars == old(sc).chars,
        final(sc).text == old(sc).text,
        final(sc).pos >= old(sc).pos,
        match r {
            Ok(v) => sp_parse_arg_exprs(old(sc).chars@, old(sc).pos as int) == Some(
                (exprs_view(v@), final(sc).pos as int),
            ),
            Err(e) => e == TypeError::ParseFailure && sp_parse_arg_exprs(
                old(sc).chars@,
                old(sc).pos as int,
            ) is None,
        },
    decreases old(sc).remaining(), 4int,
{
    let ghost cs = sc.chars@;
    let ghost i0 = sc.pos as int;
    let mut args: Vec<NodeExpression> = Vec::new();
    proof {
        assert(exprs_view(args@) =~= Seq::<ExprV>::empty());
    }
    if sc.try_char(')') {
        return Ok(args);
    }
    proof {
        assert(sp_parse_arg_exprs(cs, i0) == sp_args_loop(
            cs,
            sc.pos as int,
            exprs_view(args@),
        ));
    }
    loop
        invariant
            sc.wf(),
            sc.chars == old(sc).chars,
            sc.text == old(sc).text,
            sc.pos >= old(sc).pos,
            cs == sc.chars@,
            i0 == old(sc).pos as int,
            sp_parse_arg_exprs(cs, i0) == sp_args_loop(cs, sc.pos as int, exprs_view(args@)),
        decreases sc.remaining(),
    {
        let ghost p_head = sc.pos as int;
        let ghost acc0 = exprs_view(args@);
        let e = match parse_expr(sc) {
            Err(e) => {
                proof {
                    assert(sp_args_loop(cs, p_head, acc0) is None);
                }
                return Err(e);
            },
            Ok(e) => e,
        };
        let ghost pre_vec = args@;
        args.push(e);
        proof {
            assert(args@.drop_last() =~= pre_vec);
            assert(exprs_view(args@) == exprs_view(args@.drop_last()).push(
                expr_view(args@.last()),
            ));
            assert(exprs_view(args@) == acc0.push(args@.last()@));
        }
        if sc.try_char(',') {
            proof {
                assert(sp_args_loop(cs, p_head, acc0) == sp_args_loop(
                    cs,
                    sc.pos as int,
                    exprs_view(args@),
                ));
            }
            continue;
        }
        if sc.try_char(')') {
            proof {
                assert(sp_args_loop(cs, p_head, acc0) == Some((
                    exprs_view(args@),
                    sc.pos as int,
                )));
            }
            return Ok(args);
        }
        proof {
            assert(sp_args_loop(cs, p_head, acc0) is None);
        }
        return Err(TypeError::ParseFailure);
    }
}

/// Parses a whole construction program: expressions in sequence, optionally
/// separated by `;`.
pub fn parse_whole_input(input: &str) -> (r: Result<Vec<NodeExpression>, TypeError>)
    ensures
        match r {
            Ok(v) => spec_parse_program(input@) == Ok::<Seq<ExprV>, TypeError>(exprs_view(v@)),
            Err(e) => spec_parse_program(input@) == Err::<Seq<ExprV>, TypeError>(e),
        },
{
    let ghost cs = input@;
    let mut sc = Scanner::new(input);
    let mut out: Vec<NodeExpression> = Vec::new();
    proof {
        assert(exprs_view(out@) =~= Seq::<ExprV>::empty());
        assert(spec_parse_program(cs) == sp_parse_program(cs, sc.pos as int, exprs_view(out@)));
    }
    loop
        invariant
            sc.wf(),
            cs == input@,
            cs == sc.chars@,
            spec_parse_program(cs) == sp_parse_program(cs, sc.pos as int, exprs_view(out@)),
        decreases sc.remaining(),
    {
        let ghost p0 = sc.pos;
        let ghost acc0 = exprs_view(out@);
        while sc.try_char(';')
            invariant
                sc.wf(),
                cs == sc.chars@,
                sc.pos >= p0,
                sp_skip_semis(cs, p0 as int) == sp_skip_semis(cs, sc.pos as int),
            decreases sc.remaining(),
        {
        }
        proof {
            assert(sp_skip_semis(cs, p0 as int) == sc.pos as int);
        }
        let ghost j = sc.pos as int;
        if sc.at_end() {
            proof {
                assert(sp_parse_program(cs, p0 as int, acc0) == Ok::<Seq<ExprV>, TypeError>(
                    acc0,
                ));
            }
            return Ok(out);
        }
        let ghost j2 = sc.pos as int;
        match parse_expr(&mut sc) {
            Err(e) => {
                proof {
                    assert(sp_parse_program(cs, p0 as int, acc0) == Err::<
                        Seq<ExprV>,
                        TypeError,
                    >(TypeError::ParseFailure));
                }
                return Err(e);
            },
            Ok(e) => {
                let ghost pre_vec = out@;
                out.push(e);
                proof {
                    assert(out@.drop_last() =~= pre_vec);
                    assert(exprs_view(out@) == exprs_view(out@.drop_last()).push(
                        expr_view(out@.last()),
                    ));
                    assert(sp_parse_program(cs, p0 as int, acc0) == sp_parse_program(
                        cs,
                        sc.pos as int,
                        exprs_view(out@),
                    ));
                }
            },
        }
    }
}
} // verus!
