//! The shader emitter: a topological walk from the unique `Out` node that
//! lowers a well-typed graph into fragment-shader source text. Every emitted
//! node becomes one function `idN` with the fixed per-pixel signature; the
//! entry function forwards to the `Out` node's input.

use vstd::prelude::*;

verus! {

use crate::text::{dec_str, push_decimal};
use crate::typetypes::TypeError;
use crate::nodegraph::{
    ExecutionInformation,
    GraphV,
    NodeGraph,
    SimpleTypeWorld,
    ValueRef,
    WorldV,
    graph_wf,
    node_wf,
};

/// An emitted shader program: `text` is a concatenation of function
/// definitions and ends with the definition of the function called `name`,
/// whose signature is `fn name(x: f32, y: f32, component: u32) -> f32`.
#[derive(Debug)]
pub struct ShaderProgram {
    pub text: String,
    pub name: String,
}

impl Clone for ShaderProgram {
    fn clone(&self) -> (r: Self)
        ensures
            r.text@ == self.text@,
            r.name@ == self.name@,
    {
        ShaderProgram { text: self.text.clone(), name: self.name.clone() }
    }
}

/// Issues the fresh function names `id0`, `id1`, ... in order.
#[derive(Debug)]
pub struct NameGenerator {
    pub next_id: usize,
}

/// The name issued when the counter stands at `c`.
pub open spec fn gen_name(c: nat) -> Seq<char> {
    "id"@ + dec_str(c)
}

impl NameGenerator {
    /// Issues the next name.
    pub fn generate_name(&mut self) -> (r: String)
        requires
            old(self).next_id < usize::MAX,
        ensures
            r@ == gen_name(old(self).next_id as nat),
            final(self).next_id == old(self).next_id + 1,
    {
        let mut st = String::new();
        st.append("id");
        push_decimal(&mut st, self.next_id as u64);
        proof {
            assert((self.next_id as u64) as nat == self.next_id as nat);
            assert(st@ =~= gen_name(self.next_id as nat));
        }
        self.next_id = self.next_id + 1;
        st
    }

    /// Starts issuing from `id0` again.
    pub fn reset(&mut self)
        ensures
            final(self).next_id == 0,
    {
        self.next_id = 0;
    }
}

impl Default for NameGenerator {
    /// A generator that starts at `id0`.
    fn default() -> (r: Self)
        ensures
            r.next_id == 0,
    {
        NameGenerator { next_id: 0 }
    }
}

/// Walks a graph and emits shader text; owns the fresh-name counter, which
/// the caller resets before each top-level `run`.
#[derive(Debug)]
pub struct Executor {
    pub namer: NameGenerator,
}

impl Default for Executor {
    /// An executor whose counter starts at `id0`.
    fn default() -> (r: Self)
        ensures
            r.namer.next_id == 0,
    {
        Executor { namer: NameGenerator { next_id: 0 } }
    }
}

// ----------------------------------------------------------------------
// The emission, as recursive functions over the graph model.

/// One emitted fragment: its full text and the name it defines.
pub type FragV = (Seq<char>, Seq<char>);

/// The emission cache: fragments of the nodes already emitted.
pub type EmitCacheV = Map<int, FragV>;

/// The text of a constant node: a function returning the literal.
pub open spec fn constant_text(name: Seq<char>, val: Seq<char>) -> Seq<char> {
    "fn "@ + name + "(x: f32, y: f32, component: u32) -> f32 { return "@ + val + "f; }"@
}

/// The text of an attribute node: a function returning a shader-stage
/// binding supplied by the GPU backend.
pub open spec fn attr_text(name: Seq<char>, attr: Seq<char>) -> Seq<char> {
    "fn "@ + name + "(x: f32, y: f32, component: u32) -> f32 { return "@ + attr + "; }"@
}

/// The text of an addition node, appended to the texts of its two inputs.
pub open spec fn add_text(t0: Seq<char>, t1: Seq<char>, name: Seq<char>, n0: Seq<char>, n1: Seq<char>) -> Seq<char> {
    t0 + "\n"@ + t1 + "\n"@ + "fn "@ + name
        + "(x: f32, y: f32, component: u32) -> f32 { return "@ + n0 + "(x,y,component) + "@ + n1
        + "(x,y,component); }"@
}

/// The text of a three-component vector node: dispatch on `component`.
pub open spec fn vector3_text(
    t0: Seq<char>,
    t1: Seq<char>,
    t2: Seq<char>,
    name: Seq<char>,
    n0: Seq<char>,
    n1: Seq<char>,
    n2: Seq<char>,
) -> Seq<char> {
    t0 + "\n"@ + t1 + "\n"@ + t2 + "\n"@ + "fn "@ + name
        + "(x: f32, y: f32, component: u32) -> f32 { if component == 0 { return "@ + n0
        + "(x,y,component); } if component == 1 { return "@ + n1 + "(x,y,component); } return "@
        + n2 + "(x,y,component); }"@
}

/// The entry function: forwards to the fragment that feeds the `Out` node.
pub open spec fn forward_text(t: Seq<char>, name: Seq<char>, inner: Seq<char>) -> Seq<char> {
    t + "\n"@ + "fn "@ + name + "(x: f32, y: f32, component: u32) -> f32 { return "@ + inner
        + "(x,y,component); }"@
}

/// The numeral a constant node emits: its extra data, or `0` without any.
pub open spec fn constant_value(extra: Option<Seq<char>>) -> Seq<char> {
    match extra {
        Some(s) => s,
        None => "0"@,
    }
}

/// The emission of the value of node `n`: the fragment, together with the
/// cache and counter afterwards. Emitted fragments are memoized per node.
pub open spec fn spec_emit(
    w: WorldV,
    g: GraphV,
    n: int,
    cache: EmitCacheV,
    counter: nat,
    fuel: nat,
) -> Result<(FragV, EmitCacheV, nat), TypeError>
    decreases fuel,
{
    if cache.dom().contains(n) {
        Ok((cache[n], cache, counter))
    } else if !(0 <= n < g.len() && 0 <= g[n].ty < w.len()) {
        Err(TypeError::MissingNodeType)
    } else if fuel == 0 {
        Err(TypeError::CyclicGraph)
    } else {
        let tag = w[g[n].ty].1.tag;
        match tag {
            ExecutionInformation::Constant => {
                let name = gen_name(counter);
                let text = constant_text(name, constant_value(g[n].extra));
                Ok(((text, name), cache.insert(n, (text, name)), counter + 1))
            },
            ExecutionInformation::Attr => match g[n].extra {
                None => Err(TypeError::UnsupportedOp),
                Some(attr) => {
                    let name = gen_name(counter);
                    let text = attr_text(name, attr);
                    Ok(((text, name), cache.insert(n, (text, name)), counter + 1))
                },
            },
            ExecutionInformation::Add => {
                if g[n].inputs.len() < 2 || !(g[n].inputs[0] is Some) || !(g[n].inputs[1] is Some) {
                    Err(TypeError::UnconnectedInput)
                } else {
                    match spec_emit(w, g, g[n].inputs[0]->Some_0.0, cache, counter, (fuel - 1) as nat) {
                        Err(e) => Err(e),
                        Ok((f0, c0, k0)) => match spec_emit(
                            w,
                            g,
                            g[n].inputs[1]->Some_0.0,
                            c0,
                            k0,
                            (fuel - 1) as nat,
                        ) {
                            Err(e) => Err(e),
                            Ok((f1, c1, k1)) => {
                                let name = gen_name(k1);
                                let text = add_text(f0.0, f1.0, name, f0.1, f1.1);
                                Ok(((text, name), c1.insert(n, (text, name)), k1 + 1))
                            },
                        },
                    }
                }
            },
            ExecutionInformation::Vector3 => {
                if g[n].inputs.len() < 3 || !(g[n].inputs[0] is Some) || !(g[n].inputs[1] is Some)
                    || !(g[n].inputs[2] is Some) {
                    Err(TypeError::UnconnectedInput)
                } else {
                    match spec_emit(w, g, g[n].inputs[0]->Some_0.0, cache, counter, (fuel - 1) as nat) {
                        Err(e) => Err(e),
                        Ok((f0, c0, k0)) => match spec_emit(
                            w,
                            g,
                            g[n].inputs[1]->Some_0.0,
                            c0,
                            k0,
                            (fuel - 1) as nat,
                        ) {
                            Err(e) => Err(e),
                            Ok((f1, c1, k1)) => match spec_emit(
                                w,
                                g,
                                g[n].inputs[2]->Some_0.0,
                                c1,
                                k1,
                                (fuel - 1) as nat,
                            ) {
                                Err(e) => Err(e),
                                Ok((f2, c2, k2)) => {
                                    let name = gen_name(k2);
                                    let text = vector3_text(f0.0, f1.0, f2.0, name, f0.1, f1.1, f2.1);
                                    Ok(((text, name), c2.insert(n, (text, name)), k2 + 1))
                                },
                            },
                        },
                    }
                }
            },
            ExecutionInformation::Exp => Err(TypeError::UnsupportedOp),
            ExecutionInformation::Out => Err(TypeError::UnsupportedOp),
            ExecutionInformation::ERR => Err(TypeError::UnsupportedOp),
        }
    }
}

/// The first node at or after `i` whose execution tag is `Out`.
pub open spec fn find_out(w: WorldV, g: GraphV, i: int) -> Option<int>
    decreases g.len() - i,
{
    if !(0 <= i < g.len()) {
        None
    } else if 0 <= g[i].ty < w.len() && w[g[i].ty].1.tag == ExecutionInformation::Out {
        Some(i)
    } else {
        find_out(w, g, i + 1)
    }
}

/// A whole emission run starting with counter `c0`: finds the `Out` node,
/// emits the fragment wired to its first input, and appends the entry
/// function that forwards to it.
pub open spec fn spec_run(w: WorldV, g: GraphV, c0: nat) -> Result<FragV, TypeError> {
    match find_out(w, g, 0) {
        None => Err(TypeError::MissingOutput),
        Some(n) => {
            if g[n].inputs.len() == 0 || !(g[n].inputs[0] is Some) {
                Err(TypeError::UnconnectedInput)
            } else {
                match spec_emit(
                    w,
                    g,
                    g[n].inputs[0]->Some_0.0,
                    Map::empty(),
                    c0,
                    g.len() as nat,
                ) {
                    Err(e) => Err(e),
                    Ok((f, _, k)) => {
                        let name = gen_name(k);
                        Ok((forward_text(f.0, name, f.1), name))
                    },
                }
            }
        },
    }
}

/// On a well-formed graph the emission of a node reads the same under any
/// fuel above the node's identity.
pub proof fn lemma_emit_fuel(
    w: WorldV,
    g: GraphV,
    n: int,
    cache: EmitCacheV,
    counter: nat,
    f1: nat,
    f2: nat,
)
    requires
        graph_wf(g, w),
        f1 >= n + 1,
        f2 >= n + 1,
    ensures
        spec_emit(w, g, n, cache, counter, f1) == spec_emit(w, g, n, cache, counter, f2),
    decreases n,
{
    if !cache.dom().contains(n) && 0 <= n < g.len() && 0 <= g[n].ty < w.len() {
        assert(node_wf(g, w, n));
        let tag = w[g[n].ty].1.tag;
        match tag {
            ExecutionInformation::Add => {
                if g[n].inputs.len() >= 2 && g[n].inputs[0] is Some && g[n].inputs[1] is Some {
                    let m0 = g[n].inputs[0]->Some_0.0;
                    let m1 = g[n].inputs[1]->Some_0.0;
                    lemma_emit_fuel(w, g, m0, cache, counter, (f1 - 1) as nat, (f2 - 1) as nat);
                    match spec_emit(w, g, m0, cache, counter, (f1 - 1) as nat) {
                        Ok((f0r, c0, k0)) => {
                            lemma_emit_fuel(w, g, m1, c0, k0, (f1 - 1) as nat, (f2 - 1) as nat);
                        },
                        Err(_) => {},
                    }
                }
            },
            ExecutionInformation::Vector3 => {
                if g[n].inputs.len() >= 3 && g[n].inputs[0] is Some && g[n].inputs[1] is Some && g[n].inputs[2] is Some {
                    let m0 = g[n].inputs[0]->Some_0.0;
                    let m1 = g[n].inputs[1]->Some_0.0;
                    let m2 = g[n].inputs[2]->Some_0.0;
                    lemma_emit_fuel(w, g, m0, cache, counter, (f1 - 1) as nat, (f2 - 1) as nat);
                    match spec_emit(w, g, m0, cache, counter, (f1 - 1) as nat) {
                        Ok((f0r, c0, k0)) => {
                            lemma_emit_fuel(w, g, m1, c0, k0, (f1 - 1) as nat, (f2 - 1) as nat);
                            match spec_emit(w, g, m1, c0, k0, (f1 - 1) as nat) {
                                Ok((f1r, c1, k1)) => {
                                    lemma_emit_fuel(
                                        w,
                                        g,
                                        m2,
                                        c1,
                                        k1,
                                        (f1 - 1) as nat,
                                        (f2 - 1) as nat,
                                    );
                                },
                                Err(_) => {},
                            }
                        },
                        Err(_) => {},
                    }
                }
            },
            _ => {},
        }
    }
}


// ----------------------------------------------------------------------
// Executable emission.

/// The model of the executable cache: the fragments of the filled slots.
pub open spec fn cache_view(c: Seq<Option<ShaderProgram>>) -> EmitCacheV {
    Map::new(
        |n: int| 0 <= n < c.len() && c[n] is Some,
        |n: int| (c[n]->Some_0.text@, c[n]->Some_0.name@),
    )
}

/// How many slots of the cache are filled.
pub open spec fn count_some(c: Seq<Option<ShaderProgram>>) -> nat
    decreases c.len(),
{
    if c.len() == 0 {
        0
    } else {
        count_some(c.drop_last()) + (if c.last() is Some {
            1nat
        } else {
            0nat
        })
    }
}

/// A cache with an empty slot is not full.
proof fn lemma_count_some_bounds(c: Seq<Option<ShaderProgram>>)
    ensures
        count_some(c) <= c.len(),
        forall|i: int| 0 <= i < c.len() && c[i] is None ==> count_some(c) < c.len(),
    decreases c.len(),
{
    if c.len() > 0 {
        lemma_count_some_bounds(c.drop_last());
        assert forall|i: int| 0 <= i < c.len() && c[i] is None implies count_some(c) < c.len() by {
            if i < c.len() - 1 {
                assert(c.drop_last()[i] is None);
            }
        }
    }
}

/// Filling an empty slot raises the filled count by one.
proof fn lemma_count_some_update(c: Seq<Option<ShaderProgram>>, i: int, v: Option<ShaderProgram>)
    requires
        0 <= i < c.len(),
        c[i] is None,
        v is Some,
    ensures
        count_some(c.update(i, v)) == count_some(c) + 1,
    decreases c.len(),
{
    let c2 = c.update(i, v);
    if i == c.len() - 1 {
        assert(c2.drop_last() =~= c.drop_last());
    } else {
        assert(c2.drop_last() =~= c.drop_last().update(i, v));
        lemma_count_some_update(c.drop_last(), i, v);
    }
}

impl Executor {
    /// Emits the fragment of the node that `port` belongs to, and of every
    /// node it depends on, memoized in `cached`.
    #[verifier::loop_isolation(false)]
    fn make_prog(
        &mut self,
        cached: &mut Vec<Option<ShaderProgram>>,
        port: ValueRef,
        graph: &NodeGraph,
        world: &SimpleTypeWorld,
        fuel: usize,
    ) -> (r: Result<ShaderProgram, TypeError>)
        requires
            graph_wf(graph@, world@),
            old(cached)@.len() == graph@.len(),
            port.node.id < graph@.len(),
            fuel >= port.node.id + 1,
            old(self).namer.next_id + (graph@.len() - count_some(old(cached)@)) <= usize::MAX,
        ensures
            final(cached)@.len() == graph@.len(),
            final(self).namer.next_id + (graph@.len() - count_some(final(cached)@)) <= old(
                self,
            ).namer.next_id + (graph@.len() - count_some(old(cached)@)),
            forall|m: int|
                port.node.id < m < graph@.len() ==> final(cached)@[m] == #[trigger] old(cached)@[m],
            forall|m: int|
                0 <= m < graph@.len() && (#[trigger] old(cached)@[m]) is Some ==> final(cached)@[m] == old(cached)@[m],
            match (
                r,
                spec_emit(
                    world@,
                    graph@,
                    port.node.id as int,
                    cache_view(old(cached)@),
                    old(self).namer.next_id as nat,
                    graph@.len() as nat,
                ),
            ) {
                (Ok(p), Ok(x)) => p.text@ == x.0.0 && p.name@ == x.0.1 && cache_view(
                    final(cached)@,
                ) == x.1 && final(self).namer.next_id as nat == x.2,
                (Err(e1), Err(e2)) => e1 == e2,
                _ => false,
            },
        decreases fuel,
    {
        let n = port.node.id;
        let ghost w = world@;
        let ghost g = graph@;
        let ghost ni = n as int;
        let ghost glen = g.len() as nat;
        let ghost cv0 = cache_view(old(cached)@);
        let ghost k0 = old(self).namer.next_id as nat;

        proof {
            assert(node_wf(g, w, ni));
            lemma_count_some_bounds(cached@);
        }

        match &cached[n] {
            Some(p) => {
                proof {
                    assert(cv0.dom().contains(ni));
                    assert(cv0[ni] == (p.text@, p.name@));
                }
                return Ok(p.clone());
            },
            None => {},
        }
        proof {
            assert(!cv0.dom().contains(ni));
        }

        let node = &graph.nodes[n];
        proof {
            assert(node@ == g[ni]);
        }
        let tyi = node.node_type.index();
        let nt = &world.node_types[tyi].1;
        proof {
            assert(nt@ == w[g[ni].ty].1);
            assert(nt.annotation == w[g[ni].ty].1.tag);
        }
        match nt.annotation {
            ExecutionInformation::Constant => {
                let name = self.namer.generate_name();
                let mut text = String::new();
                text.append("fn ");
                text.append(name.as_str());
                text.append("(x: f32, y: f32, component: u32) -> f32 { return ");
                match &node.extra_data {
                    Some(s) => text.append(s.as_str()),
                    None => text.append("0"),
                }
                text.append("f; }");
                proof {
                    assert(text@ =~= constant_text(gen_name(k0), constant_value(g[ni].extra)));
                }
                self.finish_node(cached, n, text, name, Ghost(g))
            },
            ExecutionInformation::Attr => {
                let attr = match &node.extra_data {
                    None => {
                        return Err(TypeError::UnsupportedOp);
                    },
                    Some(attr) => attr,
                };
                let name = self.namer.generate_name();
                let mut text = String::new();
                text.append("fn ");
                text.append(name.as_str());
                text.append("(x: f32, y: f32, component: u32) -> f32 { return ");
                text.append(attr.as_str());
                text.append("; }");
                proof {
                    assert(text@ =~= attr_text(gen_name(k0), g[ni].extra->Some_0));
                }
                self.finish_node(cached, n, text, name, Ghost(g))
            },
            ExecutionInformation::Add => {
                if node.inputs.len() < 2 {
                    return Err(TypeError::UnconnectedInput);
                }
                let v0 = match node.inputs[0] {
                    None => {
                        return Err(TypeError::UnconnectedInput);
                    },
                    Some(v) => v,
                };
                let v1 = match node.inputs[1] {
                    None => {
                        return Err(TypeError::UnconnectedInput);
                    },
                    Some(v) => v,
                };
                proof {
                    assert(g[ni].inputs[0] == Some((v0.node.id as int, v0.output_index as int)));
                    assert(g[ni].inputs[1] == Some((v1.node.id as int, v1.output_index as int)));
                }
                let p0 = match self.make_prog(cached, v0, graph, world, fuel - 1) {
                    Err(e) => {
                        proof {
                            lemma_emit_fuel(w, g, v0.node.id as int, cv0, k0, glen, (glen - 1) as nat);
                        }
                        return Err(e);
                    },
                    Ok(p) => p,
                };
                proof {
                    lemma_emit_fuel(w, g, v0.node.id as int, cv0, k0, glen, (glen - 1) as nat);
                }
                let ghost cv1 = cache_view(cached@);
                let ghost k1 = self.namer.next_id as nat;
                let p1 = match self.make_prog(cached, v1, graph, world, fuel - 1) {
                    Err(e) => {
                        proof {
                            lemma_emit_fuel(w, g, v1.node.id as int, cv1, k1, glen, (glen - 1) as nat);
                        }
                        return Err(e);
                    },
                    Ok(p) => p,
                };
                proof {
                    lemma_emit_fuel(w, g, v1.node.id as int, cv1, k1, glen, (glen - 1) as nat);
                    lemma_count_some_bounds(cached@);
                }
                let name = self.namer.generate_name();
                let mut text = String::new();
                text.append(p0.text.as_str());
                text.append("\n");
                text.append(p1.text.as_str());
                text.append("\n");
                text.append("fn ");
                text.append(name.as_str());
                text.append("(x: f32, y: f32, component: u32) -> f32 { return ");
                text.append(p0.name.as_str());
                text.append("(x,y,component) + ");
                text.append(p1.name.as_str());
                text.append("(x,y,component); }");
                proof {
                    assert(text@ =~= add_text(p0.text@, p1.text@, name@, p0.name@, p1.name@));
                }
                self.finish_node(cached, n, text, name, Ghost(g))
            },
            ExecutionInformation::Vector3 => {
                if node.inputs.len() < 3 {
                    return Err(TypeError::UnconnectedInput);
                }
                let v0 = match node.inputs[0] {
                    None => {
                        return Err(TypeError::UnconnectedInput);
                    },
                    Some(v) => v,
                };
                let v1 = match node.inputs[1] {
                    None => {
                        return Err(TypeError::UnconnectedInput);
                    },
                    Some(v) => v,
                };
                let v2 = match node.inputs[2] {
                    None => {
                        return Err(TypeError::UnconnectedInput);
                    },
                    Some(v) => v,
                };
                proof {
                    assert(g[ni].inputs[0] == Some((v0.node.id as int, v0.output_index as int)));
                    assert(g[ni].inputs[1] == Some((v1.node.id as int, v1.output_index as int)));
                    assert(g[ni].inputs[2] == Some((v2.node.id as int, v2.output_index as int)));
                }
                let p0 = match self.make_prog(cached, v0, graph, world, fuel - 1) {
                    Err(e) => {
                        proof {
                            lemma_emit_fuel(w, g, v0.node.id as int, cv0, k0, glen, (glen - 1) as nat);
                        }
                        return Err(e);
                    },
                    Ok(p) => p,
                };
                proof {
                    lemma_emit_fuel(w, g, v0.node.id as int, cv0, k0, glen, (glen - 1) as nat);
                }
                let ghost cv1 = cache_view(cached@);
                let ghost k1 = self.namer.next_id as nat;
                let p1 = match self.make_prog(cached, v1, graph, world, fuel - 1) {
                    Err(e) => {
                        proof {
                            lemma_emit_fuel(w, g, v1.node.id as int, cv1, k1, glen, (glen - 1) as nat);
                        }
                        return Err(e);
                    },
                    Ok(p) => p,
                };
                proof {
                    lemma_emit_fuel(w, g, v1.node.id as int, cv1, k1, glen, (glen - 1) as nat);
                }
                let ghost cv2 = cache_view(cached@);
                let ghost k2 = self.namer.next_id as nat;
                let p2 = match self.make_prog(cached, v2, graph, world, fuel - 1) {
                    Err(e) => {
                        proof {
                            lemma_emit_fuel(w, g, v2.node.id as int, cv2, k2, glen, (glen - 1) as nat);
                        }
                        return Err(e);
                    },
                    Ok(p) => p,
                };
                proof {
                    lemma_emit_fuel(w, g, v2.node.id as int, cv2, k2, glen, (glen - 1) as nat);
                    lemma_count_some_bounds(cached@);
                }
                let name = self.namer.generate_name();
                let mut text = String::new();
                text.append(p0.text.as_str());
                text.append("\n");
                text.append(p1.text.as_str());
                text.append("\n");
                text.append(p2.text.as_str());
                text.append("\n");
                text.append("fn ");
                text.append(name.as_str());
                text.append("(x: f32, y: f32, component: u32) -> f32 { if component == 0 { return ");
                text.append(p0.name.as_str());
                text.append("(x,y,component); } if component == 1 { return ");
                text.append(p1.name.as_str());
                text.append("(x,y,component); } return ");
                text.append(p2.name.as_str());
                text.append("(x,y,component); }");
                proof {
                    assert(text@ =~= vector3_text(
                        p0.text@,
                        p1.text@,
                        p2.text@,
                        name@,
                        p0.name@,
                        p1.name@,
                        p2.name@,
                    ));
                }
                self.finish_node(cached, n, text, name, Ghost(g))
            },
            ExecutionInformation::Exp => Err(TypeError::UnsupportedOp),
            ExecutionInformation::Out => Err(TypeError::UnsupportedOp),
            ExecutionInformation::ERR => Err(TypeError::UnsupportedOp),
        }
    }

    /// Stores a freshly emitted fragment in the cache and hands it back.
    fn finish_node(
        &self,
        cached: &mut Vec<Option<ShaderProgram>>,
        n: usize,
        text: String,
        name: String,
        Ghost(g): Ghost<GraphV>,
    ) -> (r: Result<ShaderProgram, TypeError>)
        requires
            old(cached)@.len() == g.len(),
            n < g.len(),
            old(cached)@[n as int] is None,
        ensures
            final(cached)@.len() == g.len(),
            count_some(final(cached)@) == count_some(old(cached)@) + 1,
            cache_view(final(cached)@) == cache_view(old(cached)@).insert(
                n as int,
                (text@, name@),
            ),
            forall|m: int|
                0 <= m < g.len() && m != n ==> final(cached)@[m] == #[trigger] old(cached)@[m],
            r matches Ok(p) && p.text@ == text@ && p.name@ == name@,
    {
        let p = ShaderProgram { text, name };
        let p2 = p.clone();
        cached.set(n, Some(p));
        proof {
            lemma_count_some_update(old(cached)@, n as int, final(cached)@[n as int]);
            assert(cache_view(final(cached)@) =~= cache_view(old(cached)@).insert(
                n as int,
                (p2.text@, p2.name@),
            ));
        }
        Ok(p2)
    }
}

impl Executor {
    /// Starts the fresh-name counter over; called before each top-level
    /// `run` so that emitted names are deterministic.
    pub fn reset_names(&mut self)
        ensures
            final(self).namer.next_id == 0,
    {
        self.namer.reset();
    }

    /// Emits the shader program of a graph: finds the node tagged `Out`,
    /// emits the fragment wired to its first input, and appends the entry
    /// function, whose name is returned with the text.
    #[verifier::loop_isolation(false)]
    pub fn run(&mut self, graph: &NodeGraph, world: &SimpleTypeWorld) -> (r: Result<
        ShaderProgram,
        TypeError,
    >)
        requires
            graph_wf(graph@, world@),
            old(self).namer.next_id + graph@.len() + 1 <= usize::MAX,
        ensures
            match (r, spec_run(world@, graph@, old(self).namer.next_id as nat)) {
                (Ok(p), Ok(f)) => p.text@ == f.0 && p.name@ == f.1,
                (Err(e1), Err(e2)) => e1 == e2,
                _ => false,
            },
    {
        let ghost w = world@;
        let ghost g = graph@;
        let nn = graph.nodes.len();

        let mut cached: Vec<Option<ShaderProgram>> = Vec::new();
        for i in 0..nn
            invariant
                cached@.len() == i,
                count_some(cached@) == 0,
                forall|j: int| 0 <= j < i ==> (#[trigger] cached@[j]) is None,
        {
            let ghost pre = cached@;
            cached.push(None);
            proof {
                assert(cached@.drop_last() =~= pre);
            }
        }
        proof {
            assert(cache_view(cached@) =~= Map::<int, FragV>::empty());
        }

        let mut n: usize = 0;
        while n < nn
            invariant
                n <= nn,
                self.namer.next_id == old(self).namer.next_id,
                count_some(cached@) == 0,
                cached@.len() == nn,
                cache_view(cached@) =~= Map::<int, FragV>::empty(),
                find_out(w, g, 0) == find_out(w, g, n as int),
            decreases nn - n,
        {
            let node = &graph.nodes[n];
            proof {
                assert(node_wf(g, w, n as int));
                assert(node@ == g[n as int]);
            }
            let tyi = node.node_type.index();
            let nt = &world.node_types[tyi].1;
            proof {
                assert(nt@ == w[g[n as int].ty].1);
            }
            if nt.annotation == ExecutionInformation::Out {
                if node.inputs.len() == 0 {
                    return Err(TypeError::UnconnectedInput);
                }
                let inp = match node.inputs[0] {
                    None => {
                        return Err(TypeError::UnconnectedInput);
                    },
                    Some(v) => v,
                };
                proof {
                    assert(g[n as int].inputs[0] == Some(
                        (inp.node.id as int, inp.output_index as int),
                    ));
                    assert(0 <= inp.node.id < n);
                }
                let ghost k0 = self.namer.next_id as nat;
                let p = match self.make_prog(&mut cached, inp, graph, world, nn) {
                    Err(e) => {
                        return Err(e);
                    },
                    Ok(p) => p,
                };
                proof {
                    lemma_count_some_bounds(cached@);
                }
                let name = self.namer.generate_name();
                let mut text = String::new();
                text.append(p.text.as_str());
                text.append("\n");
                text.append("fn ");
                text.append(name.as_str());
                text.append("(x: f32, y: f32, component: u32) -> f32 { return ");
                text.append(p.name.as_str());
                text.append("(x,y,component); }");
                proof {
                    assert(text@ =~= forward_text(p.text@, name@, p.name@));
                }
                return Ok(ShaderProgram { text, name });
            }
            proof {
                assert(find_out(w, g, n as int) == find_out(w, g, n as int + 1));
            }
            n = n + 1;
        }
        proof {
            assert(find_out(w, g, nn as int) is None);
        }
        Err(TypeError::MissingOutput)
    }
}

/// Emission never reports a missing output except for the missing output
/// itself: the per-node emission can fail only inside the graph.
pub proof fn lemma_emit_no_missing_output(
    w: WorldV,
    g: GraphV,
    n: int,
    cache: EmitCacheV,
    counter: nat,
    fuel: nat,
)
    ensures
        spec_emit(w, g, n, cache, counter, fuel) != Err::<(FragV, EmitCacheV, nat), TypeError>(
            TypeError::MissingOutput,
        ),
    decreases fuel,
{
    if !cache.dom().contains(n) && 0 <= n < g.len() && 0 <= g[n].ty < w.len() && fuel > 0 {
        let tag = w[g[n].ty].1.tag;
        match tag {
            ExecutionInformation::Add => {
                if g[n].inputs.len() >= 2 && g[n].inputs[0] is Some && g[n].inputs[1] is Some {
                    let m0 = g[n].inputs[0]->Some_0.0;
                    let m1 = g[n].inputs[1]->Some_0.0;
                    lemma_emit_no_missing_output(w, g, m0, cache, counter, (fuel - 1) as nat);
                    match spec_emit(w, g, m0, cache, counter, (fuel - 1) as nat) {
                        Ok((f0, c0, k0)) => {
                            lemma_emit_no_missing_output(w, g, m1, c0, k0, (fuel - 1) as nat);
                        },
                        Err(_) => {},
                    }
                }
            },
            ExecutionInformation::Vector3 => {
                if g[n].inputs.len() >= 3 && g[n].inputs[0] is Some && g[n].inputs[1] is Some && g[n].inputs[2] is Some {
                    let m0 = g[n].inputs[0]->Some_0.0;
                    let m1 = g[n].inputs[1]->Some_0.0;
                    let m2 = g[n].inputs[2]->Some_0.0;
                    lemma_emit_no_missing_output(w, g, m0, cache, counter, (fuel - 1) as nat);
                    match spec_emit(w, g, m0, cache, counter, (fuel - 1) as nat) {
                        Ok((f0, c0, k0)) => {
                            lemma_emit_no_missing_output(w, g, m1, c0, k0, (fuel - 1) as nat);
                            match spec_emit(w, g, m1, c0, k0, (fuel - 1) as nat) {
                                Ok((f1, c1, k1)) => {
                                    lemma_emit_no_missing_output(
                                        w,
                                        g,
                                        m2,
                                        c1,
                                        k1,
                                        (fuel - 1) as nat,
                                    );
                                },
                                Err(_) => {},
                            }
                        },
                        Err(_) => {},
                    }
                }
            },
            _ => {},
        }
    }
}

/// A graph without an `Out` node has no entry point: emission fails with
/// exactly the missing-output error, and only then.
pub proof fn lemma_missing_output(w: WorldV, g: GraphV, c0: nat)
    ensures
        spec_run(w, g, c0) == Err::<FragV, TypeError>(TypeError::MissingOutput) <==> find_out(
            w,
            g,
            0,
        ) is None,
{
    match find_out(w, g, 0) {
        None => {},
        Some(n) => {
            if !(g[n].inputs.len() == 0 || !(g[n].inputs[0] is Some)) {
                lemma_emit_no_missing_output(
                    w,
                    g,
                    g[n].inputs[0]->Some_0.0,
                    Map::empty(),
                    c0,
                    g.len() as nat,
                );
            }
        },
    }
}

/// Determinism of emission: for a fixed graph, registry, and starting
/// counter, two emission runs read the same.
pub proof fn lemma_emission_deterministic(
    w: WorldV,
    g: GraphV,
    c0: nat,
    r1: Result<FragV, TypeError>,
    r2: Result<FragV, TypeError>,
)
    requires
        r1 == spec_run(w, g, c0),
        r2 == spec_run(w, g, c0),
    ensures
        r1 == r2,
{
}
} // verus!
