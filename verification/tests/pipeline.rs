//! End-to-end scenarios: registry text and graph text through analysis and
//! emission.

use shadex::emitter::Executor;
use shadex::nodegraph::{NodeGraph, NodeRef, SimpleTypeWorld, ValueRef};
use shadex::parsing::{construct_node_graph, parse_whole_input};
use shadex::type_parsing::parse_type_world;
use shadex::typechecking::{
    InputTypeNotes, InputValueTypeSource, NodeGraphFormalTypeAnalysis, OutputTypeNotes,
};
use shadex::typetypes::{TypeError, ValueType};

const REGISTRY: &str = "\
Constant = => value @ f32
Attr     = v @ f32 => value @ f32
Add      = a @ f32; b @ f32 => value @ f32
Vec3     = x @ f32; y @ f32; z @ f32 => value @ (component: [3] -> f32)
Out      = val @ (x: [1024], y: [1024], component: [3] -> f32) =>
";

fn setup(graph_text: &str) -> (SimpleTypeWorld, NodeGraph, NodeGraphFormalTypeAnalysis) {
    let world = parse_type_world(REGISTRY).expect("registry should parse");
    let exprs = parse_whole_input(graph_text).expect("graph text should parse");
    let graph = construct_node_graph(&world, exprs).expect("graph should build");
    let analysis = NodeGraphFormalTypeAnalysis::analyze(&graph, &world);
    (world, graph, analysis)
}

fn input_notes_of(
    analysis: &NodeGraphFormalTypeAnalysis,
    node: usize,
    input: usize,
) -> Result<&InputTypeNotes, TypeError> {
    match analysis
        .input_notes(NodeRef { id: node }, input)
        .expect("port should be analyzed")
    {
        Ok(n) => Ok(n),
        Err(e) => Err(*e),
    }
}

fn output_notes_of(
    analysis: &NodeGraphFormalTypeAnalysis,
    node: usize,
    output: usize,
) -> Result<&OutputTypeNotes, TypeError> {
    match analysis
        .output_notes(ValueRef {
            node: NodeRef { id: node },
            output_index: output,
        })
        .expect("port should be analyzed")
    {
        Ok(n) => Ok(n),
        Err(e) => Err(*e),
    }
}

fn arg_names(args: &[shadex::typetypes::Arg]) -> Vec<String> {
    args.iter().map(|a| a.name.clone()).collect()
}

#[test]
fn trivial_constant_shader() {
    // c = id0, o = id1 in construction order.
    let (world, graph, analysis) = setup("c = Constant(); o = Out(c.value)");
    let notes = input_notes_of(&analysis, 1, 0).expect("Out input should analyze");
    match &notes.type_source {
        InputValueTypeSource::FromOutput(op) => {
            assert_eq!(
                arg_names(&op.added_constant_wrt),
                vec!["component", "x", "y"]
            );
            assert!(op.types_from_output.is_empty());
            assert!(op.underspecified_args.is_empty());
        }
        _ => panic!("expected a wired source"),
    }
    let mut exec = Executor::default();
    let prog = exec.run(&graph, &world).expect("emission should succeed");
    assert_eq!(prog.name, "id1");
    assert_eq!(
        prog.text,
        "fn id0(x: f32, y: f32, component: u32) -> f32 { return 0f; }\n\
         fn id1(x: f32, y: f32, component: u32) -> f32 { return id0(x,y,component); }"
    );
}

#[test]
fn constant_value_from_extra_data() {
    let (world, graph, _) = setup("c = Constant:7.5(); o = Out(c.value)");
    let mut exec = Executor::default();
    let prog = exec.run(&graph, &world).expect("emission should succeed");
    assert!(prog.text.contains("return 7.5f;"));
}

#[test]
fn add_of_two_constants() {
    let (world, graph, _) = setup(
        "a = Constant(); b = Constant(); s = Add(a.value, b.value); o = Out(s.value)",
    );
    let mut exec = Executor::default();
    let prog = exec.run(&graph, &world).expect("emission should succeed");
    assert_eq!(prog.name, "id3");
    assert_eq!(
        prog.text,
        "fn id0(x: f32, y: f32, component: u32) -> f32 { return 0f; }\n\
         fn id1(x: f32, y: f32, component: u32) -> f32 { return 0f; }\n\
         fn id2(x: f32, y: f32, component: u32) -> f32 { return id0(x,y,component) + id1(x,y,component); }\n\
         fn id3(x: f32, y: f32, component: u32) -> f32 { return id2(x,y,component); }"
    );
}

#[test]
fn vec3_into_out() {
    // r=0, g=1, bl=2, v=3, o=4.
    let (world, graph, analysis) = setup(
        "r = Constant(); g = Constant(); bl = Constant(); \
         v = Vec3(r.value, g.value, bl.value); o = Out(v.value)",
    );
    let vnotes = output_notes_of(&analysis, 3, 0).expect("Vec3 output should analyze");
    assert_eq!(arg_names(&vnotes.formal_type.inputs), vec!["component"]);
    assert_eq!(vnotes.formal_type.inputs[0].ty.to_text(), "[3]");
    let onotes = input_notes_of(&analysis, 4, 0).expect("Out input should analyze");
    match &onotes.type_source {
        InputValueTypeSource::FromOutput(op) => {
            assert_eq!(arg_names(&op.added_constant_wrt), vec!["x", "y"]);
            assert_eq!(arg_names(&op.types_from_output), vec!["component"]);
            assert!(op.underspecified_args.is_empty());
        }
        _ => panic!("expected a wired source"),
    }
    let mut exec = Executor::default();
    let prog = exec.run(&graph, &world).expect("emission should succeed");
    assert_eq!(prog.name, "id4");
    assert!(prog.text.contains("if component == 0 { return id0(x,y,component); }"));
    assert!(prog.text.contains("if component == 1 { return id1(x,y,component); }"));
    assert!(prog.text.contains("return id2(x,y,component); }"));
}

#[test]
fn free_variable() {
    let (_, _, analysis) = setup("o = Out(NULL)");
    let notes = input_notes_of(&analysis, 0, 0).expect("free input should analyze");
    match &notes.type_source {
        InputValueTypeSource::FreeVariable(fv) => {
            assert_eq!(fv.itself.0, "val");
            assert_eq!(
                fv.itself.1.to_text(),
                "(component: [3], x: [1024], y: [1024] -> f32)"
            );
            assert_eq!(arg_names(&fv.types_from_fv), vec!["component", "x", "y"]);
        }
        _ => panic!("expected a free variable source"),
    }
    assert_eq!(
        arg_names(&notes.formal_type.inputs),
        vec!["component", "val", "x", "y"]
    );
}

#[test]
fn type_error_is_local() {
    let world = parse_type_world(&format!("{}Mid = v @ f32 => value @ i32\n", REGISTRY))
        .expect("registry should parse");
    let exprs =
        parse_whole_input("a = Constant(); m = Mid(a.value); o = Out(m.value)").unwrap();
    let graph = construct_node_graph(&world, exprs).unwrap();
    let analysis = NodeGraphFormalTypeAnalysis::analyze(&graph, &world);
    // The Out input sees an i32 where it declared f32.
    let err = input_notes_of(&analysis, 2, 0).expect_err("mismatch expected");
    assert_eq!(err, TypeError::PrimitiveMismatch);
    // Unrelated ports still carry Ok notes.
    assert!(input_notes_of(&analysis, 1, 0).is_ok());
    assert!(output_notes_of(&analysis, 0, 0).is_ok());
    assert!(output_notes_of(&analysis, 1, 0).is_ok());
}

#[test]
fn missing_out() {
    let (world, graph, analysis) = setup("c = Constant()");
    assert!(output_notes_of(&analysis, 0, 0).is_ok());
    let mut exec = Executor::default();
    let err = exec.run(&graph, &world).expect_err("no Out node");
    assert_eq!(err, TypeError::MissingOutput);
}

#[test]
fn unconnected_input_at_emission() {
    let (world, graph, _) = setup("a = Constant(); s = Add(a.value, NULL); o = Out(s.value)");
    let mut exec = Executor::default();
    let err = exec.run(&graph, &world).expect_err("unwired input");
    assert_eq!(err, TypeError::UnconnectedInput);
}

#[test]
fn out_with_free_input_fails_emission() {
    let (world, graph, _) = setup("o = Out(NULL)");
    let mut exec = Executor::default();
    let err = exec.run(&graph, &world).expect_err("unwired Out");
    assert_eq!(err, TypeError::UnconnectedInput);
}

#[test]
fn exp_is_unsupported() {
    let world = parse_type_world(&format!("{}Exp = v @ f32 => value @ f32\n", REGISTRY)).unwrap();
    let exprs = parse_whole_input("c = Constant(); e = Exp(c.value); o = Out(e.value)").unwrap();
    let graph = construct_node_graph(&world, exprs).unwrap();
    let mut exec = Executor::default();
    let err = exec.run(&graph, &world).expect_err("no emission rule");
    assert_eq!(err, TypeError::UnsupportedOp);
}

#[test]
fn unknown_tag_is_unsupported() {
    let world =
        parse_type_world(&format!("{}Custom = => value @ f32\n", REGISTRY)).unwrap();
    let exprs = parse_whole_input("c = Custom(); o = Out(c.value)").unwrap();
    let graph = construct_node_graph(&world, exprs).unwrap();
    let mut exec = Executor::default();
    let err = exec.run(&graph, &world).expect_err("sentinel tag");
    assert_eq!(err, TypeError::UnsupportedOp);
}

#[test]
fn missing_node_type() {
    let world = parse_type_world(REGISTRY).unwrap();
    let exprs = parse_whole_input("z = Nope()").unwrap();
    let err = construct_node_graph(&world, exprs).expect_err("unknown type name");
    assert_eq!(err, TypeError::MissingNodeType);
}

#[test]
fn argument_type_mismatch() {
    let world = parse_type_world(&format!(
        "{}TakesComp = v @ (component: f32 -> f32) => value @ f32\n",
        REGISTRY
    ))
    .unwrap();
    let exprs = parse_whole_input(
        "c = Constant(); v = Vec3(c.value, c.value, c.value); t = TakesComp(v.value)",
    )
    .unwrap();
    let graph = construct_node_graph(&world, exprs).unwrap();
    let analysis = NodeGraphFormalTypeAnalysis::analyze(&graph, &world);
    let err = input_notes_of(&analysis, 2, 0).expect_err("shared name, different types");
    assert_eq!(err, TypeError::ArgumentTypeMismatch);
}

#[test]
fn conflicting_excess_argument() {
    let world = parse_type_world(&format!("{}Dup = p @ f32; p @ [3] => value @ f32\n", REGISTRY))
        .unwrap();
    let exprs = parse_whole_input("d = Dup(NULL, NULL)").unwrap();
    let graph = construct_node_graph(&world, exprs).unwrap();
    let analysis = NodeGraphFormalTypeAnalysis::analyze(&graph, &world);
    let err = output_notes_of(&analysis, 0, 0).expect_err("two excess args named p");
    assert_eq!(err, TypeError::ConflictingExcessArgument);
}

#[test]
fn excess_argument_propagates_upward() {
    // A free Add input introduces an excess argument named after itself;
    // the Add output absorbs it.
    let (_, _, analysis) = setup("c = Constant(); s = Add(c.value, NULL)");
    let notes = output_notes_of(&analysis, 1, 0).expect("Add output should analyze");
    assert_eq!(arg_names(&notes.formal_type.inputs), vec!["b"]);
    assert_eq!(arg_names(&notes.inputs_parameterized_by), vec!["b"]);
    assert!(notes.step_computation_requires.is_empty());
}

#[test]
fn shared_node_is_emitted_once_per_cache() {
    // Both Add inputs wire to the same constant; memoization hands the
    // second request the fragment already emitted, under the same name.
    let (world, graph, _) = setup("a = Constant(); s = Add(a.value, a.value); o = Out(s.value)");
    let mut exec = Executor::default();
    let prog = exec.run(&graph, &world).expect("emission should succeed");
    assert_eq!(prog.name, "id2");
    assert_eq!(
        prog.text,
        "fn id0(x: f32, y: f32, component: u32) -> f32 { return 0f; }\n\
         fn id0(x: f32, y: f32, component: u32) -> f32 { return 0f; }\n\
         fn id1(x: f32, y: f32, component: u32) -> f32 { return id0(x,y,component) + id0(x,y,component); }\n\
         fn id2(x: f32, y: f32, component: u32) -> f32 { return id1(x,y,component); }"
    );
}

#[test]
fn analysis_is_deterministic_and_idempotent() {
    let graph_text = "a = Constant(); b = Constant(); s = Add(a.value, NULL); o = Out(s.value)";
    let (world, graph, a1) = setup(graph_text);
    let a2 = NodeGraphFormalTypeAnalysis::analyze(&graph, &world);
    for n in 0..4usize {
        for i in 0..3usize {
            let l = a1.input_notes(NodeRef { id: n }, i).map(render_input);
            let r = a2.input_notes(NodeRef { id: n }, i).map(render_input);
            assert_eq!(l, r);
            let vr = ValueRef {
                node: NodeRef { id: n },
                output_index: i,
            };
            let lo = a1.output_notes(vr).map(render_output);
            let ro = a2.output_notes(vr).map(render_output);
            assert_eq!(lo, ro);
        }
    }
}

#[test]
fn emission_is_deterministic() {
    let graph_text = "a = Constant(); b = Constant(); s = Add(a.value, b.value); o = Out(s.value)";
    let (world, graph, _) = setup(graph_text);
    let mut e1 = Executor::default();
    let p1 = e1.run(&graph, &world).unwrap();
    let mut e2 = Executor::default();
    let p2 = e2.run(&graph, &world).unwrap();
    assert_eq!(p1.text, p2.text);
    assert_eq!(p1.name, p2.name);
    // Resetting the counter makes re-emission from the same executor
    // identical as well.
    e1.reset_names();
    let p3 = e1.run(&graph, &world).unwrap();
    assert_eq!(p1.text, p3.text);
    assert_eq!(p1.name, p3.name);
}

fn render_value_type(v: &ValueType) -> String {
    v.to_text()
}

fn render_input(n: &Result<InputTypeNotes, TypeError>) -> String {
    match n {
        Err(e) => format!("err {:?}", e),
        Ok(n) => {
            let src = match &n.type_source {
                InputValueTypeSource::FreeVariable(fv) => {
                    format!("fv {} {}", fv.itself.0, render_value_type(&fv.itself.1))
                }
                InputValueTypeSource::FromOutput(op) => format!(
                    "out added={:?} from={:?} under={:?}",
                    op.added_constant_wrt
                        .iter()
                        .map(|a| (a.name.clone(), a.ty.to_text()))
                        .collect::<Vec<_>>(),
                    op.types_from_output
                        .iter()
                        .map(|a| (a.name.clone(), a.ty.to_text()))
                        .collect::<Vec<_>>(),
                    op.underspecified_args
                ),
            };
            format!("{} | {}", render_value_type(&n.formal_type), src)
        }
    }
}

fn render_output(n: &Result<OutputTypeNotes, TypeError>) -> String {
    match n {
        Err(e) => format!("err {:?}", e),
        Ok(n) => format!(
            "{} | req={:?} | par={:?}",
            render_value_type(&n.formal_type),
            n.step_computation_requires
                .iter()
                .map(|a| (a.name.clone(), a.ty.to_text()))
                .collect::<Vec<_>>(),
            n.inputs_parameterized_by
                .iter()
                .map(|a| (a.name.clone(), a.ty.to_text()))
                .collect::<Vec<_>>(),
        ),
    }
}

#[test]
fn underspecified_arguments_are_reported() {
    // Upstream Vec3 carries `component`, which a plain f32 input does not
    // advertise; Add still accepts it and records it as underspecified.
    let (_, _, analysis) = setup(
        "c = Constant(); v = Vec3(c.value, c.value, c.value); s = Add(v.value, c.value)",
    );
    let notes = input_notes_of(&analysis, 2, 0).expect("Add input should analyze");
    match &notes.type_source {
        InputValueTypeSource::FromOutput(op) => {
            assert_eq!(op.underspecified_args, vec!["component"]);
            assert!(op.added_constant_wrt.is_empty());
        }
        _ => panic!("expected a wired source"),
    }
    // It bleeds through to the Add output arrow.
    let onotes = output_notes_of(&analysis, 2, 0).expect("Add output should analyze");
    assert_eq!(arg_names(&onotes.formal_type.inputs), vec!["component"]);
}

#[test]
fn primitive_is_preserved_on_outputs() {
    let (_, _, analysis) = setup("c = Constant(); v = Vec3(c.value, c.value, c.value)");
    let cnotes = output_notes_of(&analysis, 0, 0).unwrap();
    assert_eq!(cnotes.formal_type.output, shadex::typetypes::PrimitiveType::F32);
    let vnotes = output_notes_of(&analysis, 1, 0).unwrap();
    assert_eq!(vnotes.formal_type.output, shadex::typetypes::PrimitiveType::F32);
}
