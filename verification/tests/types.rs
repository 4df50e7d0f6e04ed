//! Unit tests for the type language: parsing, display, equality, and the
//! primitive assessments; and for the emitter's name generator.

use shadex::emitter::NameGenerator;
use shadex::nodegraph::ExecutionInformation;
use shadex::type_parsing::{parse_complete_value_type, parse_type_world, FnTypeParser};
use shadex::typechecking::{assess_known_constant_type, assess_value_type};
use shadex::typetypes::{value_type_eq, PrimitiveType, TypeError, U32Boundedness, ValueType};
use shadex::vnode_infos::{AddInfo, AttrInfo, OutInfo, Vector3Info};
use shadex::nodegraph::{NodeRef, ValueRef};
use shadex::parsing::{construct_node_graph, parse_whole_input};
use shadex::typechecking::NodeGraphFormalTypeAnalysis;

fn parse(s: &str) -> ValueType {
    parse_complete_value_type(s).expect("should parse")
}

#[test]
fn parse_primitives() {
    assert_eq!(parse("f32").output, PrimitiveType::F32);
    assert_eq!(parse("i32").output, PrimitiveType::I32);
    assert_eq!(parse("u32").output, PrimitiveType::U32(U32Boundedness::Unbounded));
    assert_eq!(parse("u32[5]").output, PrimitiveType::U32(U32Boundedness::Bounded(5)));
    assert_eq!(parse("[7]").output, PrimitiveType::U32(U32Boundedness::Bounded(7)));
    assert!(parse("f32").inputs.is_empty());
}

#[test]
fn parse_arrows() {
    let t = parse("x: f32, y: i32 -> u32");
    assert_eq!(t.output, PrimitiveType::U32(U32Boundedness::Unbounded));
    assert_eq!(t.inputs.len(), 2);
    assert_eq!(t.inputs[0].name, "x");
    assert_eq!(t.inputs[1].name, "y");
    let empty_args = parse("() -> f32");
    assert!(empty_args.inputs.is_empty());
    assert_eq!(empty_args.output, PrimitiveType::F32);
    let wrapped = parse("(x: [1024], y: [1024], component: [3] -> f32)");
    assert_eq!(wrapped.inputs.len(), 3);
    let nested = parse("a: (b: f32 -> i32) -> f32");
    assert_eq!(nested.inputs.len(), 1);
    assert_eq!(nested.inputs[0].ty.inputs.len(), 1);
    assert_eq!(nested.inputs[0].ty.output, PrimitiveType::I32);
}

#[test]
fn parse_failures() {
    for bad in ["f33", "x:", "f32 extra", "u32[99999999999]", ""] {
        let err = parse_complete_value_type(bad).expect_err("should be rejected");
        assert_eq!(err, TypeError::ParseFailure);
    }
}

#[test]
fn fn_type_parser_requires_an_arrow() {
    assert!(FnTypeParser::parse("x: f32 -> f32").is_ok());
    let err = FnTypeParser::parse("f32").expect_err("a bare primitive is not an arrow");
    assert_eq!(err, TypeError::ParseFailure);
}

#[test]
fn display_is_sorted_and_deterministic() {
    // Source order differs; the stored and displayed order is by name.
    let a = parse("y: f32, x: i32 -> f32");
    assert_eq!(a.to_text(), "(x: i32, y: f32 -> f32)");
    let b = parse("x: i32, y: f32 -> f32");
    assert_eq!(b.to_text(), "(x: i32, y: f32 -> f32)");
    assert!(value_type_eq(&a, &b));
    assert_eq!(parse("u32[12]").to_text(), "[12]");
    assert_eq!(
        parse("a: (b: f32 -> i32) -> f32").to_text(),
        "(a: (b: f32 -> i32) -> f32)"
    );
}

#[test]
fn display_text_parses_back() {
    for text in [
        "f32",
        "u32[1024]",
        "x: i32, y: f32 -> f32",
        "(x: [1024], y: [1024], component: [3] -> f32)",
        "a: (b: f32 -> i32) -> f32",
        "() -> u32",
    ] {
        let t = parse(text);
        let shown = t.to_text();
        let back = parse(&shown);
        assert!(value_type_eq(&t, &back), "round trip failed for {}", text);
    }
}

#[test]
fn equality_is_structural() {
    let a = parse("x: f32 -> f32");
    let b = parse("x: f32 -> f32");
    let c = parse("x: i32 -> f32");
    let d = parse("z: f32 -> f32");
    assert!(value_type_eq(&a, &b));
    assert!(!value_type_eq(&a, &c));
    assert!(!value_type_eq(&a, &d));
    // A bounded and an unbounded u32 are distinct.
    assert!(!value_type_eq(&parse("u32"), &parse("u32[4]")));
    assert!(!value_type_eq(&parse("u32[4]"), &parse("u32[5]")));
}

#[test]
fn assessments() {
    let bounded = |n| PrimitiveType::U32(U32Boundedness::Bounded(n));
    assert!(assess_known_constant_type(bounded(1024)).can_index_texture_axis);
    assert!(!assess_known_constant_type(bounded(1025)).can_index_texture_axis);
    assert!(assess_known_constant_type(bounded(4)).can_index_vector);
    assert!(!assess_known_constant_type(bounded(5)).can_index_vector);
    assert!(assess_known_constant_type(bounded(3)).can_index_vector);
    let unbounded = assess_known_constant_type(PrimitiveType::U32(U32Boundedness::Unbounded));
    assert!(!unbounded.can_index_texture_axis && !unbounded.can_index_vector);
    let f = assess_known_constant_type(PrimitiveType::F32);
    assert!(!f.can_index_texture_axis && !f.can_index_vector);
    // A parameterized type has no capabilities even over an indexable output.
    let arrow = parse("x: f32 -> u32[3]");
    let props = assess_value_type(&arrow);
    assert!(!props.can_index_texture_axis && !props.can_index_vector);
    let scalar = parse("[3]");
    assert!(assess_value_type(&scalar).can_index_vector);
}

#[test]
fn name_generator_counts_and_resets() {
    let mut namer = NameGenerator::default();
    assert_eq!(namer.generate_name(), "id0");
    assert_eq!(namer.generate_name(), "id1");
    assert_eq!(namer.generate_name(), "id2");
    namer.reset();
    assert_eq!(namer.generate_name(), "id0");
}

#[test]
fn registry_comments_whitespace_and_tags() {
    let world = parse_type_world(
        "// the registry\nConstant = => value @ f32 // trailing note\n\n  Out = val @ (x: [1024], y: [1024], component: [3] -> f32) =>",
    )
    .expect("registry should parse");
    let c = world.lookup("Constant").expect("Constant should be declared");
    assert_eq!(world.get(c).unwrap().annotation, ExecutionInformation::Constant);
    let o = world.lookup("Out").expect("Out should be declared");
    assert_eq!(world.get(o).unwrap().annotation, ExecutionInformation::Out);
    assert!(world.lookup("Missing").is_none());
}

#[test]
fn registry_redeclaration_replaces() {
    let world = parse_type_world(
        "Thing = a @ f32 => value @ f32\nThing = a @ f32; b @ f32 => value @ f32",
    )
    .expect("registry should parse");
    let i = world.lookup("Thing").unwrap();
    assert_eq!(world.get(i).unwrap().inputs.len(), 2);
}

#[test]
fn malformed_input_port_type_is_local() {
    // The bad port keeps its place with a sentinel; the declaration and the
    // rest of the registry stay usable.
    let world = parse_type_world("Bad = v @ zzz => value @ f32\nConstant = => value @ f32")
        .expect("registry should parse");
    let b = world.lookup("Bad").expect("Bad should be declared");
    let bad = world.get(b).unwrap();
    assert_eq!(bad.inputs.len(), 1);
    assert_eq!(bad.inputs[0].name, "v");
    assert!(matches!(bad.inputs[0].value_type, Err(TypeError::ParseFailure)));
    assert!(bad.outputs[0].value_type.is_ok());
    assert!(world.lookup("Constant").is_some());
}

#[test]
fn malformed_output_port_type_is_local() {
    let world = parse_type_world("Weird = => value @ zzz\nConstant = => value @ f32")
        .expect("registry should parse");
    let w = world.lookup("Weird").expect("Weird should be declared");
    let weird = world.get(w).unwrap();
    assert_eq!(weird.outputs.len(), 1);
    assert!(matches!(weird.outputs[0].value_type, Err(TypeError::ParseFailure)));
    assert!(world.lookup("Constant").is_some());

    let world2 = parse_type_world("W = => a @ bad; b @ f32").expect("registry should parse");
    let i = world2.lookup("W").unwrap();
    let wdecl = world2.get(i).unwrap();
    assert_eq!(wdecl.outputs.len(), 2);
    assert!(matches!(wdecl.outputs[0].value_type, Err(TypeError::ParseFailure)));
    assert!(wdecl.outputs[1].value_type.is_ok());
}

#[test]
fn analysis_fails_locally_at_a_sentinel_port() {
    let world = parse_type_world(
        "Bad = v @ zzz => value @ f32\nConstant = => value @ f32",
    )
    .unwrap();
    let exprs = parse_whole_input("c = Constant(); b = Bad(c.value)").unwrap();
    let graph = construct_node_graph(&world, exprs).unwrap();
    let analysis = NodeGraphFormalTypeAnalysis::analyze(&graph, &world);
    let notes = analysis
        .input_notes(NodeRef { id: 1 }, 0)
        .expect("port should be analyzed");
    assert!(matches!(notes, Err(TypeError::ParseFailure)));
    let onotes = analysis
        .output_notes(ValueRef { node: NodeRef { id: 0 }, output_index: 0 })
        .expect("port should be analyzed");
    assert!(onotes.is_ok());
}

#[test]
fn registry_parse_failure() {
    let err = parse_type_world("Constant =").expect_err("should be rejected");
    assert_eq!(err, TypeError::ParseFailure);
    let err = parse_type_world("= => value @ f32").expect_err("should be rejected");
    assert_eq!(err, TypeError::ParseFailure);
}

#[test]
fn node_templates_match_their_tags() {
    let add = AddInfo::new().get_shadex_type();
    assert_eq!(add.annotation, ExecutionInformation::Add);
    assert_eq!(add.inputs.len(), 2);
    assert_eq!(add.outputs.len(), 1);
    let attr = AttrInfo::new();
    assert_eq!(attr.name, "x");
    let at = attr.get_shadex_type();
    assert_eq!(at.annotation, ExecutionInformation::Attr);
    let out = OutInfo::new().get_shadex_type();
    assert_eq!(out.annotation, ExecutionInformation::Out);
    assert_eq!(
        out.inputs[0].value_type.as_ref().unwrap().to_text(),
        "(component: [3], x: [1024], y: [1024] -> f32)"
    );
    let v3 = Vector3Info::new().get_shadex_type();
    assert_eq!(v3.annotation, ExecutionInformation::Vector3);
    assert_eq!(v3.inputs.len(), 3);
}
