//! Canned node-type descriptors for the node kinds the editor offers. Each
//! info type builds the shared descriptor that its node instances reference.

use vstd::prelude::*;

verus! {

use crate::typetypes::{Arg, PrimitiveType, TypeV, U32Boundedness, ValueType, args_insert, tv_wf};
use crate::nodegraph::{ExecutionInformation, InputInfo, NodeTypeInfo, OutputInfo, nt_wf};

/// An addition node: two scalar inputs, one scalar output.
#[derive(Debug)]
pub struct AddInfo {}

/// An attribute node: reads one named shader-stage binding.
#[derive(Debug)]
pub struct AttrInfo {
    pub name: String,
    pub type_str: String,
}

/// The output node: consumes the per-pixel color function.
#[derive(Debug)]
pub struct OutInfo {}

/// A three-component vector node.
#[derive(Debug)]
pub struct Vector3Info {}

/// The model of a scalar type: the primitive with no arguments.
pub open spec fn scalar_v(p: PrimitiveType) -> TypeV {
    TypeV { inputs: Seq::empty(), output: p }
}

/// A scalar type with no arguments.
fn scalar(p: PrimitiveType) -> (r: ValueType)
    ensures
        r@ == scalar_v(p),
        r@.inputs.len() == 0,
        r@.output == p,
        tv_wf(r@),
{
    let r = ValueType::primitive(p);
    proof {
        assert(r@.inputs =~= Seq::<(Seq<char>, TypeV)>::empty());
        assert(r@ == scalar_v(p));
    }
    r
}

impl AddInfo {
    /// A fresh info.
    pub fn new() -> (r: Self)
        ensures
            true,
    {
        AddInfo {}
    }

    /// The shared descriptor: `a @ f32; b @ f32 => value @ f32`, tagged for
    /// addition.
    pub fn get_shadex_type(&self) -> (r: NodeTypeInfo)
        ensures
            nt_wf(r@),
            r@.tag == ExecutionInformation::Add,
            r@.inputs.len() == 2,
            r@.outputs.len() == 1,
            r@.inputs[0].name == "a"@,
            r@.inputs[1].name == "b"@,
            r@.outputs[0].name == Some("value"@),
            r@.inputs[0].ty == Ok::<TypeV, crate::typetypes::TypeError>(scalar_v(
                PrimitiveType::F32,
            )),
            r@.inputs[1].ty == Ok::<TypeV, crate::typetypes::TypeError>(scalar_v(
                PrimitiveType::F32,
            )),
            r@.outputs[0].ty == Ok::<TypeV, crate::typetypes::TypeError>(scalar_v(
                PrimitiveType::F32,
            )),
    {
        let mut inputs: Vec<InputInfo> = Vec::new();
        let mut a = String::new();
        a.append("a");
        inputs.push(InputInfo { name: a, value_type: Ok(scalar(PrimitiveType::F32)) });
        let mut b = String::new();
        b.append("b");
        inputs.push(InputInfo { name: b, value_type: Ok(scalar(PrimitiveType::F32)) });
        let mut outputs: Vec<OutputInfo> = Vec::new();
        let mut v = String::new();
        v.append("value");
        outputs.push(OutputInfo { name: Some(v), value_type: Ok(scalar(PrimitiveType::F32)) });
        let r = NodeTypeInfo { inputs, outputs, annotation: ExecutionInformation::Add };
        proof {
            assert(nt_wf(r@));
        }
        r
    }
}

impl AttrInfo {
    /// A fresh info, reading the binding `x` as a scalar.
    pub fn new() -> (r: Self)
        ensures
            r.name@ == "x"@,
            r.type_str@ == "f32"@,
    {
        let mut name = String::new();
        name.append("x");
        let mut type_str = String::new();
        type_str.append("f32");
        AttrInfo { name, type_str }
    }

    /// The descriptor: one scalar input and one scalar output, both under
    /// the binding's name, tagged as an attribute read.
    pub fn get_shadex_type(&self) -> (r: NodeTypeInfo)
        ensures
            nt_wf(r@),
            r@.tag == ExecutionInformation::Attr,
            r@.inputs.len() == 1,
            r@.outputs.len() == 1,
            r@.inputs[0].name == self.name@,
            r@.outputs[0].name == Some(self.name@),
            r@.inputs[0].ty == Ok::<TypeV, crate::typetypes::TypeError>(scalar_v(
                PrimitiveType::F32,
            )),
            r@.outputs[0].ty == Ok::<TypeV, crate::typetypes::TypeError>(scalar_v(
                PrimitiveType::F32,
            )),
    {
        let mut inputs: Vec<InputInfo> = Vec::new();
        inputs.push(
            InputInfo { name: clone_string(&self.name), value_type: Ok(scalar(PrimitiveType::F32)) },
        );
        let mut outputs: Vec<OutputInfo> = Vec::new();
        outputs.push(
            OutputInfo {
                name: Some(clone_string(&self.name)),
                value_type: Ok(scalar(PrimitiveType::F32)),
            },
        );
        let r = NodeTypeInfo { inputs, outputs, annotation: ExecutionInformation::Attr };
        proof {
            assert(nt_wf(r@));
        }
        r
    }
}

/// Copies a string, keeping its characters.
fn clone_string(s: &String) -> (r: String)
    ensures
        r@ == s@,
{
    s.clone()
}

/// The model of the per-pixel color function's arrow:
/// `(component: [3], x: [1024], y: [1024] -> f32)`.
pub open spec fn pixel_function_v() -> TypeV {
    TypeV {
        inputs: seq![
            ("component"@, scalar_v(PrimitiveType::U32(U32Boundedness::Bounded(3)))),
            ("x"@, scalar_v(PrimitiveType::U32(U32Boundedness::Bounded(1024)))),
            ("y"@, scalar_v(PrimitiveType::U32(U32Boundedness::Bounded(1024)))),
        ],
        output: PrimitiveType::F32,
    }
}

/// The arrow type `(x: [1024], y: [1024], component: [3] -> f32)`: the
/// per-pixel color function the output node consumes.
pub fn pixel_function_type() -> (r: ValueType)
    ensures
        tv_wf(r@),
        r@ == pixel_function_v(),
        r@.output == PrimitiveType::F32,
        r@.inputs.len() == 3,
{
    let mut args: Vec<Arg> = Vec::new();
    proof {
        crate::typetypes::lemma_args_view(args@);
    }
    let mut x = String::new();
    x.append("x");
    let mut y = String::new();
    y.append("y");
    let mut component = String::new();
    component.append("component");
    proof {
        assert(x@ =~= "x"@);
        assert(y@ =~= "y"@);
        assert(component@ =~= "component"@);
    }
    let bound1024 = scalar(PrimitiveType::U32(U32Boundedness::Bounded(1024)));
    let bound3 = scalar(PrimitiveType::U32(U32Boundedness::Bounded(3)));
    let ghost al0 = crate::typetypes::args_view(args@);
    let ghost tx = bound1024@;
    let ghost ty = bound3@;
    proof {
        assert(forall|j: int| 0 <= j < al0.len() ==> tv_wf((#[trigger] al0[j]).1));
    }
    args_insert(&mut args, x, bound1024);
    let ghost al1 = crate::typetypes::args_view(args@);
    proof {
        crate::typetypes::lemma_al_insert_sorted(al0, "x"@, tx);
        crate::typetypes::lemma_al_insert_all_wf(al0, "x"@, tx);
        crate::typetypes::lemma_al_insert_len(al0, "x"@, tx);
    }
    let bound1024b = scalar(PrimitiveType::U32(U32Boundedness::Bounded(1024)));
    let ghost tx2 = bound1024b@;
    args_insert(&mut args, y, bound1024b);
    let ghost al2 = crate::typetypes::args_view(args@);
    proof {
        crate::typetypes::lemma_al_insert_sorted(al1, "y"@, tx2);
        crate::typetypes::lemma_al_insert_all_wf(al1, "y"@, tx2);
        crate::typetypes::lemma_al_insert_len(al1, "y"@, tx2);
        crate::typetypes::lemma_al_index(al1, "y"@);
        if crate::typetypes::al_has(al1, "y"@) {
            proof_strings_differ();
            assert(false);
        }
    }
    args_insert(&mut args, component, bound3);
    proof {
        crate::typetypes::lemma_al_insert_sorted(al2, "component"@, ty);
        crate::typetypes::lemma_al_insert_all_wf(al2, "component"@, ty);
        crate::typetypes::lemma_al_insert_len(al2, "component"@, ty);
        crate::typetypes::lemma_al_index(al2, "component"@);
        if crate::typetypes::al_has(al2, "component"@) {
            proof_strings_differ();
            crate::typetypes::lemma_al_insert(al0, "x"@, tx);
            crate::typetypes::lemma_al_insert(al1, "y"@, tx2);
            assert(false);
        }
    }
    let r = ValueType { inputs: args, output: PrimitiveType::F32 };
    proof {
        assert(tv_wf(r@));
        proof_strings_differ();
        assert(lex_lt_xy());
        crate::text::lemma_lex_lt_trichotomy("y"@, "x"@);
        crate::text::lemma_lex_lt_trichotomy("component"@, "x"@);
        assert(al0 =~= Seq::<(Seq<char>, TypeV)>::empty());
        assert(al1 =~= seq![("x"@, tx)]);
        assert(al1.drop_first() =~= Seq::<(Seq<char>, TypeV)>::empty());
        assert(al2 == crate::typetypes::al_insert(al1, "y"@, tx2));
        assert(!crate::text::lex_lt("y"@, "x"@));
        assert(al1[0].0 == "x"@ && al1[0].1 == tx);
        assert(crate::typetypes::al_insert(al1.drop_first(), "y"@, tx2) =~= seq![("y"@, tx2)]);
        assert(al2 =~= seq![al1[0]] + crate::typetypes::al_insert(
            al1.drop_first(),
            "y"@,
            tx2,
        ));
        assert(al2 =~= seq![("x"@, tx), ("y"@, tx2)]);
        assert(crate::typetypes::args_view(args@) == crate::typetypes::al_insert(
            al2,
            "component"@,
            ty,
        ));
        assert(crate::typetypes::al_insert(al2, "component"@, ty) =~= seq![("component"@, ty)]
            + al2);
        assert(tx == scalar_v(PrimitiveType::U32(U32Boundedness::Bounded(1024))));
        assert(tx2 == scalar_v(PrimitiveType::U32(U32Boundedness::Bounded(1024))));
        assert(ty == scalar_v(PrimitiveType::U32(U32Boundedness::Bounded(3))));
        assert(crate::typetypes::args_view(args@) =~= pixel_function_v().inputs);
        assert(r@ == pixel_function_v());
    }
    r
}

/// The names of the per-pixel function's arguments stand in this order:
/// `component`, `x`, `y`.
pub open spec fn lex_lt_xy() -> bool {
    &&& crate::text::lex_lt("x"@, "y"@)
    &&& crate::text::lex_lt("component"@, "x"@)
    &&& crate::text::lex_lt("component"@, "y"@)
}

/// The three argument names of the per-pixel function are distinct, and
/// ordered `component`, `x`, `y`.
proof fn proof_strings_differ()
    ensures
        "x"@ != "y"@,
        "x"@ != "component"@,
        "y"@ != "component"@,
        lex_lt_xy(),
{
    reveal_strlit("x");
    reveal_strlit("y");
    reveal_strlit("component");
    assert("x"@.len() == 1);
    assert("component"@.len() == 9);
    assert("x"@[0] == 'x' && "y"@[0] == 'y');
    assert(lex_lt_xy()) by {
        assert("component"@[0] == 'c');
    }
}

impl OutInfo {
    /// A fresh info.
    pub fn new() -> (r: Self)
        ensures
            true,
    {
        OutInfo {}
    }

    /// The descriptor: one input that takes the per-pixel color function,
    /// no outputs, tagged as the program's exit.
    pub fn get_shadex_type(&self) -> (r: NodeTypeInfo)
        ensures
            nt_wf(r@),
            r@.tag == ExecutionInformation::Out,
            r@.inputs.len() == 1,
            r@.outputs.len() == 0,
            r@.inputs[0].name == "val"@,
            r@.inputs[0].ty == Ok::<TypeV, crate::typetypes::TypeError>(pixel_function_v()),
    {
        let mut inputs: Vec<InputInfo> = Vec::new();
        let mut val = String::new();
        val.append("val");
        inputs.push(InputInfo { name: val, value_type: Ok(pixel_function_type()) });
        let outputs: Vec<OutputInfo> = Vec::new();
        let r = NodeTypeInfo { inputs, outputs, annotation: ExecutionInformation::Out };
        proof {
            assert(nt_wf(r@));
        }
        r
    }
}

impl Vector3Info {
    /// A fresh info.
    pub fn new() -> (r: Self)
        ensures
            true,
    {
        Vector3Info {}
    }

    /// The descriptor: three scalar inputs, one output parameterized by the
    /// component index.
    pub fn get_shadex_type(&self) -> (r: NodeTypeInfo)
        ensures
            nt_wf(r@),
            r@.tag == ExecutionInformation::Vector3,
            r@.inputs.len() == 3,
            r@.outputs.len() == 1,
            r@.inputs[0].name == "x"@,
            r@.inputs[1].name == "y"@,
            r@.inputs[2].name == "z"@,
            r@.inputs[0].ty == Ok::<TypeV, crate::typetypes::TypeError>(scalar_v(
                PrimitiveType::F32,
            )),
            r@.inputs[1].ty == Ok::<TypeV, crate::typetypes::TypeError>(scalar_v(
                PrimitiveType::F32,
            )),
            r@.inputs[2].ty == Ok::<TypeV, crate::typetypes::TypeError>(scalar_v(
                PrimitiveType::F32,
            )),
            r@.outputs[0].name == None::<Seq<char>>,
            r@.outputs[0].ty == Ok::<TypeV, crate::typetypes::TypeError>(
                TypeV {
                    inputs: seq![
                        (
                            "component"@,
                            scalar_v(PrimitiveType::U32(U32Boundedness::Bounded(3))),
                        ),
                    ],
                    output: PrimitiveType::F32,
                },
            ),
    {
        let mut inputs: Vec<InputInfo> = Vec::new();
        let mut x = String::new();
        x.append("x");
        inputs.push(InputInfo { name: x, value_type: Ok(scalar(PrimitiveType::F32)) });
        let mut y = String::new();
        y.append("y");
        inputs.push(InputInfo { name: y, value_type: Ok(scalar(PrimitiveType::F32)) });
        let mut z = String::new();
        z.append("z");
        inputs.push(InputInfo { name: z, value_type: Ok(scalar(PrimitiveType::F32)) });

        let mut args: Vec<Arg> = Vec::new();
        proof {
            crate::typetypes::lemma_args_view(args@);
        }
        let mut component = String::new();
        component.append("component");
        let ghost al0 = crate::typetypes::args_view(args@);
        args_insert(&mut args, component, scalar(PrimitiveType::U32(U32Boundedness::Bounded(3))));
        proof {
            crate::typetypes::lemma_al_insert_len(al0, "component"@, crate::typetypes::al_get(
                crate::typetypes::args_view(args@),
                "component"@,
            ));
        }
        let vec_ty = ValueType { inputs: args, output: PrimitiveType::F32 };
        let mut outputs: Vec<OutputInfo> = Vec::new();
        outputs.push(OutputInfo { name: None, value_type: Ok(vec_ty) });
        let r = NodeTypeInfo { inputs, outputs, annotation: ExecutionInformation::Vector3 };
        proof {
            assert(nt_wf(r@));
        }
        r
    }
}

} // verus!
