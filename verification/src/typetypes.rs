//! The type language of the shader graph: primitives, bounded integers, and
//! parameterized arrow types mapping named arguments to a primitive result.

use vstd::prelude::*;

verus! {

use crate::text::{lex_lt, lemma_lex_lt_trans, lemma_lex_lt_trichotomy};

/// Whether a `u32` value is restricted to a range `0 .. n`.
#[derive(Debug, Clone, Copy, PartialEq, Eq, Structural)]
pub enum U32Boundedness {
    Unbounded,
    Bounded(u32),
}

/// A primitive shader value type.
#[derive(Debug, Clone, Copy, PartialEq, Eq, Structural)]
pub enum PrimitiveType {
    F32,
    I32,
    U32(U32Boundedness),
}

/// One named argument of a parameterized `ValueType`.
#[derive(Debug)]
pub struct Arg {
    pub name: String,
    pub ty: ValueType,
}

/// A parameterized value type: a mapping from argument names to value types,
/// together with an output primitive. A `ValueType` with no inputs is a plain
/// scalar. The argument list is kept sorted by name, names strictly increasing,
/// so that equal types are structurally equal and display is deterministic.
#[derive(Debug)]
pub struct ValueType {
    pub inputs: Vec<Arg>,
    pub output: PrimitiveType,
}

impl Clone for ValueType {
    fn clone(&self) -> (r: Self)
        ensures
            r@ == self@,
    {
        clone_value_type(self)
    }
}

impl Clone for Arg {
    fn clone(&self) -> (r: Self)
        ensures
            r@ == self@,
    {
        Arg { name: clone_string(&self.name), ty: clone_value_type(&self.ty) }
    }
}

/// Copies a `String`, keeping its characters.
fn clone_string(s: &String) -> (r: String)
    ensures
        r@ == s@,
{
    s.clone()
}

/// Deep copy of a `ValueType`; the copy has the same mathematical value.
fn clone_value_type(v: &ValueType) -> (r: ValueType)
    ensures
        r@ == v@,
    decreases v,
{
    let mut args: Vec<Arg> = Vec::new();
    let n = v.inputs.len();
    for i in 0..n
        invariant
            n == v.inputs.len(),
            args@.len() == i,
            forall|j: int| 0 <= j < i ==> args@[j]@ == v.inputs@[j]@,
    {
        let a = &v.inputs[i];
        let ty2 = clone_value_type(&a.ty);
        args.push(Arg { name: clone_string(&a.name), ty: ty2 });
    }
    let r = ValueType { inputs: args, output: v.output };
    proof {
        lemma_args_view(r.inputs@);
        lemma_args_view(v.inputs@);
        assert(r@.inputs =~= v@.inputs);
    }
    r
}

impl ValueType {
    /// A scalar type: the given primitive with no arguments.
    pub fn primitive(prim: PrimitiveType) -> (r: ValueType)
        ensures
            r@.inputs.len() == 0,
            r@.output == prim,
    {
        ValueType { inputs: Vec::new(), output: prim }
    }
}

/// The mathematical model of a `ValueType`: argument names are character
/// sequences, the argument list is a sequence of name/type pairs.
pub struct TypeV {
    pub inputs: Seq<(Seq<char>, TypeV)>,
    pub output: PrimitiveType,
}

/// The model of one argument: its name's characters and its type's model.
pub open spec fn arg_view(a: Arg) -> (Seq<char>, TypeV)
    decreases a,
{
    (a.name@, vt_view(a.ty))
}

/// The models of a sequence of arguments, in order.
pub open spec fn args_view(s: Seq<Arg>) -> Seq<(Seq<char>, TypeV)>
    decreases s,
{
    if s.len() == 0 {
        Seq::empty()
    } else {
        args_view(s.drop_last()).push(arg_view(s.last()))
    }
}

/// The model of a `ValueType`.
pub open spec fn vt_view(v: ValueType) -> TypeV
    decreases v,
{
    TypeV { inputs: args_view(v.inputs@), output: v.output }
}

impl View for Arg {
    type V = (Seq<char>, TypeV);

    open spec fn view(&self) -> (Seq<char>, TypeV) {
        arg_view(*self)
    }
}

impl View for ValueType {
    type V = TypeV;

    open spec fn view(&self) -> TypeV {
        vt_view(*self)
    }
}

/// The model of an argument list: name/type pairs in list order.
pub type ArgsV = Seq<(Seq<char>, TypeV)>;

/// Whether the argument list binds `name`.
pub open spec fn al_has(al: ArgsV, name: Seq<char>) -> bool
    decreases al.len(),
{
    al.len() != 0 && (al[0].0 == name || al_has(al.drop_first(), name))
}

/// The type bound to `name`: the first binding in list order.
pub open spec fn al_get(al: ArgsV, name: Seq<char>) -> TypeV
    decreases al.len(),
{
    if al.len() == 0 {
        arbitrary()
    } else if al[0].0 == name {
        al[0].1
    } else {
        al_get(al.drop_first(), name)
    }
}

/// Binds `name` to `t`, keeping the list sorted: an existing binding is
/// replaced, a new one is placed before the first name that does not
/// precede it.
pub open spec fn al_insert(al: ArgsV, name: Seq<char>, t: TypeV) -> ArgsV
    decreases al.len(),
{
    if al.len() == 0 {
        seq![(name, t)]
    } else if lex_lt(name, al[0].0) {
        seq![(name, t)] + al
    } else if al[0].0 == name {
        seq![(name, t)] + al.drop_first()
    } else {
        seq![al[0]] + al_insert(al.drop_first(), name, t)
    }
}

/// Whether the names of the list are strictly increasing; this also means
/// that every name is bound at most once.
pub open spec fn al_sorted(al: ArgsV) -> bool {
    forall|i: int, j: int|
        0 <= i < j < al.len() ==> lex_lt(#[trigger] al[i].0, #[trigger] al[j].0)
}

/// The names bound by `al` that `other` does not bind, in list order.
pub open spec fn al_names_not_in(al: ArgsV, other: ArgsV) -> Seq<Seq<char>>
    decreases al.len(),
{
    if al.len() == 0 {
        Seq::empty()
    } else if al_has(other, al[0].0) {
        al_names_not_in(al.drop_first(), other)
    } else {
        seq![al[0].0] + al_names_not_in(al.drop_first(), other)
    }
}

/// A binding is found exactly at the indices that carry its name, and
/// `al_get` returns the first such binding.
pub proof fn lemma_al_index(al: ArgsV, name: Seq<char>)
    ensures
        al_has(al, name) <==> exists|i: int| 0 <= i < al.len() && al[i].0 == name,
        al_has(al, name) ==> exists|i: int|
            0 <= i < al.len() && al[i].0 == name && al_get(al, name) == al[i].1 && (forall|j: int|
                0 <= j < i ==> al[j].0 != name),
    decreases al.len(),
{
    if al.len() != 0 {
        lemma_al_index(al.drop_first(), name);
        if al[0].0 == name {
            assert(al_get(al, name) == al[0].1);
        } else {
            if al_has(al.drop_first(), name) {
                let i = choose|i: int|
                    0 <= i < al.drop_first().len() && al.drop_first()[i].0 == name && al_get(
                        al.drop_first(),
                        name,
                    ) == al.drop_first()[i].1 && (forall|j: int|
                        0 <= j < i ==> al.drop_first()[j].0 != name);
                assert(al[i + 1].0 == name && al_get(al, name) == al[i + 1].1);
                assert forall|j: int| 0 <= j < i + 1 implies al[j].0 != name by {
                    if j > 0 {
                        assert(al[j] == al.drop_first()[j - 1]);
                    }
                }
            }
            if exists|i: int| 0 <= i < al.len() && al[i].0 == name {
                let i = choose|i: int| 0 <= i < al.len() && al[i].0 == name;
                assert(al.drop_first()[i - 1].0 == name);
            }
        }
    }
}

/// What `al_insert` does to membership, lookup, and the other bindings.
pub proof fn lemma_al_insert(al: ArgsV, name: Seq<char>, t: TypeV)
    ensures
        forall|m: Seq<char>|
            #[trigger] al_has(al_insert(al, name, t), m) <==> (m == name || al_has(al, m)),
        al_get(al_insert(al, name, t), name) == t,
        forall|m: Seq<char>|
            m != name && al_has(al, m) ==> #[trigger] al_get(al_insert(al, name, t), m) == al_get(
                al,
                m,
            ),
    decreases al.len(),
{
    let r = al_insert(al, name, t);
    if al.len() == 0 {
        assert forall|m: Seq<char>| al_has(r, m) <==> (m == name || al_has(al, m)) by {
            assert(al_has(r, m) == (r[0].0 == m || al_has(r.drop_first(), m)));
            assert(r.drop_first() =~= Seq::<(Seq<char>, TypeV)>::empty());
        }
    } else if lex_lt(name, al[0].0) {
        assert(r.drop_first() =~= al);
        assert forall|m: Seq<char>| al_has(r, m) <==> (m == name || al_has(al, m)) by {
            assert(al_has(r, m) == (r[0].0 == m || al_has(r.drop_first(), m)));
        }
        assert forall|m: Seq<char>| m != name && al_has(al, m) implies al_get(
            #[trigger] al_insert(al, name, t),
            m,
        ) == al_get(al, m) by {
            assert(al_get(r, m) == al_get(r.drop_first(), m));
        }
    } else if al[0].0 == name {
        assert(r.drop_first() =~= al.drop_first());
        assert forall|m: Seq<char>| al_has(r, m) <==> (m == name || al_has(al, m)) by {
            assert(al_has(r, m) == (r[0].0 == m || al_has(r.drop_first(), m)));
            assert(al_has(al, m) == (al[0].0 == m || al_has(al.drop_first(), m)));
        }
        assert forall|m: Seq<char>| m != name && al_has(al, m) implies al_get(
            #[trigger] al_insert(al, name, t),
            m,
        ) == al_get(al, m) by {
            assert(al_get(r, m) == al_get(r.drop_first(), m));
            assert(al_get(al, m) == al_get(al.drop_first(), m));
        }
    } else {
        lemma_al_insert(al.drop_first(), name, t);
        let rr = al_insert(al.drop_first(), name, t);
        assert(r[0] == al[0]);
        assert(r.drop_first() =~= rr);
        assert forall|m: Seq<char>| al_has(r, m) <==> (m == name || al_has(al, m)) by {
            assert(al_has(r, m) == (r[0].0 == m || al_has(rr, m)));
            assert(al_has(al, m) == (al[0].0 == m || al_has(al.drop_first(), m)));
            assert(al_has(rr, m) <==> (m == name || al_has(al.drop_first(), m)));
        }
        assert(al_get(r, name) == al_get(rr, name));
        assert(al_get(r, name) == t);
        assert forall|m: Seq<char>| m != name && al_has(al, m) implies al_get(
            #[trigger] al_insert(al, name, t),
            m,
        ) == al_get(al, m) by {
            if m == al[0].0 {
                assert(al_get(r, m) == r[0].1);
                assert(al_get(al, m) == al[0].1);
            } else {
                assert(al_get(r, m) == al_get(rr, m));
                assert(al_get(al, m) == al_get(al.drop_first(), m));
                assert(al_has(al.drop_first(), m));
            }
        }
    }
}

/// `al_insert` keeps a sorted list sorted.
pub proof fn lemma_al_insert_sorted(al: ArgsV, name: Seq<char>, t: TypeV)
    requires
        al_sorted(al),
    ensures
        al_sorted(al_insert(al, name, t)),
    decreases al.len(),
{
    let r = al_insert(al, name, t);
    if al.len() == 0 {
    } else if lex_lt(name, al[0].0) {
        assert forall|i: int, j: int| 0 <= i < j < r.len() implies lex_lt(
            r[i].0,
            r[j].0,
        ) by {
            if i == 0 && j > 1 {
                lemma_lex_lt_trans(name, al[0].0, al[j - 1].0);
            }
        }
    } else if al[0].0 == name {
        assert forall|i: int, j: int| 0 <= i < j < r.len() implies lex_lt(
            r[i].0,
            r[j].0,
        ) by {}
    } else {
        lemma_lex_lt_trichotomy(name, al[0].0);
        assert(lex_lt(al[0].0, name));
        lemma_al_insert_sorted(al.drop_first(), name, t);
        lemma_al_insert(al.drop_first(), name, t);
        lemma_al_index(al_insert(al.drop_first(), name, t), name);
        let rr = al_insert(al.drop_first(), name, t);
        assert forall|i: int, j: int| 0 <= i < j < r.len() implies lex_lt(
            r[i].0,
            r[j].0,
        ) by {
            if i == 0 {
                assert(r[j] == rr[j - 1]);
                if rr[j - 1].0 == name {
                    assert(lex_lt(al[0].0, name));
                } else {
                    lemma_al_index(rr, rr[j - 1].0);
                    assert(al_has(rr, rr[j - 1].0));
                    assert(al_has(al.drop_first(), rr[j - 1].0));
                    lemma_al_index(al.drop_first(), rr[j - 1].0);
                    let k = choose|k: int|
                        0 <= k < al.drop_first().len() && al.drop_first()[k].0 == rr[j - 1].0;
                    assert(al[k + 1].0 == rr[j - 1].0);
                    assert(lex_lt(al[0].0, al[k + 1].0));
                }
            } else {
                assert(r[i] == rr[i - 1] && r[j] == rr[j - 1]);
            }
        }
    }
}

/// Inserting a binding grows the list by one entry unless the name was
/// already bound, in which case the length is unchanged.
pub proof fn lemma_al_insert_len(al: ArgsV, name: Seq<char>, t: TypeV)
    requires
        al_sorted(al),
    ensures
        al_insert(al, name, t).len() == if al_has(al, name) {
            al.len()
        } else {
            al.len() + 1
        },
    decreases al.len(),
{
    if al.len() != 0 {
        if lex_lt(name, al[0].0) {
            if al_has(al, name) {
                lemma_al_index(al, name);
                let i = choose|i: int| 0 <= i < al.len() && al[i].0 == name;
                lemma_lex_lt_trichotomy(name, al[i].0);
                if i > 0 {
                    lemma_lex_lt_trans(name, al[0].0, al[i].0);
                }
                assert(false);
            }
        } else if al[0].0 == name {
        } else {
            assert(al_sorted(al.drop_first())) by {
                assert(forall|i: int, j: int|
                    0 <= i < j < al.drop_first().len() ==> lex_lt(
                        #[trigger] al.drop_first()[i].0,
                        #[trigger] al.drop_first()[j].0,
                    ));
            }
            lemma_al_insert_len(al.drop_first(), name, t);
        }
    }
}

/// In a sorted argument list every name is bound at most once.
pub proof fn lemma_sorted_names_unique(al: ArgsV)
    requires
        al_sorted(al),
    ensures
        forall|i: int, j: int| 0 <= i < j < al.len() ==> (#[trigger] al[i].0) != (#[trigger] al[j].0),
{
    assert forall|i: int, j: int|
        0 <= i < j < al.len() implies (#[trigger] al[i].0) != (#[trigger] al[j].0) by {
        lemma_lex_lt_trichotomy(al[i].0, al[j].0);
    }
}

/// Inserting a well-formed binding into a list of well-formed bindings
/// leaves every binding well-formed.
pub proof fn lemma_al_insert_all_wf(al: ArgsV, name: Seq<char>, t: TypeV)
    requires
        forall|j: int| 0 <= j < al.len() ==> tv_wf((#[trigger] al[j]).1),
        tv_wf(t),
    ensures
        forall|j: int|
            0 <= j < al_insert(al, name, t).len() ==> tv_wf(
                (#[trigger] al_insert(al, name, t)[j]).1,
            ),
    decreases al.len(),
{
    let r = al_insert(al, name, t);
    if al.len() == 0 {
    } else if lex_lt(name, al[0].0) {
        assert forall|j: int| 0 <= j < r.len() implies tv_wf((#[trigger] r[j]).1) by {
            if j > 0 {
                assert(r[j] == al[j - 1]);
            }
        }
    } else if al[0].0 == name {
        assert forall|j: int| 0 <= j < r.len() implies tv_wf((#[trigger] r[j]).1) by {
            if j > 0 {
                assert(r[j] == al.drop_first()[j - 1]);
                assert(al.drop_first()[j - 1] == al[j]);
            }
        }
    } else {
        assert forall|j: int|
            0 <= j < al.drop_first().len() implies tv_wf(
            (#[trigger] al.drop_first()[j]).1,
        ) by {
            assert(al.drop_first()[j] == al[j + 1]);
        }
        lemma_al_insert_all_wf(al.drop_first(), name, t);
        let rr = al_insert(al.drop_first(), name, t);
        assert forall|j: int| 0 <= j < r.len() implies tv_wf((#[trigger] r[j]).1) by {
            if j > 0 {
                assert(r[j] == rr[j - 1]);
            }
        }
    }
}

/// `args_view` is pointwise `arg_view`.
pub broadcast proof fn lemma_args_view(s: Seq<Arg>)
    ensures
        #[trigger] args_view(s).len() == s.len(),
        forall|i: int| 0 <= i < s.len() ==> args_view(s)[i] == arg_view(s[i]),
    decreases s,
{
    if s.len() > 0 {
        lemma_args_view(s.drop_last());
    }
}

/// An error produced by parsing, analysis, or emission.
#[derive(Debug, Clone, Copy, PartialEq, Eq, Structural)]
pub enum TypeError {
    /// Surface-language parsing rejected the input.
    ParseFailure,
    /// An input's declared output primitive differs from upstream's.
    PrimitiveMismatch,
    /// A shared argument name has different types on spec and upstream.
    ArgumentTypeMismatch,
    /// Two siblings introduce the same excess argument with different types.
    ConflictingExcessArgument,
    /// The graph references a node type that does not exist, or a node or
    /// port that the graph does not contain.
    MissingNodeType,
    /// Emission was asked of a graph with no `Out`-tagged node.
    MissingOutput,
    /// The emitter reached an unconnected input.
    UnconnectedInput,
    /// The emitter or analyzer re-entered a node already being processed.
    CyclicGraph,
    /// The node's execution tag has no emission rule.
    UnsupportedOp,
}

/// Well-formedness of a type model: argument names strictly increasing at
/// every level.
pub open spec fn tv_wf(t: TypeV) -> bool
    decreases t,
{
    al_sorted(t.inputs) && (forall|i: int| 0 <= i < t.inputs.len() ==> tv_wf(#[trigger] t.inputs[i].1))
}

impl ValueType {
    /// Well-formedness of a `ValueType`: its model is well-formed.
    pub open spec fn wf(&self) -> bool {
        tv_wf(self@)
    }
}

/// `al_get` of a binding found at the first matching index.
pub proof fn lemma_al_first_match(al: ArgsV, name: Seq<char>, i: int)
    requires
        0 <= i < al.len(),
        al[i].0 == name,
        forall|j: int| 0 <= j < i ==> al[j].0 != name,
    ensures
        al_has(al, name),
        al_get(al, name) == al[i].1,
    decreases i,
{
    if i == 0 {
    } else {
        assert forall|j: int| 0 <= j < i - 1 implies al.drop_first()[j].0 != name by {
            assert(al.drop_first()[j] == al[j + 1]);
        }
        assert(al.drop_first()[i - 1] == al[i]);
        lemma_al_first_match(al.drop_first(), name, i - 1);
    }
}

/// A name at no index is not bound.
pub proof fn lemma_al_no_match(al: ArgsV, name: Seq<char>)
    requires
        forall|j: int| 0 <= j < al.len() ==> al[j].0 != name,
    ensures
        !al_has(al, name),
{
    lemma_al_index(al, name);
}

/// Looks a name up in an argument list. On success the returned index is
/// the first binding of that name.
pub fn args_find(args: &Vec<Arg>, name: &str) -> (r: Option<usize>)
    ensures
        match r {
            Some(i) => i < args.len() && args@[i as int]@.0 == name@ && al_has(
                args_view(args@),
                name@,
            ) && al_get(args_view(args@), name@) == args@[i as int]@.1,
            None => !al_has(args_view(args@), name@),
        },
{
    proof {
        lemma_args_view(args@);
    }
    let n = args.len();
    let mut i: usize = 0;
    while i < n
        invariant
            i <= n,
            n == args@.len(),
            forall|j: int| 0 <= j < i ==> args@[j]@.0 != name@,
        decreases n - i,
    {
        if crate::text::str_eq_str(args[i].name.as_str(), name) {
            proof {
                lemma_args_view(args@);
                lemma_al_first_match(args_view(args@), name@, i as int);
            }
            return Some(i);
        }
        i = i + 1;
    }
    proof {
        lemma_args_view(args@);
        lemma_al_no_match(args_view(args@), name@);
    }
    None
}

/// Where a positional insertion lands, it agrees with `al_insert`.
proof fn lemma_al_insert_position(al: ArgsV, name: Seq<char>, t: TypeV, i: int)
    requires
        0 <= i <= al.len(),
        forall|j: int| 0 <= j < i ==> lex_lt(#[trigger] al[j].0, name),
        i < al.len() ==> !lex_lt(al[i].0, name),
    ensures
        al_insert(al, name, t) =~= if i < al.len() && al[i].0 == name {
            al.update(i, (name, t))
        } else {
            al.subrange(0, i) + seq![(name, t)] + al.subrange(i, al.len() as int)
        },
    decreases i,
{
    if i == 0 {
        if al.len() == 0 {
        } else if al[0].0 == name {
        } else {
            lemma_lex_lt_trichotomy(name, al[0].0);
            assert(lex_lt(name, al[0].0));
        }
    } else {
        assert(lex_lt(al[0].0, name));
        lemma_lex_lt_trichotomy(name, al[0].0);
        assert(!lex_lt(name, al[0].0) && al[0].0 != name);
        assert forall|j: int| 0 <= j < i - 1 implies lex_lt(
            #[trigger] al.drop_first()[j].0,
            name,
        ) by {
            assert(al.drop_first()[j] == al[j + 1]);
        }
        if i - 1 < al.drop_first().len() {
            assert(al.drop_first()[i - 1] == al[i]);
        }
        lemma_al_insert_position(al.drop_first(), name, t, i - 1);
        let d = al.drop_first();
        if i < al.len() && al[i].0 == name {
            assert(al_insert(al, name, t) =~= seq![al[0]] + d.update(i - 1, (name, t)));
        } else {
            assert(al_insert(al, name, t) =~= seq![al[0]] + (d.subrange(0, i - 1) + seq![(name, t)]
                + d.subrange(i - 1, d.len() as int)));
        }
    }
}

/// Binds `name` to `ty` in a sorted argument list, keeping it sorted.
pub fn args_insert(args: &mut Vec<Arg>, name: String, ty: ValueType)
    ensures
        args_view(final(args)@) == al_insert(args_view(old(args)@), name@, ty@),
{
    proof {
        lemma_args_view(args@);
    }
    let ghost al = args_view(old(args)@);
    let n = args.len();
    let mut i: usize = 0;
    while i < n && crate::text::str_lt(args[i].name.as_str(), name.as_str())
        invariant
            i <= n,
            n == args@.len(),
            args@ == old(args)@,
            al == args_view(args@),
            al.len() == n,
            forall|j: int| 0 <= j < i ==> lex_lt(#[trigger] al[j].0, name@),
        decreases n - i,
    {
        proof {
            lemma_args_view(args@);
            assert(args_view(args@)[i as int] == arg_view(args@[i as int]));
        }
        i = i + 1;
    }
    proof {
        lemma_args_view(args@);
        assert(al == args_view(args@));
        if i < n {
            assert(args_view(args@)[i as int] == arg_view(args@[i as int]));
        }
        lemma_al_insert_position(al, name@, vt_view(ty), i as int);
    }
    if i < n && str_eq_string(&args[i].name, &name) {
        args.set(i, Arg { name, ty });
        proof {
            lemma_args_view(args@);
            assert(args_view(args@) =~= al.update(i as int, (name@, vt_view(ty))));
        }
    } else {
        args.insert(i, Arg { name, ty });
        proof {
            lemma_args_view(args@);
            assert(args_view(args@) =~= al.subrange(0, i as int) + seq![(name@, vt_view(ty))]
                + al.subrange(i as int, al.len() as int));
        }
    }
}

/// Whether two strings hold the same characters.
pub fn str_eq_string(a: &String, b: &String) -> (r: bool)
    ensures
        r == (a@ == b@),
{
    crate::text::str_eq_str(a.as_str(), b.as_str())
}

/// Decides deep equality of two value types: equal exactly when their
/// mathematical models are equal.
pub fn value_type_eq(a: &ValueType, b: &ValueType) -> (r: bool)
    ensures
        r == (a@ == b@),
    decreases a,
{
    proof {
        lemma_args_view(a.inputs@);
        lemma_args_view(b.inputs@);
    }
    if a.output != b.output {
        return false;
    }
    let n = a.inputs.len();
    if n != b.inputs.len() {
        proof {
            assert(a@.inputs.len() != b@.inputs.len());
        }
        return false;
    }
    let mut i: usize = 0;
    while i < n
        invariant
            i <= n,
            n == a.inputs@.len() == b.inputs@.len(),
            a.output == b.output,
            forall|j: int| 0 <= j < i ==> a@.inputs[j] == b@.inputs[j],
        decreases n - i,
    {
        proof {
            lemma_args_view(a.inputs@);
            lemma_args_view(b.inputs@);
        }
        if !str_eq_string(&a.inputs[i].name, &b.inputs[i].name) {
            proof {
                assert(a@.inputs[i as int].0 != b@.inputs[i as int].0);
            }
            return false;
        }
        if !value_type_eq(&a.inputs[i].ty, &b.inputs[i].ty) {
            proof {
                assert(a@.inputs[i as int].1 != b@.inputs[i as int].1);
            }
            return false;
        }
        i = i + 1;
    }
    proof {
        assert(a@.inputs =~= b@.inputs);
    }
    true
}


// ----------------------------------------------------------------------
// Display.

/// The display text of a primitive type.
pub open spec fn prim_text(p: PrimitiveType) -> Seq<char> {
    match p {
        PrimitiveType::F32 => "f32"@,
        PrimitiveType::I32 => "i32"@,
        PrimitiveType::U32(U32Boundedness::Unbounded) => "u32"@,
        PrimitiveType::U32(U32Boundedness::Bounded(n)) => "["@ + crate::text::dec_str(n as nat)
            + "]"@,
    }
}

/// The display text of one argument binding.
pub open spec fn entry_text(e: (Seq<char>, TypeV)) -> Seq<char>
    decreases e.1, 1int,
{
    e.0 + ": "@ + vt_text(e.1)
}

/// The display text of the arguments after the first: each preceded by a
/// comma.
pub open spec fn args_tail_text(al: ArgsV) -> Seq<char>
    decreases al, 0int,
{
    if al.len() == 0 {
        Seq::empty()
    } else {
        ", "@ + entry_text(al[0]) + args_tail_text(al.drop_first())
    }
}

/// The display text of an argument list.
pub open spec fn args_text(al: ArgsV) -> Seq<char>
    decreases al, 0int,
{
    if al.len() == 0 {
        Seq::empty()
    } else {
        entry_text(al[0]) + args_tail_text(al.drop_first())
    }
}

/// The display text of a value type: the bare primitive for a scalar, else
/// `(name: type, ... -> primitive)`. The argument list is displayed in its
/// stored order, which a well-formed type keeps sorted by name, so display
/// is deterministic.
pub open spec fn vt_text(t: TypeV) -> Seq<char>
    decreases t, 0int,
{
    if t.inputs.len() == 0 {
        prim_text(t.output)
    } else {
        "("@ + args_text(t.inputs) + " -> "@ + prim_text(t.output) + ")"@
    }
}

/// Renders a primitive type.
pub fn primitive_to_text(p: PrimitiveType) -> (r: String)
    ensures
        r@ == prim_text(p),
{
    match p {
        PrimitiveType::F32 => {
            let mut s = String::new();
            s.append("f32");
            s
        },
        PrimitiveType::I32 => {
            let mut s = String::new();
            s.append("i32");
            s
        },
        PrimitiveType::U32(U32Boundedness::Unbounded) => {
            let mut s = String::new();
            s.append("u32");
            s
        },
        PrimitiveType::U32(U32Boundedness::Bounded(n)) => {
            let mut s = String::new();
            s.append("[");
            crate::text::push_decimal(&mut s, n as u64);
            s.append("]");
            proof {
                assert((n as u64) as nat == n as nat);
                assert(s@ =~= prim_text(p));
            }
            s
        },
    }
}

impl ValueType {
    /// Renders the type in its display form.
    #[verifier::loop_isolation(false)]
    pub fn to_text(&self) -> (r: String)
        ensures
            r@ == vt_text(self@),
        decreases self,
    {
        proof {
            lemma_args_view(self.inputs@);
        }
        let n = self.inputs.len();
        if n == 0 {
            proof {
                assert(self@.inputs.len() == 0);
            }
            return primitive_to_text(self.output);
        }
        let ghost al = self@.inputs;
        let mut s = String::new();
        s.append("(");
        let a0 = &self.inputs[0];
        s.append(a0.name.as_str());
        s.append(": ");
        let t0 = a0.ty.to_text();
        s.append(t0.as_str());
        proof {
            assert(al[0] == arg_view(self.inputs@[0]));
            assert(s@ =~= "("@ + entry_text(al[0]));
            assert(al.skip(1) =~= al.drop_first());
        }
        let mut i: usize = 1;
        while i < n
            invariant
                1 <= i <= n,
                n == self.inputs@.len(),
                al == self@.inputs,
                al.len() == n,
                s@ + args_tail_text(al.skip(i as int)) == "("@ + args_text(al),
            decreases n - i,
        {
            proof {
                lemma_args_view(self.inputs@);
                assert(al[i as int] == arg_view(self.inputs@[i as int]));
                assert(al.skip(i as int)[0] == al[i as int]);
                assert(al.skip(i as int).drop_first() =~= al.skip(i as int + 1));
            }
            let ghost s0 = s@;
            let a = &self.inputs[i];
            s.append(", ");
            s.append(a.name.as_str());
            s.append(": ");
            let t = a.ty.to_text();
            s.append(t.as_str());
            proof {
                assert(args_tail_text(al.skip(i as int)) == ", "@ + entry_text(al[i as int])
                    + args_tail_text(al.skip(i as int + 1)));
                assert(entry_text(al[i as int]) == al[i as int].0 + ": "@ + vt_text(
                    al[i as int].1,
                ));
                assert(s@ + args_tail_text(al.skip(i as int + 1)) =~= s0 + args_tail_text(
                    al.skip(i as int),
                ));
            }
            i = i + 1;
        }
        proof {
            assert(args_tail_text(al.skip(n as int)) =~= Seq::<char>::empty());
            assert(s@ =~= "("@ + args_text(al));
        }
        s.append(" -> ");
        let pt = primitive_to_text(self.output);
        s.append(pt.as_str());
        s.append(")");
        proof {
            assert(s@ =~= vt_text(self@));
        }
        s
    }
}
} // verus!
