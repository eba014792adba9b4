//! The executable type lattice `HIRType` and its connection to the model.

use vstd::prelude::*;

use crate::model::Ty;

verus! {

/// A type of the analyzed language.
///
/// Anonymous-struct members are held as a sequence of `(name, type)` pairs;
/// the constructors of this crate keep the pairs strictly ordered by name, so
/// the sequence behaves as a name-keyed map with deterministic iteration.
#[derive(Debug, PartialEq, Eq)]
pub enum HIRType {
    Infer,
    Unreachable,
    GenericsTypeArgument(usize),
    Named { path: Vec<String>, generics_arguments: Vec<HIRType> },
    Tuple(Vec<HIRType>),
    Array(Box<HIRType>),
    Function { arguments: Vec<HIRType>, result: Box<HIRType> },
    AnonymousStruct(Vec<(String, HIRType)>),
    Or(Vec<HIRType>),
}

/// Model of a path: each component as its character sequence.
pub open spec fn path_model(s: Seq<String>) -> Seq<Seq<char>> {
    s.map_values(|c: String| c@)
}

/// Model of a sequence of types.
pub open spec fn types_model(s: Seq<HIRType>) -> Seq<Ty>
    decreases s,
{
    if s.len() == 0 {
        Seq::empty()
    } else {
        seq![type_model(s[0])] + types_model(s.drop_first())
    }
}

/// Model of a sequence of named members.
pub open spec fn fields_model(s: Seq<(String, HIRType)>) -> Seq<(Seq<char>, Ty)>
    decreases s,
{
    if s.len() == 0 {
        Seq::empty()
    } else {
        seq![(s[0].0@, type_model(s[0].1))] + fields_model(s.drop_first())
    }
}

/// Model of a type value.
pub open spec fn type_model(t: HIRType) -> Ty
    decreases t,
{
    match t {
        HIRType::Infer => Ty::Infer,
        HIRType::Unreachable => Ty::Unreachable,
        HIRType::GenericsTypeArgument(i) => Ty::GenericsTypeArgument(i as nat),
        HIRType::Named { path, generics_arguments } => Ty::Named {
            path: path_model(path@),
            generics_arguments: types_model(generics_arguments@),
        },
        HIRType::Tuple(items) => Ty::Tuple(types_model(items@)),
        HIRType::Array(item) => Ty::Array(Box::new(type_model(*item))),
        HIRType::Function { arguments, result } => Ty::Function {
            arguments: types_model(arguments@),
            result: Box::new(type_model(*result)),
        },
        HIRType::AnonymousStruct(members) => Ty::AnonymousStruct(fields_model(members@)),
        HIRType::Or(items) => Ty::Or(types_model(items@)),
    }
}

impl View for HIRType {
    type V = Ty;

    open spec fn view(&self) -> Ty {
        type_model(*self)
    }
}

/// The model of a sequence of types is the sequence of their models.
pub proof fn lemma_types_model(s: Seq<HIRType>)
    ensures
        types_model(s).len() == s.len(),
        forall|i: int| 0 <= i < s.len() ==> #[trigger] types_model(s)[i] == type_model(s[i]),
    decreases s,
{
    if s.len() > 0 {
        lemma_types_model(s.drop_first());
    }
}

/// The model of a member sequence pairs each name's characters with the
/// member type's model.
pub proof fn lemma_fields_model(s: Seq<(String, HIRType)>)
    ensures
        fields_model(s).len() == s.len(),
        forall|i: int|
            0 <= i < s.len() ==> #[trigger] fields_model(s)[i] == (s[i].0@, type_model(s[i].1)),
    decreases s,
{
    if s.len() > 0 {
        lemma_fields_model(s.drop_first());
    }
}

/// The model of a one-element sequence.
pub proof fn lemma_types_model_single(x: HIRType)
    ensures
        types_model(seq![x]) == seq![type_model(x)],
{
    assert(seq![x].drop_first() =~= Seq::<HIRType>::empty());
    assert(types_model(Seq::<HIRType>::empty()) =~= Seq::<Ty>::empty());
    assert(types_model(seq![x]) =~= seq![type_model(x)]);
}

/// The model of a one-element member sequence.
pub proof fn lemma_fields_model_single(p: (String, HIRType))
    ensures
        fields_model(seq![p]) == seq![(p.0@, type_model(p.1))],
{
    assert(seq![p].drop_first() =~= Seq::<(String, HIRType)>::empty());
    assert(fields_model(Seq::<(String, HIRType)>::empty()) =~= Seq::<(Seq<char>, Ty)>::empty());
    assert(fields_model(seq![p]) =~= seq![(p.0@, type_model(p.1))]);
}

/// The model of a concatenation is the concatenation of the models.
pub proof fn lemma_types_model_concat(a: Seq<HIRType>, b: Seq<HIRType>)
    ensures
        types_model(a + b) == types_model(a) + types_model(b),
    decreases a,
{
    if a.len() == 0 {
        assert(a + b =~= b);
        assert(types_model(a) + types_model(b) =~= types_model(b));
    } else {
        assert((a + b).drop_first() =~= a.drop_first() + b);
        lemma_types_model_concat(a.drop_first(), b);
        assert(types_model(a + b) =~= types_model(a) + types_model(b));
    }
}

/// The model of a member concatenation is the concatenation of the models.
pub proof fn lemma_fields_model_concat(a: Seq<(String, HIRType)>, b: Seq<(String, HIRType)>)
    ensures
        fields_model(a + b) == fields_model(a) + fields_model(b),
    decreases a,
{
    if a.len() == 0 {
        assert(a + b =~= b);
        assert(fields_model(a) + fields_model(b) =~= fields_model(b));
    } else {
        assert((a + b).drop_first() =~= a.drop_first() + b);
        lemma_fields_model_concat(a.drop_first(), b);
        assert(fields_model(a + b) =~= fields_model(a) + fields_model(b));
    }
}

/// The conversion error of this crate: a surface anonymous struct used the
/// same member name twice.
#[derive(Debug, PartialEq)]
pub enum HIRTypeConvertError {
    DuplicatedMember(String),
}

/// Copies a path vector.
pub(crate) fn clone_strings(v: &Vec<String>) -> (r: Vec<String>)
    ensures
        r@ == v@,
{
    let mut out: Vec<String> = Vec::new();
    let mut i: usize = 0;
    while i < v.len()
        invariant
            0 <= i <= v.len(),
            out@.len() == i,
            forall|j: int| 0 <= j < i ==> #[trigger] out@[j] == v@[j],
        decreases v.len() - i,
    {
        out.push(v[i].clone());
        i = i + 1;
    }
    proof {
        assert(out@ =~= v@);
    }
    out
}

/// Copies a vector of types, preserving each element's model.
fn clone_types(v: &Vec<HIRType>) -> (r: Vec<HIRType>)
    ensures
        types_model(r@) == types_model(v@),
        r@.len() == v@.len(),
    decreases v@,
{
    let ghost vm = types_model(v@);
    proof {
        lemma_types_model(v@);
    }
    let mut out: Vec<HIRType> = Vec::new();
    let mut i: usize = 0;
    while i < v.len()
        invariant
            0 <= i <= v.len(),
            vm == types_model(v@),
            vm.len() == v.len(),
            forall|j: int| 0 <= j < v.len() ==> #[trigger] vm[j] == type_model(v@[j]),
            out@.len() == i,
            forall|j: int| 0 <= j < i ==> type_model(#[trigger] out@[j]) == type_model(v@[j]),
        decreases v.len() - i,
    {
        out.push(v[i].clone());
        i = i + 1;
    }
    proof {
        lemma_types_model(out@);
        assert(types_model(out@) =~= types_model(v@));
    }
    out
}

/// Copies a member vector, preserving names and each member type's model.
fn clone_fields(v: &Vec<(String, HIRType)>) -> (r: Vec<(String, HIRType)>)
    ensures
        fields_model(r@) == fields_model(v@),
        r@.len() == v@.len(),
    decreases v@,
{
    let ghost vm = fields_model(v@);
    proof {
        lemma_fields_model(v@);
    }
    let mut out: Vec<(String, HIRType)> = Vec::new();
    let mut i: usize = 0;
    while i < v.len()
        invariant
            0 <= i <= v.len(),
            vm == fields_model(v@),
            vm.len() == v.len(),
            forall|j: int|
                0 <= j < v.len() ==> #[trigger] vm[j] == (v@[j].0@, type_model(v@[j].1)),
            out@.len() == i,
            forall|j: int|
                0 <= j < i ==> (#[trigger] out@[j]).0@ == v@[j].0@ && type_model(out@[j].1)
                    == type_model(v@[j].1),
        decreases v.len() - i,
    {
        let name = v[i].0.clone();
        let ty = v[i].1.clone();
        out.push((name, ty));
        i = i + 1;
    }
    proof {
        lemma_fields_model(out@);
        assert(fields_model(out@) =~= fields_model(v@));
    }
    out
}

impl Clone for HIRType {
    /// Copies the type; the copy has the same model value.
    fn clone(&self) -> (r: Self)
        ensures
            r@ == self@,
        decreases *self,
    {
        match self {
            HIRType::Infer => HIRType::Infer,
            HIRType::Unreachable => HIRType::Unreachable,
            HIRType::GenericsTypeArgument(i) => HIRType::GenericsTypeArgument(*i),
            HIRType::Named { path, generics_arguments } => HIRType::Named {
                path: clone_strings(path),
                generics_arguments: clone_types(generics_arguments),
            },
            HIRType::Tuple(items) => HIRType::Tuple(clone_types(items)),
            HIRType::Array(item) => HIRType::Array(Box::new((**item).clone())),
            HIRType::Function { arguments, result } => HIRType::Function {
                arguments: clone_types(arguments),
                result: Box::new((**result).clone()),
            },
            HIRType::AnonymousStruct(members) => HIRType::AnonymousStruct(clone_fields(members)),
            HIRType::Or(items) => HIRType::Or(clone_types(items)),
        }
    }
}

/// Pushes a value, tracking the model of the vector.
pub(crate) fn push_type(v: &mut Vec<HIRType>, x: HIRType)
    ensures
        final(v)@ == old(v)@.push(x),
        types_model(final(v)@) == types_model(old(v)@) + seq![type_model(x)],
{
    let ghost before = v@;
    let ghost xm = type_model(x);
    v.push(x);
    proof {
        assert(v@ =~= before + seq![v@.last()]);
        lemma_types_model_concat(before, seq![v@.last()]);
        lemma_types_model_single(v@.last());
    }
}

/// Pushes a member, tracking the model of the member vector.
pub(crate) fn push_field(v: &mut Vec<(String, HIRType)>, x: (String, HIRType))
    ensures
        final(v)@ == old(v)@.push(x),
        fields_model(final(v)@) == fields_model(old(v)@) + seq![(x.0@, type_model(x.1))],
{
    let ghost before = v@;
    v.push(x);
    proof {
        assert(v@ =~= before + seq![v@.last()]);
        lemma_fields_model_concat(before, seq![v@.last()]);
        lemma_fields_model_single(v@.last());
    }
}

} // verus!
