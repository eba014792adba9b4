//! Mathematical model of the type lattice.
//!
//! `Ty` is the specification-level mirror of [`crate::HIRType`]: strings become
//! `Seq<char>`, vectors become `Seq`, and the anonymous-struct member map
//! becomes a name-ordered sequence of pairs. Every contract of the library
//! speaks about values of this model.

use vstd::prelude::*;

verus! {

/// Specification-level value of the type lattice.
#[verifier::ext_equal]
pub enum Ty {
    /// Placeholder satisfied by, and satisfying, every type.
    Infer,
    /// Bottom: the type of code that does not return normally.
    Unreachable,
    /// De Bruijn-style reference to the i-th generic parameter in scope.
    GenericsTypeArgument(nat),
    /// Nominal type with a path and ordered generic arguments.
    Named { path: Seq<Seq<char>>, generics_arguments: Seq<Ty> },
    /// Ordered heterogeneous fixed-length sequence, width-subtyped.
    Tuple(Seq<Ty>),
    /// Homogeneous variable-length sequence.
    Array(Box<Ty>),
    /// Callable: arguments are contravariant, the result covariant.
    Function { arguments: Seq<Ty>, result: Box<Ty> },
    /// Structural record: member pairs ordered by name.
    AnonymousStruct(Seq<(Seq<char>, Ty)>),
    /// Union of the component types.
    Or(Seq<Ty>),
}

/// Height of a model value: an upper bound on the nesting depth, used as a
/// termination measure by relations that recurse into both of their arguments.
pub open spec fn ty_height(t: Ty) -> nat
    decreases t,
{
    match t {
        Ty::Infer => 0,
        Ty::Unreachable => 0,
        Ty::GenericsTypeArgument(_) => 0,
        Ty::Named { path, generics_arguments } => 1 + seq_height(generics_arguments),
        Ty::Tuple(items) => 1 + seq_height(items),
        Ty::Array(item) => 1 + ty_height(*item),
        Ty::Function { arguments, result } => 1 + if seq_height(arguments) >= ty_height(*result) {
            seq_height(arguments)
        } else {
            ty_height(*result)
        },
        Ty::AnonymousStruct(members) => 1 + fields_height(members),
        Ty::Or(items) => 1 + seq_height(items),
    }
}

/// Largest height among the elements of a sequence of model values.
pub open spec fn seq_height(s: Seq<Ty>) -> nat
    decreases s,
{
    if s.len() == 0 {
        0
    } else if ty_height(s[0]) >= seq_height(s.drop_first()) {
        ty_height(s[0])
    } else {
        seq_height(s.drop_first())
    }
}

/// Largest height among the member types of a name-ordered member sequence.
pub open spec fn fields_height(s: Seq<(Seq<char>, Ty)>) -> nat
    decreases s,
{
    if s.len() == 0 {
        0
    } else if ty_height(s[0].1) >= fields_height(s.drop_first()) {
        ty_height(s[0].1)
    } else {
        fields_height(s.drop_first())
    }
}

/// Every element of a sequence is bounded by the sequence's height.
pub proof fn lemma_seq_height(s: Seq<Ty>)
    ensures
        forall|i: int| 0 <= i < s.len() ==> ty_height(#[trigger] s[i]) <= seq_height(s),
    decreases s,
{
    if s.len() > 0 {
        lemma_seq_height(s.drop_first());
        assert forall|i: int| 0 <= i < s.len() implies ty_height(#[trigger] s[i]) <= seq_height(
            s,
        ) by {
            if i > 0 {
                assert(s.drop_first()[i - 1] == s[i]);
            }
        }
    }
}

/// Whether a member sequence holds an entry under the given name.
pub open spec fn fields_contains(m: Seq<(Seq<char>, Ty)>, name: Seq<char>) -> bool
    decreases m,
{
    m.len() > 0 && (m[0].0 == name || fields_contains(m.drop_first(), name))
}

/// The first entry under the given name in a member sequence.
pub open spec fn fields_get(m: Seq<(Seq<char>, Ty)>, name: Seq<char>) -> Ty
    decreases m,
{
    if m.len() == 0 {
        arbitrary()
    } else if m[0].0 == name {
        m[0].1
    } else {
        fields_get(m.drop_first(), name)
    }
}

/// A name that matches no entry is not contained.
pub proof fn lemma_fields_no_match(m: Seq<(Seq<char>, Ty)>, name: Seq<char>)
    requires
        forall|j: int| 0 <= j < m.len() ==> (#[trigger] m[j]).0 != name,
    ensures
        !fields_contains(m, name),
    decreases m,
{
    if m.len() > 0 {
        assert(forall|j: int|
            0 <= j < m.drop_first().len() ==> (#[trigger] m.drop_first()[j]) == m[j + 1]);
        lemma_fields_no_match(m.drop_first(), name);
    }
}

/// The first entry whose name matches determines the lookup result.
pub proof fn lemma_fields_first_match(m: Seq<(Seq<char>, Ty)>, name: Seq<char>, i: int)
    requires
        0 <= i < m.len(),
        m[i].0 == name,
        forall|j: int| 0 <= j < i ==> (#[trigger] m[j]).0 != name,
    ensures
        fields_contains(m, name),
        fields_get(m, name) == m[i].1,
    decreases m,
{
    if i > 0 {
        assert(forall|j: int|
            0 <= j < m.drop_first().len() ==> (#[trigger] m.drop_first()[j]) == m[j + 1]);
        lemma_fields_first_match(m.drop_first(), name, i - 1);
    }
}

/// A contained entry's type is bounded by the member sequence's height.
pub proof fn lemma_fields_get_height(m: Seq<(Seq<char>, Ty)>)
    ensures
        forall|name: Seq<char>|
            #[trigger] fields_contains(m, name) ==> ty_height(fields_get(m, name))
                <= fields_height(m),
    decreases m,
{
    if m.len() > 0 {
        lemma_fields_get_height(m.drop_first());
        assert forall|name: Seq<char>| #[trigger] fields_contains(m, name) implies ty_height(
            fields_get(m, name),
        ) <= fields_height(m) by {
            if m[0].0 != name {
                assert(fields_contains(m.drop_first(), name));
            }
        }
    }
}

/// Every member type of a member sequence is bounded by the sequence's height.
pub proof fn lemma_fields_height(s: Seq<(Seq<char>, Ty)>)
    ensures
        forall|i: int| 0 <= i < s.len() ==> ty_height(#[trigger] s[i].1) <= fields_height(s),
    decreases s,
{
    if s.len() > 0 {
        lemma_fields_height(s.drop_first());
        assert forall|i: int| 0 <= i < s.len() implies ty_height(#[trigger] s[i].1)
            <= fields_height(s) by {
            if i > 0 {
                assert(s.drop_first()[i - 1] == s[i]);
            }
        }
    }
}

} // verus!
