//! Generic substitution: replacing `GenericsTypeArgument(i)` by the i-th
//! argument, recursively over every composite.

use vstd::prelude::*;

use crate::model::Ty;
use crate::types::{
    fields_model, lemma_fields_model, lemma_types_model, type_model, types_model, HIRType,
};

verus! {

/// Substitution of generic arguments in a model value; `None` when some
/// index has no argument.
pub open spec fn spec_apply(t: Ty, args: Seq<Ty>) -> Option<Ty>
    decreases t,
{
    match t {
        Ty::Infer => Some(t),
        Ty::Unreachable => Some(t),
        Ty::GenericsTypeArgument(i) => if i < args.len() {
            Some(args[i as int])
        } else {
            None
        },
        Ty::Named { path, generics_arguments } => match spec_apply_seq(generics_arguments, args) {
            Some(gs) => Some(Ty::Named { path, generics_arguments: gs }),
            None => None,
        },
        Ty::Tuple(items) => match spec_apply_seq(items, args) {
            Some(rs) => Some(Ty::Tuple(rs)),
            None => None,
        },
        Ty::Array(item) => match spec_apply(*item, args) {
            Some(r) => Some(Ty::Array(Box::new(r))),
            None => None,
        },
        Ty::Function { arguments, result } => match (
            spec_apply_seq(arguments, args),
            spec_apply(*result, args),
        ) {
            (Some(rs), Some(r)) => Some(Ty::Function { arguments: rs, result: Box::new(r) }),
            _ => None,
        },
        Ty::AnonymousStruct(members) => match spec_apply_fields(members, args) {
            Some(ms) => Some(Ty::AnonymousStruct(ms)),
            None => None,
        },
        Ty::Or(items) => match spec_apply_seq(items, args) {
            Some(rs) => Some(Ty::Or(rs)),
            None => None,
        },
    }
}

/// Substitution in each element; `None` when it fails anywhere.
pub open spec fn spec_apply_seq(s: Seq<Ty>, args: Seq<Ty>) -> Option<Seq<Ty>>
    decreases s,
{
    if s.len() == 0 {
        Some(Seq::empty())
    } else {
        match (spec_apply(s[0], args), spec_apply_seq(s.drop_first(), args)) {
            (Some(t), Some(ts)) => Some(seq![t] + ts),
            _ => None,
        }
    }
}

/// Substitution in each member type; `None` when it fails anywhere.
pub open spec fn spec_apply_fields(m: Seq<(Seq<char>, Ty)>, args: Seq<Ty>) -> Option<
    Seq<(Seq<char>, Ty)>,
>
    decreases m,
{
    if m.len() == 0 {
        Some(Seq::empty())
    } else {
        match (spec_apply(m[0].1, args), spec_apply_fields(m.drop_first(), args)) {
            (Some(t), Some(ts)) => Some(seq![(m[0].0, t)] + ts),
            _ => None,
        }
    }
}

/// Failure at one element fails the whole sequence.
pub proof fn lemma_apply_seq_none(s: Seq<Ty>, args: Seq<Ty>, i: int)
    requires
        0 <= i < s.len(),
        spec_apply(s[i], args) is None,
    ensures
        spec_apply_seq(s, args) is None,
    decreases i,
{
    if i > 0 {
        assert(s.drop_first()[i - 1] == s[i]);
        lemma_apply_seq_none(s.drop_first(), args, i - 1);
    }
}

/// Success at every element succeeds pointwise.
pub proof fn lemma_apply_seq_some(s: Seq<Ty>, args: Seq<Ty>)
    requires
        forall|k: int| 0 <= k < s.len() ==> spec_apply(#[trigger] s[k], args) is Some,
    ensures
        spec_apply_seq(s, args) is Some,
        spec_apply_seq(s, args).unwrap().len() == s.len(),
        forall|k: int|
            0 <= k < s.len() ==> #[trigger] spec_apply_seq(s, args).unwrap()[k] == spec_apply(
                s[k],
                args,
            ).unwrap(),
    decreases s.len(),
{
    if s.len() > 0 {
        assert(forall|k: int|
            0 <= k < s.drop_first().len() ==> #[trigger] s.drop_first()[k] == s[k + 1]);
        lemma_apply_seq_some(s.drop_first(), args);
    }
}

/// Failure at one member type fails the whole member sequence.
pub proof fn lemma_apply_fields_none(m: Seq<(Seq<char>, Ty)>, args: Seq<Ty>, i: int)
    requires
        0 <= i < m.len(),
        spec_apply(m[i].1, args) is None,
    ensures
        spec_apply_fields(m, args) is None,
    decreases i,
{
    if i > 0 {
        assert(m.drop_first()[i - 1] == m[i]);
        lemma_apply_fields_none(m.drop_first(), args, i - 1);
    }
}

/// Success at every member type succeeds pointwise, names unchanged.
pub proof fn lemma_apply_fields_some(m: Seq<(Seq<char>, Ty)>, args: Seq<Ty>)
    requires
        forall|k: int| 0 <= k < m.len() ==> spec_apply((#[trigger] m[k]).1, args) is Some,
    ensures
        spec_apply_fields(m, args) is Some,
        spec_apply_fields(m, args).unwrap().len() == m.len(),
        forall|k: int|
            0 <= k < m.len() ==> #[trigger] spec_apply_fields(m, args).unwrap()[k] == (
                m[k].0,
                spec_apply(m[k].1, args).unwrap(),
            ),
    decreases m.len(),
{
    if m.len() > 0 {
        assert(forall|k: int|
            0 <= k < m.drop_first().len() ==> #[trigger] m.drop_first()[k] == m[k + 1]);
        lemma_apply_fields_some(m.drop_first(), args);
    }
}

/// Substitution composes with recursion: on every composite it is exactly
/// the composite of the substitutions of the children, and it fails exactly
/// when substitution fails in some child.
pub proof fn lemma_apply_composes(t: Ty, args: Seq<Ty>)
    ensures
        t matches Ty::Named { path, generics_arguments } ==> spec_apply(t, args) == (
        match spec_apply_seq(generics_arguments, args) {
            Some(gs) => Some(Ty::Named { path, generics_arguments: gs }),
            None => None,
        }),
        t matches Ty::Tuple(items) ==> spec_apply(t, args) == (match spec_apply_seq(items, args) {
            Some(rs) => Some(Ty::Tuple(rs)),
            None => None,
        }),
        t matches Ty::Array(item) ==> spec_apply(t, args) == (match spec_apply(*item, args) {
            Some(r) => Some(Ty::Array(Box::new(r))),
            None => None,
        }),
        t matches Ty::Function { arguments, result } ==> spec_apply(t, args) == (match (
            spec_apply_seq(arguments, args),
            spec_apply(*result, args),
        ) {
            (Some(rs), Some(r)) => Some(Ty::Function { arguments: rs, result: Box::new(r) }),
            _ => None,
        }),
        t matches Ty::AnonymousStruct(members) ==> spec_apply(t, args) == (
        match spec_apply_fields(members, args) {
            Some(ms) => Some(Ty::AnonymousStruct(ms)),
            None => None,
        }),
        t matches Ty::Or(items) ==> spec_apply(t, args) == (match spec_apply_seq(items, args) {
            Some(rs) => Some(Ty::Or(rs)),
            None => None,
        }),
{
}

/// Substitutes in each element of a vector.
fn apply_vec(v: &Vec<HIRType>, args: &[HIRType]) -> (r: Option<Vec<HIRType>>)
    ensures
        match r {
            Some(out) => spec_apply_seq(types_model(v@), types_model(args@)) == Some(
                types_model(out@),
            ),
            None => spec_apply_seq(types_model(v@), types_model(args@)) is None,
        },
    decreases v@,
{
    let ghost m = types_model(v@);
    let ghost am = types_model(args@);
    proof {
        lemma_types_model(v@);
    }
    let mut out: Vec<HIRType> = Vec::new();
    let mut i: usize = 0;
    while i < v.len()
        invariant
            0 <= i <= v.len(),
            m == types_model(v@),
            am == types_model(args@),
            m.len() == v.len(),
            forall|j: int| 0 <= j < v.len() ==> #[trigger] m[j] == type_model(v@[j]),
            out@.len() == i,
            forall|j: int|
                0 <= j < i ==> spec_apply(#[trigger] m[j], am) == Some(type_model(out@[j])),
        decreases v.len() - i,
    {
        match v[i].apply_generics_type_argument(args) {
            Some(ty) => {
                out.push(ty);
            },
            None => {
                proof {
                    lemma_apply_seq_none(m, am, i as int);
                }
                return None;
            },
        }
        i = i + 1;
    }
    proof {
        assert forall|k: int| 0 <= k < m.len() implies spec_apply(#[trigger] m[k], am)
            is Some by {}
        lemma_apply_seq_some(m, am);
        lemma_types_model(out@);
        assert(types_model(out@) =~= spec_apply_seq(m, am).unwrap());
    }
    Some(out)
}

/// Substitutes in each member type of a member vector.
fn apply_fields(v: &Vec<(String, HIRType)>, args: &[HIRType]) -> (r: Option<
    Vec<(String, HIRType)>,
>)
    ensures
        match r {
            Some(out) => spec_apply_fields(fields_model(v@), types_model(args@)) == Some(
                fields_model(out@),
            ),
            None => spec_apply_fields(fields_model(v@), types_model(args@)) is None,
        },
    decreases v@,
{
    let ghost m = fields_model(v@);
    let ghost am = types_model(args@);
    proof {
        lemma_fields_model(v@);
    }
    let mut out: Vec<(String, HIRType)> = Vec::new();
    let mut i: usize = 0;
    while i < v.len()
        invariant
            0 <= i <= v.len(),
            m == fields_model(v@),
            am == types_model(args@),
            m.len() == v.len(),
            forall|j: int|
                0 <= j < v.len() ==> #[trigger] m[j] == (v@[j].0@, type_model(v@[j].1)),
            out@.len() == i,
            forall|j: int|
                0 <= j < i ==> (#[trigger] out@[j]).0@ == m[j].0 && spec_apply(m[j].1, am)
                    == Some(type_model(out@[j].1)),
        decreases v.len() - i,
    {
        match v[i].1.apply_generics_type_argument(args) {
            Some(ty) => {
                let name = v[i].0.clone();
                out.push((name, ty));
            },
            None => {
                proof {
                    lemma_apply_fields_none(m, am, i as int);
                }
                return None;
            },
        }
        i = i + 1;
    }
    proof {
        assert forall|k: int| 0 <= k < m.len() implies spec_apply((#[trigger] m[k]).1, am)
            is Some by {
            assert((out@[k]).0@ == m[k].0);
        }
        lemma_apply_fields_some(m, am);
        lemma_fields_model(out@);
        assert(fields_model(out@) =~= spec_apply_fields(m, am).unwrap());
    }
    Some(out)
}

impl HIRType {
    /// Returns the type with every `GenericsTypeArgument(i)` replaced by
    /// `type_arguments[i]`; `None` when some index is out of bounds.
    pub fn apply_generics_type_argument(&self, type_arguments: &[HIRType]) -> (r: Option<HIRType>)
        ensures
            match r {
                Some(ty) => spec_apply(self@, types_model(type_arguments@)) == Some(ty@),
                None => spec_apply(self@, types_model(type_arguments@)) is None,
            },
        decreases *self,
    {
        match self {
            HIRType::Infer => Some(HIRType::Infer),
            HIRType::Unreachable => Some(HIRType::Unreachable),
            HIRType::GenericsTypeArgument(i) => {
                proof {
                    lemma_types_model(type_arguments@);
                }
                if *i < type_arguments.len() {
                    Some(type_arguments[*i].clone())
                } else {
                    None
                }
            },
            HIRType::Named { path, generics_arguments } => {
                match apply_vec(generics_arguments, type_arguments) {
                    Some(gs) => Some(
                        HIRType::Named {
                            path: crate::types::clone_strings(path),
                            generics_arguments: gs,
                        },
                    ),
                    None => None,
                }
            },
            HIRType::Tuple(items) => match apply_vec(items, type_arguments) {
                Some(rs) => Some(HIRType::Tuple(rs)),
                None => None,
            },
            HIRType::Array(item) => match (**item).apply_generics_type_argument(type_arguments) {
                Some(r) => Some(HIRType::Array(Box::new(r))),
                None => None,
            },
            HIRType::Function { arguments, result } => {
                match apply_vec(arguments, type_arguments) {
                    Some(rs) => match (**result).apply_generics_type_argument(type_arguments) {
                        Some(r) => Some(HIRType::Function { arguments: rs, result: Box::new(r) }),
                        None => None,
                    },
                    None => None,
                }
            },
            HIRType::AnonymousStruct(members) => match apply_fields(members, type_arguments) {
                Some(ms) => Some(HIRType::AnonymousStruct(ms)),
                None => None,
            },
            HIRType::Or(items) => match apply_vec(items, type_arguments) {
                Some(rs) => Some(HIRType::Or(rs)),
                None => None,
            },
        }
    }
}

} // verus!
