//! Structural projections: member and tuple-slot access, and the temporary
//! materialization of `Infer`.

use vstd::prelude::*;

use crate::model::{fields_contains, fields_get, Ty};
use crate::subtype::fields_find;
use crate::types::{
    fields_model, lemma_fields_model, lemma_types_model, type_model, types_model, HIRType,
};

verus! {

/// The type of the named member, when the type exposes it: `Infer` exposes
/// every member as `Infer`, an anonymous struct exposes its stored members,
/// and a union exposes a member as the union of the per-component results
/// when every component exposes it.
pub open spec fn spec_member_type(t: Ty, name: Seq<char>) -> Option<Ty>
    decreases t,
{
    match t {
        Ty::Infer => Some(Ty::Infer),
        Ty::AnonymousStruct(members) => if fields_contains(members, name) {
            Some(fields_get(members, name))
        } else {
            None
        },
        Ty::Or(items) => match spec_member_types(items, name) {
            Some(results) => Some(Ty::Or(results)),
            None => None,
        },
        _ => None,
    }
}

/// The per-component member types of a union, when every component has one.
pub open spec fn spec_member_types(items: Seq<Ty>, name: Seq<char>) -> Option<Seq<Ty>>
    decreases items,
{
    if items.len() == 0 {
        Some(Seq::empty())
    } else {
        match (spec_member_type(items[0], name), spec_member_types(items.drop_first(), name)) {
            (Some(t), Some(ts)) => Some(seq![t] + ts),
            _ => None,
        }
    }
}

/// The type of the n-th tuple slot, when the type exposes it.
pub open spec fn spec_tuple_item_type(t: Ty, n: int) -> Option<Ty>
    decreases t,
{
    match t {
        Ty::Infer => Some(Ty::Infer),
        Ty::Tuple(items) => if 0 <= n < items.len() {
            Some(items[n])
        } else {
            None
        },
        Ty::Or(items) => match spec_tuple_item_types(items, n) {
            Some(results) => Some(Ty::Or(results)),
            None => None,
        },
        _ => None,
    }
}

/// The per-component tuple-slot types of a union, when every component has
/// one.
pub open spec fn spec_tuple_item_types(items: Seq<Ty>, n: int) -> Option<Seq<Ty>>
    decreases items,
{
    if items.len() == 0 {
        Some(Seq::empty())
    } else {
        match (spec_tuple_item_type(items[0], n), spec_tuple_item_types(items.drop_first(), n)) {
            (Some(t), Some(ts)) => Some(seq![t] + ts),
            _ => None,
        }
    }
}

/// Materialization of `Infer` as the empty tuple, recursively.
pub open spec fn spec_infer_temporary(t: Ty) -> Ty
    decreases t,
{
    match t {
        Ty::Infer => Ty::Tuple(Seq::empty()),
        Ty::Unreachable => t,
        Ty::GenericsTypeArgument(_) => t,
        Ty::Named { path, generics_arguments } => Ty::Named {
            path,
            generics_arguments: spec_infer_temporary_seq(generics_arguments),
        },
        Ty::Tuple(items) => Ty::Tuple(spec_infer_temporary_seq(items)),
        Ty::Array(item) => Ty::Array(Box::new(spec_infer_temporary(*item))),
        Ty::Function { arguments, result } => Ty::Function {
            arguments: spec_infer_temporary_seq(arguments),
            result: Box::new(spec_infer_temporary(*result)),
        },
        Ty::AnonymousStruct(members) => Ty::AnonymousStruct(spec_infer_temporary_fields(members)),
        Ty::Or(items) => Ty::Or(spec_infer_temporary_seq(items)),
    }
}

/// Materialization of `Infer` in each element.
pub open spec fn spec_infer_temporary_seq(s: Seq<Ty>) -> Seq<Ty>
    decreases s,
{
    if s.len() == 0 {
        Seq::empty()
    } else {
        seq![spec_infer_temporary(s[0])] + spec_infer_temporary_seq(s.drop_first())
    }
}

/// Materialization of `Infer` in each member type.
pub open spec fn spec_infer_temporary_fields(m: Seq<(Seq<char>, Ty)>) -> Seq<(Seq<char>, Ty)>
    decreases m,
{
    if m.len() == 0 {
        Seq::empty()
    } else {
        seq![(m[0].0, spec_infer_temporary(m[0].1))] + spec_infer_temporary_fields(m.drop_first())
    }
}


/// A component without the member makes the whole union lookup fail.
pub proof fn lemma_member_types_none(m: Seq<Ty>, name: Seq<char>, i: int)
    requires
        0 <= i < m.len(),
        spec_member_type(m[i], name) is None,
    ensures
        spec_member_types(m, name) is None,
    decreases i,
{
    if i > 0 {
        assert(m.drop_first()[i - 1] == m[i]);
        lemma_member_types_none(m.drop_first(), name, i - 1);
    }
}

/// When every component has the member, the union lookup collects the
/// per-component results in order.
pub proof fn lemma_member_types_some(m: Seq<Ty>, name: Seq<char>)
    requires
        forall|k: int| 0 <= k < m.len() ==> spec_member_type(#[trigger] m[k], name) is Some,
    ensures
        spec_member_types(m, name) is Some,
        spec_member_types(m, name).unwrap().len() == m.len(),
        forall|k: int|
            0 <= k < m.len() ==> #[trigger] spec_member_types(m, name).unwrap()[k]
                == spec_member_type(m[k], name).unwrap(),
    decreases m.len(),
{
    if m.len() > 0 {
        assert(forall|k: int|
            0 <= k < m.drop_first().len() ==> #[trigger] m.drop_first()[k] == m[k + 1]);
        lemma_member_types_some(m.drop_first(), name);
    }
}

/// A component without the tuple slot makes the whole union lookup fail.
pub proof fn lemma_tuple_item_types_none(m: Seq<Ty>, n: int, i: int)
    requires
        0 <= i < m.len(),
        spec_tuple_item_type(m[i], n) is None,
    ensures
        spec_tuple_item_types(m, n) is None,
    decreases i,
{
    if i > 0 {
        assert(m.drop_first()[i - 1] == m[i]);
        lemma_tuple_item_types_none(m.drop_first(), n, i - 1);
    }
}

/// When every component has the tuple slot, the union lookup collects the
/// per-component results in order.
pub proof fn lemma_tuple_item_types_some(m: Seq<Ty>, n: int)
    requires
        forall|k: int| 0 <= k < m.len() ==> spec_tuple_item_type(#[trigger] m[k], n) is Some,
    ensures
        spec_tuple_item_types(m, n) is Some,
        spec_tuple_item_types(m, n).unwrap().len() == m.len(),
        forall|k: int|
            0 <= k < m.len() ==> #[trigger] spec_tuple_item_types(m, n).unwrap()[k]
                == spec_tuple_item_type(m[k], n).unwrap(),
    decreases m.len(),
{
    if m.len() > 0 {
        assert(forall|k: int|
            0 <= k < m.drop_first().len() ==> #[trigger] m.drop_first()[k] == m[k + 1]);
        lemma_tuple_item_types_some(m.drop_first(), n);
    }
}

/// Collects the member type of each component, when every component has
/// one.
fn member_types_vec(v: &Vec<HIRType>, name: &str) -> (r: Option<Vec<HIRType>>)
    ensures
        match r {
            Some(out) => spec_member_types(types_model(v@), name@) == Some(types_model(out@)),
            None => spec_member_types(types_model(v@), name@) is None,
        },
    decreases v@,
{
    let ghost m = types_model(v@);
    proof {
        lemma_types_model(v@);
    }
    let mut out: Vec<HIRType> = Vec::new();
    let mut i: usize = 0;
    while i < v.len()
        invariant
            0 <= i <= v.len(),
            m == types_model(v@),
            m.len() == v.len(),
            forall|j: int| 0 <= j < v.len() ==> #[trigger] m[j] == type_model(v@[j]),
            out@.len() == i,
            forall|j: int|
                0 <= j < i ==> spec_member_type(#[trigger] m[j], name@) == Some(
                    type_model(out@[j]),
                ),
        decreases v.len() - i,
    {
        match v[i].member_type(name) {
            Some(ty) => {
                out.push(ty);
            },
            None => {
                proof {
                    lemma_member_types_none(m, name@, i as int);
                }
                return None;
            },
        }
        i = i + 1;
    }
    proof {
        assert forall|k: int| 0 <= k < m.len() implies spec_member_type(
            #[trigger] m[k],
            name@,
        ) is Some by {}
        lemma_member_types_some(m, name@);
        lemma_types_model(out@);
        assert(types_model(out@) =~= spec_member_types(m, name@).unwrap());
    }
    Some(out)
}

/// Collects the n-th tuple-slot type of each component, when every
/// component has one.
fn tuple_item_types_vec(v: &Vec<HIRType>, n: usize) -> (r: Option<Vec<HIRType>>)
    ensures
        match r {
            Some(out) => spec_tuple_item_types(types_model(v@), n as int) == Some(
                types_model(out@),
            ),
            None => spec_tuple_item_types(types_model(v@), n as int) is None,
        },
    decreases v@,
{
    let ghost m = types_model(v@);
    proof {
        lemma_types_model(v@);
    }
    let mut out: Vec<HIRType> = Vec::new();
    let mut i: usize = 0;
    while i < v.len()
        invariant
            0 <= i <= v.len(),
            m == types_model(v@),
            m.len() == v.len(),
            forall|j: int| 0 <= j < v.len() ==> #[trigger] m[j] == type_model(v@[j]),
            out@.len() == i,
            forall|j: int|
                0 <= j < i ==> spec_tuple_item_type(#[trigger] m[j], n as int) == Some(
                    type_model(out@[j]),
                ),
        decreases v.len() - i,
    {
        match v[i].tuple_item_type(n) {
            Some(ty) => {
                out.push(ty);
            },
            None => {
                proof {
                    lemma_tuple_item_types_none(m, n as int, i as int);
                }
                return None;
            },
        }
        i = i + 1;
    }
    proof {
        assert forall|k: int| 0 <= k < m.len() implies spec_tuple_item_type(
            #[trigger] m[k],
            n as int,
        ) is Some by {}
        lemma_tuple_item_types_some(m, n as int);
        lemma_types_model(out@);
        assert(types_model(out@) =~= spec_tuple_item_types(m, n as int).unwrap());
    }
    Some(out)
}

/// Whether every component exposes the named member.
fn all_have_member(v: &Vec<HIRType>, name: &str) -> (r: bool)
    ensures
        r == (spec_member_types(types_model(v@), name@) is Some),
    decreases v@,
{
    let ghost m = types_model(v@);
    proof {
        lemma_types_model(v@);
    }
    let mut i: usize = 0;
    while i < v.len()
        invariant
            0 <= i <= v.len(),
            m == types_model(v@),
            m.len() == v.len(),
            forall|j: int| 0 <= j < v.len() ==> #[trigger] m[j] == type_model(v@[j]),
            forall|j: int| 0 <= j < i ==> spec_member_type(#[trigger] m[j], name@) is Some,
        decreases v.len() - i,
    {
        if !v[i].has_member(name) {
            proof {
                lemma_member_types_none(m, name@, i as int);
            }
            return false;
        }
        i = i + 1;
    }
    proof {
        assert forall|k: int| 0 <= k < m.len() implies spec_member_type(
            #[trigger] m[k],
            name@,
        ) is Some by {}
        lemma_member_types_some(m, name@);
    }
    true
}

/// Whether every component exposes the n-th tuple slot.
fn all_have_tuple_item(v: &Vec<HIRType>, n: usize) -> (r: bool)
    ensures
        r == (spec_tuple_item_types(types_model(v@), n as int) is Some),
    decreases v@,
{
    let ghost m = types_model(v@);
    proof {
        lemma_types_model(v@);
    }
    let mut i: usize = 0;
    while i < v.len()
        invariant
            0 <= i <= v.len(),
            m == types_model(v@),
            m.len() == v.len(),
            forall|j: int| 0 <= j < v.len() ==> #[trigger] m[j] == type_model(v@[j]),
            forall|j: int| 0 <= j < i ==> spec_tuple_item_type(#[trigger] m[j], n as int) is Some,
        decreases v.len() - i,
    {
        if !v[i].has_tuple_item(n) {
            proof {
                lemma_tuple_item_types_none(m, n as int, i as int);
            }
            return false;
        }
        i = i + 1;
    }
    proof {
        assert forall|k: int| 0 <= k < m.len() implies spec_tuple_item_type(
            #[trigger] m[k],
            n as int,
        ) is Some by {}
        lemma_tuple_item_types_some(m, n as int);
    }
    true
}

impl HIRType {
    /// The type of the named member, when this type exposes it.
    pub fn member_type(&self, member_name: &str) -> (r: Option<HIRType>)
        ensures
            match r {
                Some(ty) => spec_member_type(self@, member_name@) == Some(ty@),
                None => spec_member_type(self@, member_name@) is None,
            },
        decreases *self,
    {
        match self {
            HIRType::Infer => Some(HIRType::Infer),
            HIRType::AnonymousStruct(members) => match fields_find(members, member_name) {
                Some(j) => Some(members[j].1.clone()),
                None => None,
            },
            HIRType::Or(items) => {
                match member_types_vec(items, member_name) {
                    Some(out) => Some(HIRType::Or(out)),
                    None => None,
                }
            },
            _ => None,
        }
    }

    /// The type of the n-th tuple slot, when this type exposes it.
    pub fn tuple_item_type(&self, n: usize) -> (r: Option<HIRType>)
        ensures
            match r {
                Some(ty) => spec_tuple_item_type(self@, n as int) == Some(ty@),
                None => spec_tuple_item_type(self@, n as int) is None,
            },
        decreases *self,
    {
        match self {
            HIRType::Infer => Some(HIRType::Infer),
            HIRType::Tuple(items) => {
                proof {
                    lemma_types_model(items@);
                }
                if n < items.len() {
                    Some(items[n].clone())
                } else {
                    None
                }
            },
            HIRType::Or(items) => {
                match tuple_item_types_vec(items, n) {
                    Some(out) => Some(HIRType::Or(out)),
                    None => None,
                }
            },
            _ => None,
        }
    }

    /// Whether this type exposes the named member.
    pub fn has_member(&self, member_name: &str) -> (r: bool)
        ensures
            r == (spec_member_type(self@, member_name@) is Some),
        decreases *self,
    {
        match self {
            HIRType::Infer => true,
            HIRType::AnonymousStruct(members) => match fields_find(members, member_name) {
                Some(_) => true,
                None => false,
            },
            HIRType::Or(items) => all_have_member(items, member_name),
            _ => false,
        }
    }

    /// Whether this type exposes the n-th tuple slot.
    pub fn has_tuple_item(&self, n: usize) -> (r: bool)
        ensures
            r == (spec_tuple_item_type(self@, n as int) is Some),
        decreases *self,
    {
        match self {
            HIRType::Infer => true,
            HIRType::Tuple(items) => {
                proof {
                    lemma_types_model(items@);
                }
                n < items.len()
            },
            HIRType::Or(items) => all_have_tuple_item(items, n),
            _ => false,
        }
    }

    /// Replaces every `Infer` with the empty tuple, leaving the rest of the
    /// structure intact.
    pub fn infer_temporary(&self) -> (r: HIRType)
        ensures
            r@ == spec_infer_temporary(self@),
        decreases *self,
    {
        match self {
            HIRType::Infer => {
                let out: Vec<HIRType> = Vec::new();
                proof {
                    assert(types_model(out@) =~= Seq::<Ty>::empty());
                }
                HIRType::Tuple(out)
            },
            HIRType::Unreachable => HIRType::Unreachable,
            HIRType::GenericsTypeArgument(i) => HIRType::GenericsTypeArgument(*i),
            HIRType::Named { path, generics_arguments } => HIRType::Named {
                path: crate::types::clone_strings(path),
                generics_arguments: infer_temporary_vec(generics_arguments),
            },
            HIRType::Tuple(items) => HIRType::Tuple(infer_temporary_vec(items)),
            HIRType::Array(item) => HIRType::Array(Box::new((**item).infer_temporary())),
            HIRType::Function { arguments, result } => HIRType::Function {
                arguments: infer_temporary_vec(arguments),
                result: Box::new((**result).infer_temporary()),
            },
            HIRType::AnonymousStruct(members) => HIRType::AnonymousStruct(
                infer_temporary_fields(members),
            ),
            HIRType::Or(items) => HIRType::Or(infer_temporary_vec(items)),
        }
    }
}

/// Materializes `Infer` in each element of a vector.
fn infer_temporary_vec(v: &Vec<HIRType>) -> (r: Vec<HIRType>)
    ensures
        types_model(r@) == spec_infer_temporary_seq(types_model(v@)),
    decreases v@,
{
    let ghost vm = types_model(v@);
    proof {
        lemma_types_model(v@);
    }
    let mut out: Vec<HIRType> = Vec::new();
    let mut i: usize = 0;
    while i < v.len()
        invariant
            0 <= i <= v.len(),
            vm == types_model(v@),
            vm.len() == v.len(),
            forall|j: int| 0 <= j < v.len() ==> #[trigger] vm[j] == type_model(v@[j]),
            out@.len() == i,
            forall|j: int|
                0 <= j < i ==> type_model(#[trigger] out@[j]) == spec_infer_temporary(vm[j]),
        decreases v.len() - i,
    {
        out.push(v[i].infer_temporary());
        i = i + 1;
    }
    proof {
        lemma_types_model(out@);
        lemma_spec_infer_temporary_seq(vm);
        assert(types_model(out@) =~= spec_infer_temporary_seq(vm));
    }
    out
}

/// Materializes `Infer` in each member type of a member vector.
fn infer_temporary_fields(v: &Vec<(String, HIRType)>) -> (r: Vec<(String, HIRType)>)
    ensures
        fields_model(r@) == spec_infer_temporary_fields(fields_model(v@)),
    decreases v@,
{
    let ghost vm = fields_model(v@);
    proof {
        lemma_fields_model(v@);
    }
    let mut out: Vec<(String, HIRType)> = Vec::new();
    let mut i: usize = 0;
    while i < v.len()
        invariant
            0 <= i <= v.len(),
            vm == fields_model(v@),
            vm.len() == v.len(),
            forall|j: int|
                0 <= j < v.len() ==> #[trigger] vm[j] == (v@[j].0@, type_model(v@[j].1)),
            out@.len() == i,
            forall|j: int|
                0 <= j < i ==> (#[trigger] out@[j]).0@ == vm[j].0 && type_model(out@[j].1)
                    == spec_infer_temporary(vm[j].1),
        decreases v.len() - i,
    {
        let name = v[i].0.clone();
        let ty = v[i].1.infer_temporary();
        out.push((name, ty));
        i = i + 1;
    }
    proof {
        lemma_fields_model(out@);
        lemma_spec_infer_temporary_fields(vm);
        assert(fields_model(out@) =~= spec_infer_temporary_fields(vm));
    }
    out
}

/// Pointwise characterization of `spec_infer_temporary_seq`.
pub proof fn lemma_spec_infer_temporary_seq(s: Seq<Ty>)
    ensures
        spec_infer_temporary_seq(s).len() == s.len(),
        forall|k: int|
            0 <= k < s.len() ==> #[trigger] spec_infer_temporary_seq(s)[k] == spec_infer_temporary(
                s[k],
            ),
    decreases s.len(),
{
    if s.len() > 0 {
        lemma_spec_infer_temporary_seq(s.drop_first());
    }
}

/// Pointwise characterization of `spec_infer_temporary_fields`.
pub proof fn lemma_spec_infer_temporary_fields(m: Seq<(Seq<char>, Ty)>)
    ensures
        spec_infer_temporary_fields(m).len() == m.len(),
        forall|k: int|
            0 <= k < m.len() ==> #[trigger] spec_infer_temporary_fields(m)[k] == (
                m[k].0,
                spec_infer_temporary(m[k].1),
            ),
    decreases m.len(),
{
    if m.len() > 0 {
        lemma_spec_infer_temporary_fields(m.drop_first());
    }
}

} // verus!
