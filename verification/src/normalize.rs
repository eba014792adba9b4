//! Normalization of type values.
//!
//! Normalization canonicalizes unions: children are normalized first, nested
//! unions are flattened, the components are sorted in the stable total order
//! and deduplicated, `Unreachable` components are dropped from unions of two
//! or more components, and a singleton union collapses to its component.
//! All other composites normalize their children in place.

use vstd::prelude::*;

use crate::model::Ty;
use crate::order::{cmp_ty, lemma_cmp_ty_basic};
use crate::types::{
    fields_model, lemma_fields_model, lemma_fields_model_concat, lemma_fields_model_single,
    lemma_types_model, lemma_types_model_concat, lemma_types_model_single, type_model, types_model,
    HIRType,
};

verus! {

/// A union component as a list: the components of a nested union, the value
/// itself otherwise.
pub open spec fn expand_or(t: Ty) -> Seq<Ty> {
    match t {
        Ty::Or(inner) => inner,
        _ => seq![t],
    }
}

/// Flattening of nested unions, preserving order.
pub open spec fn flatten_ors(s: Seq<Ty>) -> Seq<Ty>
    decreases s.len(),
{
    if s.len() == 0 {
        Seq::empty()
    } else {
        expand_or(s[0]) + flatten_ors(s.drop_first())
    }
}

/// Insertion of a value into a sorted sequence, before equals.
pub open spec fn insert_sorted(x: Ty, s: Seq<Ty>) -> Seq<Ty>
    decreases s.len(),
{
    if s.len() == 0 {
        seq![x]
    } else if cmp_ty(x, s[0]) <= 0 {
        seq![x] + s
    } else {
        seq![s[0]] + insert_sorted(x, s.drop_first())
    }
}

/// Insertion sort in the stable total order.
pub open spec fn sort_tys(s: Seq<Ty>) -> Seq<Ty>
    decreases s.len(),
{
    if s.len() == 0 {
        Seq::empty()
    } else {
        insert_sorted(s[0], sort_tys(s.drop_first()))
    }
}

/// Removal of adjacent duplicates.
pub open spec fn dedup_sorted(s: Seq<Ty>) -> Seq<Ty>
    decreases s.len(),
{
    if s.len() <= 1 {
        s
    } else if s[0] == s[1] {
        dedup_sorted(s.drop_first())
    } else {
        seq![s[0]] + dedup_sorted(s.drop_first())
    }
}

/// Removal of `Unreachable` components.
pub open spec fn drop_unreachable(s: Seq<Ty>) -> Seq<Ty>
    decreases s.len(),
{
    if s.len() == 0 {
        Seq::empty()
    } else if s[0] == Ty::Unreachable {
        drop_unreachable(s.drop_first())
    } else {
        seq![s[0]] + drop_unreachable(s.drop_first())
    }
}

/// The canonical component list of a union whose children are already
/// normalized: flattened, sorted, deduplicated, and with `Unreachable`
/// dropped whenever two or more components remain.
pub open spec fn canonical_or_items(s: Seq<Ty>) -> Seq<Ty> {
    let processed = dedup_sorted(sort_tys(flatten_ors(s)));
    if processed.len() > 1 {
        drop_unreachable(processed)
    } else {
        processed
    }
}

/// Normalization of a model value.
pub open spec fn normalize_ty(t: Ty) -> Ty
    decreases t,
{
    match t {
        Ty::Infer => t,
        Ty::Unreachable => t,
        Ty::GenericsTypeArgument(_) => t,
        Ty::Named { path, generics_arguments } => Ty::Named {
            path,
            generics_arguments: normalize_seq(generics_arguments),
        },
        Ty::Tuple(items) => Ty::Tuple(normalize_seq(items)),
        Ty::Array(item) => Ty::Array(Box::new(normalize_ty(*item))),
        Ty::Function { arguments, result } => Ty::Function {
            arguments: normalize_seq(arguments),
            result: Box::new(normalize_ty(*result)),
        },
        Ty::AnonymousStruct(members) => Ty::AnonymousStruct(normalize_fields(members)),
        Ty::Or(items) => {
            let kept = canonical_or_items(normalize_seq(items));
            if kept.len() == 1 {
                kept[0]
            } else {
                Ty::Or(kept)
            }
        },
    }
}

/// Normalization of each element of a sequence.
pub open spec fn normalize_seq(s: Seq<Ty>) -> Seq<Ty>
    decreases s,
{
    if s.len() == 0 {
        Seq::empty()
    } else {
        seq![normalize_ty(s[0])] + normalize_seq(s.drop_first())
    }
}

/// Normalization of each member type, names unchanged.
pub open spec fn normalize_fields(m: Seq<(Seq<char>, Ty)>) -> Seq<(Seq<char>, Ty)>
    decreases m,
{
    if m.len() == 0 {
        Seq::empty()
    } else {
        seq![(m[0].0, normalize_ty(m[0].1))] + normalize_fields(m.drop_first())
    }
}

/// Builds the vector `[x] + rest`.
fn cons_vec(x: HIRType, rest: Vec<HIRType>) -> (r: Vec<HIRType>)
    ensures
        types_model(r@) == seq![type_model(x)] + types_model(rest@),
        r@.len() == 1 + rest@.len(),
{
    let ghost restm = rest@;
    let mut out = Vec::new();
    out.push(x);
    let mut rest = rest;
    out.append(&mut rest);
    proof {
        assert(out@ =~= seq![out@[0]] + restm);
        lemma_types_model_concat(seq![out@[0]], restm);
        lemma_types_model_single(out@[0]);
    }
    out
}

/// Takes the first element of a non-empty vector, leaving the rest.
fn take_head(v: &mut Vec<HIRType>) -> (x: HIRType)
    requires
        old(v)@.len() > 0,
    ensures
        x == old(v)@[0],
        final(v)@ == old(v)@.drop_first(),
        types_model(old(v)@) == seq![type_model(x)] + types_model(final(v)@),
{
    let x = v.remove(0);
    proof {
        assert(v@ =~= old(v)@.drop_first());
    }
    x
}

/// Flattens nested unions of a component vector.
fn flatten_vec(v: Vec<HIRType>) -> (r: Vec<HIRType>)
    ensures
        types_model(r@) == flatten_ors(types_model(v@)),
    decreases v@,
{
    let mut v = v;
    let ghost origm = types_model(v@);
    proof {
        lemma_types_model(v@);
    }
    if v.len() == 0 {
        return v;
    }
    let x = take_head(&mut v);
    proof {
        assert(origm.drop_first() =~= types_model(v@));
        assert(origm[0] == type_model(x));
    }
    let mut rest = flatten_vec(v);
    match x {
        HIRType::Or(mut inner) => {
            let ghost innerm = types_model(inner@);
            let ghost restm = types_model(rest@);
            let ghost inner_seq = inner@;
            let ghost rest_seq = rest@;
            inner.append(&mut rest);
            proof {
                assert(inner@ =~= inner_seq + rest_seq);
                lemma_types_model_concat(inner_seq, rest_seq);
                assert(expand_or(origm[0]) == innerm);
            }
            inner
        },
        other => {
            let ghost otherm = type_model(other);
            let r = cons_vec(other, rest);
            proof {
                assert(expand_or(origm[0]) =~= seq![otherm]);
            }
            r
        },
    }
}

/// Inserts a value into a vector sorted in the total order.
fn insert_vec(x: HIRType, v: Vec<HIRType>) -> (r: Vec<HIRType>)
    ensures
        types_model(r@) == insert_sorted(type_model(x), types_model(v@)),
    decreases v@,
{
    let mut v = v;
    let ghost xm = type_model(x);
    let ghost origm = types_model(v@);
    let ghost orig_seq = v@;
    proof {
        lemma_types_model(v@);
    }
    if v.len() == 0 {
        let mut out = Vec::new();
        out.push(x);
        proof {
            assert(out@ =~= seq![x]);
            lemma_types_model_single(x);
        }
        return out;
    }
    let c = x.compare(&v[0]);
    if c <= 0 {
        let mut out = Vec::new();
        out.push(x);
        out.append(&mut v);
        proof {
            assert(out@ =~= seq![out@[0]] + orig_seq);
            lemma_types_model_concat(seq![out@[0]], orig_seq);
            lemma_types_model_single(out@[0]);
            assert(insert_sorted(xm, origm) == seq![xm] + origm);
        }
        return out;
    }
    let head = take_head(&mut v);
    proof {
        assert(origm.drop_first() =~= types_model(v@));
        assert(origm[0] == type_model(head));
    }
    let rest = insert_vec(x, v);
    cons_vec(head, rest)
}

/// Sorts a component vector in the total order.
fn sort_vec(v: Vec<HIRType>) -> (r: Vec<HIRType>)
    ensures
        types_model(r@) == sort_tys(types_model(v@)),
    decreases v@,
{
    let mut v = v;
    let ghost origm = types_model(v@);
    proof {
        lemma_types_model(v@);
    }
    if v.len() == 0 {
        return v;
    }
    let x = take_head(&mut v);
    proof {
        assert(origm.drop_first() =~= types_model(v@));
        assert(origm[0] == type_model(x));
    }
    let rest = sort_vec(v);
    insert_vec(x, rest)
}

/// Removes adjacent duplicate components.
fn dedup_vec(v: Vec<HIRType>) -> (r: Vec<HIRType>)
    ensures
        types_model(r@) == dedup_sorted(types_model(v@)),
    decreases v@,
{
    let mut v = v;
    let ghost origm = types_model(v@);
    proof {
        lemma_types_model(v@);
    }
    if v.len() <= 1 {
        return v;
    }
    let c = v[0].compare(&v[1]);
    proof {
        lemma_cmp_ty_basic(origm[0], origm[1]);
    }
    let x = take_head(&mut v);
    proof {
        assert(origm.drop_first() =~= types_model(v@));
        assert(origm[0] == type_model(x));
        lemma_types_model(v@);
        assert(origm[1] == types_model(v@)[0]);
    }
    if c == 0 {
        dedup_vec(v)
    } else {
        let rest = dedup_vec(v);
        cons_vec(x, rest)
    }
}

/// Removes `Unreachable` components.
fn drop_unreachable_vec(v: Vec<HIRType>) -> (r: Vec<HIRType>)
    ensures
        types_model(r@) == drop_unreachable(types_model(v@)),
    decreases v@,
{
    let mut v = v;
    let ghost origm = types_model(v@);
    proof {
        lemma_types_model(v@);
    }
    if v.len() == 0 {
        return v;
    }
    let x = take_head(&mut v);
    proof {
        assert(origm.drop_first() =~= types_model(v@));
        assert(origm[0] == type_model(x));
    }
    let rest = drop_unreachable_vec(v);
    match x {
        HIRType::Unreachable => rest,
        other => cons_vec(other, rest),
    }
}

/// Normalizes each element of a component vector.
fn normalize_vec(v: Vec<HIRType>) -> (r: Vec<HIRType>)
    ensures
        types_model(r@) == normalize_seq(types_model(v@)),
    decreases v@,
{
    let mut v = v;
    let ghost origm = types_model(v@);
    proof {
        lemma_types_model(v@);
    }
    if v.len() == 0 {
        return v;
    }
    let x = take_head(&mut v);
    proof {
        assert(origm.drop_first() =~= types_model(v@));
        assert(origm[0] == type_model(x));
    }
    let xn = x.into_normalized();
    let rest = normalize_vec(v);
    cons_vec(xn, rest)
}

/// Normalizes each member type of a member vector.
fn normalize_fields_vec(v: Vec<(String, HIRType)>) -> (r: Vec<(String, HIRType)>)
    ensures
        fields_model(r@) == normalize_fields(fields_model(v@)),
    decreases v@,
{
    let mut v = v;
    let ghost origm = fields_model(v@);
    let ghost orig_seq = v@;
    proof {
        lemma_fields_model(v@);
    }
    if v.len() == 0 {
        return v;
    }
    let (name, x) = v.remove(0);
    proof {
        assert(v@ =~= orig_seq.drop_first());
        assert(origm.drop_first() =~= fields_model(v@));
        assert(origm[0] == (name@, type_model(x)));
    }
    let xn = x.into_normalized();
    let rest = normalize_fields_vec(v);
    let ghost restm = fields_model(rest@);
    let ghost rest_seq = rest@;
    let mut out = Vec::new();
    out.push((name, xn));
    let mut rest = rest;
    out.append(&mut rest);
    proof {
        assert(out@ =~= seq![out@[0]] + rest_seq);
        lemma_fields_model_concat(seq![out@[0]], rest_seq);
        lemma_fields_model_single(out@[0]);
    }
    out
}

impl HIRType {
    /// Returns the normalized form of this type.
    pub fn into_normalized(self) -> (r: HIRType)
        ensures
            r@ == normalize_ty(self@),
        decreases self,
    {
        match self {
            HIRType::Infer => HIRType::Infer,
            HIRType::Unreachable => HIRType::Unreachable,
            HIRType::GenericsTypeArgument(i) => HIRType::GenericsTypeArgument(i),
            HIRType::Named { path, generics_arguments } => HIRType::Named {
                path,
                generics_arguments: normalize_vec(generics_arguments),
            },
            HIRType::Tuple(items) => HIRType::Tuple(normalize_vec(items)),
            HIRType::Array(item) => HIRType::Array(Box::new((*item).into_normalized())),
            HIRType::Function { arguments, result } => HIRType::Function {
                arguments: normalize_vec(arguments),
                result: Box::new((*result).into_normalized()),
            },
            HIRType::AnonymousStruct(members) => HIRType::AnonymousStruct(
                normalize_fields_vec(members),
            ),
            HIRType::Or(items) => {
                let ghost origm = types_model(items@);
                let items = normalize_vec(items);
                let items = flatten_vec(items);
                let items = sort_vec(items);
                let mut items = dedup_vec(items);
                proof {
                    assert(types_model(items@) == dedup_sorted(
                        sort_tys(flatten_ors(normalize_seq(origm))),
                    ));
                    lemma_types_model(items@);
                }
                if items.len() > 1 {
                    items = drop_unreachable_vec(items);
                }
                let ghost keptm = types_model(items@);
                proof {
                    lemma_types_model(items@);
                    assert(keptm == canonical_or_items(normalize_seq(origm)));
                }
                if items.len() == 1 {
                    match items.pop() {
                        Some(single) => {
                            proof {
                                assert(type_model(single) == keptm[0]);
                            }
                            single
                        },
                        None => HIRType::Or(items),
                    }
                } else {
                    HIRType::Or(items)
                }
            },
        }
    }

    /// Normalizes this type in place.
    pub fn normalize(&mut self)
        ensures
            final(self)@ == normalize_ty(old(self)@),
    {
        let mut taken = HIRType::Infer;
        core::mem::swap(self, &mut taken);
        let normalized = taken.into_normalized();
        *self = normalized;
    }
}

} // verus!
