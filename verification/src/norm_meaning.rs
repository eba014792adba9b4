//! Normalization preserves meaning: a well-formed type and its normal form
//! are subtypes of each other.
//!
//! The law is stated for well-formed types in which no union normalizes to
//! bare `Unreachable`: a union such as `Or([Unreachable])` collapses to
//! `Unreachable`, which the union itself is not a subtype of, so such inputs
//! are left out.

use vstd::prelude::*;

use crate::model::{fields_contains, fields_get, lemma_fields_first_match, Ty};
use crate::normalize::{
    canonical_or_items, dedup_sorted, drop_unreachable, expand_or, flatten_ors, normalize_fields,
    normalize_seq, normalize_ty, sort_tys,
};
use crate::norm_laws::{
    is_normal, lemma_all_components_iff, lemma_dedup_props, lemma_drop_unreachable_props,
    lemma_flatten_contains, lemma_normalize_fields_elems, lemma_normalize_normal,
    lemma_normalize_seq_elems, lemma_sort_props, lemma_strictly_sorted_global,
};
use crate::order::lemma_cmp_chars_basic;
use crate::subtype::{
    all_subtype, any_subtype, fields_sorted, is_subtype, lemma_all_subtype_iff,
    lemma_any_subtype_iff, lemma_subtype_of_or_member, ty_wf,
};

verus! {

/// In every union of the value, the union does not normalize to bare
/// `Unreachable`.
pub open spec fn collapse_free(t: Ty) -> bool
    decreases t,
{
    match t {
        Ty::Infer => true,
        Ty::Unreachable => true,
        Ty::GenericsTypeArgument(_) => true,
        Ty::Named { path, generics_arguments } => forall|k: int|
            0 <= k < generics_arguments.len() ==> collapse_free(#[trigger] generics_arguments[k]),
        Ty::Tuple(items) => forall|k: int|
            0 <= k < items.len() ==> collapse_free(#[trigger] items[k]),
        Ty::Array(item) => collapse_free(*item),
        Ty::Function { arguments, result } => collapse_free(*result) && forall|k: int|
            0 <= k < arguments.len() ==> collapse_free(#[trigger] arguments[k]),
        Ty::AnonymousStruct(members) => forall|k: int|
            0 <= k < members.len() ==> collapse_free((#[trigger] members[k]).1),
        Ty::Or(items) => normalize_ty(Ty::Or(items)) != Ty::Unreachable && forall|k: int|
            0 <= k < items.len() ==> collapse_free(#[trigger] items[k]),
    }
}

/// Only `Infer` and `Unreachable` itself are below `Unreachable`.
pub proof fn lemma_below_unreachable(x: Ty)
    requires
        is_subtype(x, Ty::Unreachable),
    ensures
        x == Ty::Infer || x == Ty::Unreachable,
{
}

/// A value below a union is below every union that holds all its
/// components.
pub proof fn lemma_or_absorb(t: Ty, items1: Seq<Ty>, items2: Seq<Ty>)
    requires
        is_subtype(t, Ty::Or(items1)),
        forall|i: int| 0 <= i < items1.len() ==> items2.contains(#[trigger] items1[i]),
    ensures
        is_subtype(t, Ty::Or(items2)),
    decreases t,
{
    match t {
        Ty::Infer => {},
        Ty::Unreachable => {},
        Ty::Or(inner) => {
            lemma_all_subtype_iff(inner, Ty::Or(items1));
            assert forall|j: int| 0 <= j < inner.len() implies is_subtype(
                #[trigger] inner[j],
                Ty::Or(items2),
            ) by {
                assert(is_subtype(inner[j], Ty::Or(items1)));
                lemma_or_absorb(inner[j], items1, items2);
            }
            lemma_all_subtype_iff(inner, Ty::Or(items2));
        },
        _ => {
            lemma_any_subtype_iff(t, items1);
            let k = choose|k: int| 0 <= k < items1.len() && is_subtype(t, #[trigger] items1[k]);
            assert(items2.contains(items1[k]));
            let j = choose|j: int| 0 <= j < items2.len() && items2[j] == items1[k];
            lemma_subtype_of_or_member(t, items2, j);
        },
    }
}

/// A value below a union whose components are all the same value `x`, with
/// `x` not `Unreachable`, is below `x` itself.
pub proof fn lemma_or_all_eq(t: Ty, inner: Seq<Ty>, x: Ty)
    requires
        is_subtype(t, Ty::Or(inner)),
        forall|i: int| 0 <= i < inner.len() ==> #[trigger] inner[i] == x,
        !(x is Unreachable),
    ensures
        is_subtype(t, x),
    decreases t,
{
    match t {
        Ty::Infer => {},
        Ty::Unreachable => {},
        Ty::Or(ys) => {
            lemma_all_subtype_iff(ys, Ty::Or(inner));
            assert forall|j: int| 0 <= j < ys.len() implies is_subtype(#[trigger] ys[j], x) by {
                assert(is_subtype(ys[j], Ty::Or(inner)));
                lemma_or_all_eq(ys[j], inner, x);
            }
            lemma_all_subtype_iff(ys, x);
            if x is Infer {
            } else {
                assert(is_subtype(Ty::Or(ys), x));
            }
        },
        _ => {
            lemma_any_subtype_iff(t, inner);
            let k = choose|k: int| 0 <= k < inner.len() && is_subtype(t, #[trigger] inner[k]);
            assert(inner[k] == x);
        },
    }
}

/// In a name-sorted member sequence, lookup of the k-th name finds the k-th
/// member.
pub proof fn lemma_sorted_fields_get(m: Seq<(Seq<char>, Ty)>, k: int)
    requires
        fields_sorted(m),
        0 <= k < m.len(),
    ensures
        fields_contains(m, m[k].0),
        fields_get(m, m[k].0) == m[k].1,
{
    assert forall|j: int| 0 <= j < k implies (#[trigger] m[j]).0 != m[k].0 by {
        lemma_cmp_chars_basic(m[j].0, m[k].0);
    }
    lemma_fields_first_match(m, m[k].0, k);
}

/// Membership in the canonical component list: every member comes from the
/// flattened input, and every non-`Unreachable` member of the flattened
/// input is kept.
pub proof fn lemma_canonical_contains(s: Seq<Ty>)
    ensures
        forall|y: Ty| #[trigger] canonical_or_items(s).contains(y) ==> flatten_ors(s).contains(y),
        forall|y: Ty|
            #[trigger] flatten_ors(s).contains(y) && y != Ty::Unreachable ==> canonical_or_items(
                s,
            ).contains(y),
{
    let flat = flatten_ors(s);
    let sorted = sort_tys(flat);
    let dd = dedup_sorted(sorted);
    lemma_sort_props(flat);
    lemma_dedup_props(sorted);
    if dd.len() > 1 {
        lemma_strictly_sorted_global(dd);
        lemma_drop_unreachable_props(dd);
    }
}

/// Normalization preserves meaning: for a well-formed, collapse-free type,
/// the normal form and the original are subtypes of each other.
pub proof fn lemma_normalize_preserves_meaning(t: Ty)
    requires
        ty_wf(t),
        collapse_free(t),
    ensures
        is_subtype(normalize_ty(t), t),
        is_subtype(t, normalize_ty(t)),
    decreases t,
{
    match t {
        Ty::Named { path, generics_arguments } => {
            let g = generics_arguments;
            let ns = normalize_seq(g);
            lemma_normalize_seq_elems(g);
            assert forall|k: int| 0 <= k < g.len() implies is_subtype(#[trigger] ns[k], g[k])
                && is_subtype(g[k], ns[k]) by {
                lemma_normalize_preserves_meaning(g[k]);
            }
            assert forall|k: int| 0 <= k < g.len() implies is_subtype(#[trigger] g[k], ns[k]) by {}
        },
        Ty::Tuple(items) => {
            let ns = normalize_seq(items);
            lemma_normalize_seq_elems(items);
            assert forall|k: int| 0 <= k < items.len() implies is_subtype(
                #[trigger] ns[k],
                items[k],
            ) && is_subtype(items[k], ns[k]) by {
                lemma_normalize_preserves_meaning(items[k]);
            }
            assert forall|k: int| 0 <= k < items.len() implies is_subtype(
                #[trigger] items[k],
                ns[k],
            ) by {}
        },
        Ty::Array(item) => {
            lemma_normalize_preserves_meaning(*item);
        },
        Ty::Function { arguments, result } => {
            let ns = normalize_seq(arguments);
            lemma_normalize_seq_elems(arguments);
            lemma_normalize_preserves_meaning(*result);
            assert forall|k: int| 0 <= k < arguments.len() implies is_subtype(
                #[trigger] ns[k],
                arguments[k],
            ) && is_subtype(arguments[k], ns[k]) by {
                lemma_normalize_preserves_meaning(arguments[k]);
            }
            assert forall|k: int| 0 <= k < arguments.len() implies is_subtype(
                #[trigger] arguments[k],
                ns[k],
            ) by {}
        },
        Ty::AnonymousStruct(members) => {
            let nm = normalize_fields(members);
            lemma_normalize_fields_elems(members);
            assert(fields_sorted(nm)) by {
                assert forall|i: int, j: int| 0 <= i < j < nm.len() implies crate::order::cmp_chars(
                    (#[trigger] nm[i]).0,
                    (#[trigger] nm[j]).0,
                ) < 0 by {
                    assert(nm[i].0 == members[i].0);
                    assert(nm[j].0 == members[j].0);
                }
            }
            assert forall|k: int| 0 <= k < members.len() implies fields_contains(
                nm,
                (#[trigger] members[k]).0,
            ) && is_subtype(fields_get(nm, members[k].0), members[k].1) by {
                assert(nm[k].0 == members[k].0);
                lemma_sorted_fields_get(nm, k);
                lemma_normalize_preserves_meaning(members[k].1);
            }
            assert forall|k: int| 0 <= k < nm.len() implies fields_contains(
                members,
                (#[trigger] nm[k]).0,
            ) && is_subtype(fields_get(members, nm[k].0), nm[k].1) by {
                assert(nm[k].0 == members[k].0);
                lemma_sorted_fields_get(members, k);
                lemma_normalize_preserves_meaning(members[k].1);
            }
        },
        Ty::Or(items) => {
            let ns = normalize_seq(items);
            let flat = flatten_ors(ns);
            let kept = canonical_or_items(ns);
            let result = normalize_ty(t);
            lemma_normalize_seq_elems(items);
            lemma_flatten_contains(ns);
            lemma_canonical_contains(ns);
            assert forall|k: int| 0 <= k < items.len() implies (is_subtype(
                #[trigger] ns[k],
                items[k],
            ) && is_subtype(items[k], ns[k]) && is_normal(ns[k])) by {
                lemma_normalize_preserves_meaning(items[k]);
                lemma_normalize_normal(items[k]);
            }
            // Every canonical component is below the original union.
            assert forall|j: int| 0 <= j < kept.len() implies is_subtype(
                #[trigger] kept[j],
                Ty::Or(items),
            ) by {
                let y = kept[j];
                assert(kept.contains(y));
                assert(flat.contains(y));
                let k = choose|k: int|
                    0 <= k < ns.len() && (#[trigger] expand_or(ns[k])).contains(y);
                match ns[k] {
                    Ty::Or(inner) => {
                        let i = choose|i: int| 0 <= i < inner.len() && inner[i] == y;
                        if items[k] is Infer {
                            assert(is_subtype(y, items[k]));
                        } else if items[k] is Unreachable {
                            assert(!is_subtype(Ty::Or(inner), items[k]));
                            assert(false);
                        } else {
                            lemma_all_subtype_iff(inner, items[k]);
                            assert(is_subtype(y, items[k]));
                        }
                        lemma_subtype_of_or_member(y, items, k);
                    },
                    _ => {
                        let i = choose|i: int|
                            0 <= i < expand_or(ns[k]).len() && expand_or(ns[k])[i] == y;
                        assert(y == ns[k]);
                        lemma_subtype_of_or_member(y, items, k);
                    },
                }
            }
            if kept.len() == 1 {
                assert(result == kept[0]);
                assert(is_subtype(result, Ty::Or(items)));
            } else {
                lemma_all_subtype_iff(kept, Ty::Or(items));
                assert(is_subtype(Ty::Or(kept), Ty::Or(items)));
            }
            // Every original component is below the normal form.
            assert(result != Ty::Unreachable);
            assert forall|k: int| 0 <= k < items.len() implies is_subtype(
                #[trigger] items[k],
                result,
            ) by {
                let x = items[k];
                assert(is_subtype(x, ns[k]));
                match ns[k] {
                    Ty::Unreachable => {
                        lemma_below_unreachable(x);
                        assert(is_subtype(x, result));
                    },
                    Ty::Or(inner) => {
                        assert(is_normal(Ty::Or(inner)));
                        lemma_all_components_iff(inner);
                        assert forall|i: int| 0 <= i < inner.len() implies kept.contains(
                            #[trigger] inner[i],
                        ) by {
                            assert(inner.len() != 1);
                            assert(inner[i] != Ty::Unreachable);
                            assert(expand_or(ns[k]).contains(inner[i]));
                            assert(flat.contains(inner[i]));
                        }
                        if kept.len() == 1 {
                            assert forall|i: int| 0 <= i < inner.len() implies #[trigger] inner[i]
                                == kept[0] by {
                                let j = choose|j: int| 0 <= j < kept.len() && kept[j] == inner[i];
                            }
                            assert(result == kept[0]);
                            lemma_or_all_eq(x, inner, kept[0]);
                        } else {
                            lemma_or_absorb(x, inner, kept);
                        }
                    },
                    _ => {
                        assert(expand_or(ns[k])[0] == ns[k]);
                        assert(expand_or(ns[k]).contains(ns[k]));
                        assert(flat.contains(ns[k]));
                        assert(ns[k] != Ty::Unreachable);
                        assert(kept.contains(ns[k]));
                        let j = choose|j: int| 0 <= j < kept.len() && kept[j] == ns[k];
                        if kept.len() == 1 {
                            assert(result == kept[0]);
                            assert(kept[0] == ns[k]);
                            assert(is_subtype(x, result));
                        } else {
                            lemma_subtype_of_or_member(x, kept, j);
                        }
                    },
                }
            }
            if kept.len() == 1 {
                lemma_all_subtype_iff(items, result);
                if result is Infer {
                    assert(is_subtype(Ty::Or(items), result));
                } else {
                    assert(is_subtype(Ty::Or(items), result));
                }
            } else {
                lemma_all_subtype_iff(items, Ty::Or(kept));
                assert(is_subtype(Ty::Or(items), Ty::Or(kept)));
            }
        },
        _ => {},
    }
}

} // verus!