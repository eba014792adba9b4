//! Laws of normalization: the normal form, and idempotence.

use vstd::prelude::*;

use crate::model::Ty;
use crate::normalize::{
    canonical_or_items, dedup_sorted, drop_unreachable, expand_or, flatten_ors, insert_sorted,
    normalize_fields, normalize_seq, normalize_ty, sort_tys,
};
use crate::order::{cmp_ty, lemma_cmp_ty_basic, lemma_cmp_ty_trans};

verus! {

/// Adjacent pairs are ordered.
pub open spec fn sorted_tys(s: Seq<Ty>) -> bool {
    forall|i: int| 0 <= i < s.len() - 1 ==> cmp_ty(#[trigger] s[i], s[i + 1]) <= 0
}

/// Adjacent pairs are strictly ordered: sorted with no duplicates.
pub open spec fn strictly_sorted_tys(s: Seq<Ty>) -> bool {
    forall|i: int| 0 <= i < s.len() - 1 ==> cmp_ty(#[trigger] s[i], s[i + 1]) < 0
}

/// The tail of an adjacently sorted sequence is adjacently sorted.
pub proof fn lemma_sorted_tail(s: Seq<Ty>)
    requires
        sorted_tys(s),
        s.len() > 0,
    ensures
        sorted_tys(s.drop_first()),
{
    assert forall|i: int| 0 <= i < s.drop_first().len() - 1 implies cmp_ty(
        #[trigger] s.drop_first()[i],
        s.drop_first()[i + 1],
    ) <= 0 by {
        assert(s.drop_first()[i] == s[i + 1]);
        assert(s.drop_first()[i + 1] == s[i + 2]);
    }
}

/// An adjacently sorted sequence is globally sorted.
pub proof fn lemma_sorted_global(s: Seq<Ty>)
    requires
        sorted_tys(s),
    ensures
        forall|i: int, j: int| 0 <= i < j < s.len() ==> cmp_ty(#[trigger] s[i], #[trigger] s[j])
            <= 0,
    decreases s.len(),
{
    if s.len() > 1 {
        lemma_sorted_tail(s);
        lemma_sorted_global(s.drop_first());
        assert forall|j: int| 1 <= j < s.len() implies cmp_ty(s[0], #[trigger] s[j]) <= 0 by {
            if j > 1 {
                assert(s.drop_first()[0] == s[1]);
                assert(s.drop_first()[j - 1] == s[j]);
                assert(cmp_ty(s[1], s[j]) <= 0);
                lemma_cmp_ty_trans(s[0], s[1], s[j]);
            }
        }
        assert forall|i: int, j: int| 0 <= i < j < s.len() implies cmp_ty(
            #[trigger] s[i],
            #[trigger] s[j],
        ) <= 0 by {
            if i > 0 {
                assert(s.drop_first()[i - 1] == s[i]);
                assert(s.drop_first()[j - 1] == s[j]);
            } else {
                assert(cmp_ty(s[0], s[j]) <= 0);
            }
        }
    }
}

/// A strictly adjacently sorted sequence is globally strictly sorted.
pub proof fn lemma_strictly_sorted_global(s: Seq<Ty>)
    requires
        strictly_sorted_tys(s),
    ensures
        forall|i: int, j: int| 0 <= i < j < s.len() ==> cmp_ty(#[trigger] s[i], #[trigger] s[j])
            < 0,
{
    assert(sorted_tys(s)) by {
        assert forall|i: int| 0 <= i < s.len() - 1 implies cmp_ty(#[trigger] s[i], s[i + 1])
            <= 0 by {}
    }
    lemma_sorted_global(s);
    assert forall|i: int, j: int| 0 <= i < j < s.len() implies cmp_ty(
        #[trigger] s[i],
        #[trigger] s[j],
    ) < 0 by {
        if cmp_ty(s[i], s[j]) == 0 {
            lemma_cmp_ty_basic(s[i], s[j]);
            assert(s[i] == s[j]);
            assert(cmp_ty(s[i], s[i + 1]) < 0);
            if i + 1 < j {
                assert(cmp_ty(s[i + 1], s[j]) <= 0);
                lemma_cmp_ty_basic(s[i], s[i + 1]);
                lemma_cmp_ty_trans(s[j], s[i], s[i + 1]);
            }
            lemma_cmp_ty_basic(s[i], s[i]);
        }
    }
}

/// Membership in a concatenation.
pub proof fn lemma_contains_concat(a: Seq<Ty>, b: Seq<Ty>)
    ensures
        forall|y: Ty| #[trigger] (a + b).contains(y) <==> (a.contains(y) || b.contains(y)),
{
    assert forall|y: Ty| #[trigger] (a + b).contains(y) implies (a.contains(y) || b.contains(
        y,
    )) by {
        let i = choose|i: int| 0 <= i < (a + b).len() && (a + b)[i] == y;
        if i < a.len() {
            assert(a[i] == y);
        } else {
            assert(b[i - a.len()] == y);
        }
    }
    assert forall|y: Ty| (a.contains(y) || b.contains(y)) implies #[trigger] (a + b).contains(
        y,
    ) by {
        if a.contains(y) {
            let i = choose|i: int| 0 <= i < a.len() && a[i] == y;
            assert((a + b)[i] == y);
        } else {
            let i = choose|i: int| 0 <= i < b.len() && b[i] == y;
            assert((a + b)[a.len() + i] == y);
        }
    }
}

/// Insertion into a sorted sequence: the result is sorted, one longer, its
/// head is the inserted value or the old head, and it holds exactly the old
/// elements and the new one.
pub proof fn lemma_insert_sorted_props(x: Ty, s: Seq<Ty>)
    requires
        sorted_tys(s),
    ensures
        sorted_tys(insert_sorted(x, s)),
        insert_sorted(x, s).len() == s.len() + 1,
        insert_sorted(x, s)[0] == x || (s.len() > 0 && insert_sorted(x, s)[0] == s[0]),
        forall|y: Ty| #[trigger] insert_sorted(x, s).contains(y) <==> (y == x || s.contains(y)),
    decreases s.len(),
{
    lemma_cmp_ty_basic(x, x);
    if s.len() == 0 {
        assert forall|y: Ty| #[trigger] insert_sorted(x, s).contains(y) implies (y == x
            || s.contains(y)) by {
            let i = choose|i: int| 0 <= i < seq![x].len() && seq![x][i] == y;
        }
        assert(seq![x][0] == x);
        assert(insert_sorted(x, s).contains(x));
    } else if cmp_ty(x, s[0]) <= 0 {
        let r = seq![x] + s;
        assert(r[0] == x);
        assert forall|i: int| 0 <= i < r.len() - 1 implies cmp_ty(#[trigger] r[i], r[i + 1])
            <= 0 by {
            if i > 0 {
                assert(r[i] == s[i - 1]);
                assert(r[i + 1] == s[i]);
            }
        }
        lemma_contains_concat(seq![x], s);
        assert forall|y: Ty| #[trigger] r.contains(y) implies (y == x || s.contains(y)) by {
            if seq![x].contains(y) {
                let i = choose|i: int| 0 <= i < seq![x].len() && seq![x][i] == y;
            }
        }
        assert(seq![x][0] == x);
        assert(seq![x].contains(x));
    } else {
        lemma_cmp_ty_basic(x, s[0]);
        lemma_sorted_tail(s);
        lemma_insert_sorted_props(x, s.drop_first());
        let rest = insert_sorted(x, s.drop_first());
        let r = seq![s[0]] + rest;
        assert(r[0] == s[0]);
        assert forall|i: int| 0 <= i < r.len() - 1 implies cmp_ty(#[trigger] r[i], r[i + 1])
            <= 0 by {
            if i == 0 {
                assert(r[1] == rest[0]);
                if rest[0] == x {
                    assert(cmp_ty(s[0], x) <= 0);
                } else {
                    assert(rest[0] == s.drop_first()[0]);
                    assert(s.drop_first()[0] == s[1]);
                    assert(cmp_ty(s[0], s[1]) <= 0);
                }
            } else {
                assert(r[i] == rest[i - 1]);
                assert(r[i + 1] == rest[i]);
            }
        }
        lemma_contains_concat(seq![s[0]], rest);
        assert forall|y: Ty| #[trigger] r.contains(y) implies (y == x || s.contains(y)) by {
            if seq![s[0]].contains(y) {
                let i = choose|i: int| 0 <= i < seq![s[0]].len() && seq![s[0]][i] == y;
                assert(y == s[0]);
                assert(s.contains(s[0]));
            } else {
                assert(rest.contains(y));
                if y != x {
                    assert(s.drop_first().contains(y));
                    let i = choose|i: int|
                        0 <= i < s.drop_first().len() && s.drop_first()[i] == y;
                    assert(s[i + 1] == y);
                }
            }
        }
        assert forall|y: Ty| (y == x || s.contains(y)) implies #[trigger] r.contains(y) by {
            if y == x {
                assert(rest.contains(x));
            } else {
                let i = choose|i: int| 0 <= i < s.len() && s[i] == y;
                if i == 0 {
                    assert(seq![s[0]][0] == y);
                    assert(seq![s[0]].contains(y));
                } else {
                    assert(s.drop_first()[i - 1] == y);
                    assert(s.drop_first().contains(y));
                    assert(rest.contains(y));
                }
            }
        }
    }
}

/// An insertion sort result is sorted and holds exactly the input elements.
#[verifier::rlimit(60)]
pub proof fn lemma_sort_props(s: Seq<Ty>)
    ensures
        sorted_tys(sort_tys(s)),
        sort_tys(s).len() == s.len(),
        forall|y: Ty| #[trigger] sort_tys(s).contains(y) <==> s.contains(y),
    decreases s.len(),
{
    if s.len() > 0 {
        lemma_sort_props(s.drop_first());
        lemma_insert_sorted_props(s[0], sort_tys(s.drop_first()));
        assert forall|y: Ty| #[trigger] sort_tys(s).contains(y) implies s.contains(y) by {
            if y == s[0] {
                assert(s.contains(s[0]));
            } else {
                assert(sort_tys(s.drop_first()).contains(y));
                assert(s.drop_first().contains(y));
                let i = choose|i: int| 0 <= i < s.drop_first().len() && s.drop_first()[i] == y;
                assert(s[i + 1] == y);
            }
        }
        assert forall|y: Ty| s.contains(y) implies #[trigger] sort_tys(s).contains(y) by {
            let i = choose|i: int| 0 <= i < s.len() && s[i] == y;
            if i == 0 {
            } else {
                assert(s.drop_first()[i - 1] == y);
                assert(s.drop_first().contains(y));
            }
        }
    }
}

/// Deduplication of a sorted sequence: the result is strictly sorted, keeps
/// the same elements, keeps a non-empty sequence non-empty, and its head is
/// bounded by the old head.
#[verifier::rlimit(100)]
pub proof fn lemma_dedup_props(s: Seq<Ty>)
    requires
        sorted_tys(s),
    ensures
        strictly_sorted_tys(dedup_sorted(s)),
        s.len() == 0 ==> dedup_sorted(s).len() == 0,
        s.len() > 0 ==> dedup_sorted(s).len() > 0 && cmp_ty(s[0], dedup_sorted(s)[0]) <= 0,
        forall|y: Ty| #[trigger] dedup_sorted(s).contains(y) <==> s.contains(y),
    decreases s.len(),
{
    if s.len() == 1 {
        lemma_cmp_ty_basic(s[0], s[0]);
        assert(dedup_sorted(s) == s);
    } else if s.len() > 1 {
        lemma_sorted_tail(s);
        lemma_dedup_props(s.drop_first());
        let dd = dedup_sorted(s.drop_first());
        assert(s.drop_first()[0] == s[1]);
        if s[0] == s[1] {
            assert(dedup_sorted(s) == dd);
            assert(cmp_ty(s[1], dd[0]) <= 0);
            assert forall|y: Ty| #[trigger] dedup_sorted(s).contains(y) implies s.contains(y) by {
                assert(s.drop_first().contains(y));
                let i = choose|i: int| 0 <= i < s.drop_first().len() && s.drop_first()[i] == y;
                assert(s[i + 1] == y);
            }
            assert forall|y: Ty| s.contains(y) implies #[trigger] dedup_sorted(s).contains(y) by {
                let i = choose|i: int| 0 <= i < s.len() && s[i] == y;
                if i == 0 {
                    assert(s.drop_first()[0] == y);
                    assert(s.drop_first().contains(y));
                } else {
                    assert(s.drop_first()[i - 1] == y);
                    assert(s.drop_first().contains(y));
                }
            }
        } else {
            let r = seq![s[0]] + dd;
            assert(dedup_sorted(s) == r);
            assert(r[0] == s[0]);
            assert forall|i: int| 0 <= i < r.len() - 1 implies cmp_ty(#[trigger] r[i], r[i + 1])
                < 0 by {
                if i == 0 {
                    assert(r[1] == dd[0]);
                    assert(cmp_ty(s[1], dd[0]) <= 0);
                    lemma_cmp_ty_trans(s[0], s[1], dd[0]);
                    lemma_cmp_ty_basic(s[0], s[1]);
                    lemma_cmp_ty_basic(s[1], dd[0]);
                    lemma_cmp_ty_basic(s[0], dd[0]);
                    if cmp_ty(s[0], dd[0]) == 0 {
                        assert(s[0] == dd[0]);
                        assert(cmp_ty(s[0], s[1]) == 0);
                        assert(false);
                    }
                } else {
                    assert(r[i] == dd[i - 1]);
                    assert(r[i + 1] == dd[i]);
                }
            }
            lemma_cmp_ty_basic(s[0], s[0]);
            lemma_contains_concat(seq![s[0]], dd);
            assert forall|y: Ty| #[trigger] dedup_sorted(s).contains(y) implies s.contains(y) by {
                if seq![s[0]].contains(y) {
                    let i = choose|i: int| 0 <= i < 1 && seq![s[0]][i] == y;
                    assert(y == s[0]);
                    assert(s.contains(s[0]));
                } else {
                    assert(dd.contains(y));
                    assert(s.drop_first().contains(y));
                    let i = choose|i: int| 0 <= i < s.drop_first().len() && s.drop_first()[i] == y;
                    assert(s[i + 1] == y);
                }
            }
            assert forall|y: Ty| s.contains(y) implies #[trigger] dedup_sorted(s).contains(y) by {
                let i = choose|i: int| 0 <= i < s.len() && s[i] == y;
                if i == 0 {
                    assert(seq![s[0]][0] == y);
                    assert(seq![s[0]].contains(y));
                } else {
                    assert(s.drop_first()[i - 1] == y);
                    assert(s.drop_first().contains(y));
                    assert(dd.contains(y));
                }
            }
        }
    }
}

/// Removing `Unreachable` from a globally strictly sorted sequence keeps it
/// strictly sorted and keeps exactly the other elements.
pub proof fn lemma_drop_unreachable_props(s: Seq<Ty>)
    requires
        forall|i: int, j: int| 0 <= i < j < s.len() ==> cmp_ty(#[trigger] s[i], #[trigger] s[j])
            < 0,
    ensures
        strictly_sorted_tys(drop_unreachable(s)),
        forall|y: Ty| #[trigger] drop_unreachable(s).contains(y) <==> (s.contains(y) && y
            != Ty::Unreachable),
    decreases s.len(),
{
    if s.len() > 0 {
        assert(forall|i: int, j: int|
            0 <= i < j < s.drop_first().len() ==> cmp_ty(
                #[trigger] s.drop_first()[i],
                #[trigger] s.drop_first()[j],
            ) < 0) by {
            assert(forall|i: int|
                0 <= i < s.drop_first().len() ==> #[trigger] s.drop_first()[i] == s[i + 1]);
        }
        lemma_drop_unreachable_props(s.drop_first());
        let dr = drop_unreachable(s.drop_first());
        if s[0] == Ty::Unreachable {
            assert(drop_unreachable(s) == dr);
            assert forall|y: Ty| #[trigger] drop_unreachable(s).contains(y) implies (s.contains(y)
                && y != Ty::Unreachable) by {
                assert(s.drop_first().contains(y));
                let i = choose|i: int| 0 <= i < s.drop_first().len() && s.drop_first()[i] == y;
                assert(s[i + 1] == y);
            }
            assert forall|y: Ty| (s.contains(y) && y != Ty::Unreachable) implies #[trigger]
                drop_unreachable(s).contains(y) by {
                let i = choose|i: int| 0 <= i < s.len() && s[i] == y;
                assert(i > 0);
                assert(s.drop_first()[i - 1] == y);
                assert(s.drop_first().contains(y));
            }
        } else {
            let r = seq![s[0]] + dr;
            assert(drop_unreachable(s) == r);
            assert forall|i: int| 0 <= i < r.len() - 1 implies cmp_ty(#[trigger] r[i], r[i + 1])
                < 0 by {
                if i == 0 {
                    assert(r[1] == dr[0]);
                    assert(dr.contains(dr[0]));
                    assert(s.drop_first().contains(dr[0]));
                    let k = choose|k: int|
                        0 <= k < s.drop_first().len() && s.drop_first()[k] == dr[0];
                    assert(s[k + 1] == dr[0]);
                    assert(cmp_ty(s[0], s[k + 1]) < 0);
                } else {
                    assert(r[i] == dr[i - 1]);
                    assert(r[i + 1] == dr[i]);
                }
            }
            lemma_contains_concat(seq![s[0]], dr);
            assert forall|y: Ty| #[trigger] drop_unreachable(s).contains(y) implies (s.contains(y)
                && y != Ty::Unreachable) by {
                if seq![s[0]].contains(y) {
                    let i = choose|i: int| 0 <= i < 1 && seq![s[0]][i] == y;
                    assert(y == s[0]);
                    assert(s.contains(s[0]));
                } else {
                    assert(dr.contains(y));
                    assert(s.drop_first().contains(y));
                    let i = choose|i: int| 0 <= i < s.drop_first().len() && s.drop_first()[i] == y;
                    assert(s[i + 1] == y);
                }
            }
            assert forall|y: Ty| (s.contains(y) && y != Ty::Unreachable) implies #[trigger]
                drop_unreachable(s).contains(y) by {
                let i = choose|i: int| 0 <= i < s.len() && s[i] == y;
                if i == 0 {
                    assert(seq![s[0]][0] == y);
                    assert(seq![s[0]].contains(y));
                } else {
                    assert(s.drop_first()[i - 1] == y);
                    assert(s.drop_first().contains(y));
                    assert(dr.contains(y));
                }
            }
        }
    }
}

/// Membership in a flattened union list: exactly the members of the
/// components' expansions.
pub proof fn lemma_flatten_contains(s: Seq<Ty>)
    ensures
        forall|y: Ty| #[trigger] flatten_ors(s).contains(y) <==> exists|k: int|
            0 <= k < s.len() && (#[trigger] expand_or(s[k])).contains(y),
    decreases s.len(),
{
    if s.len() > 0 {
        lemma_flatten_contains(s.drop_first());
        lemma_contains_concat(expand_or(s[0]), flatten_ors(s.drop_first()));
        assert forall|y: Ty| #[trigger] flatten_ors(s).contains(y) implies exists|k: int|
            0 <= k < s.len() && (#[trigger] expand_or(s[k])).contains(y) by {
            if expand_or(s[0]).contains(y) {
                assert(0 <= 0 < s.len() && expand_or(s[0]).contains(y));
            } else {
                assert(flatten_ors(s.drop_first()).contains(y));
                let k = choose|k: int|
                    0 <= k < s.drop_first().len() && (#[trigger] expand_or(
                        s.drop_first()[k],
                    )).contains(y);
                assert(s.drop_first()[k] == s[k + 1]);
                assert(expand_or(s[k + 1]).contains(y));
            }
        }
        assert forall|y: Ty|
            (exists|k: int| 0 <= k < s.len() && (#[trigger] expand_or(s[k])).contains(y)) implies #[trigger]
            flatten_ors(s).contains(y) by {
            let k = choose|k: int| 0 <= k < s.len() && (#[trigger] expand_or(s[k])).contains(y);
            if k == 0 {
            } else {
                assert(s.drop_first()[k - 1] == s[k]);
                assert(expand_or(s.drop_first()[k - 1]).contains(y));
                assert(flatten_ors(s.drop_first()).contains(y));
            }
        }
    }
}

/// Flattening is the identity on a list without union components.
pub proof fn lemma_flatten_id(s: Seq<Ty>)
    requires
        forall|k: int| 0 <= k < s.len() ==> !((#[trigger] s[k]) is Or),
    ensures
        flatten_ors(s) == s,
    decreases s.len(),
{
    if s.len() > 0 {
        assert(forall|k: int|
            0 <= k < s.drop_first().len() ==> #[trigger] s.drop_first()[k] == s[k + 1]);
        lemma_flatten_id(s.drop_first());
        assert(expand_or(s[0]) =~= seq![s[0]]);
        assert(flatten_ors(s) =~= s);
    }
}

/// Sorting is the identity on a sorted sequence.
pub proof fn lemma_sort_id(s: Seq<Ty>)
    requires
        sorted_tys(s),
    ensures
        sort_tys(s) == s,
    decreases s.len(),
{
    if s.len() > 0 {
        lemma_sorted_tail(s);
        lemma_sort_id(s.drop_first());
        if s.len() == 1 {
            assert(sort_tys(s) =~= s);
        } else {
            assert(s.drop_first()[0] == s[1]);
            assert(cmp_ty(s[0], s[1]) <= 0);
            assert(sort_tys(s) == insert_sorted(s[0], s.drop_first()));
            assert(sort_tys(s) =~= s);
        }
    }
}

/// Deduplication is the identity on a strictly sorted sequence.
pub proof fn lemma_dedup_id(s: Seq<Ty>)
    requires
        strictly_sorted_tys(s),
    ensures
        dedup_sorted(s) == s,
    decreases s.len(),
{
    if s.len() > 1 {
        assert(forall|i: int|
            0 <= i < s.drop_first().len() ==> #[trigger] s.drop_first()[i] == s[i + 1]);
        lemma_dedup_id(s.drop_first());
        lemma_cmp_ty_basic(s[0], s[1]);
        assert(cmp_ty(s[0], s[1]) < 0);
        assert(s[0] != s[1]);
        assert(dedup_sorted(s) =~= s);
    }
}

/// Dropping `Unreachable` is the identity on a sequence without it.
pub proof fn lemma_drop_id(s: Seq<Ty>)
    requires
        forall|k: int| 0 <= k < s.len() ==> #[trigger] s[k] != Ty::Unreachable,
    ensures
        drop_unreachable(s) == s,
    decreases s.len(),
{
    if s.len() > 0 {
        assert(forall|k: int|
            0 <= k < s.drop_first().len() ==> #[trigger] s.drop_first()[k] == s[k + 1]);
        lemma_drop_id(s.drop_first());
        assert(drop_unreachable(s) =~= s);
    }
}

/// Pointwise characterization of sequence normalization.
pub proof fn lemma_normalize_seq_elems(s: Seq<Ty>)
    ensures
        normalize_seq(s).len() == s.len(),
        forall|k: int| 0 <= k < s.len() ==> #[trigger] normalize_seq(s)[k] == normalize_ty(s[k]),
    decreases s.len(),
{
    if s.len() > 0 {
        lemma_normalize_seq_elems(s.drop_first());
    }
}

/// Pointwise characterization of member-sequence normalization.
pub proof fn lemma_normalize_fields_elems(m: Seq<(Seq<char>, Ty)>)
    ensures
        normalize_fields(m).len() == m.len(),
        forall|k: int|
            0 <= k < m.len() ==> #[trigger] normalize_fields(m)[k] == (
                m[k].0,
                normalize_ty(m[k].1),
            ),
    decreases m.len(),
{
    if m.len() > 0 {
        lemma_normalize_fields_elems(m.drop_first());
    }
}

/// Every element of the list is normal.
pub open spec fn all_normal(s: Seq<Ty>) -> bool
    decreases s,
{
    s.len() == 0 || (is_normal(s[0]) && all_normal(s.drop_first()))
}

/// Every element of the list is normal and not itself a union.
pub open spec fn all_components(s: Seq<Ty>) -> bool
    decreases s,
{
    s.len() == 0 || (is_normal(s[0]) && !(s[0] is Or) && all_components(s.drop_first()))
}

/// Every member type of the list is normal.
pub open spec fn fields_all_normal(m: Seq<(Seq<char>, Ty)>) -> bool
    decreases m,
{
    m.len() == 0 || (is_normal(m[0].1) && fields_all_normal(m.drop_first()))
}

/// A value is normal when normalization can change nothing: children are
/// normal, and every union is flattened, strictly sorted, free of
/// `Unreachable` when it has two or more components, and not a singleton.
pub open spec fn is_normal(t: Ty) -> bool
    decreases t,
{
    match t {
        Ty::Infer => true,
        Ty::Unreachable => true,
        Ty::GenericsTypeArgument(_) => true,
        Ty::Named { path, generics_arguments } => all_normal(generics_arguments),
        Ty::Tuple(items) => all_normal(items),
        Ty::Array(item) => is_normal(*item),
        Ty::Function { arguments, result } => is_normal(*result) && all_normal(arguments),
        Ty::AnonymousStruct(members) => fields_all_normal(members),
        Ty::Or(items) => items.len() != 1 && strictly_sorted_tys(items) && (items.len() > 1
            ==> forall|k: int| 0 <= k < items.len() ==> #[trigger] items[k] != Ty::Unreachable)
            && all_components(items),
    }
}

/// `all_normal` holds exactly when every element is normal.
pub proof fn lemma_all_normal_iff(s: Seq<Ty>)
    ensures
        all_normal(s) <==> (forall|k: int| 0 <= k < s.len() ==> is_normal(#[trigger] s[k])),
    decreases s.len(),
{
    if s.len() > 0 {
        lemma_all_normal_iff(s.drop_first());
        assert(forall|k: int|
            0 <= k < s.drop_first().len() ==> #[trigger] s.drop_first()[k] == s[k + 1]);
        if all_normal(s) {
            assert forall|k: int| 0 <= k < s.len() implies is_normal(#[trigger] s[k]) by {
                if k > 0 {
                    assert(s.drop_first()[k - 1] == s[k]);
                }
            }
        }
        if forall|k: int| 0 <= k < s.len() ==> is_normal(#[trigger] s[k]) {
            assert(is_normal(s[0]));
            assert(all_normal(s.drop_first()));
        }
    }
}

/// `all_components` holds exactly when every element is normal and not a
/// union.
pub proof fn lemma_all_components_iff(s: Seq<Ty>)
    ensures
        all_components(s) <==> (forall|k: int|
            0 <= k < s.len() ==> is_normal(#[trigger] s[k]) && !(s[k] is Or)),
    decreases s.len(),
{
    if s.len() > 0 {
        lemma_all_components_iff(s.drop_first());
        assert(forall|k: int|
            0 <= k < s.drop_first().len() ==> #[trigger] s.drop_first()[k] == s[k + 1]);
        if all_components(s) {
            assert forall|k: int| 0 <= k < s.len() implies is_normal(#[trigger] s[k]) && !(s[k]
                is Or) by {
                if k > 0 {
                    assert(s.drop_first()[k - 1] == s[k]);
                }
            }
        }
        if forall|k: int| 0 <= k < s.len() ==> is_normal(#[trigger] s[k]) && !(s[k] is Or) {
            assert(is_normal(s[0]) && !(s[0] is Or));
            assert(all_components(s.drop_first()));
        }
    }
}

/// `fields_all_normal` holds exactly when every member type is normal.
pub proof fn lemma_fields_all_normal_iff(m: Seq<(Seq<char>, Ty)>)
    ensures
        fields_all_normal(m) <==> (forall|k: int|
            0 <= k < m.len() ==> is_normal((#[trigger] m[k]).1)),
    decreases m.len(),
{
    if m.len() > 0 {
        lemma_fields_all_normal_iff(m.drop_first());
        assert(forall|k: int|
            0 <= k < m.drop_first().len() ==> #[trigger] m.drop_first()[k] == m[k + 1]);
        if fields_all_normal(m) {
            assert forall|k: int| 0 <= k < m.len() implies is_normal((#[trigger] m[k]).1) by {
                if k > 0 {
                    assert(m.drop_first()[k - 1] == m[k]);
                }
            }
        }
        if forall|k: int| 0 <= k < m.len() ==> is_normal((#[trigger] m[k]).1) {
            assert(is_normal(m[0].1));
            assert(fields_all_normal(m.drop_first()));
        }
    }
}

/// Every element of a flattened list of normal values is normal and not a
/// union.
pub proof fn lemma_flatten_components(s: Seq<Ty>)
    requires
        forall|k: int| 0 <= k < s.len() ==> is_normal(#[trigger] s[k]),
    ensures
        forall|j: int|
            0 <= j < flatten_ors(s).len() ==> is_normal(#[trigger] flatten_ors(s)[j]) && !(
            flatten_ors(s)[j] is Or),
{
    lemma_flatten_contains(s);
    assert forall|j: int| 0 <= j < flatten_ors(s).len() implies is_normal(
        #[trigger] flatten_ors(s)[j],
    ) && !(flatten_ors(s)[j] is Or) by {
        let y = flatten_ors(s)[j];
        assert(flatten_ors(s).contains(y));
        let k = choose|k: int| 0 <= k < s.len() && (#[trigger] expand_or(s[k])).contains(y);
        match s[k] {
            Ty::Or(inner) => {
                lemma_all_components_iff(inner);
                let i = choose|i: int| 0 <= i < inner.len() && inner[i] == y;
            },
            _ => {
                let i = choose|i: int|
                    0 <= i < expand_or(s[k]).len() && expand_or(s[k])[i] == y;
                assert(y == s[k]);
            },
        }
    }
}

/// The canonical component list of a list of normal values: strictly
/// sorted, components normal and union-free, no `Unreachable` when two or
/// more components remain, and never exactly one `Unreachable`-free run.
pub proof fn lemma_canonical_props(s: Seq<Ty>)
    requires
        forall|k: int| 0 <= k < s.len() ==> is_normal(#[trigger] s[k]),
    ensures
        strictly_sorted_tys(canonical_or_items(s)),
        forall|j: int|
            0 <= j < canonical_or_items(s).len() ==> is_normal(#[trigger] canonical_or_items(s)[j])
                && !(canonical_or_items(s)[j] is Or),
        canonical_or_items(s).len() > 1 ==> forall|j: int|
            0 <= j < canonical_or_items(s).len() ==> #[trigger] canonical_or_items(s)[j]
                != Ty::Unreachable,
{
    let flat = flatten_ors(s);
    let sorted = sort_tys(flat);
    let dd = dedup_sorted(sorted);
    lemma_flatten_components(s);
    lemma_sort_props(flat);
    lemma_dedup_props(sorted);
    assert forall|j: int| 0 <= j < dd.len() implies is_normal(#[trigger] dd[j]) && !(dd[j]
        is Or) by {
        assert(dd.contains(dd[j]));
        assert(sorted.contains(dd[j]));
        assert(flat.contains(dd[j]));
        let i = choose|i: int| 0 <= i < flat.len() && flat[i] == dd[j];
    }
    if dd.len() > 1 {
        lemma_strictly_sorted_global(dd);
        lemma_drop_unreachable_props(dd);
        let kept = drop_unreachable(dd);
        assert forall|j: int| 0 <= j < kept.len() implies is_normal(#[trigger] kept[j]) && !(
        kept[j] is Or) && kept[j] != Ty::Unreachable by {
            assert(kept.contains(kept[j]));
            assert(dd.contains(kept[j]));
            let i = choose|i: int| 0 <= i < dd.len() && dd[i] == kept[j];
        }
    }
}

/// Normalization produces a normal value.
pub proof fn lemma_normalize_normal(t: Ty)
    ensures
        is_normal(normalize_ty(t)),
    decreases t,
{
    match t {
        Ty::Named { path, generics_arguments } => {
            lemma_normalize_seq_elems(generics_arguments);
            assert forall|k: int| 0 <= k < normalize_seq(generics_arguments).len() implies
                is_normal(#[trigger] normalize_seq(generics_arguments)[k]) by {
                lemma_normalize_normal(generics_arguments[k]);
            }
            lemma_all_normal_iff(normalize_seq(generics_arguments));
        },
        Ty::Tuple(items) => {
            lemma_normalize_seq_elems(items);
            assert forall|k: int| 0 <= k < normalize_seq(items).len() implies is_normal(
                #[trigger] normalize_seq(items)[k],
            ) by {
                lemma_normalize_normal(items[k]);
            }
            lemma_all_normal_iff(normalize_seq(items));
        },
        Ty::Array(item) => {
            lemma_normalize_normal(*item);
        },
        Ty::Function { arguments, result } => {
            lemma_normalize_normal(*result);
            lemma_normalize_seq_elems(arguments);
            assert forall|k: int| 0 <= k < normalize_seq(arguments).len() implies is_normal(
                #[trigger] normalize_seq(arguments)[k],
            ) by {
                lemma_normalize_normal(arguments[k]);
            }
            lemma_all_normal_iff(normalize_seq(arguments));
        },
        Ty::AnonymousStruct(members) => {
            lemma_normalize_fields_elems(members);
            assert forall|k: int| 0 <= k < normalize_fields(members).len() implies is_normal(
                (#[trigger] normalize_fields(members)[k]).1,
            ) by {
                lemma_normalize_normal(members[k].1);
            }
            lemma_fields_all_normal_iff(normalize_fields(members));
        },
        Ty::Or(items) => {
            let ns = normalize_seq(items);
            lemma_normalize_seq_elems(items);
            assert forall|k: int| 0 <= k < ns.len() implies is_normal(#[trigger] ns[k]) by {
                lemma_normalize_normal(items[k]);
            }
            lemma_canonical_props(ns);
            let kept = canonical_or_items(ns);
            if kept.len() == 1 {
                assert(is_normal(kept[0]));
            } else {
                lemma_all_components_iff(kept);
                assert(is_normal(Ty::Or(kept)));
            }
        },
        _ => {},
    }
}

/// Pointwise identity of sequence normalization.
pub proof fn lemma_normalize_seq_id(s: Seq<Ty>)
    requires
        forall|k: int| 0 <= k < s.len() ==> normalize_ty(#[trigger] s[k]) == s[k],
    ensures
        normalize_seq(s) == s,
{
    lemma_normalize_seq_elems(s);
    assert(normalize_seq(s) =~= s);
}

/// Pointwise identity of member-sequence normalization.
pub proof fn lemma_normalize_fields_id(m: Seq<(Seq<char>, Ty)>)
    requires
        forall|k: int| 0 <= k < m.len() ==> normalize_ty((#[trigger] m[k]).1) == m[k].1,
    ensures
        normalize_fields(m) == m,
{
    lemma_normalize_fields_elems(m);
    assert forall|k: int| 0 <= k < m.len() implies #[trigger] normalize_fields(m)[k] == m[k] by {
        assert(normalize_fields(m)[k] == (m[k].0, normalize_ty(m[k].1)));
    }
    assert(normalize_fields(m) =~= m);
}

/// Normalization is the identity on a normal value.
pub proof fn lemma_normalize_id(t: Ty)
    requires
        is_normal(t),
    ensures
        normalize_ty(t) == t,
    decreases t,
{
    match t {
        Ty::Named { path, generics_arguments } => {
            lemma_all_normal_iff(generics_arguments);
            assert forall|k: int| 0 <= k < generics_arguments.len() implies normalize_ty(
                #[trigger] generics_arguments[k],
            ) == generics_arguments[k] by {
                lemma_normalize_id(generics_arguments[k]);
            }
            lemma_normalize_seq_id(generics_arguments);
        },
        Ty::Tuple(items) => {
            lemma_all_normal_iff(items);
            assert forall|k: int| 0 <= k < items.len() implies normalize_ty(#[trigger] items[k])
                == items[k] by {
                lemma_normalize_id(items[k]);
            }
            lemma_normalize_seq_id(items);
        },
        Ty::Array(item) => {
            lemma_normalize_id(*item);
        },
        Ty::Function { arguments, result } => {
            lemma_normalize_id(*result);
            lemma_all_normal_iff(arguments);
            assert forall|k: int| 0 <= k < arguments.len() implies normalize_ty(
                #[trigger] arguments[k],
            ) == arguments[k] by {
                lemma_normalize_id(arguments[k]);
            }
            lemma_normalize_seq_id(arguments);
        },
        Ty::AnonymousStruct(members) => {
            lemma_fields_all_normal_iff(members);
            assert forall|k: int| 0 <= k < members.len() implies normalize_ty(
                (#[trigger] members[k]).1,
            ) == members[k].1 by {
                lemma_normalize_id(members[k].1);
            }
            lemma_normalize_fields_id(members);
        },
        Ty::Or(items) => {
            lemma_all_components_iff(items);
            assert forall|k: int| 0 <= k < items.len() implies normalize_ty(#[trigger] items[k])
                == items[k] by {
                lemma_normalize_id(items[k]);
            }
            lemma_normalize_seq_id(items);
            lemma_flatten_id(items);
            assert(sorted_tys(items)) by {
                assert forall|i: int| 0 <= i < items.len() - 1 implies cmp_ty(
                    #[trigger] items[i],
                    items[i + 1],
                ) <= 0 by {}
            }
            lemma_sort_id(items);
            lemma_dedup_id(items);
            if items.len() > 1 {
                lemma_drop_id(items);
            }
            assert(canonical_or_items(items) == items);
        },
        _ => {},
    }
}

/// Normalization is idempotent.
pub proof fn lemma_normalize_idempotent(t: Ty)
    ensures
        normalize_ty(normalize_ty(t)) == normalize_ty(t),
{
    lemma_normalize_normal(t);
    lemma_normalize_id(normalize_ty(t));
}

/// A union of a value with itself normalizes to the value's normal form.
#[verifier::rlimit(100)]
pub proof fn lemma_or_self_pair(x: Ty)
    ensures
        normalize_ty(Ty::Or(seq![x, x])) == normalize_ty(x),
{
    let y = normalize_ty(x);
    let s = seq![x, x];
    assert(normalize_seq(Seq::<Ty>::empty()) =~= Seq::<Ty>::empty());
    assert(flatten_ors(Seq::<Ty>::empty()) =~= Seq::<Ty>::empty());
    assert(sort_tys(Seq::<Ty>::empty()) =~= Seq::<Ty>::empty());
    assert(drop_unreachable(Seq::<Ty>::empty()) =~= Seq::<Ty>::empty());
    assert(s.drop_first() =~= seq![x]);
    assert(seq![x].drop_first() =~= Seq::<Ty>::empty());
    assert(seq![y].drop_first() =~= Seq::<Ty>::empty());
    assert(insert_sorted(y, Seq::<Ty>::empty()) =~= seq![y]);
    assert(normalize_seq(seq![x]) =~= seq![y]);
    assert(normalize_seq(s) =~= seq![y, y]);
    let ns = seq![y, y];
    assert(ns.drop_first() =~= seq![y]);
    match y {
        Ty::Or(ys) => {
            lemma_normalize_normal(x);
            assert(is_normal(Ty::Or(ys)));
            assert(expand_or(y) == ys);
            assert(flatten_ors(seq![y]) =~= ys);
            assert(flatten_ors(ns) =~= ys + ys);
            lemma_canonical_of_doubled(ys);
            lemma_all_components_iff(ys);
            assert(flatten_ors(ys + ys) == ys + ys) by {
                assert forall|k: int| 0 <= k < (ys + ys).len() implies !((#[trigger] (ys
                    + ys)[k]) is Or) by {
                    if k < ys.len() {
                        assert((ys + ys)[k] == ys[k]);
                    } else {
                        assert((ys + ys)[k] == ys[k - ys.len()]);
                    }
                }
                lemma_flatten_id(ys + ys);
            }
            assert(canonical_or_items(ns) == canonical_or_items(ys + ys));
            assert(canonical_or_items(ns) == ys);
            if ys.len() == 1 {
                assert(false);
            }
            assert(normalize_ty(Ty::Or(s)) == Ty::Or(ys));
        },
        _ => {
            assert(expand_or(y) =~= seq![y]);
            assert(flatten_ors(seq![y]) =~= seq![y]);
            assert(flatten_ors(ns) =~= seq![y, y]);
            assert(sort_tys(seq![y]) =~= seq![y]);
            lemma_cmp_ty_basic(y, y);
            assert(insert_sorted(y, seq![y]) =~= seq![y, y]);
            assert(sort_tys(ns) =~= seq![y, y]);
            assert(dedup_sorted(seq![y]) =~= seq![y]);
            assert(dedup_sorted(seq![y, y]) =~= seq![y]);
            assert(canonical_or_items(ns) =~= seq![y]);
        },
    }
}

/// Dropping `Unreachable` from a strictly sorted sequence that holds the
/// components of a normal union and `Unreachable` leaves the components.
#[verifier::rlimit(100)]
proof fn lemma_kept_is_components(dd: Seq<Ty>, ys: Seq<Ty>)
    requires
        forall|i: int, j: int| 0 <= i < j < dd.len() ==> cmp_ty(#[trigger] dd[i], #[trigger] dd[j])
            < 0,
        forall|i: int, j: int| 0 <= i < j < ys.len() ==> cmp_ty(#[trigger] ys[i], #[trigger] ys[j])
            < 0,
        forall|z: Ty| #[trigger] dd.contains(z) <==> (ys.contains(z) || z == Ty::Unreachable),
        forall|k: int| 0 <= k < ys.len() ==> #[trigger] ys[k] != Ty::Unreachable,
    ensures
        drop_unreachable(dd) == ys,
{
    let kept = drop_unreachable(dd);
    lemma_drop_unreachable_props(dd);
    assert forall|z: Ty| #[trigger] kept.contains(z) <==> ys.contains(z) by {
        if ys.contains(z) {
            assert(z != Ty::Unreachable) by {
                let k = choose|k: int| 0 <= k < ys.len() && ys[k] == z;
            }
            assert(dd.contains(z));
        }
    }
    lemma_strictly_sorted_global(kept);
    lemma_strict_sorted_unique(kept, ys);
}

/// The canonical component list of a normal non-empty union joined with
/// `Unreachable` is the union's own component list.
#[verifier::rlimit(100)]
proof fn lemma_canonical_union_with_unreachable(ys: Seq<Ty>)
    requires
        is_normal(Ty::Or(ys)),
        ys.len() >= 2,
    ensures
        canonical_or_items(seq![Ty::Or(ys), Ty::Unreachable]) == ys,
{
    let u = Ty::Unreachable;
    let flat = ys + seq![u];
    assert(flatten_ors(seq![Ty::Or(ys), u]) == flat) by {
        assert(seq![Ty::Or(ys), u].drop_first() =~= seq![u]);
        assert(seq![u].drop_first() =~= Seq::<Ty>::empty());
        assert(flatten_ors(Seq::<Ty>::empty()) =~= Seq::<Ty>::empty());
        assert(expand_or(u) =~= seq![u]);
        assert(flatten_ors(seq![u]) =~= seq![u]);
        assert(expand_or(Ty::Or(ys)) == ys);
        assert(flatten_ors(seq![Ty::Or(ys), u]) =~= ys + seq![u]);
    }
    assert(flatten_ors(flat) == flat) by {
        lemma_all_components_iff(ys);
        assert forall|k: int| 0 <= k < flat.len() implies !((#[trigger] flat[k]) is Or) by {
            if k < ys.len() {
                assert(flat[k] == ys[k]);
            } else {
                assert(flat[k] == u);
            }
        }
        lemma_flatten_id(flat);
    }
    let sorted = sort_tys(flat);
    let dd = dedup_sorted(sorted);
    lemma_sort_props(flat);
    lemma_dedup_props(sorted);
    lemma_strictly_sorted_global(dd);
    lemma_strictly_sorted_global(ys);
    lemma_contains_concat(ys, seq![u]);
    assert(forall|k: int| 0 <= k < ys.len() ==> #[trigger] ys[k] != u);
    assert forall|z: Ty| #[trigger] dd.contains(z) <==> (ys.contains(z) || z == u) by {
        assert(dd.contains(z) <==> flat.contains(z));
        assert(seq![u][0] == u);
        if seq![u].contains(z) {
            let k = choose|k: int| 0 <= k < 1 && seq![u][k] == z;
        }
        if z == u {
            assert(seq![u].contains(u));
        }
    }
    assert(dd.len() > 1) by {
        assert(ys.contains(ys[0]));
        assert(ys.contains(ys[1]));
        assert(dd.contains(ys[0]));
        assert(dd.contains(ys[1]));
        lemma_cmp_ty_basic(ys[0], ys[1]);
        assert(cmp_ty(ys[0], ys[1]) < 0);
        assert(ys[0] != ys[1]);
        let a = choose|a: int| 0 <= a < dd.len() && dd[a] == ys[0];
        let b = choose|b: int| 0 <= b < dd.len() && dd[b] == ys[1];
        assert(a != b);
    }
    lemma_kept_is_components(dd, ys);
}

/// A union of a value with `Unreachable` normalizes to the value's normal
/// form. A value whose normal form is the empty union is left out: joined
/// with `Unreachable` it collapses to `Unreachable` instead.
#[verifier::rlimit(100)]
pub proof fn lemma_or_with_unreachable(x: Ty)
    requires
        normalize_ty(x) != Ty::Or(Seq::<Ty>::empty()),
    ensures
        normalize_ty(Ty::Or(seq![x, Ty::Unreachable])) == normalize_ty(x),
{
    let y = normalize_ty(x);
    let u = Ty::Unreachable;
    let s = seq![x, u];
    assert(normalize_seq(Seq::<Ty>::empty()) =~= Seq::<Ty>::empty());
    assert(flatten_ors(Seq::<Ty>::empty()) =~= Seq::<Ty>::empty());
    assert(sort_tys(Seq::<Ty>::empty()) =~= Seq::<Ty>::empty());
    assert(drop_unreachable(Seq::<Ty>::empty()) =~= Seq::<Ty>::empty());
    assert(s.drop_first() =~= seq![u]);
    assert(seq![u].drop_first() =~= Seq::<Ty>::empty());
    assert(seq![y].drop_first() =~= Seq::<Ty>::empty());
    assert(insert_sorted(y, Seq::<Ty>::empty()) =~= seq![y]);
    assert(insert_sorted(u, Seq::<Ty>::empty()) =~= seq![u]);
    assert(normalize_ty(u) == u);
    assert(dedup_sorted(seq![y]) =~= seq![y]);
    assert(dedup_sorted(seq![u]) =~= seq![u]);
    assert(seq![y, u].drop_first() =~= seq![u]);
    assert(seq![u, y].drop_first() =~= seq![y]);
    assert(normalize_seq(seq![u]) =~= seq![u]);
    assert(normalize_seq(s) =~= seq![y, u]);
    let ns = seq![y, u];
    assert(ns.drop_first() =~= seq![u]);
    match y {
        Ty::Or(ys) => {
            lemma_normalize_normal(x);
            assert(is_normal(Ty::Or(ys)));
            if ys.len() == 0 {
                assert(ys =~= Seq::<Ty>::empty());
                assert(false);
            }
            assert(ys.len() != 1);
            lemma_canonical_union_with_unreachable(ys);
            assert(ns =~= seq![Ty::Or(ys), u]);
            assert(canonical_or_items(ns) == ys);
            assert(normalize_ty(Ty::Or(s)) == Ty::Or(ys));
        },
        _ => {
            assert(expand_or(y) =~= seq![y]);
            assert(expand_or(u) =~= seq![u]);
            assert(flatten_ors(seq![u]) =~= seq![u]);
            assert(flatten_ors(ns) =~= seq![y, u]);
            assert(sort_tys(seq![u]) =~= seq![u]);
            lemma_cmp_ty_basic(y, u);
            if y == u {
                assert(insert_sorted(y, seq![u]) =~= seq![y, u]);
                assert(sort_tys(ns) =~= seq![u, u]);
                assert(dedup_sorted(seq![u, u]) =~= seq![u]);
                assert(canonical_or_items(ns) =~= seq![u]);
            } else if cmp_ty(y, u) <= 0 {
                assert(insert_sorted(y, seq![u]) =~= seq![y, u]);
                assert(sort_tys(ns) =~= seq![y, u]);
                assert(dedup_sorted(seq![y, u]) =~= seq![y, u]);
                lemma_strict_two(y, u);
                assert(drop_unreachable(seq![y, u]) =~= seq![y]);
                assert(canonical_or_items(ns) =~= seq![y]);
            } else {
                assert(insert_sorted(y, seq![u]) =~= seq![u, y]);
                assert(sort_tys(ns) =~= seq![u, y]);
                assert(dedup_sorted(seq![u, y]) =~= seq![u, y]);
                assert(drop_unreachable(seq![y]) =~= seq![y]);
                assert(drop_unreachable(seq![u, y]) =~= seq![y]);
                assert(canonical_or_items(ns) =~= seq![y]);
            }
        },
    }
}

/// Helper: a two-element drop step.
proof fn lemma_strict_two(y: Ty, u: Ty)
    requires
        u == Ty::Unreachable,
        y != u,
    ensures
        drop_unreachable(seq![y, u]) == seq![y],
{
    assert(drop_unreachable(Seq::<Ty>::empty()) =~= Seq::<Ty>::empty());
    assert(seq![y, u].drop_first() =~= seq![u]);
    assert(seq![u].drop_first() =~= Seq::<Ty>::empty());
    assert(drop_unreachable(seq![u]) =~= Seq::<Ty>::empty());
    assert(drop_unreachable(seq![y, u]) =~= seq![y]);
}

/// Two globally strictly sorted sequences with the same members are the
/// same sequence.
pub proof fn lemma_strict_sorted_unique(s1: Seq<Ty>, s2: Seq<Ty>)
    requires
        forall|i: int, j: int| 0 <= i < j < s1.len() ==> cmp_ty(#[trigger] s1[i], #[trigger] s1[j])
            < 0,
        forall|i: int, j: int| 0 <= i < j < s2.len() ==> cmp_ty(#[trigger] s2[i], #[trigger] s2[j])
            < 0,
        forall|y: Ty| #[trigger] s1.contains(y) <==> s2.contains(y),
    ensures
        s1 == s2,
    decreases s1.len(),
{
    if s1.len() == 0 {
        if s2.len() > 0 {
            assert(s2.contains(s2[0]));
            assert(s1.contains(s2[0]));
            assert(false);
        }
        assert(s1 =~= s2);
    } else {
        assert(s1.contains(s1[0]));
        assert(s2.contains(s1[0]));
        let j = choose|j: int| 0 <= j < s2.len() && s2[j] == s1[0];
        assert(s2.contains(s2[0]));
        assert(s1.contains(s2[0]));
        let i = choose|i: int| 0 <= i < s1.len() && s1[i] == s2[0];
        if s1[0] != s2[0] {
            assert(j > 0);
            assert(i > 0);
            assert(cmp_ty(s2[0], s2[j]) < 0);
            assert(cmp_ty(s1[0], s1[i]) < 0);
            lemma_cmp_ty_basic(s1[0], s2[0]);
            assert(false);
        }
        let t1 = s1.drop_first();
        let t2 = s2.drop_first();
        assert(forall|i: int| 0 <= i < t1.len() ==> #[trigger] t1[i] == s1[i + 1]);
        assert(forall|i: int| 0 <= i < t2.len() ==> #[trigger] t2[i] == s2[i + 1]);
        assert forall|a: int, b: int| 0 <= a < b < t1.len() implies cmp_ty(
            #[trigger] t1[a],
            #[trigger] t1[b],
        ) < 0 by {
            assert(t1[a] == s1[a + 1]);
            assert(t1[b] == s1[b + 1]);
        }
        assert forall|a: int, b: int| 0 <= a < b < t2.len() implies cmp_ty(
            #[trigger] t2[a],
            #[trigger] t2[b],
        ) < 0 by {
            assert(t2[a] == s2[a + 1]);
            assert(t2[b] == s2[b + 1]);
        }
        assert forall|y: Ty| #[trigger] t1.contains(y) implies t2.contains(y) by {
            let a = choose|a: int| 0 <= a < t1.len() && t1[a] == y;
            assert(s1[a + 1] == y);
            assert(cmp_ty(s1[0], s1[a + 1]) < 0);
            lemma_cmp_ty_basic(s1[0], y);
            assert(y != s2[0]);
            assert(s1.contains(y));
            assert(s2.contains(y));
            let b = choose|b: int| 0 <= b < s2.len() && s2[b] == y;
            assert(b > 0);
            assert(t2[b - 1] == y);
        }
        assert forall|y: Ty| #[trigger] t2.contains(y) implies t1.contains(y) by {
            let a = choose|a: int| 0 <= a < t2.len() && t2[a] == y;
            assert(s2[a + 1] == y);
            assert(cmp_ty(s2[0], s2[a + 1]) < 0);
            lemma_cmp_ty_basic(s2[0], y);
            assert(y != s1[0]);
            assert(s2.contains(y));
            assert(s1.contains(y));
            let b = choose|b: int| 0 <= b < s1.len() && s1[b] == y;
            assert(b > 0);
            assert(t1[b - 1] == y);
        }
        assert forall|y: Ty| #[trigger] t1.contains(y) <==> t2.contains(y) by {}
        lemma_strict_sorted_unique(t1, t2);
        assert forall|i: int| 0 <= i < s1.len() implies #[trigger] s1[i] == s2[i] by {
            if i > 0 {
                assert(s1[i] == t1[i - 1]);
                assert(s2[i] == t2[i - 1]);
            }
        }
        assert(s1 =~= s2);
    }
}

/// The canonical component list of a normal union's components is the
/// component list itself, and joining the components twice changes
/// nothing.
#[verifier::rlimit(100)]
proof fn lemma_canonical_of_doubled(ys: Seq<Ty>)
    requires
        is_normal(Ty::Or(ys)),
    ensures
        canonical_or_items(ys + ys) == ys,
    decreases 0int,
{
    let flat = flatten_ors(ys + ys);
    lemma_all_components_iff(ys);
    lemma_flatten_id_concat(ys);
    assert(flat == ys + ys);
    let sorted = sort_tys(flat);
    let dd = dedup_sorted(sorted);
    lemma_sort_props(flat);
    lemma_dedup_props(sorted);
    lemma_strictly_sorted_global(dd);
    lemma_strictly_sorted_global(ys);
    lemma_contains_concat(ys, ys);
    assert forall|y: Ty| #[trigger] dd.contains(y) <==> ys.contains(y) by {
        assert(dd.contains(y) <==> sorted.contains(y));
        assert(sorted.contains(y) <==> flat.contains(y));
        assert(flat.contains(y) <==> (ys + ys).contains(y));
    }
    if ys.len() == 0 {
        assert(ys + ys =~= Seq::<Ty>::empty());
        assert(flatten_ors(Seq::<Ty>::empty()) =~= Seq::<Ty>::empty());
        assert(sort_tys(Seq::<Ty>::empty()) =~= Seq::<Ty>::empty());
        assert(dedup_sorted(Seq::<Ty>::empty()) =~= Seq::<Ty>::empty());
        assert(canonical_or_items(ys + ys) =~= ys);
    } else {
        lemma_strict_sorted_unique(dd, ys);
        assert(dd == ys);
        assert(ys.len() != 1);
        assert(dd.len() > 1);
        lemma_drop_id(ys);
        assert(canonical_or_items(ys + ys) == ys);
    }
}

/// Flattening a list of union-free components twice over a concatenation.
proof fn lemma_flatten_id_concat(ys: Seq<Ty>)
    requires
        forall|k: int| 0 <= k < ys.len() ==> is_normal(#[trigger] ys[k]) && !(ys[k] is Or),
    ensures
        flatten_ors(ys + ys) == ys + ys,
{
    assert forall|k: int| 0 <= k < (ys + ys).len() implies !((#[trigger] (ys + ys)[k])
        is Or) by {
        if k < ys.len() {
            assert((ys + ys)[k] == ys[k]);
        } else {
            assert((ys + ys)[k] == ys[k - ys.len()]);
        }
    }
    lemma_flatten_id(ys + ys);
}

} // verus!
