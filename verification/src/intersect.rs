//! Intersection-to-target: narrowing a type with structural information
//! from a declared target type.

use vstd::prelude::*;

use crate::model::{fields_contains, fields_get, Ty};
use crate::normalize::normalize_ty;
use crate::subtype::is_subtype;
use crate::types::{
    fields_model, lemma_fields_model, lemma_types_model, type_model, types_model, HIRType,
};

verus! {

/// Narrowing of `a` by the target `b`, by the ordered clauses of the
/// lattice; the first clause that applies decides.
pub open spec fn spec_intersect(a: Ty, b: Ty) -> Ty
    decreases a, 0int,
{
    if a == b {
        a
    } else {
        match (a, b) {
            (Ty::Infer, _) => b,
            (_, Ty::Infer) => a,
            (Ty::Tuple(i1), Ty::Tuple(i2)) => if i1.len() <= i2.len() {
                Ty::Tuple(spec_intersect_zip(i1, i2))
            } else {
                a
            },
            (Ty::Array(t1), Ty::Array(t2)) => Ty::Array(Box::new(spec_intersect(*t1, *t2))),
            (Ty::AnonymousStruct(m1), Ty::AnonymousStruct(m2)) => match spec_intersect_fields(
                m1,
                m2,
            ) {
                Some(ms) => Ty::AnonymousStruct(ms),
                None => a,
            },
            (Ty::Or(i1), _) => Ty::Or(spec_intersect_each(i1, b)),
            (Ty::Tuple(i1), Ty::Or(types)) => Ty::Tuple(spec_tuple_or_build(i1, types, 0)),
            (Ty::Array(t1), Ty::Or(types)) => Ty::Array(
                Box::new(normalize_ty(Ty::Or(spec_array_or_collect(*t1, types)))),
            ),
            (Ty::AnonymousStruct(m1), Ty::Or(types)) => Ty::AnonymousStruct(
                spec_struct_or_build(m1, a, types, 0),
            ),
            _ => a,
        }
    }
}

/// Pairwise intersection over the length of the first sequence.
pub open spec fn spec_intersect_zip(s1: Seq<Ty>, s2: Seq<Ty>) -> Seq<Ty>
    decreases s1, 0int,
{
    if s1.len() == 0 {
        Seq::empty()
    } else {
        seq![spec_intersect(s1[0], s2[0])] + spec_intersect_zip(s1.drop_first(), s2.drop_first())
    }
}

/// Intersection of each component with a fixed target.
pub open spec fn spec_intersect_each(s1: Seq<Ty>, b: Ty) -> Seq<Ty>
    decreases s1, 0int,
{
    if s1.len() == 0 {
        Seq::empty()
    } else {
        seq![spec_intersect(s1[0], b)] + spec_intersect_each(s1.drop_first(), b)
    }
}

/// Per-member intersection against a target member map; `None` when the
/// target misses one of the members.
pub open spec fn spec_intersect_fields(
    m1: Seq<(Seq<char>, Ty)>,
    m2: Seq<(Seq<char>, Ty)>,
) -> Option<Seq<(Seq<char>, Ty)>>
    decreases m1, 0int,
{
    if m1.len() == 0 {
        Some(Seq::empty())
    } else if !fields_contains(m2, m1[0].0) {
        None
    } else {
        match spec_intersect_fields(m1.drop_first(), m2) {
            Some(ms) => Some(
                seq![(m1[0].0, spec_intersect(m1[0].1, fields_get(m2, m1[0].0)))] + ms,
            ),
            None => None,
        }
    }
}

/// The per-position intersections contributed by the tuple candidates of a
/// union target: for position `i`, one entry for each candidate tuple that
/// is a supertype of the source tuple.
pub open spec fn spec_tuple_or_position(a_items: Seq<Ty>, types: Seq<Ty>, i: int) -> Seq<Ty>
    decreases a_items, types.len() + 1,
{
    if types.len() == 0 {
        Seq::empty()
    } else {
        (match types[0] {
            Ty::Tuple(i2) => if is_subtype(types[0], Ty::Tuple(a_items)) && 0 <= i
                < a_items.len() && i < i2.len() {
                seq![spec_intersect(a_items[i], i2[i])]
            } else {
                Seq::empty()
            },
            _ => Seq::empty(),
        }) + spec_tuple_or_position(a_items, types.drop_first(), i)
    }
}

/// The positions of the result tuple, from `pos` on: each position is the
/// union of its candidates' contributions.
pub open spec fn spec_tuple_or_build(a_items: Seq<Ty>, types: Seq<Ty>, pos: int) -> Seq<Ty>
    decreases a_items, a_items.len() - pos + types.len() + 2,
{
    if pos < 0 || pos >= a_items.len() {
        Seq::empty()
    } else {
        seq![Ty::Or(spec_tuple_or_position(a_items, types, pos))] + spec_tuple_or_build(
            a_items,
            types,
            pos + 1,
        )
    }
}

/// The element intersections contributed by the array candidates of a union
/// target whose element is a supertype of the source element.
pub open spec fn spec_array_or_collect(elem: Ty, types: Seq<Ty>) -> Seq<Ty>
    decreases elem, types.len() + 1,
{
    if types.len() == 0 {
        Seq::empty()
    } else {
        (match types[0] {
            Ty::Array(e2) => if is_subtype(*e2, elem) {
                seq![spec_intersect(elem, *e2)]
            } else {
                Seq::empty()
            },
            _ => Seq::empty(),
        }) + spec_array_or_collect(elem, types.drop_first())
    }
}

/// The per-member intersections contributed by the anonymous-struct
/// candidates of a union target that are supertypes of the source struct,
/// for the member at index `k` of the source.
pub open spec fn spec_struct_or_member(
    m1: Seq<(Seq<char>, Ty)>,
    a: Ty,
    types: Seq<Ty>,
    k: int,
) -> Seq<Ty>
    decreases m1, types.len() + 1,
{
    if types.len() == 0 || k < 0 || k >= m1.len() {
        Seq::empty()
    } else {
        (match types[0] {
            Ty::AnonymousStruct(m2) => if is_subtype(types[0], a) {
                seq![spec_intersect(m1[k].1, fields_get(m2, m1[k].0))]
            } else {
                Seq::empty()
            },
            _ => Seq::empty(),
        }) + spec_struct_or_member(m1, a, types.drop_first(), k)
    }
}

/// The members of the result struct, from member `pos` on: each keeps its
/// name and becomes the normalized union of its candidates' contributions.
pub open spec fn spec_struct_or_build(
    m1: Seq<(Seq<char>, Ty)>,
    a: Ty,
    types: Seq<Ty>,
    pos: int,
) -> Seq<(Seq<char>, Ty)>
    decreases m1, m1.len() - pos + types.len() + 2,
{
    if pos < 0 || pos >= m1.len() {
        Seq::empty()
    } else {
        seq![
            (m1[pos].0, normalize_ty(Ty::Or(spec_struct_or_member(m1, a, types, pos)))),
        ] + spec_struct_or_build(m1, a, types, pos + 1)
    }
}

/// Pointwise characterization of `spec_intersect_zip`.
pub proof fn lemma_intersect_zip_pointwise(s1: Seq<Ty>, s2: Seq<Ty>)
    requires
        s1.len() <= s2.len(),
    ensures
        spec_intersect_zip(s1, s2).len() == s1.len(),
        forall|k: int|
            0 <= k < s1.len() ==> #[trigger] spec_intersect_zip(s1, s2)[k] == spec_intersect(
                s1[k],
                s2[k],
            ),
    decreases s1.len(),
{
    if s1.len() > 0 {
        lemma_intersect_zip_pointwise(s1.drop_first(), s2.drop_first());
    }
}

/// Pointwise characterization of `spec_intersect_each`.
pub proof fn lemma_intersect_each_pointwise(s1: Seq<Ty>, b: Ty)
    ensures
        spec_intersect_each(s1, b).len() == s1.len(),
        forall|k: int|
            0 <= k < s1.len() ==> #[trigger] spec_intersect_each(s1, b)[k] == spec_intersect(
                s1[k],
                b,
            ),
    decreases s1.len(),
{
    if s1.len() > 0 {
        lemma_intersect_each_pointwise(s1.drop_first(), b);
    }
}

/// A member missing from the target fails the member intersection.
pub proof fn lemma_intersect_fields_none(
    m1: Seq<(Seq<char>, Ty)>,
    m2: Seq<(Seq<char>, Ty)>,
    i: int,
)
    requires
        0 <= i < m1.len(),
        !fields_contains(m2, m1[i].0),
    ensures
        spec_intersect_fields(m1, m2) is None,
    decreases i,
{
    if i > 0 && fields_contains(m2, m1[0].0) {
        assert(m1.drop_first()[i - 1] == m1[i]);
        lemma_intersect_fields_none(m1.drop_first(), m2, i - 1);
    }
}

/// When the target has every member, the member intersection is pointwise.
pub proof fn lemma_intersect_fields_some(m1: Seq<(Seq<char>, Ty)>, m2: Seq<(Seq<char>, Ty)>)
    requires
        forall|k: int| 0 <= k < m1.len() ==> fields_contains(m2, (#[trigger] m1[k]).0),
    ensures
        spec_intersect_fields(m1, m2) is Some,
        spec_intersect_fields(m1, m2).unwrap().len() == m1.len(),
        forall|k: int|
            0 <= k < m1.len() ==> #[trigger] spec_intersect_fields(m1, m2).unwrap()[k] == (
                m1[k].0,
                spec_intersect(m1[k].1, fields_get(m2, m1[k].0)),
            ),
    decreases m1.len(),
{
    if m1.len() > 0 {
        assert(forall|k: int|
            0 <= k < m1.drop_first().len() ==> #[trigger] m1.drop_first()[k] == m1[k + 1]);
        lemma_intersect_fields_some(m1.drop_first(), m2);
    }
}

/// Pairwise intersection of two component vectors over the first's length.
fn intersect_zip_vec(v1: &Vec<HIRType>, v2: &Vec<HIRType>) -> (r: Vec<HIRType>)
    requires
        v1@.len() <= v2@.len(),
    ensures
        types_model(r@) == spec_intersect_zip(types_model(v1@), types_model(v2@)),
    decreases v1@, 0int,
{
    let ghost m1 = types_model(v1@);
    let ghost m2 = types_model(v2@);
    proof {
        lemma_types_model(v1@);
        lemma_types_model(v2@);
        lemma_intersect_zip_pointwise(m1, m2);
    }
    let mut out: Vec<HIRType> = Vec::new();
    let mut i: usize = 0;
    while i < v1.len()
        invariant
            0 <= i <= v1.len(),
            v1.len() <= v2.len(),
            m1 == types_model(v1@),
            m2 == types_model(v2@),
            m1.len() == v1.len(),
            m2.len() == v2.len(),
            forall|j: int| 0 <= j < v1.len() ==> #[trigger] m1[j] == type_model(v1@[j]),
            forall|j: int| 0 <= j < v2.len() ==> #[trigger] m2[j] == type_model(v2@[j]),
            out@.len() == i,
            forall|j: int|
                0 <= j < i ==> type_model(#[trigger] out@[j]) == spec_intersect(m1[j], m2[j]),
        decreases v1.len() - i,
    {
        out.push(v1[i].intersect_to(&v2[i]));
        i = i + 1;
    }
    proof {
        lemma_types_model(out@);
        assert(types_model(out@) =~= spec_intersect_zip(m1, m2));
    }
    out
}

/// Intersection of each component with a fixed target.
fn intersect_each_vec(v1: &Vec<HIRType>, b: &HIRType) -> (r: Vec<HIRType>)
    ensures
        types_model(r@) == spec_intersect_each(types_model(v1@), b@),
    decreases v1@, 0int,
{
    let ghost m1 = types_model(v1@);
    proof {
        lemma_types_model(v1@);
        lemma_intersect_each_pointwise(m1, b@);
    }
    let mut out: Vec<HIRType> = Vec::new();
    let mut i: usize = 0;
    while i < v1.len()
        invariant
            0 <= i <= v1.len(),
            m1 == types_model(v1@),
            m1.len() == v1.len(),
            forall|j: int| 0 <= j < v1.len() ==> #[trigger] m1[j] == type_model(v1@[j]),
            out@.len() == i,
            forall|j: int|
                0 <= j < i ==> type_model(#[trigger] out@[j]) == spec_intersect(m1[j], b@),
        decreases v1.len() - i,
    {
        out.push(v1[i].intersect_to(b));
        i = i + 1;
    }
    proof {
        lemma_types_model(out@);
        assert(types_model(out@) =~= spec_intersect_each(m1, b@));
    }
    out
}

/// Per-member intersection against a target member vector; `None` when the
/// target misses one of the members.
fn intersect_fields_vec(v1: &Vec<(String, HIRType)>, v2: &Vec<(String, HIRType)>) -> (r: Option<
    Vec<(String, HIRType)>,
>)
    ensures
        match r {
            Some(out) => spec_intersect_fields(fields_model(v1@), fields_model(v2@)) == Some(
                fields_model(out@),
            ),
            None => spec_intersect_fields(fields_model(v1@), fields_model(v2@)) is None,
        },
    decreases v1@, 0int,
{
    let ghost f1 = fields_model(v1@);
    let ghost f2 = fields_model(v2@);
    proof {
        lemma_fields_model(v1@);
        lemma_fields_model(v2@);
    }
    let mut out: Vec<(String, HIRType)> = Vec::new();
    let mut i: usize = 0;
    while i < v1.len()
        invariant
            0 <= i <= v1.len(),
            f1 == fields_model(v1@),
            f2 == fields_model(v2@),
            f1.len() == v1.len(),
            forall|j: int|
                0 <= j < v1.len() ==> #[trigger] f1[j] == (v1@[j].0@, type_model(v1@[j].1)),
            out@.len() == i,
            forall|j: int|
                0 <= j < i ==> (#[trigger] out@[j]).0@ == f1[j].0 && fields_contains(f2, f1[j].0)
                    && type_model(out@[j].1) == spec_intersect(f1[j].1, fields_get(f2, f1[j].0)),
        decreases v1.len() - i,
    {
        match crate::subtype::fields_find(v2, v1[i].0.as_str()) {
            Some(jdx) => {
                let name = v1[i].0.clone();
                let ty = v1[i].1.intersect_to(&v2[jdx].1);
                out.push((name, ty));
            },
            None => {
                proof {
                    lemma_intersect_fields_none(f1, f2, i as int);
                }
                return None;
            },
        }
        i = i + 1;
    }
    proof {
        assert forall|k: int| 0 <= k < f1.len() implies fields_contains(
            f2,
            (#[trigger] f1[k]).0,
        ) by {
            assert((out@[k]).0@ == f1[k].0);
        }
        lemma_intersect_fields_some(f1, f2);
        lemma_fields_model(out@);
        assert(fields_model(out@) =~= spec_intersect_fields(f1, f2).unwrap());
    }
    Some(out)
}

/// The per-position result components of a tuple source against a union
/// target.
fn tuple_or_build_vec(items1: &Vec<HIRType>, types: &Vec<HIRType>, whole: &HIRType) -> (r: Vec<
    HIRType,
>)
    requires
        whole@ == Ty::Tuple(types_model(items1@)),
    ensures
        types_model(r@) == spec_tuple_or_build(types_model(items1@), types_model(types@), 0),
    decreases items1@, 0int,
{
    let ghost m1 = types_model(items1@);
    let ghost mt = types_model(types@);
    proof {
        lemma_types_model(items1@);
        lemma_types_model(types@);
    }
    let mut out: Vec<HIRType> = Vec::new();
    let mut pos: usize = 0;
    while pos < items1.len()
        invariant
            0 <= pos <= items1.len(),
            whole@ == Ty::Tuple(m1),
            m1 == types_model(items1@),
            mt == types_model(types@),
            m1.len() == items1.len(),
            mt.len() == types.len(),
            forall|j: int| 0 <= j < items1.len() ==> #[trigger] m1[j] == type_model(items1@[j]),
            forall|j: int| 0 <= j < types.len() ==> #[trigger] mt[j] == type_model(types@[j]),
            spec_tuple_or_build(m1, mt, 0) == types_model(out@) + spec_tuple_or_build(
                m1,
                mt,
                pos as int,
            ),
        decreases items1.len() - pos,
    {
        let ghost outm_before = types_model(out@);
        let mut pv: Vec<HIRType> = Vec::new();
        let mut j: usize = 0;
        proof {
            assert(mt.skip(0) =~= mt);
        }
        while j < types.len()
            invariant
                0 <= j <= types.len(),
                0 <= pos < items1.len(),
                whole@ == Ty::Tuple(m1),
                m1 == types_model(items1@),
                mt == types_model(types@),
                m1.len() == items1.len(),
                mt.len() == types.len(),
                forall|jj: int|
                    0 <= jj < items1.len() ==> #[trigger] m1[jj] == type_model(items1@[jj]),
                forall|jj: int|
                    0 <= jj < types.len() ==> #[trigger] mt[jj] == type_model(types@[jj]),
                spec_tuple_or_position(m1, mt, pos as int) == types_model(pv@)
                    + spec_tuple_or_position(m1, mt.skip(j as int), pos as int),
            decreases types.len() - j,
        {
            proof {
                assert(mt.skip(j as int)[0] == mt[j as int]);
                assert(mt.skip(j as int).drop_first() =~= mt.skip(j as int + 1));
            }
            let ghost pvm_before = types_model(pv@);
            match &types[j] {
                HIRType::Tuple(i2) => {
                    if types[j].is_a(whole) {
                        proof {
                            lemma_types_model(i2@);
                        }
                        crate::types::push_type(&mut pv, items1[pos].intersect_to(&i2[pos]));
                    }
                },
                _ => {},
            }
            j = j + 1;
            proof {
                assert(types_model(pv@) + spec_tuple_or_position(m1, mt.skip(j as int), pos as int)
                    =~= spec_tuple_or_position(m1, mt, pos as int));
            }
        }
        proof {
            assert(mt.skip(types.len() as int) =~= Seq::<Ty>::empty());
        }
        crate::types::push_type(&mut out, HIRType::Or(pv));
        pos = pos + 1;
        proof {
            assert(spec_tuple_or_build(m1, mt, 0) =~= types_model(out@) + spec_tuple_or_build(
                m1,
                mt,
                pos as int,
            ));
        }
    }
    proof {
        assert(types_model(out@) + spec_tuple_or_build(m1, mt, items1.len() as int) =~= types_model(
            out@,
        ));
    }
    out
}

/// The contributed element intersections of an array source against a
/// union target.
fn array_or_collect_vec(elem: &HIRType, types: &Vec<HIRType>) -> (r: Vec<HIRType>)
    ensures
        types_model(r@) == spec_array_or_collect(elem@, types_model(types@)),
    decreases *elem, 1int,
{
    let ghost mt = types_model(types@);
    proof {
        lemma_types_model(types@);
        assert(mt.skip(0) =~= mt);
    }
    let mut out: Vec<HIRType> = Vec::new();
    let mut j: usize = 0;
    while j < types.len()
        invariant
            0 <= j <= types.len(),
            mt == types_model(types@),
            mt.len() == types.len(),
            forall|jj: int| 0 <= jj < types.len() ==> #[trigger] mt[jj] == type_model(types@[jj]),
            spec_array_or_collect(elem@, mt) == types_model(out@) + spec_array_or_collect(
                elem@,
                mt.skip(j as int),
            ),
        decreases types.len() - j,
    {
        proof {
            assert(mt.skip(j as int)[0] == mt[j as int]);
            assert(mt.skip(j as int).drop_first() =~= mt.skip(j as int + 1));
        }
        let ghost outm_before = types_model(out@);
        match &types[j] {
            HIRType::Array(e2) => {
                if e2.is_a(elem) {
                    crate::types::push_type(&mut out, elem.intersect_to(e2));
                }
            },
            _ => {},
        }
        j = j + 1;
        proof {
            assert(types_model(out@) + spec_array_or_collect(elem@, mt.skip(j as int))
                =~= spec_array_or_collect(elem@, mt));
        }
    }
    proof {
        assert(mt.skip(types.len() as int) =~= Seq::<Ty>::empty());
        assert(types_model(out@) + Seq::<Ty>::empty() =~= types_model(out@));
    }
    out
}

/// The result members of an anonymous-struct source against a union target.
fn struct_or_build_vec(m1: &Vec<(String, HIRType)>, types: &Vec<HIRType>, whole: &HIRType) -> (r:
    Vec<(String, HIRType)>)
    requires
        whole@ == Ty::AnonymousStruct(fields_model(m1@)),
    ensures
        fields_model(r@) == spec_struct_or_build(
            fields_model(m1@),
            whole@,
            types_model(types@),
            0,
        ),
    decreases m1@, 0int,
{
    let ghost f1 = fields_model(m1@);
    let ghost mt = types_model(types@);
    proof {
        lemma_fields_model(m1@);
        lemma_types_model(types@);
    }
    let mut out: Vec<(String, HIRType)> = Vec::new();
    let mut pos: usize = 0;
    while pos < m1.len()
        invariant
            0 <= pos <= m1.len(),
            whole@ == Ty::AnonymousStruct(f1),
            f1 == fields_model(m1@),
            mt == types_model(types@),
            f1.len() == m1.len(),
            mt.len() == types.len(),
            forall|j: int|
                0 <= j < m1.len() ==> #[trigger] f1[j] == (m1@[j].0@, type_model(m1@[j].1)),
            forall|j: int| 0 <= j < types.len() ==> #[trigger] mt[j] == type_model(types@[j]),
            spec_struct_or_build(f1, whole@, mt, 0) == fields_model(out@) + spec_struct_or_build(
                f1,
                whole@,
                mt,
                pos as int,
            ),
        decreases m1.len() - pos,
    {
        let ghost outm_before = fields_model(out@);
        let mut pv: Vec<HIRType> = Vec::new();
        let mut j: usize = 0;
        proof {
            assert(mt.skip(0) =~= mt);
        }
        while j < types.len()
            invariant
                0 <= j <= types.len(),
                0 <= pos < m1.len(),
                whole@ == Ty::AnonymousStruct(f1),
                f1 == fields_model(m1@),
                mt == types_model(types@),
                f1.len() == m1.len(),
                mt.len() == types.len(),
                forall|jj: int|
                    0 <= jj < m1.len() ==> #[trigger] f1[jj] == (m1@[jj].0@, type_model(m1@[jj].1)),
                forall|jj: int|
                    0 <= jj < types.len() ==> #[trigger] mt[jj] == type_model(types@[jj]),
                spec_struct_or_member(f1, whole@, mt, pos as int) == types_model(pv@)
                    + spec_struct_or_member(f1, whole@, mt.skip(j as int), pos as int),
            decreases types.len() - j,
        {
            proof {
                assert(mt.skip(j as int)[0] == mt[j as int]);
                assert(mt.skip(j as int).drop_first() =~= mt.skip(j as int + 1));
            }
            let ghost pvm_before = types_model(pv@);
            match &types[j] {
                HIRType::AnonymousStruct(m2) => {
                    if types[j].is_a(whole) {
                        match crate::subtype::fields_find(m2, m1[pos].0.as_str()) {
                            Some(idx) => {
                                crate::types::push_type(
                                    &mut pv,
                                    m1[pos].1.intersect_to(&m2[idx].1),
                                );
                            },
                            None => {
                                proof {
                                    assert(false);
                                }
                            },
                        }
                    }
                },
                _ => {},
            }
            j = j + 1;
            proof {
                assert(types_model(pv@) + spec_struct_or_member(
                    f1,
                    whole@,
                    mt.skip(j as int),
                    pos as int,
                ) =~= spec_struct_or_member(f1, whole@, mt, pos as int));
            }
        }
        proof {
            assert(mt.skip(types.len() as int) =~= Seq::<Ty>::empty());
        }
        let name = m1[pos].0.clone();
        let member = HIRType::Or(pv).into_normalized();
        crate::types::push_field(&mut out, (name, member));
        pos = pos + 1;
        proof {
            assert(spec_struct_or_build(f1, whole@, mt, 0) =~= fields_model(out@)
                + spec_struct_or_build(f1, whole@, mt, pos as int));
        }
    }
    proof {
        assert(fields_model(out@) + spec_struct_or_build(f1, whole@, mt, m1.len() as int)
            =~= fields_model(out@));
    }
    out
}

impl HIRType {
    /// Narrows this type using structural information from `rhs`.
    pub fn intersect_to(&self, rhs: &HIRType) -> (r: HIRType)
        ensures
            r@ == spec_intersect(self@, rhs@),
        decreases *self, 0int,
    {
        let c = self.compare(rhs);
        proof {
            crate::order::lemma_cmp_ty_basic(self@, rhs@);
        }
        if c == 0 {
            return self.clone();
        }
        match (self, rhs) {
            (HIRType::Infer, _) => rhs.clone(),
            (_, HIRType::Infer) => self.clone(),
            (HIRType::Tuple(i1), HIRType::Tuple(i2)) => {
                proof {
                    lemma_types_model(i1@);
                    lemma_types_model(i2@);
                }
                if i1.len() <= i2.len() {
                    HIRType::Tuple(intersect_zip_vec(i1, i2))
                } else {
                    self.clone()
                }
            },
            (HIRType::Array(t1), HIRType::Array(t2)) => HIRType::Array(
                Box::new((**t1).intersect_to(t2)),
            ),
            (HIRType::AnonymousStruct(m1), HIRType::AnonymousStruct(m2)) => {
                match intersect_fields_vec(m1, m2) {
                    Some(ms) => HIRType::AnonymousStruct(ms),
                    None => self.clone(),
                }
            },
            (HIRType::Or(i1), _) => HIRType::Or(intersect_each_vec(i1, rhs)),
            (HIRType::Tuple(i1), HIRType::Or(types)) => HIRType::Tuple(
                tuple_or_build_vec(i1, types, self),
            ),
            (HIRType::Array(t1), HIRType::Or(types)) => HIRType::Array(
                Box::new(HIRType::Or(array_or_collect_vec(t1, types)).into_normalized()),
            ),
            (HIRType::AnonymousStruct(m1), HIRType::Or(types)) => HIRType::AnonymousStruct(
                struct_or_build_vec(m1, types, self),
            ),
            _ => self.clone(),
        }
    }
}

} // verus!
