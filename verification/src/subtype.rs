//! The subtype relation `is_a` of the type lattice.
//!
//! `is_subtype` is the mathematical relation, defined by ordered clauses:
//! `Infer` is compatible in both directions, `Unreachable` is bottom, tuples
//! and anonymous structs are width-subtyped, functions are contravariant in
//! their arguments and covariant in the result, and a union is involved on
//! the left before it is considered on the right.

use vstd::prelude::*;

use crate::model::{
    fields_contains, fields_get, fields_height, lemma_fields_first_match, lemma_fields_get_height,
    lemma_fields_height, lemma_fields_no_match, lemma_seq_height, seq_height, ty_height, Ty,
};
use crate::order::{compare_paths, compare_str, lemma_cmp_chars_basic, lemma_cmp_paths_basic};
use crate::types::{
    fields_model, lemma_fields_model, lemma_types_model, type_model, types_model, HIRType,
};

verus! {

/// The subtype relation on model values, by the ordered clauses of the
/// lattice; the first clause that applies decides.
pub open spec fn is_subtype(a: Ty, b: Ty) -> bool
    decreases ty_height(a) + ty_height(b), 0int,
{
    match (a, b) {
        (Ty::Infer, _) => true,
        (_, Ty::Infer) => true,
        (Ty::Unreachable, _) => true,
        (_, Ty::Unreachable) => false,
        (Ty::GenericsTypeArgument(i), Ty::GenericsTypeArgument(j)) => i == j,
        (
            Ty::Named { path: p1, generics_arguments: g1 },
            Ty::Named { path: p2, generics_arguments: g2 },
        ) => {
            proof {
                lemma_seq_height(g1);
                lemma_seq_height(g2);
            }
            p1 == p2 && g1.len() == g2.len() && (forall|k: int|
                0 <= k < g1.len() ==> is_subtype(#[trigger] g1[k], g2[k]))
        },
        (Ty::Tuple(i1), Ty::Tuple(i2)) => {
            proof {
                lemma_seq_height(i1);
                lemma_seq_height(i2);
            }
            i1.len() >= i2.len() && (forall|k: int|
                0 <= k < i2.len() ==> is_subtype(#[trigger] i1[k], i2[k]))
        },
        (Ty::Array(t1), Ty::Array(t2)) => is_subtype(*t1, *t2),
        (
            Ty::Function { arguments: a1, result: r1 },
            Ty::Function { arguments: a2, result: r2 },
        ) => {
            proof {
                lemma_seq_height(a1);
                lemma_seq_height(a2);
            }
            a1.len() == a2.len() && (forall|k: int|
                0 <= k < a1.len() ==> is_subtype(#[trigger] a2[k], a1[k])) && is_subtype(*r1, *r2)
        },
        (Ty::AnonymousStruct(m1), Ty::AnonymousStruct(m2)) => {
            proof {
                lemma_fields_get_height(m1);
                lemma_fields_height(m2);
            }
            forall|k: int|
                0 <= k < m2.len() ==> fields_contains(m1, (#[trigger] m2[k]).0) && is_subtype(
                    fields_get(m1, m2[k].0),
                    m2[k].1,
                )
        },
        (Ty::Or(i1), _) => all_subtype(i1, b),
        (_, Ty::Or(i2)) => any_subtype(a, i2),
        _ => false,
    }
}

/// Whether every component of `items` is below `b`; the left-hand union
/// clause of the subtype relation.
pub open spec fn all_subtype(items: Seq<Ty>, b: Ty) -> bool
    decreases seq_height(items) + ty_height(b), items.len() + 1,
{
    items.len() == 0 || (is_subtype(items[0], b) && all_subtype(items.drop_first(), b))
}

/// `all_subtype` holds exactly when every component is below `b`.
pub proof fn lemma_all_subtype_iff(items: Seq<Ty>, b: Ty)
    ensures
        all_subtype(items, b) <==> (forall|k: int|
            0 <= k < items.len() ==> is_subtype(#[trigger] items[k], b)),
    decreases items.len(),
{
    if items.len() > 0 {
        lemma_all_subtype_iff(items.drop_first(), b);
        if all_subtype(items, b) {
            assert forall|k: int| 0 <= k < items.len() implies is_subtype(
                #[trigger] items[k],
                b,
            ) by {
                if k > 0 {
                    assert(items.drop_first()[k - 1] == items[k]);
                }
            }
        }
        if forall|k: int| 0 <= k < items.len() ==> is_subtype(#[trigger] items[k], b) {
            assert forall|k: int| 0 <= k < items.drop_first().len() implies is_subtype(
                #[trigger] items.drop_first()[k],
                b,
            ) by {
                assert(items.drop_first()[k] == items[k + 1]);
            }
            assert(all_subtype(items, b));
        }
    }
}

/// Whether some component of `items` is above `a`; the right-hand union
/// clause of the subtype relation.
pub open spec fn any_subtype(a: Ty, items: Seq<Ty>) -> bool
    decreases ty_height(a) + seq_height(items), items.len() + 1,
{
    items.len() > 0 && (is_subtype(a, items[0]) || any_subtype(a, items.drop_first()))
}

/// `any_subtype` holds exactly when some component is above `a`.
pub proof fn lemma_any_subtype_iff(a: Ty, items: Seq<Ty>)
    ensures
        any_subtype(a, items) <==> exists|k: int|
            0 <= k < items.len() && is_subtype(a, #[trigger] items[k]),
    decreases items.len(),
{
    if items.len() > 0 {
        lemma_any_subtype_iff(a, items.drop_first());
        if any_subtype(a, items) {
            if is_subtype(a, items[0]) {
                assert(0 <= 0 < items.len() && is_subtype(a, items[0]));
            } else {
                let k0 = choose|k: int|
                    0 <= k < items.drop_first().len() && is_subtype(
                        a,
                        #[trigger] items.drop_first()[k],
                    );
                assert(items.drop_first()[k0] == items[k0 + 1]);
                assert(0 <= k0 + 1 < items.len() && is_subtype(a, items[k0 + 1]));
            }
        }
        if exists|k: int| 0 <= k < items.len() && is_subtype(a, #[trigger] items[k]) {
            let k0 = choose|k: int| 0 <= k < items.len() && is_subtype(a, #[trigger] items[k]);
            if k0 == 0 {
                assert(any_subtype(a, items));
            } else {
                assert(items.drop_first()[k0 - 1] == items[k0]);
                assert(0 <= k0 - 1 < items.drop_first().len() && is_subtype(
                    a,
                    items.drop_first()[k0 - 1],
                ));
                assert(any_subtype(a, items.drop_first()));
            }
        }
    }
}

/// Finds the first member with the given name; `None` when no member has it.
pub(crate) fn fields_find(m: &Vec<(String, HIRType)>, name: &str) -> (r: Option<usize>)
    ensures
        match r {
            Some(j) => {
                &&& j < m.len()
                &&& m@[j as int].0@ == name@
                &&& fields_contains(fields_model(m@), name@)
                &&& fields_get(fields_model(m@), name@) == type_model(m@[j as int].1)
            },
            None => !fields_contains(fields_model(m@), name@),
        },
{
    let ghost fm = fields_model(m@);
    proof {
        lemma_fields_model(m@);
    }
    let mut i: usize = 0;
    while i < m.len()
        invariant
            0 <= i <= m.len(),
            fm == fields_model(m@),
            fm.len() == m.len(),
            forall|k: int| 0 <= k < m.len() ==> #[trigger] fm[k] == (m@[k].0@, type_model(m@[k].1)),
            forall|j: int| 0 <= j < i ==> (#[trigger] fm[j]).0 != name@,
        decreases m.len() - i,
    {
        let c = compare_str(m[i].0.as_str(), name);
        proof {
            lemma_cmp_chars_basic(m@[i as int].0@, name@);
        }
        if c == 0 {
            proof {
                lemma_fields_first_match(fm, name@, i as int);
            }
            return Some(i);
        }
        i = i + 1;
    }
    proof {
        lemma_fields_no_match(fm, name@);
    }
    None
}

impl HIRType {
    /// Whether `self` may stand where a value of type `rhs` is expected.
    pub fn is_a(&self, rhs: &Self) -> (r: bool)
        ensures
            r == is_subtype(self@, rhs@),
        decreases ty_height(self@) + ty_height(rhs@),
    {
        match (self, rhs) {
            (HIRType::Infer, _) => true,
            (_, HIRType::Infer) => true,
            (HIRType::Unreachable, _) => true,
            (_, HIRType::Unreachable) => false,
            (HIRType::GenericsTypeArgument(i), HIRType::GenericsTypeArgument(j)) => i == j,
            (
                HIRType::Named { path: p1, generics_arguments: g1 },
                HIRType::Named { path: p2, generics_arguments: g2 },
            ) => {
                let ghost m1 = types_model(g1@);
                let ghost m2 = types_model(g2@);
                proof {
                    lemma_types_model(g1@);
                    lemma_types_model(g2@);
                    lemma_seq_height(m1);
                    lemma_seq_height(m2);
                }
                let c = compare_paths(p1, p2);
                proof {
                    lemma_cmp_paths_basic(
                        crate::types::path_model(p1@),
                        crate::types::path_model(p2@),
                    );
                }
                if c != 0 {
                    return false;
                }
                if g1.len() != g2.len() {
                    return false;
                }
                let mut k: usize = 0;
                while k < g1.len()
                    invariant
                        0 <= k <= g1.len(),
                        g1.len() == g2.len(),
                        self@ == (Ty::Named { path: crate::types::path_model(p1@), generics_arguments: m1 }),
                        rhs@ == (Ty::Named { path: crate::types::path_model(p2@), generics_arguments: m2 }),
                        m1 == types_model(g1@),
                        m2 == types_model(g2@),
                        m1.len() == g1.len(),
                        m2.len() == g2.len(),
                        forall|j: int| 0 <= j < g1.len() ==> #[trigger] m1[j] == type_model(g1@[j]),
                        forall|j: int| 0 <= j < g2.len() ==> #[trigger] m2[j] == type_model(g2@[j]),
                        forall|j: int| 0 <= j < m1.len() ==> ty_height(#[trigger] m1[j]) <= seq_height(m1),
                        forall|j: int| 0 <= j < m2.len() ==> ty_height(#[trigger] m2[j]) <= seq_height(m2),
                        forall|j: int| 0 <= j < k ==> is_subtype(#[trigger] m1[j], m2[j]),
                    decreases g1.len() - k,
                {
                    proof {
                        assert(m1[k as int] == type_model(g1@[k as int]));
                        assert(m2[k as int] == type_model(g2@[k as int]));
                        assert(ty_height(m1[k as int]) <= seq_height(m1));
                        assert(ty_height(m2[k as int]) <= seq_height(m2));
                    }
                    if !g1[k].is_a(&g2[k]) {
                        return false;
                    }
                    k = k + 1;
                }
                true
            },
            (HIRType::Tuple(i1), HIRType::Tuple(i2)) => {
                let ghost m1 = types_model(i1@);
                let ghost m2 = types_model(i2@);
                proof {
                    lemma_types_model(i1@);
                    lemma_types_model(i2@);
                    lemma_seq_height(m1);
                    lemma_seq_height(m2);
                }
                if i1.len() < i2.len() {
                    return false;
                }
                let mut k: usize = 0;
                while k < i2.len()
                    invariant
                        0 <= k <= i2.len(),
                        i1.len() >= i2.len(),
                        self@ == Ty::Tuple(m1),
                        rhs@ == Ty::Tuple(m2),
                        m1 == types_model(i1@),
                        m2 == types_model(i2@),
                        m1.len() == i1.len(),
                        m2.len() == i2.len(),
                        forall|j: int| 0 <= j < i1.len() ==> #[trigger] m1[j] == type_model(i1@[j]),
                        forall|j: int| 0 <= j < i2.len() ==> #[trigger] m2[j] == type_model(i2@[j]),
                        forall|j: int| 0 <= j < m1.len() ==> ty_height(#[trigger] m1[j]) <= seq_height(m1),
                        forall|j: int| 0 <= j < m2.len() ==> ty_height(#[trigger] m2[j]) <= seq_height(m2),
                        forall|j: int| 0 <= j < k ==> is_subtype(#[trigger] m1[j], m2[j]),
                    decreases i2.len() - k,
                {
                    proof {
                        assert(m1[k as int] == type_model(i1@[k as int]));
                        assert(m2[k as int] == type_model(i2@[k as int]));
                        assert(ty_height(m1[k as int]) <= seq_height(m1));
                        assert(ty_height(m2[k as int]) <= seq_height(m2));
                    }
                    if !i1[k].is_a(&i2[k]) {
                        return false;
                    }
                    k = k + 1;
                }
                true
            },
            (HIRType::Array(t1), HIRType::Array(t2)) => t1.is_a(t2),
            (
                HIRType::Function { arguments: a1, result: r1 },
                HIRType::Function { arguments: a2, result: r2 },
            ) => {
                let ghost m1 = types_model(a1@);
                let ghost m2 = types_model(a2@);
                proof {
                    lemma_types_model(a1@);
                    lemma_types_model(a2@);
                    lemma_seq_height(m1);
                    lemma_seq_height(m2);
                }
                if a1.len() != a2.len() {
                    return false;
                }
                let mut k: usize = 0;
                while k < a1.len()
                    invariant
                        0 <= k <= a1.len(),
                        a1.len() == a2.len(),
                        self@ == (Ty::Function { arguments: m1, result: Box::new(type_model(**r1)) }),
                        rhs@ == (Ty::Function { arguments: m2, result: Box::new(type_model(**r2)) }),
                        m1 == types_model(a1@),
                        m2 == types_model(a2@),
                        m1.len() == a1.len(),
                        m2.len() == a2.len(),
                        forall|j: int| 0 <= j < a1.len() ==> #[trigger] m1[j] == type_model(a1@[j]),
                        forall|j: int| 0 <= j < a2.len() ==> #[trigger] m2[j] == type_model(a2@[j]),
                        forall|j: int| 0 <= j < m1.len() ==> ty_height(#[trigger] m1[j]) <= seq_height(m1),
                        forall|j: int| 0 <= j < m2.len() ==> ty_height(#[trigger] m2[j]) <= seq_height(m2),
                        forall|j: int| 0 <= j < k ==> is_subtype(#[trigger] m2[j], m1[j]),
                    decreases a1.len() - k,
                {
                    proof {
                        assert(m1[k as int] == type_model(a1@[k as int]));
                        assert(m2[k as int] == type_model(a2@[k as int]));
                        assert(ty_height(m1[k as int]) <= seq_height(m1));
                        assert(ty_height(m2[k as int]) <= seq_height(m2));
                    }
                    if !a2[k].is_a(&a1[k]) {
                        return false;
                    }
                    k = k + 1;
                }
                r1.is_a(r2)
            },
            (HIRType::AnonymousStruct(m1), HIRType::AnonymousStruct(m2)) => {
                let ghost f1 = fields_model(m1@);
                let ghost f2 = fields_model(m2@);
                proof {
                    lemma_fields_model(m1@);
                    lemma_fields_model(m2@);
                    lemma_fields_get_height(f1);
                    lemma_fields_height(f2);
                }
                let mut k: usize = 0;
                while k < m2.len()
                    invariant
                        0 <= k <= m2.len(),
                        self@ == Ty::AnonymousStruct(f1),
                        rhs@ == Ty::AnonymousStruct(f2),
                        f1 == fields_model(m1@),
                        f2 == fields_model(m2@),
                        f1.len() == m1.len(),
                        f2.len() == m2.len(),
                        forall|j: int|
                            0 <= j < m2.len() ==> #[trigger] f2[j] == (m2@[j].0@, type_model(m2@[j].1)),
                        forall|name: Seq<char>|
                            #[trigger] fields_contains(f1, name) ==> ty_height(fields_get(f1, name))
                                <= fields_height(f1),
                        forall|j: int|
                            0 <= j < m2.len() ==> ty_height((#[trigger] f2[j]).1) <= fields_height(f2),
                        forall|j: int|
                            0 <= j < k ==> fields_contains(f1, (#[trigger] f2[j]).0) && is_subtype(
                                fields_get(f1, f2[j].0),
                                f2[j].1,
                            ),
                    decreases m2.len() - k,
                {
                    proof {
                        assert(f2[k as int] == (m2@[k as int].0@, type_model(m2@[k as int].1)));
                        assert(ty_height(f2[k as int].1) <= fields_height(f2));
                    }
                    match fields_find(m1, m2[k].0.as_str()) {
                        Some(j) => {
                            proof {
                                assert(fields_contains(f1, m2@[k as int].0@));
                                assert(fields_get(f1, m2@[k as int].0@) == type_model(
                                    m1@[j as int].1,
                                ));
                            }
                            if !m1[j].1.is_a(&m2[k].1) {
                                return false;
                            }
                        },
                        None => {
                            return false;
                        },
                    }
                    k = k + 1;
                }
                true
            },
            (HIRType::Or(items1), _) => {
                let ghost m1 = types_model(items1@);
                proof {
                    lemma_types_model(items1@);
                    lemma_seq_height(m1);
                    lemma_all_subtype_iff(m1, rhs@);
                }
                let mut k: usize = 0;
                while k < items1.len()
                    invariant
                        0 <= k <= items1.len(),
                        self@ == Ty::Or(m1),
                        !(rhs@ is Infer),
                        !(rhs@ is Unreachable),
                        all_subtype(m1, rhs@) <==> (forall|j: int|
                            0 <= j < m1.len() ==> is_subtype(#[trigger] m1[j], rhs@)),
                        m1 == types_model(items1@),
                        m1.len() == items1.len(),
                        forall|j: int|
                            0 <= j < items1.len() ==> #[trigger] m1[j] == type_model(items1@[j]),
                        forall|j: int| 0 <= j < m1.len() ==> ty_height(#[trigger] m1[j]) <= seq_height(m1),
                        forall|j: int| 0 <= j < k ==> is_subtype(#[trigger] m1[j], rhs@),
                    decreases items1.len() - k,
                {
                    proof {
                        assert(m1[k as int] == type_model(items1@[k as int]));
                        assert(ty_height(m1[k as int]) <= seq_height(m1));
                    }
                    if !items1[k].is_a(rhs) {
                        return false;
                    }
                    k = k + 1;
                }
                true
            },
            (_, HIRType::Or(items2)) => {
                let ghost m2 = types_model(items2@);
                proof {
                    lemma_types_model(items2@);
                    lemma_seq_height(m2);
                    lemma_any_subtype_iff(self@, m2);
                }
                let mut k: usize = 0;
                while k < items2.len()
                    invariant
                        0 <= k <= items2.len(),
                        rhs@ == Ty::Or(m2),
                        any_subtype(self@, m2) <==> exists|j: int|
                            0 <= j < m2.len() && is_subtype(self@, #[trigger] m2[j]),
                        !(self@ is Infer),
                        !(self@ is Unreachable),
                        !(self@ is Or),
                        m2 == types_model(items2@),
                        m2.len() == items2.len(),
                        forall|j: int|
                            0 <= j < items2.len() ==> #[trigger] m2[j] == type_model(items2@[j]),
                        forall|j: int| 0 <= j < m2.len() ==> ty_height(#[trigger] m2[j]) <= seq_height(m2),
                        forall|j: int| 0 <= j < k ==> !is_subtype(self@, #[trigger] m2[j]),
                    decreases items2.len() - k,
                {
                    proof {
                        assert(m2[k as int] == type_model(items2@[k as int]));
                        assert(ty_height(m2[k as int]) <= seq_height(m2));
                    }
                    if self.is_a(&items2[k]) {
                        proof {
                            assert(0 <= k < m2.len() && is_subtype(self@, m2[k as int]));
                        }
                        return true;
                    }
                    k = k + 1;
                }
                false
            },
            _ => false,
        }
    }
}


/// Member names of an anonymous struct are strictly increasing.
pub open spec fn fields_sorted(m: Seq<(Seq<char>, Ty)>) -> bool {
    forall|i: int, j: int|
        0 <= i < j < m.len() ==> crate::order::cmp_chars((#[trigger] m[i]).0, (#[trigger] m[j]).0)
            < 0
}

/// Well-formedness of a model value: every anonymous struct in it keeps its
/// member pairs strictly ordered by name, so names are unique and lookup is
/// a map lookup.
pub open spec fn ty_wf(t: Ty) -> bool
    decreases t,
{
    match t {
        Ty::Infer => true,
        Ty::Unreachable => true,
        Ty::GenericsTypeArgument(_) => true,
        Ty::Named { path, generics_arguments } => forall|k: int|
            0 <= k < generics_arguments.len() ==> ty_wf(#[trigger] generics_arguments[k]),
        Ty::Tuple(items) => forall|k: int| 0 <= k < items.len() ==> ty_wf(#[trigger] items[k]),
        Ty::Array(item) => ty_wf(*item),
        Ty::Function { arguments, result } => ty_wf(*result) && forall|k: int|
            0 <= k < arguments.len() ==> ty_wf(#[trigger] arguments[k]),
        Ty::AnonymousStruct(members) => fields_sorted(members) && forall|k: int|
            0 <= k < members.len() ==> ty_wf((#[trigger] members[k]).1),
        Ty::Or(items) => forall|k: int| 0 <= k < items.len() ==> ty_wf(#[trigger] items[k]),
    }
}

/// A type below some component of a union is below the whole union.
pub proof fn lemma_subtype_of_or_member(t: Ty, items: Seq<Ty>, k: int)
    requires
        0 <= k < items.len(),
        is_subtype(t, items[k]),
    ensures
        is_subtype(t, Ty::Or(items)),
    decreases t,
{
    match t {
        Ty::Or(inner) => {
            lemma_all_subtype_iff(inner, items[k]);
            assert forall|j: int| 0 <= j < inner.len() implies is_subtype(
                #[trigger] inner[j],
                Ty::Or(items),
            ) by {
                if items[k] is Unreachable {
                    assert(false);
                } else {
                    assert(is_subtype(inner[j], items[k]));
                    lemma_subtype_of_or_member(inner[j], items, k);
                }
            }
            lemma_all_subtype_iff(inner, Ty::Or(items));
            assert(is_subtype(t, Ty::Or(items)));
        },
        _ => {
            if !(t is Infer) && !(t is Unreachable) {
                lemma_or_introduction(t, items);
                assert(0 <= k < items.len() && is_subtype(t, items[k]));
            }
        },
    }
}

/// Reflexivity: every well-formed type is a subtype of itself.
pub proof fn lemma_is_a_reflexive(t: Ty)
    requires
        ty_wf(t),
    ensures
        is_subtype(t, t),
    decreases t,
{
    match t {
        Ty::Named { path, generics_arguments } => {
            assert forall|k: int| 0 <= k < generics_arguments.len() implies is_subtype(
                #[trigger] generics_arguments[k],
                generics_arguments[k],
            ) by {
                lemma_is_a_reflexive(generics_arguments[k]);
            }
        },
        Ty::Tuple(items) => {
            assert forall|k: int| 0 <= k < items.len() implies is_subtype(
                #[trigger] items[k],
                items[k],
            ) by {
                lemma_is_a_reflexive(items[k]);
            }
        },
        Ty::Array(item) => {
            lemma_is_a_reflexive(*item);
        },
        Ty::Function { arguments, result } => {
            lemma_is_a_reflexive(*result);
            assert forall|k: int| 0 <= k < arguments.len() implies is_subtype(
                #[trigger] arguments[k],
                arguments[k],
            ) by {
                lemma_is_a_reflexive(arguments[k]);
            }
        },
        Ty::AnonymousStruct(members) => {
            assert forall|k: int| 0 <= k < members.len() implies fields_contains(
                members,
                (#[trigger] members[k]).0,
            ) && is_subtype(fields_get(members, members[k].0), members[k].1) by {
                assert forall|j: int| 0 <= j < k implies (#[trigger] members[j]).0
                    != members[k].0 by {
                    crate::order::lemma_cmp_chars_basic(members[j].0, members[k].0);
                }
                lemma_fields_first_match(members, members[k].0, k);
                lemma_is_a_reflexive(members[k].1);
            }
        },
        Ty::Or(items) => {
            assert forall|k: int| 0 <= k < items.len() implies is_subtype(
                #[trigger] items[k],
                Ty::Or(items),
            ) by {
                lemma_is_a_reflexive(items[k]);
                lemma_subtype_of_or_member(items[k], items, k);
            }
            lemma_all_subtype_iff(items, Ty::Or(items));
        },
        _ => {},
    }
}

/// `Infer` is universal: it is below and above every type.
pub proof fn lemma_infer_universal(t: Ty)
    ensures
        is_subtype(Ty::Infer, t),
        is_subtype(t, Ty::Infer),
{
}

/// `Unreachable` is bottom: it is below every type, and nothing but
/// `Infer` and `Unreachable` itself is below it. `Infer` is below every
/// type, `Unreachable` included, so it is left out.
pub proof fn lemma_unreachable_bottom(t: Ty)
    ensures
        is_subtype(Ty::Unreachable, t),
        !(t is Infer) && !(t is Unreachable) ==> !is_subtype(t, Ty::Unreachable),
{
}

/// Tuple width subtyping: a tuple is below every shorter tuple whose slots
/// are pairwise above its prefix.
pub proof fn lemma_tuple_width(i1: Seq<Ty>, i2: Seq<Ty>)
    requires
        i1.len() >= i2.len(),
        forall|k: int| 0 <= k < i2.len() ==> is_subtype(#[trigger] i1[k], i2[k]),
    ensures
        is_subtype(Ty::Tuple(i1), Ty::Tuple(i2)),
{
}

/// Union introduction: a type that is neither `Infer` nor `Unreachable` nor
/// itself a union is below a union exactly when some component is above it.
pub proof fn lemma_or_introduction(t: Ty, items: Seq<Ty>)
    requires
        !(t is Infer),
        !(t is Unreachable),
        !(t is Or),
    ensures
        is_subtype(t, Ty::Or(items)) <==> exists|k: int|
            0 <= k < items.len() && is_subtype(t, #[trigger] items[k]),
{
    lemma_any_subtype_iff(t, items);
}

/// Union elimination: a union is below a type other than `Unreachable`
/// exactly when every component is. A union of unreachable components is
/// not below `Unreachable` itself, so that target is left out.
pub proof fn lemma_or_elimination(items: Seq<Ty>, u: Ty)
    requires
        !(u is Unreachable),
    ensures
        is_subtype(Ty::Or(items), u) <==> (forall|k: int|
            0 <= k < items.len() ==> is_subtype(#[trigger] items[k], u)),
{
    if u is Infer {
        assert forall|k: int| 0 <= k < items.len() implies is_subtype(#[trigger] items[k], u) by {
            assert(is_subtype(items[k], Ty::Infer));
        }
        assert(is_subtype(Ty::Or(items), u));
    } else {
        lemma_all_subtype_iff(items, u);
    }
}

/// Function variance: arguments are contravariant and the result covariant.
pub proof fn lemma_function_variance(a1: Seq<Ty>, r1: Ty, a2: Seq<Ty>, r2: Ty)
    ensures
        is_subtype(
            Ty::Function { arguments: a1, result: Box::new(r1) },
            Ty::Function { arguments: a2, result: Box::new(r2) },
        ) <==> (a1.len() == a2.len() && (forall|k: int|
            0 <= k < a1.len() ==> is_subtype(#[trigger] a2[k], a1[k])) && is_subtype(r1, r2)),
{
}

} // verus!
