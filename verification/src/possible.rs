//! The lenient assignability predicate: whether assignment could plausibly
//! succeed after inference, before full checking.

use vstd::prelude::*;

use crate::model::{
    fields_contains, fields_get, fields_height, lemma_fields_get_height, lemma_fields_height,
    lemma_seq_height, seq_height, ty_height, Ty,
};
use crate::order::lemma_cmp_ty_basic;
use crate::subtype::fields_find;
use crate::types::{fields_model, lemma_fields_model, lemma_types_model, type_model, types_model, HIRType};

verus! {

/// Whether a value of type `a` could plausibly be assigned where `b` is
/// expected: any `Infer` or generic parameter on either side is plausible,
/// tuples and arrays are compared structurally on their overlap, anonymous
/// structs fail only on a member both sides have with an impossibility, and
/// a union is plausible when some component is.
pub open spec fn spec_possible(a: Ty, b: Ty) -> bool
    decreases ty_height(a) + ty_height(b), 0int,
{
    if a == b {
        true
    } else {
        match (a, b) {
            (Ty::Infer, _) => true,
            (_, Ty::Infer) => true,
            (Ty::GenericsTypeArgument(_), _) => true,
            (_, Ty::GenericsTypeArgument(_)) => true,
            (Ty::Tuple(i1), Ty::Tuple(i2)) => {
                proof {
                    lemma_seq_height(i1);
                    lemma_seq_height(i2);
                }
                forall|k: int|
                    0 <= k < i1.len() && k < i2.len() ==> spec_possible(#[trigger] i1[k], i2[k])
            },
            (Ty::Array(t1), Ty::Array(t2)) => spec_possible(*t1, *t2),
            (Ty::AnonymousStruct(m1), Ty::AnonymousStruct(m2)) => {
                proof {
                    lemma_fields_get_height(m1);
                    lemma_fields_height(m2);
                }
                forall|k: int|
                    0 <= k < m2.len() && fields_contains(m1, (#[trigger] m2[k]).0)
                        ==> spec_possible(fields_get(m1, m2[k].0), m2[k].1)
            },
            (Ty::Or(types), _) => any_possible_left(types, b),
            (_, Ty::Or(types)) => any_possible_right(a, types),
            _ => false,
        }
    }
}

/// Whether some component of `items` is plausibly assignable to `b`.
pub open spec fn any_possible_left(items: Seq<Ty>, b: Ty) -> bool
    decreases seq_height(items) + ty_height(b), items.len() + 1,
{
    items.len() > 0 && (spec_possible(items[0], b) || any_possible_left(items.drop_first(), b))
}

/// Whether `a` is plausibly assignable to some component of `items`.
pub open spec fn any_possible_right(a: Ty, items: Seq<Ty>) -> bool
    decreases ty_height(a) + seq_height(items), items.len() + 1,
{
    items.len() > 0 && (spec_possible(a, items[0]) || any_possible_right(a, items.drop_first()))
}

/// A plausible component witnesses the union.
pub proof fn lemma_any_left_found(items: Seq<Ty>, b: Ty, i: int)
    requires
        0 <= i < items.len(),
        spec_possible(items[i], b),
    ensures
        any_possible_left(items, b),
    decreases i,
{
    if i > 0 {
        assert(items.drop_first()[i - 1] == items[i]);
        lemma_any_left_found(items.drop_first(), b, i - 1);
    }
}

/// No plausible component refutes the union.
pub proof fn lemma_any_left_none(items: Seq<Ty>, b: Ty)
    requires
        forall|k: int| 0 <= k < items.len() ==> !spec_possible(#[trigger] items[k], b),
    ensures
        !any_possible_left(items, b),
    decreases items.len(),
{
    if items.len() > 0 {
        assert(forall|k: int|
            0 <= k < items.drop_first().len() ==> #[trigger] items.drop_first()[k] == items[k
                + 1]);
        lemma_any_left_none(items.drop_first(), b);
    }
}

/// A plausible component witnesses the union target.
pub proof fn lemma_any_right_found(a: Ty, items: Seq<Ty>, i: int)
    requires
        0 <= i < items.len(),
        spec_possible(a, items[i]),
    ensures
        any_possible_right(a, items),
    decreases i,
{
    if i > 0 {
        assert(items.drop_first()[i - 1] == items[i]);
        lemma_any_right_found(a, items.drop_first(), i - 1);
    }
}

/// No plausible component refutes the union target.
pub proof fn lemma_any_right_none(a: Ty, items: Seq<Ty>)
    requires
        forall|k: int| 0 <= k < items.len() ==> !spec_possible(a, #[trigger] items[k]),
    ensures
        !any_possible_right(a, items),
    decreases items.len(),
{
    if items.len() > 0 {
        assert(forall|k: int|
            0 <= k < items.drop_first().len() ==> #[trigger] items.drop_first()[k] == items[k
                + 1]);
        lemma_any_right_none(a, items.drop_first());
    }
}

impl HIRType {
    /// Whether a value of this type could plausibly be assigned where
    /// `target` is expected.
    pub fn possibility_assignable_to(&self, target: &HIRType) -> (r: bool)
        ensures
            r == spec_possible(self@, target@),
        decreases ty_height(self@) + ty_height(target@), 0int,
    {
        let c = self.compare(target);
        proof {
            lemma_cmp_ty_basic(self@, target@);
        }
        if c == 0 {
            return true;
        }
        match (self, target) {
            (HIRType::Infer, _) => true,
            (_, HIRType::Infer) => true,
            (HIRType::GenericsTypeArgument(_), _) => true,
            (_, HIRType::GenericsTypeArgument(_)) => true,
            (HIRType::Tuple(i1), HIRType::Tuple(i2)) => {
                let ghost m1 = types_model(i1@);
                let ghost m2 = types_model(i2@);
                proof {
                    lemma_types_model(i1@);
                    lemma_types_model(i2@);
                    lemma_seq_height(m1);
                    lemma_seq_height(m2);
                }
                let mut k: usize = 0;
                while k < i1.len() && k < i2.len()
                    invariant
                        0 <= k <= i1.len(),
                        k <= i2.len(),
                        self@ == Ty::Tuple(m1),
                        target@ == Ty::Tuple(m2),
                        self@ != target@,
                        m1 == types_model(i1@),
                        m2 == types_model(i2@),
                        m1.len() == i1.len(),
                        m2.len() == i2.len(),
                        forall|j: int| 0 <= j < i1.len() ==> #[trigger] m1[j] == type_model(i1@[j]),
                        forall|j: int| 0 <= j < i2.len() ==> #[trigger] m2[j] == type_model(i2@[j]),
                        forall|j: int|
                            0 <= j < m1.len() ==> ty_height(#[trigger] m1[j]) <= seq_height(m1),
                        forall|j: int|
                            0 <= j < m2.len() ==> ty_height(#[trigger] m2[j]) <= seq_height(m2),
                        forall|j: int| 0 <= j < k ==> spec_possible(#[trigger] m1[j], m2[j]),
                    decreases i1.len() - k,
                {
                    proof {
                        assert(m1[k as int] == type_model(i1@[k as int]));
                        assert(m2[k as int] == type_model(i2@[k as int]));
                    }
                    if !i1[k].possibility_assignable_to(&i2[k]) {
                        return false;
                    }
                    k = k + 1;
                }
                true
            },
            (HIRType::Array(t1), HIRType::Array(t2)) => {
                (**t1).possibility_assignable_to(t2)
            },
            (HIRType::AnonymousStruct(m1), HIRType::AnonymousStruct(m2)) => {
                let ghost f1 = fields_model(m1@);
                let ghost f2 = fields_model(m2@);
                proof {
                    lemma_fields_model(m1@);
                    lemma_fields_model(m2@);
                    lemma_fields_get_height(f1);
                    lemma_fields_height(f2);
                }
                let mut k: usize = 0;
                while k < m2.len()
                    invariant
                        0 <= k <= m2.len(),
                        self@ == Ty::AnonymousStruct(f1),
                        target@ == Ty::AnonymousStruct(f2),
                        self@ != target@,
                        f1 == fields_model(m1@),
                        f2 == fields_model(m2@),
                        f1.len() == m1.len(),
                        f2.len() == m2.len(),
                        forall|j: int|
                            0 <= j < m2.len() ==> #[trigger] f2[j] == (
                                m2@[j].0@,
                                type_model(m2@[j].1),
                            ),
                        forall|name: Seq<char>|
                            #[trigger] fields_contains(f1, name) ==> ty_height(fields_get(f1, name))
                                <= fields_height(f1),
                        forall|j: int|
                            0 <= j < m2.len() ==> ty_height((#[trigger] f2[j]).1) <= fields_height(
                                f2,
                            ),
                        forall|j: int|
                            0 <= j < k && fields_contains(f1, (#[trigger] f2[j]).0)
                                ==> spec_possible(fields_get(f1, f2[j].0), f2[j].1),
                    decreases m2.len() - k,
                {
                    proof {
                        assert(f2[k as int] == (m2@[k as int].0@, type_model(m2@[k as int].1)));
                        assert(ty_height(f2[k as int].1) <= fields_height(f2));
                    }
                    match fields_find(m1, m2[k].0.as_str()) {
                        Some(j) => {
                            proof {
                                assert(fields_contains(f1, m2@[k as int].0@));
                                assert(fields_get(f1, m2@[k as int].0@) == type_model(
                                    m1@[j as int].1,
                                ));
                            }
                            if !m1[j].1.possibility_assignable_to(&m2[k].1) {
                                return false;
                            }
                        },
                        None => {},
                    }
                    k = k + 1;
                }
                true
            },
            (HIRType::Or(types), _) => {
                let ghost m = types_model(types@);
                proof {
                    lemma_types_model(types@);
                    lemma_seq_height(m);
                }
                let mut k: usize = 0;
                while k < types.len()
                    invariant
                        0 <= k <= types.len(),
                        self@ == Ty::Or(m),
                        self@ != target@,
                        !(target@ is Infer),
                        !(target@ is GenericsTypeArgument),
                        m == types_model(types@),
                        m.len() == types.len(),
                        forall|j: int|
                            0 <= j < types.len() ==> #[trigger] m[j] == type_model(types@[j]),
                        forall|j: int|
                            0 <= j < m.len() ==> ty_height(#[trigger] m[j]) <= seq_height(m),
                        forall|j: int| 0 <= j < k ==> !spec_possible(#[trigger] m[j], target@),
                    decreases types.len() - k,
                {
                    proof {
                        assert(m[k as int] == type_model(types@[k as int]));
                    }
                    if types[k].possibility_assignable_to(target) {
                        proof {
                            lemma_any_left_found(m, target@, k as int);
                        }
                        return true;
                    }
                    k = k + 1;
                }
                proof {
                    lemma_any_left_none(m, target@);
                }
                false
            },
            (_, HIRType::Or(types)) => {
                let ghost m = types_model(types@);
                proof {
                    lemma_types_model(types@);
                    lemma_seq_height(m);
                }
                let mut k: usize = 0;
                while k < types.len()
                    invariant
                        0 <= k <= types.len(),
                        target@ == Ty::Or(m),
                        self@ != target@,
                        !(self@ is Infer),
                        !(self@ is GenericsTypeArgument),
                        !(self@ is Or),
                        m == types_model(types@),
                        m.len() == types.len(),
                        forall|j: int|
                            0 <= j < types.len() ==> #[trigger] m[j] == type_model(types@[j]),
                        forall|j: int|
                            0 <= j < m.len() ==> ty_height(#[trigger] m[j]) <= seq_height(m),
                        forall|j: int| 0 <= j < k ==> !spec_possible(self@, #[trigger] m[j]),
                    decreases types.len() - k,
                {
                    proof {
                        assert(m[k as int] == type_model(types@[k as int]));
                    }
                    if self.possibility_assignable_to(&types[k]) {
                        proof {
                            lemma_any_right_found(self@, m, k as int);
                        }
                        return true;
                    }
                    k = k + 1;
                }
                proof {
                    lemma_any_right_none(self@, m);
                }
                false
            },
            _ => false,
        }
    }
}

} // verus!
