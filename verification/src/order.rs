//! The stable total order on type values.
//!
//! `Or` normalization sorts and deduplicates union components, so the library
//! fixes a total order: first by variant tag, then lexicographically on the
//! contents. The comparison functions return `-1`, `0` or `1`; the lemmas at
//! the end establish that the order is total, transitive, and that two values
//! compare equal exactly when they are the same model value.

use vstd::prelude::*;
use vstd::string::StrSliceExecFns;

use crate::model::Ty;
use crate::types::HIRType;
use crate::types::{lemma_fields_model, lemma_types_model, type_model};

verus! {

/// Rank of a variant in the total order.
pub open spec fn ty_tag(t: Ty) -> int {
    match t {
        Ty::Infer => 0,
        Ty::Unreachable => 1,
        Ty::GenericsTypeArgument(_) => 2,
        Ty::Named { .. } => 3,
        Ty::Tuple(_) => 4,
        Ty::Array(_) => 5,
        Ty::Function { .. } => 6,
        Ty::AnonymousStruct(_) => 7,
        Ty::Or(_) => 8,
    }
}

/// Lexicographic comparison of two character sequences by code point; a
/// proper prefix is smaller.
pub open spec fn cmp_chars(a: Seq<char>, b: Seq<char>) -> int
    decreases a,
{
    if a.len() == 0 && b.len() == 0 {
        0
    } else if a.len() == 0 {
        -1
    } else if b.len() == 0 {
        1
    } else if (a[0] as u32) < (b[0] as u32) {
        -1
    } else if (a[0] as u32) > (b[0] as u32) {
        1
    } else {
        cmp_chars(a.drop_first(), b.drop_first())
    }
}

/// Lexicographic comparison of two paths, component by component.
pub open spec fn cmp_paths(a: Seq<Seq<char>>, b: Seq<Seq<char>>) -> int
    decreases a,
{
    if a.len() == 0 && b.len() == 0 {
        0
    } else if a.len() == 0 {
        -1
    } else if b.len() == 0 {
        1
    } else if cmp_chars(a[0], b[0]) != 0 {
        cmp_chars(a[0], b[0])
    } else {
        cmp_paths(a.drop_first(), b.drop_first())
    }
}

/// Total order on model values: variant tag first, then the contents.
pub open spec fn cmp_ty(a: Ty, b: Ty) -> int
    decreases a, b,
{
    if ty_tag(a) < ty_tag(b) {
        -1
    } else if ty_tag(a) > ty_tag(b) {
        1
    } else {
        match (a, b) {
            (Ty::GenericsTypeArgument(i), Ty::GenericsTypeArgument(j)) => if i < j {
                -1
            } else if i > j {
                1
            } else {
                0
            },
            (
                Ty::Named { path: p1, generics_arguments: g1 },
                Ty::Named { path: p2, generics_arguments: g2 },
            ) => if cmp_paths(p1, p2) != 0 {
                cmp_paths(p1, p2)
            } else {
                cmp_tys(g1, g2)
            },
            (Ty::Tuple(i1), Ty::Tuple(i2)) => cmp_tys(i1, i2),
            (Ty::Array(t1), Ty::Array(t2)) => cmp_ty(*t1, *t2),
            (
                Ty::Function { arguments: a1, result: r1 },
                Ty::Function { arguments: a2, result: r2 },
            ) => if cmp_tys(a1, a2) != 0 {
                cmp_tys(a1, a2)
            } else {
                cmp_ty(*r1, *r2)
            },
            (Ty::AnonymousStruct(m1), Ty::AnonymousStruct(m2)) => cmp_fields(m1, m2),
            (Ty::Or(i1), Ty::Or(i2)) => cmp_tys(i1, i2),
            _ => 0,
        }
    }
}

/// Lexicographic comparison of two sequences of model values.
pub open spec fn cmp_tys(a: Seq<Ty>, b: Seq<Ty>) -> int
    decreases a, b,
{
    if a.len() == 0 && b.len() == 0 {
        0
    } else if a.len() == 0 {
        -1
    } else if b.len() == 0 {
        1
    } else if cmp_ty(a[0], b[0]) != 0 {
        cmp_ty(a[0], b[0])
    } else {
        cmp_tys(a.drop_first(), b.drop_first())
    }
}

/// Lexicographic comparison of two member sequences: by name, then by type.
pub open spec fn cmp_fields(a: Seq<(Seq<char>, Ty)>, b: Seq<(Seq<char>, Ty)>) -> int
    decreases a, b,
{
    if a.len() == 0 && b.len() == 0 {
        0
    } else if a.len() == 0 {
        -1
    } else if b.len() == 0 {
        1
    } else if cmp_chars(a[0].0, b[0].0) != 0 {
        cmp_chars(a[0].0, b[0].0)
    } else if cmp_ty(a[0].1, b[0].1) != 0 {
        cmp_ty(a[0].1, b[0].1)
    } else {
        cmp_fields(a.drop_first(), b.drop_first())
    }
}

/// Two characters with the same code point are the same character.
proof fn lemma_char_eq(a: char, b: char)
    requires
        a as u32 == b as u32,
    ensures
        a == b,
{
}

/// `cmp_chars` is total and antisymmetric, and zero exactly on equal inputs.
pub proof fn lemma_cmp_chars_basic(a: Seq<char>, b: Seq<char>)
    ensures
        -1 <= cmp_chars(a, b) <= 1,
        cmp_chars(a, b) == -cmp_chars(b, a),
        cmp_chars(a, b) == 0 ==> a == b,
    decreases a,
{
    if a.len() > 0 && b.len() > 0 && (a[0] as u32) == (b[0] as u32) {
        lemma_cmp_chars_basic(a.drop_first(), b.drop_first());
        if cmp_chars(a, b) == 0 {
            lemma_char_eq(a[0], b[0]);
            assert(a =~= seq![a[0]] + a.drop_first());
            assert(b =~= seq![b[0]] + b.drop_first());
        }
    }
}

/// `cmp_chars` is transitive.
pub proof fn lemma_cmp_chars_trans(a: Seq<char>, b: Seq<char>, c: Seq<char>)
    requires
        cmp_chars(a, b) <= 0,
        cmp_chars(b, c) <= 0,
    ensures
        cmp_chars(a, c) <= 0,
    decreases a,
{
    if a.len() > 0 && b.len() > 0 && c.len() > 0 {
        if (a[0] as u32) == (b[0] as u32) && (b[0] as u32) == (c[0] as u32) {
            lemma_cmp_chars_trans(a.drop_first(), b.drop_first(), c.drop_first());
        }
    }
}

/// `cmp_paths` is total and antisymmetric, and zero exactly on equal inputs.
pub proof fn lemma_cmp_paths_basic(a: Seq<Seq<char>>, b: Seq<Seq<char>>)
    ensures
        -1 <= cmp_paths(a, b) <= 1,
        cmp_paths(a, b) == -cmp_paths(b, a),
        cmp_paths(a, b) == 0 ==> a == b,
    decreases a,
{
    if a.len() > 0 && b.len() > 0 {
        lemma_cmp_chars_basic(a[0], b[0]);
        if cmp_chars(a[0], b[0]) == 0 {
            lemma_cmp_paths_basic(a.drop_first(), b.drop_first());
            if cmp_paths(a, b) == 0 {
                assert(a =~= seq![a[0]] + a.drop_first());
                assert(b =~= seq![b[0]] + b.drop_first());
            }
        }
    }
}

/// `cmp_paths` is transitive.
pub proof fn lemma_cmp_paths_trans(a: Seq<Seq<char>>, b: Seq<Seq<char>>, c: Seq<Seq<char>>)
    requires
        cmp_paths(a, b) <= 0,
        cmp_paths(b, c) <= 0,
    ensures
        cmp_paths(a, c) <= 0,
    decreases a,
{
    if a.len() > 0 && b.len() > 0 && c.len() > 0 {
        lemma_cmp_chars_basic(a[0], b[0]);
        lemma_cmp_chars_basic(b[0], c[0]);
        lemma_cmp_chars_basic(a[0], c[0]);
        lemma_cmp_chars_trans(a[0], b[0], c[0]);
        if cmp_chars(a[0], b[0]) == 0 && cmp_chars(b[0], c[0]) == 0 {
            lemma_cmp_paths_trans(a.drop_first(), b.drop_first(), c.drop_first());
        }
    }
}

/// `cmp_ty` is total and antisymmetric, and zero exactly on equal inputs.
pub proof fn lemma_cmp_ty_basic(a: Ty, b: Ty)
    ensures
        -1 <= cmp_ty(a, b) <= 1,
        cmp_ty(a, b) == -cmp_ty(b, a),
        cmp_ty(a, b) == 0 ==> a == b,
    decreases a, b,
{
    match (a, b) {
        (
            Ty::Named { path: p1, generics_arguments: g1 },
            Ty::Named { path: p2, generics_arguments: g2 },
        ) => {
            lemma_cmp_paths_basic(p1, p2);
            lemma_cmp_tys_basic(g1, g2);
            if cmp_ty(a, b) == 0 {
                assert(a =~= b);
            }
        },
        (Ty::Tuple(i1), Ty::Tuple(i2)) => {
            lemma_cmp_tys_basic(i1, i2);
            if cmp_ty(a, b) == 0 {
                assert(a =~= b);
            }
        },
        (Ty::Array(t1), Ty::Array(t2)) => {
            lemma_cmp_ty_basic(*t1, *t2);
        },
        (
            Ty::Function { arguments: a1, result: r1 },
            Ty::Function { arguments: a2, result: r2 },
        ) => {
            lemma_cmp_tys_basic(a1, a2);
            lemma_cmp_ty_basic(*r1, *r2);
            if cmp_ty(a, b) == 0 {
                assert(a =~= b);
            }
        },
        (Ty::AnonymousStruct(m1), Ty::AnonymousStruct(m2)) => {
            lemma_cmp_fields_basic(m1, m2);
            if cmp_ty(a, b) == 0 {
                assert(a =~= b);
            }
        },
        (Ty::Or(i1), Ty::Or(i2)) => {
            lemma_cmp_tys_basic(i1, i2);
            if cmp_ty(a, b) == 0 {
                assert(a =~= b);
            }
        },
        _ => {},
    }
}

/// `cmp_tys` is total and antisymmetric, and zero exactly on equal inputs.
pub proof fn lemma_cmp_tys_basic(a: Seq<Ty>, b: Seq<Ty>)
    ensures
        -1 <= cmp_tys(a, b) <= 1,
        cmp_tys(a, b) == -cmp_tys(b, a),
        cmp_tys(a, b) == 0 ==> a == b,
    decreases a, b,
{
    if a.len() > 0 && b.len() > 0 {
        lemma_cmp_ty_basic(a[0], b[0]);
        if cmp_ty(a[0], b[0]) == 0 {
            lemma_cmp_tys_basic(a.drop_first(), b.drop_first());
            if cmp_tys(a, b) == 0 {
                assert(a =~= seq![a[0]] + a.drop_first());
                assert(b =~= seq![b[0]] + b.drop_first());
            }
        }
    }
}

/// `cmp_fields` is total and antisymmetric, and zero exactly on equal inputs.
pub proof fn lemma_cmp_fields_basic(a: Seq<(Seq<char>, Ty)>, b: Seq<(Seq<char>, Ty)>)
    ensures
        -1 <= cmp_fields(a, b) <= 1,
        cmp_fields(a, b) == -cmp_fields(b, a),
        cmp_fields(a, b) == 0 ==> a == b,
    decreases a, b,
{
    if a.len() > 0 && b.len() > 0 {
        lemma_cmp_chars_basic(a[0].0, b[0].0);
        lemma_cmp_ty_basic(a[0].1, b[0].1);
        if cmp_chars(a[0].0, b[0].0) == 0 && cmp_ty(a[0].1, b[0].1) == 0 {
            lemma_cmp_fields_basic(a.drop_first(), b.drop_first());
            if cmp_fields(a, b) == 0 {
                assert(a[0] == b[0]);
                assert(a =~= seq![a[0]] + a.drop_first());
                assert(b =~= seq![b[0]] + b.drop_first());
            }
        }
    }
}

/// `cmp_ty` is transitive.
pub proof fn lemma_cmp_ty_trans(a: Ty, b: Ty, c: Ty)
    requires
        cmp_ty(a, b) <= 0,
        cmp_ty(b, c) <= 0,
    ensures
        cmp_ty(a, c) <= 0,
    decreases a, b, c,
{
    if ty_tag(a) == ty_tag(b) && ty_tag(b) == ty_tag(c) {
        match (a, b, c) {
            (
                Ty::Named { path: p1, generics_arguments: g1 },
                Ty::Named { path: p2, generics_arguments: g2 },
                Ty::Named { path: p3, generics_arguments: g3 },
            ) => {
                lemma_cmp_paths_basic(p1, p2);
                lemma_cmp_paths_basic(p2, p3);
                lemma_cmp_paths_basic(p1, p3);
                lemma_cmp_paths_trans(p1, p2, p3);
                if cmp_paths(p1, p2) == 0 && cmp_paths(p2, p3) == 0 {
                    lemma_cmp_tys_trans(g1, g2, g3);
                }
            },
            (Ty::Tuple(i1), Ty::Tuple(i2), Ty::Tuple(i3)) => {
                lemma_cmp_tys_trans(i1, i2, i3);
            },
            (Ty::Array(t1), Ty::Array(t2), Ty::Array(t3)) => {
                lemma_cmp_ty_trans(*t1, *t2, *t3);
            },
            (
                Ty::Function { arguments: a1, result: r1 },
                Ty::Function { arguments: a2, result: r2 },
                Ty::Function { arguments: a3, result: r3 },
            ) => {
                lemma_cmp_tys_basic(a1, a2);
                lemma_cmp_tys_basic(a2, a3);
                lemma_cmp_tys_basic(a1, a3);
                lemma_cmp_tys_trans(a1, a2, a3);
                if cmp_tys(a1, a2) == 0 && cmp_tys(a2, a3) == 0 {
                    lemma_cmp_ty_trans(*r1, *r2, *r3);
                }
            },
            (Ty::AnonymousStruct(m1), Ty::AnonymousStruct(m2), Ty::AnonymousStruct(m3)) => {
                lemma_cmp_fields_trans(m1, m2, m3);
            },
            (Ty::Or(i1), Ty::Or(i2), Ty::Or(i3)) => {
                lemma_cmp_tys_trans(i1, i2, i3);
            },
            _ => {},
        }
    }
}

/// `cmp_tys` is transitive.
pub proof fn lemma_cmp_tys_trans(a: Seq<Ty>, b: Seq<Ty>, c: Seq<Ty>)
    requires
        cmp_tys(a, b) <= 0,
        cmp_tys(b, c) <= 0,
    ensures
        cmp_tys(a, c) <= 0,
    decreases a, b, c,
{
    if a.len() > 0 && b.len() > 0 && c.len() > 0 {
        lemma_cmp_ty_basic(a[0], b[0]);
        lemma_cmp_ty_basic(b[0], c[0]);
        lemma_cmp_ty_basic(a[0], c[0]);
        lemma_cmp_ty_trans(a[0], b[0], c[0]);
        if cmp_ty(a[0], b[0]) == 0 && cmp_ty(b[0], c[0]) == 0 {
            lemma_cmp_tys_trans(a.drop_first(), b.drop_first(), c.drop_first());
        }
    }
}

/// `cmp_fields` is transitive.
pub proof fn lemma_cmp_fields_trans(
    a: Seq<(Seq<char>, Ty)>,
    b: Seq<(Seq<char>, Ty)>,
    c: Seq<(Seq<char>, Ty)>,
)
    requires
        cmp_fields(a, b) <= 0,
        cmp_fields(b, c) <= 0,
    ensures
        cmp_fields(a, c) <= 0,
    decreases a, b, c,
{
    if a.len() > 0 && b.len() > 0 && c.len() > 0 {
        lemma_cmp_chars_basic(a[0].0, b[0].0);
        lemma_cmp_chars_basic(b[0].0, c[0].0);
        lemma_cmp_chars_basic(a[0].0, c[0].0);
        lemma_cmp_chars_trans(a[0].0, b[0].0, c[0].0);
        if cmp_chars(a[0].0, b[0].0) == 0 && cmp_chars(b[0].0, c[0].0) == 0 {
            lemma_cmp_ty_basic(a[0].1, b[0].1);
            lemma_cmp_ty_basic(b[0].1, c[0].1);
            lemma_cmp_ty_basic(a[0].1, c[0].1);
            lemma_cmp_ty_trans(a[0].1, b[0].1, c[0].1);
            if cmp_ty(a[0].1, b[0].1) == 0 && cmp_ty(b[0].1, c[0].1) == 0 {
                lemma_cmp_fields_trans(a.drop_first(), b.drop_first(), c.drop_first());
            }
        }
    }
}

/// Compares two strings character by character.
pub(crate) fn compare_str(a: &str, b: &str) -> (r: i32)
    ensures
        r as int == cmp_chars(a@, b@),
{
    let alen = a.unicode_len();
    let blen = b.unicode_len();
    let mut i: usize = 0;
    proof {
        assert(a@.skip(0) =~= a@);
        assert(b@.skip(0) =~= b@);
    }
    while i < alen && i < blen
        invariant
            0 <= i <= alen,
            i <= blen,
            alen == a@.len(),
            blen == b@.len(),
            cmp_chars(a@, b@) == cmp_chars(a@.skip(i as int), b@.skip(i as int)),
        decreases alen - i,
    {
        let ca = a.get_char(i);
        let cb = b.get_char(i);
        if (ca as u32) < (cb as u32) {
            return -1;
        }
        if (ca as u32) > (cb as u32) {
            return 1;
        }
        proof {
            lemma_char_eq(ca, cb);
            assert(a@.skip(i as int).drop_first() =~= a@.skip(i as int + 1));
            assert(b@.skip(i as int).drop_first() =~= b@.skip(i as int + 1));
        }
        i = i + 1;
    }
    if alen == blen {
        0
    } else if alen < blen {
        -1
    } else {
        1
    }
}

/// Compares two paths lexicographically.
pub(crate) fn compare_paths(a: &Vec<String>, b: &Vec<String>) -> (r: i32)
    ensures
        r as int == cmp_paths(crate::types::path_model(a@), crate::types::path_model(b@)),
{
    let ghost am = crate::types::path_model(a@);
    let ghost bm = crate::types::path_model(b@);
    let mut i: usize = 0;
    proof {
        assert(am.skip(0) =~= am);
        assert(bm.skip(0) =~= bm);
    }
    while i < a.len() && i < b.len()
        invariant
            0 <= i <= a.len(),
            i <= b.len(),
            am == crate::types::path_model(a@),
            bm == crate::types::path_model(b@),
            am.len() == a.len(),
            bm.len() == b.len(),
            cmp_paths(am, bm) == cmp_paths(am.skip(i as int), bm.skip(i as int)),
        decreases a.len() - i,
    {
        let c = compare_str(a[i].as_str(), b[i].as_str());
        if c != 0 {
            return c;
        }
        proof {
            assert(am.skip(i as int).drop_first() =~= am.skip(i as int + 1));
            assert(bm.skip(i as int).drop_first() =~= bm.skip(i as int + 1));
        }
        i = i + 1;
    }
    if a.len() == b.len() {
        0
    } else if a.len() < b.len() {
        -1
    } else {
        1
    }
}

/// Rank of a type's variant in the total order.
fn tag_of(t: &HIRType) -> (r: u32)
    ensures
        r as int == ty_tag(t@),
{
    match t {
        HIRType::Infer => 0,
        HIRType::Unreachable => 1,
        HIRType::GenericsTypeArgument(_) => 2,
        HIRType::Named { .. } => 3,
        HIRType::Tuple(_) => 4,
        HIRType::Array(_) => 5,
        HIRType::Function { .. } => 6,
        HIRType::AnonymousStruct(_) => 7,
        HIRType::Or(_) => 8,
    }
}

impl HIRType {
    /// Compares two types in the stable total order used by normalization:
    /// `-1`, `0` or `1` as `self` is below, at, or above `rhs`.
    pub fn compare(&self, rhs: &HIRType) -> (r: i32)
        ensures
            r as int == cmp_ty(self@, rhs@),
        decreases *self,
    {
        let ta = tag_of(self);
        let tb = tag_of(rhs);
        if ta < tb {
            return -1;
        }
        if ta > tb {
            return 1;
        }
        match (self, rhs) {
            (HIRType::GenericsTypeArgument(i), HIRType::GenericsTypeArgument(j)) => {
                if i < j {
                    -1
                } else if i > j {
                    1
                } else {
                    0
                }
            },
            (
                HIRType::Named { path: p1, generics_arguments: g1 },
                HIRType::Named { path: p2, generics_arguments: g2 },
            ) => {
                let c = compare_paths(p1, p2);
                if c != 0 {
                    c
                } else {
                    compare_type_vecs(g1, g2)
                }
            },
            (HIRType::Tuple(i1), HIRType::Tuple(i2)) => compare_type_vecs(i1, i2),
            (HIRType::Array(t1), HIRType::Array(t2)) => t1.compare(t2),
            (
                HIRType::Function { arguments: a1, result: r1 },
                HIRType::Function { arguments: a2, result: r2 },
            ) => {
                let c = compare_type_vecs(a1, a2);
                if c != 0 {
                    c
                } else {
                    r1.compare(r2)
                }
            },
            (HIRType::AnonymousStruct(m1), HIRType::AnonymousStruct(m2)) => compare_fields(m1, m2),
            (HIRType::Or(i1), HIRType::Or(i2)) => compare_type_vecs(i1, i2),
            _ => 0,
        }
    }
}

/// Compares two sequences of types lexicographically.
fn compare_type_vecs(a: &Vec<HIRType>, b: &Vec<HIRType>) -> (r: i32)
    ensures
        r as int == cmp_tys(types_model_of(a), types_model_of(b)),
    decreases a@,
{
    let ghost am = types_model_of(a);
    let ghost bm = types_model_of(b);
    proof {
        lemma_types_model(a@);
        lemma_types_model(b@);
    }
    let mut i: usize = 0;
    proof {
        assert(am.skip(0) =~= am);
        assert(bm.skip(0) =~= bm);
    }
    while i < a.len() && i < b.len()
        invariant
            0 <= i <= a.len(),
            i <= b.len(),
            am == types_model_of(a),
            bm == types_model_of(b),
            am.len() == a.len(),
            bm.len() == b.len(),
            forall|k: int| 0 <= k < a.len() ==> #[trigger] am[k] == type_model(a@[k]),
            forall|k: int| 0 <= k < b.len() ==> #[trigger] bm[k] == type_model(b@[k]),
            cmp_tys(am, bm) == cmp_tys(am.skip(i as int), bm.skip(i as int)),
        decreases a.len() - i,
    {
        let c = a[i].compare(&b[i]);
        if c != 0 {
            return c;
        }
        proof {
            assert(am.skip(i as int).drop_first() =~= am.skip(i as int + 1));
            assert(bm.skip(i as int).drop_first() =~= bm.skip(i as int + 1));
        }
        i = i + 1;
    }
    if a.len() == b.len() {
        0
    } else if a.len() < b.len() {
        -1
    } else {
        1
    }
}

/// Compares two member sequences lexicographically: by name, then by type.
fn compare_fields(a: &Vec<(String, HIRType)>, b: &Vec<(String, HIRType)>) -> (r: i32)
    ensures
        r as int == cmp_fields(fields_model_of(a), fields_model_of(b)),
    decreases a@,
{
    let ghost am = fields_model_of(a);
    let ghost bm = fields_model_of(b);
    proof {
        lemma_fields_model(a@);
        lemma_fields_model(b@);
    }
    let mut i: usize = 0;
    proof {
        assert(am.skip(0) =~= am);
        assert(bm.skip(0) =~= bm);
    }
    while i < a.len() && i < b.len()
        invariant
            0 <= i <= a.len(),
            i <= b.len(),
            am == fields_model_of(a),
            bm == fields_model_of(b),
            am.len() == a.len(),
            bm.len() == b.len(),
            forall|k: int|
                0 <= k < a.len() ==> #[trigger] am[k] == (a@[k].0@, type_model(a@[k].1)),
            forall|k: int|
                0 <= k < b.len() ==> #[trigger] bm[k] == (b@[k].0@, type_model(b@[k].1)),
            cmp_fields(am, bm) == cmp_fields(am.skip(i as int), bm.skip(i as int)),
        decreases a.len() - i,
    {
        let c = compare_str(a[i].0.as_str(), b[i].0.as_str());
        if c != 0 {
            return c;
        }
        let c = a[i].1.compare(&b[i].1);
        if c != 0 {
            return c;
        }
        proof {
            assert(am.skip(i as int).drop_first() =~= am.skip(i as int + 1));
            assert(bm.skip(i as int).drop_first() =~= bm.skip(i as int + 1));
        }
        i = i + 1;
    }
    if a.len() == b.len() {
        0
    } else if a.len() < b.len() {
        -1
    } else {
        1
    }
}

/// Model of a vector of types (shorthand used by contracts in this module).
pub open spec fn types_model_of(v: &Vec<HIRType>) -> Seq<Ty> {
    crate::types::types_model(v@)
}

/// Model of a vector of members (shorthand used by contracts in this module).
pub open spec fn fields_model_of(v: &Vec<(String, HIRType)>) -> Seq<(Seq<char>, Ty)> {
    crate::types::fields_model(v@)
}

} // verus!
