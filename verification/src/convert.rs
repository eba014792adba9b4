//! The surface syntax consumed from the parser, and its conversion into the
//! type lattice.
//!
//! The parser is an external collaborator; these types model exactly what
//! the conversions read of its output: source positions, paths, the type
//! shapes, and patterns. Conversion is total except for one failure:
//! an anonymous struct that uses the same member name twice.

use vstd::prelude::*;

use crate::model::Ty;
use crate::order::{cmp_chars, compare_str, lemma_cmp_chars_basic};
use crate::types::{
    fields_model, lemma_fields_model, lemma_types_model, path_model, type_model, types_model,
    HIRType, HIRTypeConvertError,
};

verus! {

/// A position in the source text.
#[derive(Debug, PartialEq, Eq, Clone, Copy)]
pub struct CharacterPosition {
    pub line: usize,
    pub column: usize,
}

/// A source range, from a start position to an end position.
#[derive(Debug, PartialEq, Eq, Clone, Copy)]
pub struct PositionRange {
    pub start: CharacterPosition,
    pub end: CharacterPosition,
}

/// A nominal surface type: a path with generic arguments.
#[derive(Debug, PartialEq)]
pub struct NamedType {
    pub position: PositionRange,
    pub path: Vec<String>,
    pub generics_arguments: Vec<Type>,
}

/// A surface function type.
#[derive(Debug, PartialEq)]
pub struct FunctionType {
    pub position: PositionRange,
    pub argument: Vec<Type>,
    pub result: Box<Type>,
}

/// A surface anonymous-struct type: members in source order.
#[derive(Debug, PartialEq)]
pub struct AnonymousStructType {
    pub position: PositionRange,
    pub members: Vec<(String, Type)>,
}

/// A surface type.
#[derive(Debug, PartialEq)]
pub enum Type {
    /// No type written; converts to the empty tuple.
    Unit,
    Unreachable(PositionRange),
    NamedType(NamedType),
    Tuple(PositionRange, Vec<Type>),
    Array(PositionRange, Box<Type>),
    Function(FunctionType),
    AnonymousStruct(AnonymousStructType),
    Or(PositionRange, Vec<Type>),
}

/// The struct name of a struct pattern.
#[derive(Debug, PartialEq)]
pub enum StructName {
    Named(NamedType),
    Anonymous,
}

/// A binding pattern of an `if let`.
#[derive(Debug, PartialEq)]
pub enum Pattern {
    Variable(String),
    Tuple(Vec<Pattern>),
    Struct(StructName, Vec<(String, Pattern)>),
}

/// Insertion of a member pair into a name-ordered member sequence.
pub open spec fn insert_field(p: (Seq<char>, Ty), m: Seq<(Seq<char>, Ty)>) -> Seq<(Seq<char>, Ty)>
    decreases m.len(),
{
    if m.len() == 0 {
        seq![p]
    } else if cmp_chars(p.0, m[0].0) <= 0 {
        seq![p] + m
    } else {
        seq![m[0]] + insert_field(p, m.drop_first())
    }
}

/// Whether the name of the k-th member already appears among the earlier
/// members.
pub open spec fn name_in_prefix(ms: Seq<(String, Type)>, k: int) -> bool {
    exists|j: int| 0 <= j < k && (#[trigger] ms[j]).0@ == ms[k].0@
}

/// Conversion of a surface type; the error carries the duplicated member
/// name.
pub open spec fn spec_convert_type(t: Type) -> Result<Ty, Seq<char>>
    decreases t, 0int,
{
    match t {
        Type::Unit => Ok(Ty::Tuple(Seq::empty())),
        Type::Unreachable(_) => Ok(Ty::Unreachable),
        Type::NamedType(nt) => match spec_convert_types(nt.generics_arguments@) {
            Ok(gs) => Ok(Ty::Named { path: path_model(nt.path@), generics_arguments: gs }),
            Err(e) => Err(e),
        },
        Type::Tuple(_, items) => match spec_convert_types(items@) {
            Ok(rs) => Ok(Ty::Tuple(rs)),
            Err(e) => Err(e),
        },
        Type::Array(_, item) => match spec_convert_type(*item) {
            Ok(r) => Ok(Ty::Array(Box::new(r))),
            Err(e) => Err(e),
        },
        Type::Function(ft) => match spec_convert_types(ft.argument@) {
            Ok(args) => match spec_convert_type(*ft.result) {
                Ok(r) => Ok(Ty::Function { arguments: args, result: Box::new(r) }),
                Err(e) => Err(e),
            },
            Err(e) => Err(e),
        },
        Type::AnonymousStruct(ast) => match spec_convert_members(ast.members@, 0) {
            Ok(ms) => Ok(Ty::AnonymousStruct(ms)),
            Err(e) => Err(e),
        },
        Type::Or(_, items) => match spec_convert_types(items@) {
            Ok(rs) => Ok(Ty::Or(rs)),
            Err(e) => Err(e),
        },
    }
}

/// Conversion of each element of a sequence of surface types.
pub open spec fn spec_convert_types(s: Seq<Type>) -> Result<Seq<Ty>, Seq<char>>
    decreases s, 0int,
{
    if s.len() == 0 {
        Ok(Seq::empty())
    } else {
        match spec_convert_type(s[0]) {
            Ok(t) => match spec_convert_types(s.drop_first()) {
                Ok(ts) => Ok(seq![t] + ts),
                Err(e) => Err(e),
            },
            Err(e) => Err(e),
        }
    }
}

/// Conversion of the members of a surface anonymous struct, from member
/// `k` on: a member whose name already appeared earlier is the error, and
/// the converted members form a name-ordered map.
pub open spec fn spec_convert_members(ms: Seq<(String, Type)>, k: int) -> Result<
    Seq<(Seq<char>, Ty)>,
    Seq<char>,
>
    decreases ms, ms.len() - k + 1,
{
    if k < 0 || k >= ms.len() {
        Ok(Seq::empty())
    } else if name_in_prefix(ms, k) {
        Err(ms[k].0@)
    } else {
        match spec_convert_type(ms[k].1) {
            Ok(t) => match spec_convert_members(ms, k + 1) {
                Ok(rest) => Ok(insert_field((ms[k].0@, t), rest)),
                Err(e) => Err(e),
            },
            Err(e) => Err(e),
        }
    }
}

/// Conversion of a pattern to the type it binds: a variable binds at any
/// type, so it converts to `Infer`.
pub open spec fn spec_convert_pattern(p: Pattern) -> Result<Ty, Seq<char>>
    decreases p, 0int,
{
    match p {
        Pattern::Variable(_) => Ok(Ty::Infer),
        Pattern::Tuple(items) => match spec_convert_patterns(items@) {
            Ok(rs) => Ok(Ty::Tuple(rs)),
            Err(e) => Err(e),
        },
        Pattern::Struct(StructName::Named(nt), _) => match spec_convert_types(
            nt.generics_arguments@,
        ) {
            Ok(gs) => Ok(Ty::Named { path: path_model(nt.path@), generics_arguments: gs }),
            Err(e) => Err(e),
        },
        Pattern::Struct(StructName::Anonymous, members) => match spec_convert_pattern_members(
            members@,
            0,
        ) {
            Ok(ms) => Ok(Ty::AnonymousStruct(ms)),
            Err(e) => Err(e),
        },
    }
}

/// Conversion of each element of a sequence of patterns.
pub open spec fn spec_convert_patterns(s: Seq<Pattern>) -> Result<Seq<Ty>, Seq<char>>
    decreases s, 0int,
{
    if s.len() == 0 {
        Ok(Seq::empty())
    } else {
        match spec_convert_pattern(s[0]) {
            Ok(t) => match spec_convert_patterns(s.drop_first()) {
                Ok(ts) => Ok(seq![t] + ts),
                Err(e) => Err(e),
            },
            Err(e) => Err(e),
        }
    }
}

/// Whether the name of the k-th pattern member already appears earlier.
pub open spec fn pattern_name_in_prefix(ms: Seq<(String, Pattern)>, k: int) -> bool {
    exists|j: int| 0 <= j < k && (#[trigger] ms[j]).0@ == ms[k].0@
}

/// Conversion of the members of an anonymous-struct pattern, from member
/// `k` on.
pub open spec fn spec_convert_pattern_members(ms: Seq<(String, Pattern)>, k: int) -> Result<
    Seq<(Seq<char>, Ty)>,
    Seq<char>,
>
    decreases ms, ms.len() - k + 1,
{
    if k < 0 || k >= ms.len() {
        Ok(Seq::empty())
    } else if pattern_name_in_prefix(ms, k) {
        Err(ms[k].0@)
    } else {
        match spec_convert_pattern(ms[k].1) {
            Ok(t) => match spec_convert_pattern_members(ms, k + 1) {
                Ok(rest) => Ok(insert_field((ms[k].0@, t), rest)),
                Err(e) => Err(e),
            },
            Err(e) => Err(e),
        }
    }
}

/// Inserts a converted member into a name-ordered member vector.
fn insert_field_vec(name: String, ty: HIRType, acc: Vec<(String, HIRType)>) -> (r: Vec<
    (String, HIRType),
>)
    ensures
        fields_model(r@) == insert_field((name@, ty@), fields_model(acc@)),
    decreases acc@.len(),
{
    let mut acc = acc;
    let ghost accm = fields_model(acc@);
    let ghost acc_seq = acc@;
    proof {
        lemma_fields_model(acc@);
    }
    if acc.len() == 0 {
        let mut out: Vec<(String, HIRType)> = Vec::new();
        crate::types::push_field(&mut out, (name, ty));
        proof {
            assert(fields_model(Seq::<(String, HIRType)>::empty()) =~= Seq::<(Seq<char>, Ty)>::empty());
            assert(fields_model(out@) =~= seq![(name@, type_model(ty))]);
        }
        return out;
    }
    let c = compare_str(name.as_str(), acc[0].0.as_str());
    if c <= 0 {
        let mut out: Vec<(String, HIRType)> = Vec::new();
        out.push((name, ty));
        out.append(&mut acc);
        proof {
            assert(out@ =~= seq![out@[0]] + acc_seq);
            crate::types::lemma_fields_model_concat(seq![out@[0]], acc_seq);
            crate::types::lemma_fields_model_single(out@[0]);
        }
        return out;
    }
    let head = acc.remove(0);
    proof {
        assert(acc@ =~= acc_seq.drop_first());
        assert(accm.drop_first() =~= fields_model(acc@));
        assert(accm[0] == (head.0@, type_model(head.1)));
    }
    let rest = insert_field_vec(name, ty, acc);
    let ghost rest_seq = rest@;
    let mut out: Vec<(String, HIRType)> = Vec::new();
    out.push(head);
    let mut rest = rest;
    out.append(&mut rest);
    proof {
        assert(out@ =~= seq![out@[0]] + rest_seq);
        crate::types::lemma_fields_model_concat(seq![out@[0]], rest_seq);
        crate::types::lemma_fields_model_single(out@[0]);
    }
    out
}

/// Scans the earlier members for the name of member `k`.
fn find_name_in_prefix(ms: &Vec<(String, Type)>, k: usize) -> (r: bool)
    requires
        k < ms@.len(),
    ensures
        r == name_in_prefix(ms@, k as int),
{
    let mut j: usize = 0;
    while j < k
        invariant
            0 <= j <= k < ms@.len(),
            forall|i: int| 0 <= i < j ==> (#[trigger] ms@[i]).0@ != ms@[k as int].0@,
        decreases k - j,
    {
        let c = compare_str(ms[j].0.as_str(), ms[k].0.as_str());
        proof {
            lemma_cmp_chars_basic(ms@[j as int].0@, ms@[k as int].0@);
        }
        if c == 0 {
            proof {
                assert(0 <= j < k && ms@[j as int].0@ == ms@[k as int].0@);
            }
            return true;
        }
        j = j + 1;
    }
    false
}

/// Scans the earlier pattern members for the name of member `k`.
fn find_pattern_name_in_prefix(ms: &Vec<(String, Pattern)>, k: usize) -> (r: bool)
    requires
        k < ms@.len(),
    ensures
        r == pattern_name_in_prefix(ms@, k as int),
{
    let mut j: usize = 0;
    while j < k
        invariant
            0 <= j <= k < ms@.len(),
            forall|i: int| 0 <= i < j ==> (#[trigger] ms@[i]).0@ != ms@[k as int].0@,
        decreases k - j,
    {
        let c = compare_str(ms[j].0.as_str(), ms[k].0.as_str());
        proof {
            lemma_cmp_chars_basic(ms@[j as int].0@, ms@[k as int].0@);
        }
        if c == 0 {
            proof {
                assert(0 <= j < k && ms@[j as int].0@ == ms@[k as int].0@);
            }
            return true;
        }
        j = j + 1;
    }
    false
}

/// Converts a vector of surface types.
fn convert_types_vec(v: &Vec<Type>) -> (r: Result<Vec<HIRType>, HIRTypeConvertError>)
    ensures
        match r {
            Ok(out) => spec_convert_types(v@) == Ok::<Seq<Ty>, Seq<char>>(types_model(out@)),
            Err(HIRTypeConvertError::DuplicatedMember(n)) => spec_convert_types(v@) == Err::<
                Seq<Ty>,
                Seq<char>,
            >(n@),
        },
    decreases v@, 1int,
{
    let ghost orig = v@;
    let mut out: Vec<HIRType> = Vec::new();
    let mut i: usize = 0;
    proof {
        assert(orig.skip(0) =~= orig);
    }
    while i < v.len()
        invariant
            0 <= i <= v.len(),
            orig == v@,
            out@.len() == i,
            spec_convert_types(orig) is Ok <==> spec_convert_types(orig.skip(i as int)) is Ok,
            spec_convert_types(orig.skip(i as int)) is Ok ==> spec_convert_types(orig) == Ok::<
                Seq<Ty>,
                Seq<char>,
            >(types_model(out@) + spec_convert_types(orig.skip(i as int))->Ok_0),
            spec_convert_types(orig.skip(i as int)) is Err ==> spec_convert_types(orig)
                == spec_convert_types(orig.skip(i as int)),
        decreases v.len() - i,
    {
        proof {
            assert(orig.skip(i as int)[0] == orig[i as int]);
            assert(orig.skip(i as int).drop_first() =~= orig.skip(i as int + 1));
        }
        let ghost out_before = types_model(out@);
        match HIRType::try_from(&v[i]) {
            Ok(t) => {
                crate::types::push_type(&mut out, t);
            },
            Err(e) => {
                return Err(e);
            },
        }
        i = i + 1;
        proof {
            if spec_convert_types(orig.skip(i as int)) is Ok {
                assert(types_model(out@) + spec_convert_types(orig.skip(i as int))->Ok_0
                    =~= out_before + spec_convert_types(orig.skip(i as int - 1))->Ok_0);
            }
        }
    }
    proof {
        assert(orig.skip(v.len() as int) =~= Seq::<Type>::empty());
        assert(types_model(out@) + Seq::<Ty>::empty() =~= types_model(out@));
    }
    Ok(out)
}

/// Converts the member list of a surface anonymous struct from member `k`
/// on, into a name-ordered member vector.
fn convert_members_vec(ms: &Vec<(String, Type)>, k: usize) -> (r: Result<
    Vec<(String, HIRType)>,
    HIRTypeConvertError,
>)
    requires
        k <= ms@.len(),
    ensures
        match r {
            Ok(out) => spec_convert_members(ms@, k as int) == Ok::<
                Seq<(Seq<char>, Ty)>,
                Seq<char>,
            >(fields_model(out@)),
            Err(HIRTypeConvertError::DuplicatedMember(n)) => spec_convert_members(ms@, k as int)
                == Err::<Seq<(Seq<char>, Ty)>, Seq<char>>(n@),
        },
    decreases ms@, ms@.len() - k + 2,
{
    if k >= ms.len() {
        let out: Vec<(String, HIRType)> = Vec::new();
        proof {
            assert(fields_model(out@) =~= Seq::<(Seq<char>, Ty)>::empty());
        }
        return Ok(out);
    }
    if find_name_in_prefix(ms, k) {
        return Err(HIRTypeConvertError::DuplicatedMember(ms[k].0.clone()));
    }
    let t = match HIRType::try_from(&ms[k].1) {
        Ok(t) => t,
        Err(e) => {
            return Err(e);
        },
    };
    let rest = match convert_members_vec(ms, k + 1) {
        Ok(rest) => rest,
        Err(e) => {
            return Err(e);
        },
    };
    let name = ms[k].0.clone();
    Ok(insert_field_vec(name, t, rest))
}

/// Converts a vector of patterns.
fn convert_patterns_vec(v: &Vec<Pattern>) -> (r: Result<Vec<HIRType>, HIRTypeConvertError>)
    ensures
        match r {
            Ok(out) => spec_convert_patterns(v@) == Ok::<Seq<Ty>, Seq<char>>(types_model(out@)),
            Err(HIRTypeConvertError::DuplicatedMember(n)) => spec_convert_patterns(v@) == Err::<
                Seq<Ty>,
                Seq<char>,
            >(n@),
        },
    decreases v@, 1int,
{
    let ghost orig = v@;
    let mut out: Vec<HIRType> = Vec::new();
    let mut i: usize = 0;
    proof {
        assert(orig.skip(0) =~= orig);
    }
    while i < v.len()
        invariant
            0 <= i <= v.len(),
            orig == v@,
            out@.len() == i,
            spec_convert_patterns(orig) is Ok <==> spec_convert_patterns(orig.skip(i as int))
                is Ok,
            spec_convert_patterns(orig.skip(i as int)) is Ok ==> spec_convert_patterns(orig)
                == Ok::<Seq<Ty>, Seq<char>>(
                types_model(out@) + spec_convert_patterns(orig.skip(i as int))->Ok_0,
            ),
            spec_convert_patterns(orig.skip(i as int)) is Err ==> spec_convert_patterns(orig)
                == spec_convert_patterns(orig.skip(i as int)),
        decreases v.len() - i,
    {
        proof {
            assert(orig.skip(i as int)[0] == orig[i as int]);
            assert(orig.skip(i as int).drop_first() =~= orig.skip(i as int + 1));
        }
        let ghost out_before = types_model(out@);
        match HIRType::try_from_pattern(&v[i]) {
            Ok(t) => {
                crate::types::push_type(&mut out, t);
            },
            Err(e) => {
                return Err(e);
            },
        }
        i = i + 1;
        proof {
            if spec_convert_patterns(orig.skip(i as int)) is Ok {
                assert(types_model(out@) + spec_convert_patterns(orig.skip(i as int))->Ok_0
                    =~= out_before + spec_convert_patterns(orig.skip(i as int - 1))->Ok_0);
            }
        }
    }
    proof {
        assert(orig.skip(v.len() as int) =~= Seq::<Pattern>::empty());
        assert(types_model(out@) + Seq::<Ty>::empty() =~= types_model(out@));
    }
    Ok(out)
}

/// Converts the member list of an anonymous-struct pattern from member `k`
/// on.
fn convert_pattern_members_vec(ms: &Vec<(String, Pattern)>, k: usize) -> (r: Result<
    Vec<(String, HIRType)>,
    HIRTypeConvertError,
>)
    requires
        k <= ms@.len(),
    ensures
        match r {
            Ok(out) => spec_convert_pattern_members(ms@, k as int) == Ok::<
                Seq<(Seq<char>, Ty)>,
                Seq<char>,
            >(fields_model(out@)),
            Err(HIRTypeConvertError::DuplicatedMember(n)) => spec_convert_pattern_members(
                ms@,
                k as int,
            ) == Err::<Seq<(Seq<char>, Ty)>, Seq<char>>(n@),
        },
    decreases ms@, ms@.len() - k + 2,
{
    if k >= ms.len() {
        let out: Vec<(String, HIRType)> = Vec::new();
        proof {
            assert(fields_model(out@) =~= Seq::<(Seq<char>, Ty)>::empty());
        }
        return Ok(out);
    }
    if find_pattern_name_in_prefix(ms, k) {
        return Err(HIRTypeConvertError::DuplicatedMember(ms[k].0.clone()));
    }
    let t = match HIRType::try_from_pattern(&ms[k].1) {
        Ok(t) => t,
        Err(e) => {
            return Err(e);
        },
    };
    let rest = match convert_pattern_members_vec(ms, k + 1) {
        Ok(rest) => rest,
        Err(e) => {
            return Err(e);
        },
    };
    let name = ms[k].0.clone();
    Ok(insert_field_vec(name, t, rest))
}

impl HIRType {
    /// Converts a surface type; fails exactly when an anonymous struct uses
    /// the same member name twice, with that name as the error.
    pub fn try_from(ty: &Type) -> (r: Result<HIRType, HIRTypeConvertError>)
        ensures
            match r {
                Ok(ht) => spec_convert_type(*ty) == Ok::<Ty, Seq<char>>(ht@),
                Err(HIRTypeConvertError::DuplicatedMember(n)) => spec_convert_type(*ty) == Err::<
                    Ty,
                    Seq<char>,
                >(n@),
            },
        decreases *ty, 2int,
    {
        match ty {
            Type::Unit => {
                let items: Vec<HIRType> = Vec::new();
                proof {
                    assert(types_model(items@) =~= Seq::<Ty>::empty());
                }
                Ok(HIRType::Tuple(items))
            },
            Type::Unreachable(_) => Ok(HIRType::Unreachable),
            Type::NamedType(nt) => match convert_types_vec(&nt.generics_arguments) {
                Ok(gs) => Ok(
                    HIRType::Named {
                        path: crate::types::clone_strings(&nt.path),
                        generics_arguments: gs,
                    },
                ),
                Err(e) => Err(e),
            },
            Type::Tuple(_, items) => match convert_types_vec(items) {
                Ok(rs) => Ok(HIRType::Tuple(rs)),
                Err(e) => Err(e),
            },
            Type::Array(_, item) => match HIRType::try_from(&**item) {
                Ok(r) => Ok(HIRType::Array(Box::new(r))),
                Err(e) => Err(e),
            },
            Type::Function(ft) => match convert_types_vec(&ft.argument) {
                Ok(args) => match HIRType::try_from(&*ft.result) {
                    Ok(r) => Ok(HIRType::Function { arguments: args, result: Box::new(r) }),
                    Err(e) => Err(e),
                },
                Err(e) => Err(e),
            },
            Type::AnonymousStruct(ast) => match convert_members_vec(&ast.members, 0) {
                Ok(ms) => Ok(HIRType::AnonymousStruct(ms)),
                Err(e) => Err(e),
            },
            Type::Or(_, items) => match convert_types_vec(items) {
                Ok(rs) => Ok(HIRType::Or(rs)),
                Err(e) => Err(e),
            },
        }
    }

    /// Converts a pattern to the type it binds; a variable pattern binds at
    /// any type, so it yields `Infer`.
    pub fn try_from_pattern(p: &Pattern) -> (r: Result<HIRType, HIRTypeConvertError>)
        ensures
            match r {
                Ok(ht) => spec_convert_pattern(*p) == Ok::<Ty, Seq<char>>(ht@),
                Err(HIRTypeConvertError::DuplicatedMember(n)) => spec_convert_pattern(*p)
                    == Err::<Ty, Seq<char>>(n@),
            },
        decreases *p, 2int,
    {
        match p {
            Pattern::Variable(_) => Ok(HIRType::Infer),
            Pattern::Tuple(items) => match convert_patterns_vec(items) {
                Ok(rs) => Ok(HIRType::Tuple(rs)),
                Err(e) => Err(e),
            },
            Pattern::Struct(StructName::Named(nt), _) => {
                match convert_types_vec(&nt.generics_arguments) {
                    Ok(gs) => Ok(
                        HIRType::Named {
                            path: crate::types::clone_strings(&nt.path),
                            generics_arguments: gs,
                        },
                    ),
                    Err(e) => Err(e),
                }
            },
            Pattern::Struct(StructName::Anonymous, members) => {
                match convert_pattern_members_vec(members, 0) {
                    Ok(ms) => Ok(HIRType::AnonymousStruct(ms)),
                    Err(e) => Err(e),
                }
            },
        }
    }
}

/// A variable pattern always converts to `Infer`.
pub proof fn lemma_variable_pattern_infers(name: String)
    ensures
        spec_convert_pattern(Pattern::Variable(name)) == Ok::<Ty, Seq<char>>(Ty::Infer),
{
}

/// Two members of the list share a name.
pub open spec fn members_names_dup(ms: Seq<(String, Type)>) -> bool {
    exists|i: int, j: int|
        0 <= i < j < ms.len() && (#[trigger] ms[i]).0@ == (#[trigger] ms[j]).0@
}

/// Some surface type of the list holds a duplicated member name somewhere.
pub open spec fn types_have_dup(s: Seq<Type>) -> bool
    decreases s, 1int,
{
    s.len() > 0 && (type_has_dup(s[0]) || types_have_dup(s.drop_first()))
}

/// Some member type of the list holds a duplicated member name somewhere.
pub open spec fn members_have_dup(ms: Seq<(String, Type)>) -> bool
    decreases ms, 1int,
{
    ms.len() > 0 && (type_has_dup(ms[0].1) || members_have_dup(ms.drop_first()))
}

/// The same member name appears twice somewhere in the type, at any
/// nesting level.
pub open spec fn type_has_dup(t: Type) -> bool
    decreases t, 0int,
{
    match t {
        Type::Unit => false,
        Type::Unreachable(_) => false,
        Type::NamedType(nt) => types_have_dup(nt.generics_arguments@),
        Type::Tuple(_, items) => types_have_dup(items@),
        Type::Array(_, item) => type_has_dup(*item),
        Type::Function(ft) => types_have_dup(ft.argument@) || type_has_dup(*ft.result),
        Type::AnonymousStruct(ast) => members_names_dup(ast.members@) || members_have_dup(
            ast.members@,
        ),
        Type::Or(_, items) => types_have_dup(items@),
    }
}

/// What makes member conversion from `k` on fail: an earlier occurrence of
/// a member's name, or a duplicate inside a member's type.
pub open spec fn members_trouble_from(ms: Seq<(String, Type)>, k: int) -> bool
    decreases ms.len() - k,
{
    if k < 0 || k >= ms.len() {
        false
    } else {
        name_in_prefix(ms, k) || type_has_dup(ms[k].1) || members_trouble_from(ms, k + 1)
    }
}

/// The list-level failure is exactly a duplicate in some element.
pub proof fn lemma_types_err(s: Seq<Type>)
    ensures
        (spec_convert_types(s) is Err) <==> types_have_dup(s),
    decreases s, 1int,
{
    if s.len() > 0 {
        lemma_type_err(s[0]);
        lemma_types_err(s.drop_first());
    }
}

/// The member-level failure from `k` on is exactly some trouble from `k`
/// on.
pub proof fn lemma_members_err(ms: Seq<(String, Type)>, k: int)
    ensures
        (spec_convert_members(ms, k) is Err) <==> members_trouble_from(ms, k),
    decreases ms, ms.len() - k + 2,
{
    if 0 <= k < ms.len() {
        lemma_type_err(ms[k].1);
        lemma_members_err(ms, k + 1);
    }
}

/// Some member name repeating in a prefix is the same as some pair of
/// members sharing a name.
pub proof fn lemma_trouble_unfolds(ms: Seq<(String, Type)>, k: int)
    requires
        0 <= k,
    ensures
        members_trouble_from(ms, k) <==> ((exists|j: int|
            k <= j < ms.len() && #[trigger] name_in_prefix(ms, j)) || (exists|j: int|
            k <= j < ms.len() && type_has_dup((#[trigger] ms[j]).1))),
    decreases ms.len() - k,
{
    if 0 <= k < ms.len() {
        lemma_trouble_unfolds(ms, k + 1);
        if members_trouble_from(ms, k) {
            if name_in_prefix(ms, k) {
                assert(k <= k < ms.len() && name_in_prefix(ms, k));
            } else if type_has_dup(ms[k].1) {
                assert(k <= k < ms.len() && type_has_dup(ms[k].1));
            } else {
                assert(members_trouble_from(ms, k + 1));
                if exists|j: int| k + 1 <= j < ms.len() && #[trigger] name_in_prefix(ms, j) {
                    let j = choose|j: int|
                        k + 1 <= j < ms.len() && #[trigger] name_in_prefix(ms, j);
                    assert(k <= j < ms.len() && name_in_prefix(ms, j));
                } else {
                    let j = choose|j: int|
                        k + 1 <= j < ms.len() && type_has_dup((#[trigger] ms[j]).1);
                    assert(k <= j < ms.len() && type_has_dup(ms[j].1));
                }
            }
        }
        if exists|j: int| k <= j < ms.len() && #[trigger] name_in_prefix(ms, j) {
            let j = choose|j: int| k <= j < ms.len() && #[trigger] name_in_prefix(ms, j);
            if j == k {
                assert(members_trouble_from(ms, k));
            } else {
                assert(k + 1 <= j < ms.len() && name_in_prefix(ms, j));
                assert(members_trouble_from(ms, k + 1));
            }
        }
        if exists|j: int| k <= j < ms.len() && type_has_dup((#[trigger] ms[j]).1) {
            let j = choose|j: int| k <= j < ms.len() && type_has_dup((#[trigger] ms[j]).1);
            if j == k {
                assert(members_trouble_from(ms, k));
            } else {
                assert(k + 1 <= j < ms.len() && type_has_dup(ms[j].1));
                assert(members_trouble_from(ms, k + 1));
            }
        }
    }
}

/// `members_have_dup` holds exactly when some member's type has a
/// duplicate.
pub proof fn lemma_members_have_dup_iff(ms: Seq<(String, Type)>)
    ensures
        members_have_dup(ms) <==> exists|j: int|
            0 <= j < ms.len() && type_has_dup((#[trigger] ms[j]).1),
    decreases ms.len(),
{
    if ms.len() > 0 {
        lemma_members_have_dup_iff(ms.drop_first());
        if members_have_dup(ms) {
            if type_has_dup(ms[0].1) {
                assert(0 <= 0 < ms.len() && type_has_dup(ms[0].1));
            } else {
                let j = choose|j: int|
                    0 <= j < ms.drop_first().len() && type_has_dup(
                        (#[trigger] ms.drop_first()[j]).1,
                    );
                assert(ms.drop_first()[j] == ms[j + 1]);
                assert(0 <= j + 1 < ms.len() && type_has_dup(ms[j + 1].1));
            }
        }
        if exists|j: int| 0 <= j < ms.len() && type_has_dup((#[trigger] ms[j]).1) {
            let j = choose|j: int| 0 <= j < ms.len() && type_has_dup((#[trigger] ms[j]).1);
            if j > 0 {
                assert(ms.drop_first()[j - 1] == ms[j]);
                assert(0 <= j - 1 < ms.drop_first().len() && type_has_dup(
                    ms.drop_first()[j - 1].1,
                ));
            }
        }
    }
}

/// A member name repeating within some prefix is the same as two members
/// sharing a name.
pub proof fn lemma_names_dup_iff(ms: Seq<(String, Type)>)
    ensures
        members_names_dup(ms) <==> exists|j: int|
            0 <= j < ms.len() && #[trigger] name_in_prefix(ms, j),
{
    if members_names_dup(ms) {
        let (i, j) = choose|i: int, j: int|
            0 <= i < j < ms.len() && (#[trigger] ms[i]).0@ == (#[trigger] ms[j]).0@;
        assert(name_in_prefix(ms, j));
        assert(0 <= j < ms.len() && name_in_prefix(ms, j));
    }
    if exists|j: int| 0 <= j < ms.len() && #[trigger] name_in_prefix(ms, j) {
        let j = choose|j: int| 0 <= j < ms.len() && #[trigger] name_in_prefix(ms, j);
        let i = choose|i: int| 0 <= i < j && (#[trigger] ms[i]).0@ == ms[j].0@;
        assert(0 <= i < j < ms.len() && ms[i].0@ == ms[j].0@);
    }
}

/// A conversion error surfaces exactly when the same member name appears
/// twice at some nesting level of the type.
pub proof fn lemma_type_err(t: Type)
    ensures
        (spec_convert_type(t) is Err) <==> type_has_dup(t),
    decreases t, 2int,
{
    match t {
        Type::NamedType(nt) => {
            lemma_types_err(nt.generics_arguments@);
        },
        Type::Tuple(_, items) => {
            lemma_types_err(items@);
        },
        Type::Array(_, item) => {
            lemma_type_err(*item);
        },
        Type::Function(ft) => {
            lemma_types_err(ft.argument@);
            lemma_type_err(*ft.result);
        },
        Type::AnonymousStruct(ast) => {
            lemma_members_err(ast.members@, 0);
            lemma_trouble_unfolds(ast.members@, 0);
            lemma_members_have_dup_iff(ast.members@);
            lemma_names_dup_iff(ast.members@);
        },
        Type::Or(_, items) => {
            lemma_types_err(items@);
        },
        _ => {},
    }
}

/// Pointwise characterization of a successful list conversion.
pub proof fn lemma_convert_types_pointwise(s: Seq<Type>)
    requires
        spec_convert_types(s) is Ok,
    ensures
        spec_convert_types(s)->Ok_0.len() == s.len(),
        forall|i: int|
            0 <= i < s.len() ==> spec_convert_type(#[trigger] s[i]) is Ok && spec_convert_types(
                s,
            )->Ok_0[i] == spec_convert_type(s[i])->Ok_0,
    decreases s,
{
    if s.len() > 0 {
        lemma_convert_types_pointwise(s.drop_first());
        assert forall|i: int|
            0 <= i < s.len() implies spec_convert_type(#[trigger] s[i]) is Ok
            && spec_convert_types(s)->Ok_0[i] == spec_convert_type(s[i])->Ok_0 by {
            if i > 0 {
                assert(s.drop_first()[i - 1] == s[i]);
            }
        }
    }
}

/// Inserting a fresh name into a name-sorted member sequence keeps it
/// sorted; the entries are the old ones and the new one.
pub proof fn lemma_insert_field_wf(p: (Seq<char>, Ty), m: Seq<(Seq<char>, Ty)>)
    requires
        crate::subtype::fields_sorted(m),
        !crate::model::fields_contains(m, p.0),
    ensures
        crate::subtype::fields_sorted(insert_field(p, m)),
        forall|i: int|
            0 <= i < insert_field(p, m).len() ==> #[trigger] insert_field(p, m)[i] == p
                || m.contains(insert_field(p, m)[i]),
        forall|name: Seq<char>|
            #[trigger] crate::model::fields_contains(insert_field(p, m), name) <==> (name == p.0
                || crate::model::fields_contains(m, name)),
    decreases m.len(),
{
    lemma_cmp_chars_basic(p.0, p.0);
    if m.len() == 0 {
        let r = insert_field(p, m);
        assert(r =~= seq![p]);
        assert(r[0] == p);
        assert forall|name: Seq<char>|
            #[trigger] crate::model::fields_contains(r, name) <==> (name == p.0
                || crate::model::fields_contains(m, name)) by {
            assert(r.drop_first() =~= Seq::<(Seq<char>, Ty)>::empty());
            assert(!crate::model::fields_contains(r.drop_first(), name));
        }
    } else if cmp_chars(p.0, m[0].0) <= 0 {
        let r = seq![p] + m;
        assert(insert_field(p, m) == r);
        lemma_cmp_chars_basic(p.0, m[0].0);
        assert(p.0 != m[0].0);
        assert(cmp_chars(p.0, m[0].0) < 0);
        assert forall|i: int, j: int| 0 <= i < j < r.len() implies cmp_chars(
            (#[trigger] r[i]).0,
            (#[trigger] r[j]).0,
        ) < 0 by {
            if i == 0 {
                assert(r[j] == m[j - 1]);
                if j > 1 {
                    assert(cmp_chars(m[0].0, m[j - 1].0) < 0);
                    lemma_cmp_chars_basic(m[0].0, m[j - 1].0);
                    crate::order::lemma_cmp_chars_trans(p.0, m[0].0, m[j - 1].0);
                    lemma_cmp_chars_basic(p.0, m[j - 1].0);
                    if cmp_chars(p.0, m[j - 1].0) == 0 {
                        crate::order::lemma_cmp_chars_trans(m[j - 1].0, p.0, m[0].0);
                        assert(false);
                    }
                }
            } else {
                assert(r[i] == m[i - 1]);
                assert(r[j] == m[j - 1]);
            }
        }
        assert forall|i: int| 0 <= i < r.len() implies #[trigger] r[i] == p || m.contains(
            r[i],
        ) by {
            if i > 0 {
                assert(r[i] == m[i - 1]);
            }
        }
        assert forall|name: Seq<char>|
            #[trigger] crate::model::fields_contains(r, name) <==> (name == p.0
                || crate::model::fields_contains(m, name)) by {
            assert(r.drop_first() =~= m);
            assert(crate::model::fields_contains(r.drop_first(), name)
                == crate::model::fields_contains(m, name));
        }
    } else {
        lemma_cmp_chars_basic(p.0, m[0].0);
        assert(!crate::model::fields_contains(m.drop_first(), p.0));
        assert(crate::subtype::fields_sorted(m.drop_first())) by {
            assert forall|i: int, j: int| 0 <= i < j < m.drop_first().len() implies cmp_chars(
                (#[trigger] m.drop_first()[i]).0,
                (#[trigger] m.drop_first()[j]).0,
            ) < 0 by {
                assert(m.drop_first()[i] == m[i + 1]);
                assert(m.drop_first()[j] == m[j + 1]);
            }
        }
        lemma_insert_field_wf(p, m.drop_first());
        let rest = insert_field(p, m.drop_first());
        let r = seq![m[0]] + rest;
        assert(insert_field(p, m) == r);
        assert forall|i: int, j: int| 0 <= i < j < r.len() implies cmp_chars(
            (#[trigger] r[i]).0,
            (#[trigger] r[j]).0,
        ) < 0 by {
            if i == 0 {
                assert(r[j] == rest[j - 1]);
                if rest[j - 1] == p {
                    assert(cmp_chars(p.0, m[0].0) > 0);
                    lemma_cmp_chars_basic(m[0].0, p.0);
                } else {
                    assert(m.drop_first().contains(rest[j - 1]));
                    let idx = choose|idx: int|
                        0 <= idx < m.drop_first().len() && m.drop_first()[idx] == rest[j - 1];
                    assert(m[idx + 1] == rest[j - 1]);
                    assert(cmp_chars(m[0].0, m[idx + 1].0) < 0);
                }
            } else {
                assert(r[i] == rest[i - 1]);
                assert(r[j] == rest[j - 1]);
            }
        }
        assert forall|i: int| 0 <= i < r.len() implies #[trigger] r[i] == p || m.contains(
            r[i],
        ) by {
            if i == 0 {
                assert(m.contains(m[0]));
            } else {
                assert(r[i] == rest[i - 1]);
                if rest[i - 1] != p {
                    assert(m.drop_first().contains(rest[i - 1]));
                    let idx = choose|idx: int|
                        0 <= idx < m.drop_first().len() && m.drop_first()[idx] == rest[i - 1];
                    assert(m[idx + 1] == rest[i - 1]);
                    assert(m.contains(m[idx + 1]));
                }
            }
        }
        assert forall|name: Seq<char>|
            #[trigger] crate::model::fields_contains(r, name) <==> (name == p.0
                || crate::model::fields_contains(m, name)) by {
            assert(r.drop_first() =~= rest);
            assert(crate::model::fields_contains(r.drop_first(), name)
                == crate::model::fields_contains(rest, name));
            assert(crate::model::fields_contains(rest, name) <==> (name == p.0
                || crate::model::fields_contains(m.drop_first(), name)));
        }
    }
}

/// A successful member conversion yields a name-sorted member map with
/// well-formed member types, holding exactly the remaining members' names.
pub proof fn lemma_members_wf(ms: Seq<(String, Type)>, k: int)
    requires
        0 <= k,
        spec_convert_members(ms, k) is Ok,
    ensures
        crate::subtype::fields_sorted(spec_convert_members(ms, k)->Ok_0),
        forall|i: int|
            0 <= i < spec_convert_members(ms, k)->Ok_0.len() ==> crate::subtype::ty_wf(
                (#[trigger] spec_convert_members(ms, k)->Ok_0[i]).1,
            ),
        forall|name: Seq<char>|
            #[trigger] crate::model::fields_contains(spec_convert_members(ms, k)->Ok_0, name)
                <==> exists|j: int| k <= j < ms.len() && (#[trigger] ms[j]).0@ == name,
    decreases ms, ms.len() - k + 2,
{
    let r = spec_convert_members(ms, k)->Ok_0;
    if k >= ms.len() {
        assert(r =~= Seq::<(Seq<char>, Ty)>::empty());
        assert forall|name: Seq<char>| !(#[trigger] crate::model::fields_contains(r, name)) by {}
    } else {
        lemma_type_wf(ms[k].1);
        lemma_members_wf(ms, k + 1);
        let rest = spec_convert_members(ms, k + 1)->Ok_0;
        // The inserted name is fresh: a later member with the same name
        // would have failed the prefix check.
        assert(!crate::model::fields_contains(rest, ms[k].0@)) by {
            if crate::model::fields_contains(rest, ms[k].0@) {
                let j = choose|j: int|
                    k + 1 <= j < ms.len() && (#[trigger] ms[j]).0@ == ms[k].0@;
                assert(name_in_prefix(ms, j));
                lemma_members_err(ms, k + 1);
                lemma_trouble_unfolds(ms, k + 1);
                assert(k + 1 <= j < ms.len() && name_in_prefix(ms, j));
                assert(false);
            }
        }
        lemma_insert_field_wf((ms[k].0@, spec_convert_type(ms[k].1)->Ok_0), rest);
        assert forall|i: int| 0 <= i < r.len() implies crate::subtype::ty_wf(
            (#[trigger] r[i]).1,
        ) by {
            if r[i] == (ms[k].0@, spec_convert_type(ms[k].1)->Ok_0) {
            } else {
                assert(rest.contains(r[i]));
                let idx = choose|idx: int| 0 <= idx < rest.len() && rest[idx] == r[i];
            }
        }
        assert forall|name: Seq<char>|
            #[trigger] crate::model::fields_contains(r, name) <==> exists|j: int|
                k <= j < ms.len() && (#[trigger] ms[j]).0@ == name by {
            if crate::model::fields_contains(r, name) {
                if name == ms[k].0@ {
                    assert(k <= k < ms.len() && ms[k].0@ == name);
                } else {
                    let j = choose|j: int|
                        k + 1 <= j < ms.len() && (#[trigger] ms[j]).0@ == name;
                    assert(k <= j < ms.len() && ms[j].0@ == name);
                }
            }
            if exists|j: int| k <= j < ms.len() && (#[trigger] ms[j]).0@ == name {
                let j = choose|j: int| k <= j < ms.len() && (#[trigger] ms[j]).0@ == name;
                if j > k {
                    assert(k + 1 <= j < ms.len() && ms[j].0@ == name);
                }
            }
        }
    }
}

/// Conversion produces well-formed types: every anonymous struct of a
/// successfully converted type keeps its members strictly ordered by name.
pub proof fn lemma_type_wf(t: Type)
    requires
        spec_convert_type(t) is Ok,
    ensures
        crate::subtype::ty_wf(spec_convert_type(t)->Ok_0),
    decreases t, 2int,
{
    match t {
        Type::NamedType(nt) => {
            lemma_convert_types_pointwise(nt.generics_arguments@);
            assert forall|i: int|
                0 <= i < nt.generics_arguments@.len() implies crate::subtype::ty_wf(
                #[trigger] spec_convert_types(nt.generics_arguments@)->Ok_0[i],
            ) by {
                lemma_type_wf(nt.generics_arguments@[i]);
            }
        },
        Type::Tuple(_, items) => {
            lemma_convert_types_pointwise(items@);
            assert forall|i: int| 0 <= i < items@.len() implies crate::subtype::ty_wf(
                #[trigger] spec_convert_types(items@)->Ok_0[i],
            ) by {
                lemma_type_wf(items@[i]);
            }
        },
        Type::Array(_, item) => {
            lemma_type_wf(*item);
        },
        Type::Function(ft) => {
            lemma_convert_types_pointwise(ft.argument@);
            lemma_type_wf(*ft.result);
            assert forall|i: int| 0 <= i < ft.argument@.len() implies crate::subtype::ty_wf(
                #[trigger] spec_convert_types(ft.argument@)->Ok_0[i],
            ) by {
                lemma_type_wf(ft.argument@[i]);
            }
        },
        Type::AnonymousStruct(ast) => {
            lemma_members_wf(ast.members@, 0);
        },
        Type::Or(_, items) => {
            lemma_convert_types_pointwise(items@);
            assert forall|i: int| 0 <= i < items@.len() implies crate::subtype::ty_wf(
                #[trigger] spec_convert_types(items@)->Ok_0[i],
            ) by {
                lemma_type_wf(items@[i]);
            }
        },
        _ => {},
    }
}

} // verus!
