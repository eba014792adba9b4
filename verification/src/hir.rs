//! The High-level Intermediate Representation: a flat single-assignment
//! sequence of typed bindings over a closed set of expression shapes,
//! generic in the meaning of a named reference.

use vstd::prelude::*;

use crate::convert::PositionRange;
use crate::types::HIRType;

verus! {

/// An HIR program: an ordered sequence of statements.
#[derive(Debug, PartialEq)]
pub struct HIRStatementList<Reference>(pub Vec<HIRStatement<Reference>>);

/// A statement of the HIR.
#[derive(Debug, PartialEq)]
pub enum HIRStatement<Reference> {
    /// Introduces the fresh variable `$variable_id` with a declared type.
    Binding { variable_id: usize, variable_type: HIRType, expression: HIRExpression<Reference> },
    /// A position reached only after a non-returning expression.
    Unreachable,
    Return(Variable<Reference>),
    Continue(Option<String>),
    Break(Option<String>),
}

/// An expression of the HIR.
#[derive(Debug, PartialEq)]
pub enum HIRExpression<Reference> {
    Immediate(Immediate),
    CallFunction { function: Variable<Reference>, arguments: Vec<Variable<Reference>> },
    AccessVariable(Variable<Reference>),
    AccessMember { variable: Variable<Reference>, member: String },
    AccessTupleItem { variable: Variable<Reference>, index: usize },
    If {
        condition: Variable<Reference>,
        then: (Vec<HIRStatement<Reference>>, Variable<Reference>),
        other: (Vec<HIRStatement<Reference>>, Variable<Reference>),
    },
    IfLet {
        condition_binding: usize,
        pattern_type: HIRType,
        condition: Variable<Reference>,
        then: (Vec<HIRStatement<Reference>>, Variable<Reference>),
        other: (Vec<HIRStatement<Reference>>, Variable<Reference>),
    },
    Loop(Vec<HIRStatement<Reference>>),
    Assign { variable: ReferenceAccess<Reference>, value: Variable<Reference> },
    ConstructStruct(Vec<(String, Variable<Reference>)>),
    ConstructTuple(Vec<Variable<Reference>>),
    ConstructArray(Vec<Variable<Reference>>),
}

/// A target of an assignment: a variable, one of its tuple slots, or one of
/// its members.
#[derive(Debug, PartialEq)]
pub enum ReferenceAccess<Reference> {
    Variable(Variable<Reference>),
    TupleItem(Variable<Reference>, usize),
    Member(Variable<Reference>, String),
}

/// An immediate literal: a decimal number held in its raw digit form, or a
/// string.
#[derive(Debug, PartialEq)]
pub enum Immediate {
    Number(String),
    String(String),
}

/// A variable reference: named, with a source range, explicit generic
/// arguments and a stage-specific payload, or the unnamed binding `$id`.
#[derive(Debug, PartialEq)]
pub enum Variable<Reference> {
    Named(PositionRange, Vec<HIRType>, Reference),
    Unnamed(usize),
}

/// Stage-one payload of a named reference: the candidate fully-qualified
/// paths produced by import resolution.
#[derive(Debug, PartialEq)]
pub struct SearchPaths(pub Vec<Vec<String>>);

/// The identifier of a resolved item, as its sixteen raw bytes.
#[derive(Debug, PartialEq, Eq, Clone, Copy)]
pub struct ItemId {
    pub bytes: [u8; 16],
}

/// Stage-two payload of a named reference: the candidate set narrowed to
/// resolved items with their types.
#[derive(Debug, PartialEq)]
pub struct ResolvedItems(pub Vec<(ItemId, HIRType)>);

/// Reachability of a statement-sequence position.
#[derive(Debug, PartialEq, Clone)]
pub enum StatementReachable {
    Reachable,
    UnreachableByReturn,
    UnreachableByBreak(Option<String>),
}

impl StatementReachable {
    /// Merges the reachability of two branches: reachable wins, then a
    /// break (with its label erased), then a return.
    pub fn combine(&mut self, other: Self)
        ensures
            (*old(self) is Reachable || other is Reachable) ==> *final(self)
                == StatementReachable::Reachable,
            !(*old(self) is Reachable) && !(other is Reachable) && (*old(self)
                is UnreachableByBreak || other is UnreachableByBreak) ==> *final(self)
                == StatementReachable::UnreachableByBreak(None),
            *old(self) is UnreachableByReturn && other is UnreachableByReturn ==> *final(self)
                == StatementReachable::UnreachableByReturn,
    {
        match (&*self, &other) {
            (StatementReachable::Reachable, _) => {
                *self = StatementReachable::Reachable;
            },
            (_, StatementReachable::Reachable) => {
                *self = StatementReachable::Reachable;
            },
            (StatementReachable::UnreachableByBreak(_), _) => {
                *self = StatementReachable::UnreachableByBreak(None);
            },
            (_, StatementReachable::UnreachableByBreak(_)) => {
                *self = StatementReachable::UnreachableByBreak(None);
            },
            (_, _) => {
                *self = StatementReachable::UnreachableByReturn;
            },
        }
    }
}

impl<Reference> From<Vec<HIRStatement<Reference>>> for HIRStatementList<Reference> {
    /// Wraps a statement vector as a statement list.
    fn from(value: Vec<HIRStatement<Reference>>) -> (r: Self) {
        HIRStatementList(value)
    }
}

impl<Reference> vstd::std_specs::convert::FromSpecImpl<Vec<HIRStatement<Reference>>>
    for HIRStatementList<Reference> {
    open spec fn obeys_from_spec() -> bool {
        true
    }

    open spec fn from_spec(v: Vec<HIRStatement<Reference>>) -> Self {
        HIRStatementList(v)
    }
}

impl<Reference> From<HIRStatementList<Reference>> for Vec<HIRStatement<Reference>> {
    /// Unwraps a statement list into its statement vector.
    fn from(value: HIRStatementList<Reference>) -> (r: Self) {
        value.0
    }
}

impl<Reference> vstd::std_specs::convert::FromSpecImpl<HIRStatementList<Reference>>
    for Vec<HIRStatement<Reference>> {
    open spec fn obeys_from_spec() -> bool {
        true
    }

    open spec fn from_spec(l: HIRStatementList<Reference>) -> Self {
        l.0
    }
}

} // verus!
