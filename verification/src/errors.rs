//! Structured diagnostics of the checker.  Every detected fault appends
//! one entry to the caller's list and the traversal continues, so one
//! pass surfaces as many faults as possible.

use vstd::prelude::*;
use crate::hir::Name;
use crate::span::Span;
use crate::types::Signedness;
use crate::types::Type;

verus! {

/// Where a type was used in a way its visibility forbids.
#[derive(Clone, Copy, PartialEq, Eq, Structural, Debug)]
pub enum Place {
    ForLoop,
}

/// What a mismatching expression was held against.
#[derive(PartialEq, Eq, Debug)]
pub enum ExpectedType {
    /// One specific type.
    Exact(Type),
    /// A compile-time constant field element.
    ConstField,
    /// An array of any size and element type.
    AnyArray,
}

/// The message of an `Unstructured` diagnostic, as data.
#[derive(PartialEq, Eq, Debug)]
pub enum ErrorMessage {
    /// Integers in one operation must agree in signedness.
    SignednessMismatch { lhs: Signedness, rhs: Signedness },
    /// Integers in one operation must agree in bit width.
    BitWidthMismatch { lhs: u32, rhs: u32 },
    /// An integer may not meet a private witness without a cast.
    IntegerAndWitness,
    /// An integer may not meet a public variable without a cast.
    IntegerAndPublic,
    /// The two operand types should match but do not.
    BinaryOpMismatch { lhs: Type, rhs: Type },
    /// An integer met a type no rule accepts.
    IntegerWithType { typ: Type },
    ArraysInInfix,
    StructsInInfix,
    TuplesInInfix,
    /// The `Constant` pseudo-type stood as an operand.
    ConstantSentinelOperand,
    UnsupportedComparison { lhs: Type, rhs: Type },
    /// An array index that is a field element but not compile-time known.
    NonConstIndex { typ: Type },
    /// Only primitive field or integer types can be cast from.
    CastFromNonPrimitive { from: Type },
    /// Only integer and field types can be cast to.
    CastToNonPrimitive,
    /// The receiver type has no method of this name.
    NoMethodFound { method: Name, typ: Type },
    /// Only struct types carry methods.
    MustBeStruct { typ: Type },
    /// The receiver has no member of this name.
    NoMember { typ: Type, field: Name },
    /// The two bounds of a loop range must have one type.
    RangeMismatch { start: Type, end: Type },
    /// The start of a prefix operator chain the checker does not know.
    MinusRequiresInteger,
    NotRequiresIntegerOrBool,
    /// String literals have no type yet.
    StringLiteralsUnimplemented,
}

/// A hint appended under the primary message.
#[derive(Clone, Copy, PartialEq, Eq, Structural, Debug)]
pub enum ErrContext {
    /// "elements in an array must have the same type"
    ArrayElementsMustMatch,
    /// "The range of a loop must be const (known at compile-time)"
    LoopRangeMustBeConst,
    /// "Are you missing a semicolon at the end of your 'else' branch?"
    MissingSemicolonInElse,
    /// "Are you missing a semicolon at the end of the first block of this 'if'?"
    MissingSemicolonInIf,
    /// "Expected the types of both if branches to be equal"
    IfBranchesMustMatch,
}

/// The kinds of diagnostic the checker emits.
#[derive(PartialEq, Eq, Debug)]
pub enum ErrorKind {
    TypeMismatch { expected_typ: ExpectedType, expr_typ: Type, expr_span: Span },
    ArityMismatch { expected: usize, found: usize, span: Span },
    NonHomogeneousArray {
        first_span: Span,
        first_type: Type,
        first_index: usize,
        second_span: Span,
        second_type: Type,
        second_index: usize,
    },
    TypeCannotBeUsed { typ: Type, place: Place, span: Span },
    Unstructured { msg: ErrorMessage, span: Span },
}

/// One diagnostic: a kind, optionally with a context hint.
#[derive(PartialEq, Eq, Debug)]
pub struct TypeCheckError {
    pub kind: ErrorKind,
    pub context: Option<ErrContext>,
}

impl TypeCheckError {
    /// A diagnostic without a context hint.
    pub fn new(kind: ErrorKind) -> (r: TypeCheckError)
        ensures
            r == (TypeCheckError { kind, context: None::<ErrContext> }),
    {
        TypeCheckError { kind, context: None }
    }

    /// Append a context hint to the primary message.
    pub fn add_context(self, context: ErrContext) -> (r: TypeCheckError)
        ensures
            r == (TypeCheckError { kind: self.kind, context: Some(context) }),
    {
        TypeCheckError { kind: self.kind, context: Some(context) }
    }
}

} // verus!
