//! Typing rules for expressions: the operator rule tables, cast
//! checking, and the recursive dispatcher.

use vstd::prelude::*;
use crate::errors::ErrorMessage;
use crate::errors::ErrorKind;
use crate::errors::TypeCheckError;
use crate::errors::ExpectedType;
use crate::hir::desugar_of;
use crate::hir::ExprId;
use crate::hir::FuncId;
use crate::hir::HirBinaryOp;
use crate::hir::HirExpression;
use crate::hir::HirStatement;
use crate::types::StructId;
use crate::hir::HirLiteral;
use crate::types::TypeVariableId;
use crate::hir::HirUnaryOp;
use crate::hir::Name;
use crate::node_interner::evolves;
use crate::node_interner::lemma_evolves_children_typed;
use crate::node_interner::lemma_evolves_stmt_subtree_typed;
use crate::node_interner::lemma_evolves_subtree_typed;
use crate::node_interner::lemma_evolves_trans;
use crate::node_interner::lemma_prefix_push;
use crate::node_interner::lemma_prefix_refl;
use crate::node_interner::lemma_prefix_trans;
use crate::node_interner::lemma_stmt_below_stable;
use crate::node_interner::lemma_wf_stable;
use crate::node_interner::NodeInterner;
use crate::types::lemma_poly_valid_grow;
use crate::node_interner::Param;
use crate::span::Span;
use crate::types::bindable_in_op;
use crate::types::bindable_to_int;
use crate::types::bindings_wf;
use crate::types::lemma_resolve_not_structural;
use crate::types::lemma_resolve_resolved;
use crate::types::poly_valid;
use crate::types::resolve;
use crate::types::ArraySize;
use crate::types::FieldElementType;
use crate::types::Type;
use crate::types::TypeBinding;
use crate::types::TypeBindings;

verus! {

/// The join of two visibilities, written out as the full table.
/// `Private` absorbs everything, `Public` absorbs `Constant`, and
/// `Constant` is the identity.
pub open spec fn vis_join(lhs: FieldElementType, rhs: FieldElementType) -> FieldElementType {
    match (lhs, rhs) {
        (FieldElementType::Private, FieldElementType::Private) => FieldElementType::Private,
        (FieldElementType::Private, FieldElementType::Public) => FieldElementType::Private,
        (FieldElementType::Private, FieldElementType::Constant) => FieldElementType::Private,
        (FieldElementType::Public, FieldElementType::Private) => FieldElementType::Private,
        (FieldElementType::Public, FieldElementType::Public) => FieldElementType::Public,
        (FieldElementType::Public, FieldElementType::Constant) => FieldElementType::Public,
        (FieldElementType::Constant, FieldElementType::Private) => FieldElementType::Private,
        (FieldElementType::Constant, FieldElementType::Public) => FieldElementType::Public,
        (FieldElementType::Constant, FieldElementType::Constant) => FieldElementType::Constant,
    }
}

/// The visibility of the result of an operation over two visibilities.
pub fn field_type_rules(lhs: &FieldElementType, rhs: &FieldElementType) -> (r: FieldElementType)
    ensures
        r == vis_join(*lhs, *rhs),
{
    match (lhs, rhs) {
        (FieldElementType::Private, FieldElementType::Private) => FieldElementType::Private,
        (FieldElementType::Private, FieldElementType::Public) => FieldElementType::Private,
        (FieldElementType::Private, FieldElementType::Constant) => FieldElementType::Private,
        (FieldElementType::Public, FieldElementType::Private) => FieldElementType::Private,
        (FieldElementType::Public, FieldElementType::Public) => FieldElementType::Public,
        (FieldElementType::Public, FieldElementType::Constant) => FieldElementType::Public,
        (FieldElementType::Constant, FieldElementType::Private) => FieldElementType::Private,
        (FieldElementType::Constant, FieldElementType::Public) => FieldElementType::Public,
        (FieldElementType::Constant, FieldElementType::Constant) => FieldElementType::Constant,
    }
}

/// Typing of a prefix operator applied to `rhs`: negation wants an
/// integer, logical not an integer or a boolean; `Error` passes to keep
/// one fault from cascading.  The operand type is returned unchanged.
pub open spec fn spec_prefix(op: HirUnaryOp, rhs: Type) -> Result<Type, ErrorMessage> {
    match op {
        HirUnaryOp::Minus => if rhs is Integer || rhs is Error {
            Ok(rhs)
        } else {
            Err(ErrorMessage::MinusRequiresInteger)
        },
        HirUnaryOp::Not => if rhs is Integer || rhs is Bool || rhs is Error {
            Ok(rhs)
        } else {
            Err(ErrorMessage::NotRequiresIntegerOrBool)
        },
    }
}

pub fn prefix_operand_type_rules(op: &HirUnaryOp, rhs_type: &Type) -> (r: Result<
    Type,
    ErrorMessage,
>)
    ensures
        r == spec_prefix(*op, *rhs_type),
{
    match op {
        HirUnaryOp::Minus => {
            if matches!(rhs_type, Type::Integer(..) | Type::Error) {
                Ok(rhs_type.duplicate())
            } else {
                Err(ErrorMessage::MinusRequiresInteger)
            }
        },
        HirUnaryOp::Not => {
            if matches!(rhs_type, Type::Integer(..) | Type::Bool | Type::Error) {
                Ok(rhs_type.duplicate())
            } else {
                Err(ErrorMessage::NotRequiresIntegerOrBool)
            }
        },
    }
}

/// The non-comparator rule table over two already-resolved operand
/// types.
pub open spec fn spec_infix_table(l: Type, r: Type) -> Result<Type, ErrorMessage> {
    match (l, r) {
        (Type::Integer(va, sa, wa), Type::Integer(vb, sb, wb)) => if sa != sb {
            Err(ErrorMessage::SignednessMismatch { lhs: sa, rhs: sb })
        } else if wa != wb {
            Err(ErrorMessage::BitWidthMismatch { lhs: wa, rhs: wb })
        } else {
            Ok(Type::Integer(vis_join(va, vb), sa, wa))
        },
        (Type::Integer(..), Type::FieldElement(FieldElementType::Private))
            | (Type::FieldElement(FieldElementType::Private), Type::Integer(..)) => Err(
            ErrorMessage::IntegerAndWitness,
        ),
        (Type::Integer(..), Type::FieldElement(FieldElementType::Public))
            | (Type::FieldElement(FieldElementType::Public), Type::Integer(..)) => Err(
            ErrorMessage::IntegerAndPublic,
        ),
        (Type::Integer(v, s, w), Type::FieldElement(FieldElementType::Constant))
            | (Type::FieldElement(FieldElementType::Constant), Type::Integer(v, s, w)) => Ok(
            Type::Integer(vis_join(v, FieldElementType::Constant), s, w),
        ),
        (Type::PolymorphicInteger(_), Type::PolymorphicInteger(u)) => Ok(
            Type::PolymorphicInteger(u),
        ),
        (Type::PolymorphicInteger(_), r2) => if bindable_in_op(r2) {
            Ok(r2)
        } else {
            Err(ErrorMessage::BinaryOpMismatch { lhs: l, rhs: r2 })
        },
        (l2, Type::PolymorphicInteger(_)) => if bindable_in_op(l2) {
            Ok(l2)
        } else {
            Err(ErrorMessage::BinaryOpMismatch { lhs: l2, rhs: r })
        },
        (Type::Integer(..), t) | (t, Type::Integer(..)) => Err(
            ErrorMessage::IntegerWithType { typ: t },
        ),
        (Type::Array(..), _) | (_, Type::Array(..)) => Err(ErrorMessage::ArraysInInfix),
        (Type::Struct(..), _) | (_, Type::Struct(..)) => Err(ErrorMessage::StructsInInfix),
        (Type::Tuple(..), _) | (_, Type::Tuple(..)) => Err(ErrorMessage::TuplesInInfix),
        (Type::Error, _) | (_, Type::Error) => Ok(Type::Error),
        (Type::Unspecified, _) | (_, Type::Unspecified) => Ok(Type::Unspecified),
        (Type::Unit, _) | (_, Type::Unit) => Ok(Type::Unit),
        (Type::Constant, _) | (_, Type::Constant) => Err(ErrorMessage::ConstantSentinelOperand),
        (Type::FieldElement(FieldElementType::Private), _)
            | (_, Type::FieldElement(FieldElementType::Private)) => Ok(
            Type::FieldElement(FieldElementType::Private),
        ),
        (Type::FieldElement(FieldElementType::Public), _)
            | (_, Type::FieldElement(FieldElementType::Public)) => Ok(
            Type::FieldElement(FieldElementType::Private),
        ),
        (Type::Bool, _) | (_, Type::Bool) => Ok(Type::Bool),
        (Type::FieldElement(FieldElementType::Constant), Type::FieldElement(
            FieldElementType::Constant,
        )) => Ok(Type::FieldElement(FieldElementType::Constant)),
    }
}

/// The comparator rule table over two already-resolved operand types:
/// every success yields `Bool`, under the same signedness, width and
/// visibility rules as the arithmetic table.
pub open spec fn spec_comparator_table(l: Type, r: Type) -> Result<Type, ErrorMessage> {
    match (l, r) {
        (Type::Integer(_, sa, wa), Type::Integer(_, sb, wb)) => if sa != sb {
            Err(ErrorMessage::SignednessMismatch { lhs: sa, rhs: sb })
        } else if wa != wb {
            Err(ErrorMessage::BitWidthMismatch { lhs: wa, rhs: wb })
        } else {
            Ok(Type::Bool)
        },
        (Type::Integer(..), Type::FieldElement(FieldElementType::Private))
            | (Type::FieldElement(FieldElementType::Private), Type::Integer(..)) => Err(
            ErrorMessage::IntegerAndWitness,
        ),
        (Type::Integer(..), Type::FieldElement(FieldElementType::Public))
            | (Type::FieldElement(FieldElementType::Public), Type::Integer(..)) => Err(
            ErrorMessage::IntegerAndPublic,
        ),
        (Type::Integer(..), Type::FieldElement(FieldElementType::Constant))
            | (Type::FieldElement(FieldElementType::Constant), Type::Integer(..)) => Ok(Type::Bool),
        (Type::PolymorphicInteger(_), Type::PolymorphicInteger(_)) => Ok(Type::Bool),
        (Type::PolymorphicInteger(_), r2) => if bindable_in_op(r2) {
            Ok(Type::Bool)
        } else {
            Err(ErrorMessage::BinaryOpMismatch { lhs: l, rhs: r2 })
        },
        (l2, Type::PolymorphicInteger(_)) => if bindable_in_op(l2) {
            Ok(Type::Bool)
        } else {
            Err(ErrorMessage::BinaryOpMismatch { lhs: l2, rhs: r })
        },
        (Type::Integer(..), t) | (t, Type::Integer(..)) => Err(
            ErrorMessage::IntegerWithType { typ: t },
        ),
        (Type::FieldElement(FieldElementType::Private), Type::FieldElement(_))
            | (Type::FieldElement(_), Type::FieldElement(FieldElementType::Private)) => Ok(
            Type::Bool,
        ),
        (Type::FieldElement(FieldElementType::Public), Type::FieldElement(_))
            | (Type::FieldElement(_), Type::FieldElement(FieldElementType::Public)) => Ok(
            Type::Bool,
        ),
        (Type::FieldElement(FieldElementType::Constant), Type::FieldElement(
            FieldElementType::Constant,
        )) => Ok(Type::Bool),
        (Type::Bool, Type::Bool) => Ok(Type::Bool),
        (Type::Error, _) | (_, Type::Error) => Ok(Type::Error),
        (Type::Unspecified, _) | (_, Type::Unspecified) => Ok(Type::Unspecified),
        (l2, r2) => Err(ErrorMessage::UnsupportedComparison { lhs: l2, rhs: r2 }),
    }
}

/// How the rule tables change the binding table: a free variable on one
/// side binds to the other side when that side is integer-like, and two
/// free variables alias.  Nothing else binds.
pub open spec fn spec_poly_bindings(bs: Seq<TypeBinding>, a: Type, b: Type) -> Seq<TypeBinding> {
    match (resolve(bs, a), resolve(bs, b)) {
        (Type::PolymorphicInteger(v), Type::PolymorphicInteger(u)) => if v == u {
            bs
        } else if u.0 < v.0 {
            bs.update(v.0 as int, TypeBinding::Bound(Type::PolymorphicInteger(u)))
        } else {
            bs.update(u.0 as int, TypeBinding::Bound(Type::PolymorphicInteger(v)))
        },
        (Type::PolymorphicInteger(v), r) => if bindable_in_op(r) {
            bs.update(v.0 as int, TypeBinding::Bound(r))
        } else {
            bs
        },
        (l, Type::PolymorphicInteger(u)) => if bindable_in_op(l) {
            bs.update(u.0 as int, TypeBinding::Bound(l))
        } else {
            bs
        },
        _ => bs,
    }
}

/// The shape of every type the rule tables can yield: a leaf of the
/// algebra, with any variable pointing into the binding table.
pub open spec fn rule_result_ok(n_vars: nat, t: Type) -> bool {
    match t {
        Type::PolymorphicInteger(v) => v.0 < n_vars,
        Type::Integer(_, _, _) => true,
        Type::FieldElement(_) => true,
        Type::Bool => true,
        Type::Unit => true,
        Type::Error => true,
        Type::Unspecified => true,
        _ => false,
    }
}

/// A rule-table result is a valid type of any store with that many
/// binding cells.
pub proof fn lemma_rule_result_type_ok(itn: NodeInterner, t: Type)
    requires
        rule_result_ok(itn.bindings.table@.len(), t),
    ensures
        itn.type_ok(t),
{
}

/// Result of the comparator rules on the (unresolved) operand types.
pub open spec fn spec_comparator_result(bs: Seq<TypeBinding>, a: Type, b: Type) -> Result<
    Type,
    ErrorMessage,
> {
    spec_comparator_table(resolve(bs, a), resolve(bs, b))
}

/// The rule-table outcome on two concrete (non-variable) operand
/// types: the binding table plays no part.
pub open spec fn spec_infix_concrete(l: Type, op: HirBinaryOp, r: Type) -> Result<
    Type,
    ErrorMessage,
> {
    if op.kind.spec_is_comparator() {
        spec_comparator_table(l, r)
    } else {
        spec_infix_table(l, r)
    }
}

/// Result of the infix rules on the (unresolved) operand types.
pub open spec fn spec_infix_result(bs: Seq<TypeBinding>, a: Type, op: HirBinaryOp, b: Type) -> Result<
    Type,
    ErrorMessage,
> {
    if op.kind.spec_is_comparator() {
        spec_comparator_table(resolve(bs, a), resolve(bs, b))
    } else {
        spec_infix_table(resolve(bs, a), resolve(bs, b))
    }
}

/// Apply the binding step shared by the two rule tables, resolving both
/// sides first.  Returns the resolved pair.
fn apply_poly_bindings(lhs_type: &Type, other: &Type, bindings: &mut TypeBindings) -> (lr: (
    Type,
    Type,
))
    requires
        old(bindings).wf(),
        poly_valid(*lhs_type, old(bindings).table@.len()),
        poly_valid(*other, old(bindings).table@.len()),
    ensures
        final(bindings).wf(),
        final(bindings).table@.len() == old(bindings).table@.len(),
        forall|v: int|
            0 <= v < old(bindings).table@.len() && old(bindings).table@[v] is Bound
                ==> final(bindings).table@[v] == old(bindings).table@[v],
        final(bindings).table@ == spec_poly_bindings(old(bindings).table@, *lhs_type, *other),
        lr.0 == resolve(old(bindings).table@, *lhs_type),
        lr.1 == resolve(old(bindings).table@, *other),
        poly_valid(lr.0, final(bindings).table@.len()),
        poly_valid(lr.1, final(bindings).table@.len()),
{
    proof {
        lemma_resolve_resolved(bindings.table@, *lhs_type);
        lemma_resolve_resolved(bindings.table@, *other);
    }
    let l = bindings.resolve_type(lhs_type);
    let r = bindings.resolve_type(other);
    match (&l, &r) {
        (Type::PolymorphicInteger(v), Type::PolymorphicInteger(u)) => {
            if v.0 == u.0 {
            } else if u.0 < v.0 {
                bindings.bind(*v, Type::PolymorphicInteger(*u));
            } else {
                bindings.bind(*u, Type::PolymorphicInteger(*v));
            }
        },
        (Type::PolymorphicInteger(v), _) => {
            if matches!(r, Type::Integer(..) | Type::FieldElement(_) | Type::Bool) {
                bindings.bind(*v, r.duplicate());
            }
        },
        (_, Type::PolymorphicInteger(u)) => {
            if matches!(l, Type::Integer(..) | Type::FieldElement(_) | Type::Bool) {
                bindings.bind(*u, l.duplicate());
            }
        },
        _ => {},
    }
    (l, r)
}

/// The comparator rules: `<`, `<=`, `>`, `>=`, `==`, `!=` all take the
/// same operand combinations and yield `Bool`.  A free integer variable
/// on one side is bound to the other side when that side is
/// integer-like.
pub fn comparator_operand_type_rules(lhs_type: &Type, other: &Type, bindings: &mut TypeBindings) -> (r:
    Result<Type, ErrorMessage>)
    requires
        old(bindings).wf(),
        poly_valid(*lhs_type, old(bindings).table@.len()),
        poly_valid(*other, old(bindings).table@.len()),
    ensures
        final(bindings).wf(),
        final(bindings).table@.len() == old(bindings).table@.len(),
        forall|v: int|
            0 <= v < old(bindings).table@.len() && old(bindings).table@[v] is Bound
                ==> final(bindings).table@[v] == old(bindings).table@[v],
        final(bindings).table@ == spec_poly_bindings(old(bindings).table@, *lhs_type, *other),
        r == spec_comparator_result(old(bindings).table@, *lhs_type, *other),
        r matches Ok(t0) ==> rule_result_ok(final(bindings).table@.len(), t0),
{
    let (l, r) = apply_poly_bindings(lhs_type, other, bindings);
    match (&l, &r) {
        (Type::Integer(_, sa, wa), Type::Integer(_, sb, wb)) => {
            if *sa != *sb {
                Err(ErrorMessage::SignednessMismatch { lhs: *sa, rhs: *sb })
            } else if *wa != *wb {
                Err(ErrorMessage::BitWidthMismatch { lhs: *wa, rhs: *wb })
            } else {
                Ok(Type::Bool)
            }
        },
        (Type::Integer(..), Type::FieldElement(FieldElementType::Private))
            | (Type::FieldElement(FieldElementType::Private), Type::Integer(..)) => Err(
            ErrorMessage::IntegerAndWitness,
        ),
        (Type::Integer(..), Type::FieldElement(FieldElementType::Public))
            | (Type::FieldElement(FieldElementType::Public), Type::Integer(..)) => Err(
            ErrorMessage::IntegerAndPublic,
        ),
        (Type::Integer(..), Type::FieldElement(FieldElementType::Constant))
            | (Type::FieldElement(FieldElementType::Constant), Type::Integer(..)) => Ok(Type::Bool),
        (Type::PolymorphicInteger(_), Type::PolymorphicInteger(_)) => Ok(Type::Bool),
        (Type::PolymorphicInteger(_), _) => {
            if matches!(r, Type::Integer(..) | Type::FieldElement(_) | Type::Bool) {
                Ok(Type::Bool)
            } else {
                Err(ErrorMessage::BinaryOpMismatch { lhs: l.duplicate(), rhs: r.duplicate() })
            }
        },
        (_, Type::PolymorphicInteger(_)) => {
            if matches!(l, Type::Integer(..) | Type::FieldElement(_) | Type::Bool) {
                Ok(Type::Bool)
            } else {
                Err(ErrorMessage::BinaryOpMismatch { lhs: l.duplicate(), rhs: r.duplicate() })
            }
        },
        (Type::Integer(..), _) => Err(ErrorMessage::IntegerWithType { typ: r.duplicate() }),
        (_, Type::Integer(..)) => Err(ErrorMessage::IntegerWithType { typ: l.duplicate() }),
        (Type::FieldElement(FieldElementType::Private), Type::FieldElement(_))
            | (Type::FieldElement(_), Type::FieldElement(FieldElementType::Private)) => Ok(
            Type::Bool,
        ),
        (Type::FieldElement(FieldElementType::Public), Type::FieldElement(_))
            | (Type::FieldElement(_), Type::FieldElement(FieldElementType::Public)) => Ok(
            Type::Bool,
        ),
        (Type::FieldElement(FieldElementType::Constant), Type::FieldElement(
            FieldElementType::Constant,
        )) => Ok(Type::Bool),
        (Type::Bool, Type::Bool) => Ok(Type::Bool),
        (Type::Error, _) | (_, Type::Error) => Ok(Type::Error),
        (Type::Unspecified, _) | (_, Type::Unspecified) => Ok(Type::Unspecified),
        _ => Err(ErrorMessage::UnsupportedComparison { lhs: l.duplicate(), rhs: r.duplicate() }),
    }
}

/// The full infix rule table: comparators delegate to
/// [`comparator_operand_type_rules`]; everything else follows the
/// arithmetic table, with a visibility join on matching integers and
/// `Private` dominating the field-like cases.
pub fn infix_operand_type_rules(
    lhs_type: &Type,
    op: &HirBinaryOp,
    other: &Type,
    bindings: &mut TypeBindings,
) -> (r: Result<Type, ErrorMessage>)
    requires
        old(bindings).wf(),
        poly_valid(*lhs_type, old(bindings).table@.len()),
        poly_valid(*other, old(bindings).table@.len()),
    ensures
        final(bindings).wf(),
        final(bindings).table@.len() == old(bindings).table@.len(),
        forall|v: int|
            0 <= v < old(bindings).table@.len() && old(bindings).table@[v] is Bound
                ==> final(bindings).table@[v] == old(bindings).table@[v],
        final(bindings).table@ == spec_poly_bindings(old(bindings).table@, *lhs_type, *other),
        r == spec_infix_result(old(bindings).table@, *lhs_type, *op, *other),
        r matches Ok(t0) ==> rule_result_ok(final(bindings).table@.len(), t0),
{
    if op.kind.is_comparator() {
        return comparator_operand_type_rules(lhs_type, other, bindings);
    }
    let (l, r) = apply_poly_bindings(lhs_type, other, bindings);
    match (&l, &r) {
        (Type::Integer(va, sa, wa), Type::Integer(vb, sb, wb)) => {
            if *sa != *sb {
                Err(ErrorMessage::SignednessMismatch { lhs: *sa, rhs: *sb })
            } else if *wa != *wb {
                Err(ErrorMessage::BitWidthMismatch { lhs: *wa, rhs: *wb })
            } else {
                Ok(Type::Integer(field_type_rules(va, vb), *sa, *wa))
            }
        },
        (Type::Integer(..), Type::FieldElement(FieldElementType::Private))
            | (Type::FieldElement(FieldElementType::Private), Type::Integer(..)) => Err(
            ErrorMessage::IntegerAndWitness,
        ),
        (Type::Integer(..), Type::FieldElement(FieldElementType::Public))
            | (Type::FieldElement(FieldElementType::Public), Type::Integer(..)) => Err(
            ErrorMessage::IntegerAndPublic,
        ),
        (Type::Integer(v, s, w), Type::FieldElement(FieldElementType::Constant))
            | (Type::FieldElement(FieldElementType::Constant), Type::Integer(v, s, w)) => Ok(
            Type::Integer(field_type_rules(v, &FieldElementType::Constant), *s, *w),
        ),
        (Type::PolymorphicInteger(_), Type::PolymorphicInteger(u)) => Ok(
            Type::PolymorphicInteger(*u),
        ),
        (Type::PolymorphicInteger(_), _) => {
            if matches!(r, Type::Integer(..) | Type::FieldElement(_) | Type::Bool) {
                Ok(r.duplicate())
            } else {
                Err(ErrorMessage::BinaryOpMismatch { lhs: l.duplicate(), rhs: r.duplicate() })
            }
        },
        (_, Type::PolymorphicInteger(_)) => {
            if matches!(l, Type::Integer(..) | Type::FieldElement(_) | Type::Bool) {
                Ok(l.duplicate())
            } else {
                Err(ErrorMessage::BinaryOpMismatch { lhs: l.duplicate(), rhs: r.duplicate() })
            }
        },
        (Type::Integer(..), _) => Err(ErrorMessage::IntegerWithType { typ: r.duplicate() }),
        (_, Type::Integer(..)) => Err(ErrorMessage::IntegerWithType { typ: l.duplicate() }),
        (Type::Array(..), _) | (_, Type::Array(..)) => Err(ErrorMessage::ArraysInInfix),
        (Type::Struct(..), _) | (_, Type::Struct(..)) => Err(ErrorMessage::StructsInInfix),
        (Type::Tuple(..), _) | (_, Type::Tuple(..)) => Err(ErrorMessage::TuplesInInfix),
        (Type::Error, _) | (_, Type::Error) => Ok(Type::Error),
        (Type::Unspecified, _) | (_, Type::Unspecified) => Ok(Type::Unspecified),
        (Type::Unit, _) | (_, Type::Unit) => Ok(Type::Unit),
        (Type::Constant, _) | (_, Type::Constant) => Err(ErrorMessage::ConstantSentinelOperand),
        (Type::FieldElement(FieldElementType::Private), _)
            | (_, Type::FieldElement(FieldElementType::Private)) => Ok(
            Type::FieldElement(FieldElementType::Private),
        ),
        (Type::FieldElement(FieldElementType::Public), _)
            | (_, Type::FieldElement(FieldElementType::Public)) => Ok(
            Type::FieldElement(FieldElementType::Private),
        ),
        (Type::Bool, _) | (_, Type::Bool) => Ok(Type::Bool),
        (Type::FieldElement(FieldElementType::Constant), Type::FieldElement(
            FieldElementType::Constant,
        )) => Ok(Type::FieldElement(FieldElementType::Constant)),
    }
}

/// Outcome of a cast from `from` to `to`: only integer-like sources and
/// targets are permitted; a compile-time constant source forces the
/// result constant, otherwise the target's declared visibility is kept.
/// A free integer variable casts without being bound: it already stands
/// for any integer.  `Error` passes through silently on either side.
pub open spec fn spec_cast(bs: Seq<TypeBinding>, from: Type, to: Type) -> Result<
    Type,
    ErrorMessage,
> {
    let f = resolve(bs, from);
    if f is Error {
        Ok(Type::Error)
    } else if !(f is Integer || f is FieldElement || f is PolymorphicInteger) {
        Err(ErrorMessage::CastFromNonPrimitive { from: f })
    } else {
        let is_const = match f {
            Type::Integer(vis, _, _) => vis == FieldElementType::Constant,
            Type::FieldElement(vis) => vis == FieldElementType::Constant,
            _ => false,
        };
        match to {
            Type::Integer(to_vis, s, w) => Ok(
                Type::Integer(
                    if is_const {
                        FieldElementType::Constant
                    } else {
                        to_vis
                    },
                    s,
                    w,
                ),
            ),
            Type::FieldElement(to_vis) => Ok(
                Type::FieldElement(
                    if is_const {
                        FieldElementType::Constant
                    } else {
                        to_vis
                    },
                ),
            ),
            Type::Error => Ok(Type::Error),
            _ => Err(ErrorMessage::CastToNonPrimitive),
        }
    }
}

/// Check a cast expression.  On a forbidden cast one `Unstructured`
/// diagnostic is appended and `Error` returned; otherwise the list is
/// untouched and the cast's type is exactly the `Ok` value of
/// [`spec_cast`].
pub fn check_cast(
    from: &Type,
    to: Type,
    span: Span,
    errors: &mut Vec<TypeCheckError>,
    bindings: &TypeBindings,
) -> (r: Type)
    requires
        bindings.wf(),
        poly_valid(*from, bindings.table@.len()),
    ensures
        rule_result_ok(bindings.table@.len(), r),
        match spec_cast(bindings.table@, *from, to) {
            Ok(t) => r == t && final(errors)@ == old(errors)@,
            Err(m) => r == Type::Error && final(errors)@ == old(errors)@.push(
                TypeCheckError {
                    kind: ErrorKind::Unstructured { msg: m, span },
                    context: None::<crate::errors::ErrContext>,
                },
            ),
        },
{
    let f = bindings.resolve_type(from);
    let is_const: bool = match &f {
        Type::Integer(vis, _, _) => *vis == FieldElementType::Constant,
        Type::FieldElement(vis) => *vis == FieldElementType::Constant,
        Type::PolymorphicInteger(_) => false,
        Type::Error => {
            return Type::Error;
        },
        _ => {
            errors.push(
                TypeCheckError::new(
                    ErrorKind::Unstructured {
                        msg: ErrorMessage::CastFromNonPrimitive { from: f.duplicate() },
                        span,
                    },
                ),
            );
            return Type::Error;
        },
    };
    match to {
        Type::Integer(to_vis, s, w) => Type::Integer(
            if is_const {
                FieldElementType::Constant
            } else {
                to_vis
            },
            s,
            w,
        ),
        Type::FieldElement(to_vis) => Type::FieldElement(
            if is_const {
                FieldElementType::Constant
            } else {
                to_vis
            },
        ),
        Type::Error => Type::Error,
        _ => {
            errors.push(
                TypeCheckError::new(
                    ErrorKind::Unstructured { msg: ErrorMessage::CastToNonPrimitive, span },
                ),
            );
            Type::Error
        },
    }
}

/// The fold of holding the first `n` arguments against the first `n`
/// parameters, left to right: the diagnostics appended, and the binding
/// table afterwards.  One `TypeMismatch` per argument that does not flow
/// into its parameter's type.
pub open spec fn spec_check_args(
    bs: Seq<TypeBinding>,
    params: Seq<Param>,
    args: Seq<Type>,
    span: Span,
    n: int,
) -> (Seq<TypeCheckError>, Seq<TypeBinding>)
    decreases n,
{
    if n <= 0 {
        (Seq::empty(), bs)
    } else {
        let (es, bs1) = spec_check_args(bs, params, args, span, n - 1);
        let (ok, bs2) = crate::types::spec_subtype(bs1, args[n - 1], params[n - 1].1);
        if ok {
            (es, bs2)
        } else {
            (
                es.push(
                    TypeCheckError {
                        kind: ErrorKind::TypeMismatch {
                            expected_typ: ExpectedType::Exact(params[n - 1].1),
                            expr_typ: args[n - 1],
                            expr_span: span,
                        },
                        context: None::<crate::errors::ErrContext>,
                    },
                ),
                bs2,
            )
        }
    }
}

/// Hold one argument against one parameter: the argument type must flow
/// into the parameter's declared type, else one `TypeMismatch` is
/// appended.
pub fn check_param_argument(
    span: Span,
    param: &Param,
    arg_type: &Type,
    errors: &mut Vec<TypeCheckError>,
    bindings: &mut TypeBindings,
) -> (ok: bool)
    requires
        old(bindings).wf(),
        poly_valid(*arg_type, old(bindings).table@.len()),
        poly_valid(param.1, old(bindings).table@.len()),
    ensures
        final(bindings).wf(),
        final(bindings).table@.len() == old(bindings).table@.len(),
        forall|v: int|
            0 <= v < old(bindings).table@.len() && old(bindings).table@[v] is Bound
                ==> final(bindings).table@[v] == old(bindings).table@[v],
        (ok, final(bindings).table@) == crate::types::spec_subtype(
            old(bindings).table@,
            *arg_type,
            param.1,
        ),
        ok ==> final(errors)@ == old(errors)@,
        !ok ==> final(errors)@ == old(errors)@.push(
            TypeCheckError {
                kind: ErrorKind::TypeMismatch {
                    expected_typ: ExpectedType::Exact(param.1),
                    expr_typ: *arg_type,
                    expr_span: span,
                },
                context: None::<crate::errors::ErrContext>,
            },
        ),
{
    let ok = arg_type.make_subtype_of(&param.1, bindings);
    if !ok {
        errors.push(
            TypeCheckError::new(
                ErrorKind::TypeMismatch {
                    expected_typ: ExpectedType::Exact(param.1.duplicate()),
                    expr_typ: arg_type.duplicate(),
                    expr_span: span,
                },
            ),
        );
    }
    ok
}

/// Check a call of `func_id` on arguments of the given types: the dummy
/// id yields `Error` outright; an arity mismatch is reported once, the
/// shorter prefix is still held parameter by parameter, and the call's
/// type is the function's declared return type.
#[verifier::rlimit(100)]
pub fn type_check_function_call(
    interner: &mut NodeInterner,
    expr_id: &ExprId,
    func_id: &FuncId,
    arguments: &Vec<Type>,
    errors: &mut Vec<TypeCheckError>,
) -> (r: Type)
    requires
        old(interner).wf(),
        expr_id.0 < old(interner).exprs@.len(),
        func_id.0 == usize::MAX || func_id.0 < old(interner).funcs@.len(),
        forall|j: int|
            0 <= j < arguments@.len() ==> old(interner).type_ok(#[trigger] arguments@[j]),
    ensures
        final(interner).wf(),
        final(interner).exprs@ == old(interner).exprs@,
        final(interner).stmts@ == old(interner).stmts@,
        final(interner).structs@ == old(interner).structs@,
        final(interner).funcs@ == old(interner).funcs@,
        final(interner).expr_spans@ == old(interner).expr_spans@,
        final(interner).def_spans@ == old(interner).def_spans@,
        final(interner).expr_types@ == old(interner).expr_types@,
        final(interner).def_types@ == old(interner).def_types@,
        final(interner).bindings.table@.len() == old(interner).bindings.table@.len(),
        forall|v: int|
            0 <= v < old(interner).bindings.table@.len() && old(interner).bindings.table@[v]
                is Bound ==> final(interner).bindings.table@[v] == old(interner).bindings.table@[v],
        old(errors)@.is_prefix_of(final(errors)@),
        func_id.0 == usize::MAX ==> r == Type::Error && final(errors)@ == old(errors)@,
        func_id.0 != usize::MAX ==> r == old(interner).funcs@[func_id.0 as int].return_type,
        func_id.0 != usize::MAX && old(interner).funcs@[func_id.0 as int].parameters@.len() != arguments@.len() ==> final(errors)@.len()
            > old(errors)@.len() && final(errors)@[old(errors)@.len() as int] == (TypeCheckError {
            kind: ErrorKind::ArityMismatch {
                expected: old(interner).funcs@[func_id.0 as int].parameters@.len() as usize,
                found: arguments@.len() as usize,
                span: old(interner).expr_spans@[expr_id.0 as int],
            },
            context: None::<crate::errors::ErrContext>,
        }),
        func_id.0 != usize::MAX ==> final(errors)@ == (
        if old(interner).funcs@[func_id.0 as int].parameters@.len() != arguments@.len() {
            old(errors)@.push(
                TypeCheckError {
                    kind: ErrorKind::ArityMismatch {
                        expected: old(interner).funcs@[func_id.0 as int].parameters@.len() as usize,
                        found: arguments@.len() as usize,
                        span: old(interner).expr_spans@[expr_id.0 as int],
                    },
                    context: None::<crate::errors::ErrContext>,
                },
            )
        } else {
            old(errors)@
        }) + spec_check_args(
            old(interner).bindings.table@,
            old(interner).funcs@[func_id.0 as int].parameters@,
            arguments@,
            old(interner).expr_spans@[expr_id.0 as int],
            if old(interner).funcs@[func_id.0 as int].parameters@.len() < arguments@.len() {
                old(interner).funcs@[func_id.0 as int].parameters@.len() as int
            } else {
                arguments@.len() as int
            },
        ).0,
        func_id.0 != usize::MAX ==> final(interner).bindings.table@ == spec_check_args(
            old(interner).bindings.table@,
            old(interner).funcs@[func_id.0 as int].parameters@,
            arguments@,
            old(interner).expr_spans@[expr_id.0 as int],
            if old(interner).funcs@[func_id.0 as int].parameters@.len() < arguments@.len() {
                old(interner).funcs@[func_id.0 as int].parameters@.len() as int
            } else {
                arguments@.len() as int
            },
        ).1,
        final(interner).type_ok(r),
{
    if func_id.0 == usize::MAX {
        return Type::Error;
    }
    proof {
        assert(old(interner).func_wf(func_id.0 as int));
    }
    let meta = interner.function_meta(func_id);
    let span = interner.expr_span(expr_id);
    let param_len: usize = meta.parameters.len();
    let arg_len: usize = arguments.len();
    if param_len != arg_len {
        errors.push(
            TypeCheckError::new(
                ErrorKind::ArityMismatch { expected: param_len, found: arg_len, span },
            ),
        );
    }
    let n: usize = if param_len < arg_len {
        param_len
    } else {
        arg_len
    };
    let ghost o = *old(interner);
    let ghost base = errors@;
    proof {
        if errors@ != old(errors)@ {
            crate::node_interner::lemma_prefix_push(old(errors)@, errors@[old(errors)@.len() as int]);
        } else {
            crate::node_interner::lemma_prefix_refl(old(errors)@);
        }
        crate::node_interner::lemma_prefix_refl(base);
        assert(spec_check_args(o.bindings.table@, meta.parameters@, arguments@, span, 0).0
            =~= Seq::<TypeCheckError>::empty());
        assert(errors@ =~= base + spec_check_args(
            o.bindings.table@,
            meta.parameters@,
            arguments@,
            span,
            0,
        ).0);
    }
    let mut j: usize = 0;
    while j < n
        invariant
            base.is_prefix_of(errors@),
            span == o.expr_spans@[expr_id.0 as int],
            errors@ == base + spec_check_args(
                o.bindings.table@,
                meta.parameters@,
                arguments@,
                span,
                j as int,
            ).0,
            interner.bindings.table@ == spec_check_args(
                o.bindings.table@,
                meta.parameters@,
                arguments@,
                span,
                j as int,
            ).1,
            j <= n,
            n <= meta.parameters@.len(),
            n <= arguments@.len(),
            meta.parameters@ == o.funcs@[func_id.0 as int].parameters@,
            func_id.0 < o.funcs@.len(),
            o.wf(),
            interner.wf(),
            interner.exprs@ == o.exprs@,
            interner.stmts@ == o.stmts@,
            interner.structs@ == o.structs@,
            interner.funcs@ == o.funcs@,
            interner.expr_spans@ == o.expr_spans@,
            interner.def_spans@ == o.def_spans@,
            interner.expr_types@ == o.expr_types@,
            interner.def_types@ == o.def_types@,
            interner.bindings.table@.len() == o.bindings.table@.len(),
            forall|v: int|
                0 <= v < o.bindings.table@.len() && o.bindings.table@[v] is Bound
                    ==> interner.bindings.table@[v] == o.bindings.table@[v],
            forall|k: int| 0 <= k < arguments@.len() ==> o.type_ok(#[trigger] arguments@[k]),
        decreases n - j,
    {
        let ghost pre = *interner;
        proof {
            assert(o.func_wf(func_id.0 as int));
            assert(o.type_ok(meta.parameters@[j as int].1));
        }
        let ghost epre = errors@;
        let p = &meta.parameters[j];
        let ok = check_param_argument(span, p, &arguments[j], errors, &mut interner.bindings);
        proof {
            crate::node_interner::lemma_wf_stable(pre, *interner);
            if errors@ != epre {
                crate::node_interner::lemma_prefix_push(
                    epre,
                    errors@[epre.len() as int],
                );
            } else {
                crate::node_interner::lemma_prefix_refl(epre);
            }
            crate::node_interner::lemma_prefix_trans(base, epre, errors@);
            let ghost step = spec_check_args(
                o.bindings.table@,
                meta.parameters@,
                arguments@,
                span,
                j as int + 1,
            );
            if !ok {
                assert(errors@ =~= base + step.0);
            } else {
                assert(errors@ =~= base + step.0);
            }
        }
        j = j + 1;
    }
    proof {
        assert(o.func_wf(func_id.0 as int));
        crate::node_interner::lemma_prefix_trans(old(errors)@, base, errors@);
        if param_len != arg_len {
            assert(errors@[old(errors)@.len() as int] == base[old(errors)@.len() as int]);
        }
    }
    meta.return_type
}

/// Find the method named `method_name` on the receiver type: only a
/// struct receiver carries methods; an `Error` receiver stays silent so
/// one fault is reported once.
pub fn lookup_method(
    interner: &NodeInterner,
    object_type: &Type,
    method_name: &Name,
    expr_id: &ExprId,
    errors: &mut Vec<TypeCheckError>,
) -> (r: Option<FuncId>)
    requires
        interner.wf(),
        interner.type_ok(*object_type),
        expr_id.0 < interner.exprs@.len(),
    ensures
        match *object_type {
            Type::Struct(_, sid) => {
                &&& (r matches Some(m) ==> m.0 < interner.funcs@.len() && final(errors)@ == old(errors)@ && exists|j: int|
                    0 <= j < interner.structs@[sid.0 as int].methods@.len() && (
                    #[trigger] interner.structs@[sid.0 as int].methods@[j]).0@ == method_name@
                        && interner.structs@[sid.0 as int].methods@[j].1 == m)
                &&& (r is None ==> (forall|j: int|
                    0 <= j < interner.structs@[sid.0 as int].methods@.len() ==> (
                    #[trigger] interner.structs@[sid.0 as int].methods@[j]).0@ != method_name@)
                    && final(errors)@.len() == old(errors)@.len() + 1 && old(errors)@.is_prefix_of(final(errors)@) && final(errors)@.last().context is None && (final(errors)@.last().kind matches ErrorKind::Unstructured { msg, span } && span == interner
                    .expr_spans@[expr_id.0 as int] && (msg
                    matches ErrorMessage::NoMethodFound { method, typ } && method@ == method_name@
                    && typ == *object_type)))
            },
            Type::Error => r is None && final(errors)@ == old(errors)@,
            _ => r is None && final(errors)@.len() == old(errors)@.len() + 1 && old(errors)@.is_prefix_of(final(errors)@) && final(errors)@.last().context is None && (final(errors)@.last().kind matches ErrorKind::Unstructured { msg, span } && span == interner
                .expr_spans@[expr_id.0 as int] && (msg matches ErrorMessage::MustBeStruct { typ }
                && typ == *object_type)),
        },
{
    match object_type {
        Type::Struct(_, sid) => {
            match interner.get_method(sid, method_name) {
                Some(m) => Some(m),
                None => {
                    errors.push(
                        TypeCheckError::new(
                            ErrorKind::Unstructured {
                                msg: ErrorMessage::NoMethodFound {
                                    method: crate::hir::copy_name(method_name),
                                    typ: object_type.duplicate(),
                                },
                                span: interner.expr_span(expr_id),
                            },
                        ),
                    );
                    None
                },
            }
        },
        Type::Error => None,
        _ => {
            errors.push(
                TypeCheckError::new(
                    ErrorKind::Unstructured {
                        msg: ErrorMessage::MustBeStruct { typ: object_type.duplicate() },
                        span: interner.expr_span(expr_id),
                    },
                ),
            );
            None
        },
    }
}

/// What checking does to a method-call node, `t` being the type it was
/// assigned.  Either the method did not resolve — the node stands
/// unchanged and its type is `Error` — or the node has been replaced by
/// a plain call of the function registered under the method's name in a
/// struct's method table, the receiver prepended to the arguments, and
/// the type is that function's declared return type.  Any other node
/// keeps its shape.
pub open spec fn method_desugared(o: NodeInterner, n: NodeInterner, i: int, t: Type) -> bool {
    match o.exprs@[i] {
        HirExpression::MethodCall { object, method, arguments } => (n.exprs@[i] == o.exprs@[i] && t
            == Type::Error) || (n.exprs@[i] matches HirExpression::Call { func_id: f, arguments: a2 }
            && a2@ == seq![object] + arguments@ && f.0 < n.funcs@.len() && t
            == n.funcs@[f.0 as int].return_type && exists|sid: int, j: int|
            0 <= sid < n.structs@.len() && 0 <= j < n.structs@[sid].methods@.len() && (
            #[trigger] n.structs@[sid].methods@[j]).0@ == method@ && n.structs@[sid].methods@[j].1
                == f),
        _ => n.exprs@[i] == o.exprs@[i],
    }
}

/// Facts about the type the dispatcher assigns, per shape of the node:
/// what can be said without re-running the traversal.
pub open spec fn expr_result_facts(o: NodeInterner, i: int, t: Type) -> bool {
    match o.exprs@[i] {
        HirExpression::Ident(d) => t == o.spec_id_type(d.0 as int),
        HirExpression::Literal(lit) => match lit {
            HirLiteral::Bool(_) => t == Type::Bool,
            HirLiteral::Integer(_) => t matches Type::PolymorphicInteger(v) && v.0 == o.bindings
                .table@.len(),
            HirLiteral::Array(contents) => t matches Type::Array(vis, size, elem) && vis
                == FieldElementType::Private && size == ArraySize::Fixed(contents@.len() as u128)
                && (contents@.len() == 0 ==> *elem == Type::Error),
            HirLiteral::Str(_) => t == Type::Error,
        },
        HirExpression::For { identifier, start_range, end_range, block } => t matches Type::Array(
            vis,
            size,
            _,
        ) && vis == FieldElementType::Private && size == ArraySize::Variable,
        HirExpression::If { condition, consequence, alternative } => alternative is None ==> t
            == Type::Unit,
        HirExpression::Constructor { type_id, fields } => t == Type::Struct(
            FieldElementType::Private,
            type_id,
        ),
        HirExpression::Call { func_id, arguments } => t == if func_id.0 == usize::MAX {
            Type::Error
        } else {
            o.funcs@[func_id.0 as int].return_type
        },
        HirExpression::Block(stmt_ids) => stmt_ids@.len() == 0 ==> t == Type::Unit,
        HirExpression::Error => t == Type::Error,
        _ => true,
    }
}

/// What the dispatcher appends to the diagnostics, for the shapes whose
/// behaviour does not depend on sub-traversals: the leaves append
/// nothing, and a string literal appends exactly its flagged
/// unimplemented diagnostic — never a silent `Error`.
pub open spec fn expr_diag_facts(
    o: NodeInterner,
    i: int,
    e_old: Seq<TypeCheckError>,
    e_new: Seq<TypeCheckError>,
) -> bool {
    match o.exprs@[i] {
        HirExpression::Ident(_) => e_new == e_old,
        HirExpression::Literal(lit) => match lit {
            HirLiteral::Bool(_) => e_new == e_old,
            HirLiteral::Integer(_) => e_new == e_old,
            HirLiteral::Str(_) => e_new == e_old.push(
                TypeCheckError {
                    kind: ErrorKind::Unstructured {
                        msg: ErrorMessage::StringLiteralsUnimplemented,
                        span: o.expr_spans@[i],
                    },
                    context: None::<crate::errors::ErrContext>,
                },
            ),
            HirLiteral::Array(_) => true,
        },
        HirExpression::Error => e_new == e_old,
        _ => true,
    }
}

/// The bytes are a non-empty run of decimal digits.
pub open spec fn is_digits(s: Seq<u8>) -> bool {
    s.len() > 0 && forall|i: int| 0 <= i < s.len() ==> 48 <= #[trigger] s[i] <= 57
}

/// The number the digits spell in base ten.
pub open spec fn dec_val(s: Seq<u8>) -> nat
    decreases s.len(),
{
    if s.len() == 0 {
        0
    } else {
        (dec_val(s.drop_last()) * 10 + (s.last() - 48)) as nat
    }
}

/// Appending digits never shrinks the value.
proof fn lemma_dec_val_prefix_le(s: Seq<u8>, j: int)
    requires
        0 <= j <= s.len(),
        forall|i: int| 0 <= i < s.len() ==> 48 <= #[trigger] s[i] <= 57,
    ensures
        dec_val(s.take(j)) <= dec_val(s),
    decreases s.len() - j,
{
    if j < s.len() {
        assert(s.take(j + 1).drop_last() =~= s.take(j));
        assert(dec_val(s.take(j + 1)) == dec_val(s.take(j)) * 10 + (s.take(j + 1).last() - 48));
        lemma_dec_val_prefix_le(s, j + 1);
    } else {
        assert(s.take(j) =~= s);
    }
}

/// Read the bytes as a base-ten index.  `Some` exactly when every byte
/// is a digit, there is at least one, and the value fits the machine.
pub fn parse_index(name: &Name) -> (r: Option<usize>)
    ensures
        match r {
            Some(k) => is_digits(name@) && k as nat == dec_val(name@),
            None => !is_digits(name@) || dec_val(name@) > usize::MAX,
        },
{
    if name.len() == 0 {
        return None;
    }
    let mut k: usize = 0;
    let mut i: usize = 0;
    while i < name.len()
        invariant
            0 < name@.len(),
            i <= name@.len(),
            forall|j: int| 0 <= j < i ==> 48 <= #[trigger] name@[j] <= 57,
            k as nat == dec_val(name@.take(i as int)),
        decreases name@.len() - i,
    {
        let b = name[i];
        if b < 48 || b > 57 {
            return None;
        }
        let d: usize = (b - 48) as usize;
        if k > (usize::MAX - d) / 10 {
            proof {
                assert(name@.take(i as int + 1).drop_last() =~= name@.take(i as int));
                assert(dec_val(name@.take(i as int + 1)) == (k as nat) * 10 + d);
                if is_digits(name@) {
                    lemma_dec_val_prefix_le(name@, i as int + 1);
                    assert((k as nat) * 10 + d > usize::MAX);
                }
            }
            return None;
        }
        proof {
            assert(name@.take(i as int + 1).drop_last() =~= name@.take(i as int));
            assert(k <= (usize::MAX - d) / 10);
            assert(k * 10 + d <= usize::MAX);
        }
        k = k * 10 + d;
        i = i + 1;
    }
    proof {
        assert(name@.take(name@.len() as int) =~= name@);
    }
    Some(k)
}

/// The types the `Constant` sentinel accepts without binding anything:
/// already compile-time known, or absorbing.
pub open spec fn const_like(t: Type) -> bool {
    match t {
        Type::FieldElement(vis) => vis == FieldElementType::Constant,
        Type::Integer(vis, _, _) => vis == FieldElementType::Constant,
        Type::Constant => true,
        Type::Error => true,
        Type::Unspecified => true,
        _ => false,
    }
}

/// A type the unifier decides without consulting or changing the
/// binding table: no variable at the top and no structure to recurse
/// into.
pub open spec fn concrete_operand(t: Type) -> bool {
    !(t is PolymorphicInteger) && !(t is Array) && !(t is Tuple) && !(t is Constant)
}

/// What unification of two such types yields: absorption for `Error`
/// and `Unspecified`, the definition handle for structs, structural
/// equality else.
pub open spec fn concrete_unify_ok(a: Type, b: Type) -> bool {
    if a is Error || a is Unspecified || b is Error || b is Unspecified {
        true
    } else {
        match (a, b) {
            (Type::Struct(_, d1), Type::Struct(_, d2)) => d1 == d2,
            _ => a == b,
        }
    }
}

/// What the directed constraint yields on two such types: the constant
/// flows besides plain unification.
pub open spec fn concrete_subtype_ok(a: Type, b: Type) -> bool {
    if a == Type::FieldElement(FieldElementType::Constant) && b is FieldElement {
        true
    } else {
        match (a, b) {
            (Type::Integer(va, sa, wa), Type::Integer(vb, sb, wb)) => if va
                == FieldElementType::Constant && sa == sb && wa == wb {
                true
            } else {
                concrete_unify_ok(a, b)
            },
            _ => concrete_unify_ok(a, b),
        }
    }
}

/// The entry `x` stands somewhere among the diagnostics appended after
/// `e_old`.
pub open spec fn appended_contains(
    e_old: Seq<TypeCheckError>,
    e_new: Seq<TypeCheckError>,
    x: TypeCheckError,
) -> bool {
    exists|k: int| e_old.len() <= k < e_new.len() && e_new[k] == x
}

/// Check an index expression `collection[index]`: the index must be
/// compile-time known, and the collection an array, whose element type
/// is the result.  The index is checked, and reported, before the
/// collection.
#[verifier::rlimit(100)]
pub fn type_check_index_expression(
    interner: &mut NodeInterner,
    collection: ExprId,
    index: ExprId,
    errors: &mut Vec<TypeCheckError>,
) -> (r: Type)
    requires
        old(interner).wf(),
        collection.0 < old(interner).exprs@.len(),
        index.0 < old(interner).exprs@.len(),
    ensures
        final(interner).wf(),
        evolves(
            *old(interner),
            *final(interner),
            if collection.0 >= index.0 {
                collection.0 as int
            } else {
                index.0 as int
            },
        ),
        old(errors)@.is_prefix_of(final(errors)@),
        final(interner).subtree_typed(collection.0 as int),
        final(interner).subtree_typed(index.0 as int),
        final(interner).type_ok(r),
        match final(interner).expr_types@[index.0 as int] {
            Some(it) => (!(it is PolymorphicInteger) && !const_like(it)) ==> (
            if it is FieldElement {
                appended_contains(
                    old(errors)@,
                    final(errors)@,
                    TypeCheckError {
                        kind: ErrorKind::Unstructured {
                            msg: ErrorMessage::NonConstIndex { typ: it },
                            span: old(interner).expr_spans@[index.0 as int],
                        },
                        context: None::<crate::errors::ErrContext>,
                    },
                )
            } else {
                appended_contains(
                    old(errors)@,
                    final(errors)@,
                    TypeCheckError {
                        kind: ErrorKind::TypeMismatch {
                            expected_typ: ExpectedType::ConstField,
                            expr_typ: it,
                            expr_span: old(interner).expr_spans@[index.0 as int],
                        },
                        context: None::<crate::errors::ErrContext>,
                    },
                )
            }),
            None => false,
        },
        match final(interner).expr_types@[collection.0 as int] {
            Some(ct) => match ct {
                Type::Array(_, _, elem) => r == *elem,
                Type::Error => r == Type::Error,
                _ => r == Type::Error && final(errors)@.len() > old(errors)@.len() && final(errors)@.last() == (TypeCheckError {
                    kind: ErrorKind::TypeMismatch {
                        expected_typ: ExpectedType::AnyArray,
                        expr_typ: ct,
                        expr_span: old(interner).expr_spans@[collection.0 as int],
                    },
                    context: None::<crate::errors::ErrContext>,
                }),
            },
            None => false,
        },
    decreases (if collection.0 >= index.0 {
        collection.0 + 1
    } else {
        index.0 + 1
    }), 0int,
{
    let ghost o0 = *interner;
    let ghost e0 = errors@;
    let ghost top = if collection.0 >= index.0 {
        collection.0 as int
    } else {
        index.0 as int
    };
    proof {
        lemma_prefix_refl(e0);
    }
    let index_type = type_check_expression(interner, &index, errors);
    let ghost m1 = *interner;
    let ghost p1 = errors@;
    let ok = index_type.unify(&Type::Constant, &mut interner.bindings);
    let ghost m2 = *interner;
    proof {
        lemma_wf_stable(m1, *interner);
        assert(evolves(m1, m2, top));
        lemma_evolves_trans(o0, m1, m2, index.0 as int, top, top);
        lemma_evolves_subtree_typed(m1, m2, top, index.0 as int);
        if !(index_type is PolymorphicInteger) {
            lemma_resolve_not_structural(m1.bindings.table@, index_type);
            assert(ok == const_like(index_type));
        }
    }
    if !ok {
        let span = interner.expr_span(&index);
        let resolved = interner.bindings.resolve_type(&index_type);
        proof {
            if !(index_type is PolymorphicInteger) {
                lemma_resolve_not_structural(m2.bindings.table@, index_type);
                assert(resolved == index_type);
            }
        }
        let err = if matches!(resolved, Type::FieldElement(_)) {
            TypeCheckError::new(
                ErrorKind::Unstructured {
                    msg: ErrorMessage::NonConstIndex { typ: resolved },
                    span,
                },
            )
        } else {
            TypeCheckError::new(
                ErrorKind::TypeMismatch {
                    expected_typ: ExpectedType::ConstField,
                    expr_typ: index_type.duplicate(),
                    expr_span: span,
                },
            )
        };
        errors.push(err);
        proof {
            lemma_prefix_push(p1, errors@.last());
            lemma_prefix_trans(e0, p1, errors@);
            assert(errors@[p1.len() as int] == errors@.last());
        }
    }
    let ghost p2 = errors@;
    let lhs_type = type_check_expression(interner, &collection, errors);
    let ghost m3 = *interner;
    proof {
        lemma_evolves_trans(o0, m2, m3, top, collection.0 as int, top);
        lemma_evolves_subtree_typed(m2, m3, collection.0 as int, index.0 as int);
        lemma_prefix_trans(e0, p2, errors@);
        assert(m2.expr_types@[index.0 as int] == Some(index_type));
        assert(m3.expr_types@[index.0 as int] == Some(index_type));
        if !ok {
            crate::node_interner::lemma_prefix_index(p2, errors@, p1.len() as int);
        }
    }
    match lhs_type {
        Type::Array(_, _, base_type) => *base_type,
        Type::Error => Type::Error,
        typ => {
            let ghost pp = errors@;
            let span = interner.expr_span(&collection);
            errors.push(
                TypeCheckError::new(
                    ErrorKind::TypeMismatch {
                        expected_typ: ExpectedType::AnyArray,
                        expr_typ: typ,
                        expr_span: span,
                    },
                ),
            );
            proof {
                lemma_prefix_push(pp, errors@.last());
                lemma_prefix_trans(e0, pp, errors@);
                if !ok {
                    crate::node_interner::lemma_prefix_index(pp, errors@, p1.len() as int);
                }
            }
            Type::Error
        },
    }
}

/// A "no member of this name" diagnostic on the receiver was appended
/// last: the receiver's type, the name asked for, and the receiver's
/// span.
pub open spec fn no_member_reported(
    o: NodeInterner,
    lhs: ExprId,
    name: Seq<u8>,
    lt: Type,
    e_old: Seq<TypeCheckError>,
    e_new: Seq<TypeCheckError>,
) -> bool {
    e_new.len() > e_old.len() && e_new.last().context is None && (e_new.last().kind
        matches ErrorKind::Unstructured { msg, span } && span == o.expr_spans@[lhs.0 as int] && (msg
        matches ErrorMessage::NoMember { typ, field } && typ == lt && field@ == name))
}

/// Check a member access `lhs.rhs`: a struct yields the named field's
/// type, a tuple yields the element at the numeral position, anything
/// else has no members.  An `Error` receiver stays silent.
#[verifier::rlimit(100)]
pub fn check_member_access(
    lhs: ExprId,
    rhs: &Name,
    interner: &mut NodeInterner,
    errors: &mut Vec<TypeCheckError>,
) -> (r: Type)
    requires
        old(interner).wf(),
        lhs.0 < old(interner).exprs@.len(),
    ensures
        final(interner).wf(),
        evolves(*old(interner), *final(interner), lhs.0 as int),
        old(errors)@.is_prefix_of(final(errors)@),
        final(interner).subtree_typed(lhs.0 as int),
        final(interner).type_ok(r),
        match final(interner).expr_types@[lhs.0 as int] {
            Some(lt) => match lt {
                Type::Struct(_, sid) => (exists|j: int|
                    0 <= j < final(interner).structs@[sid.0 as int].fields@.len() && (
                    #[trigger] final(interner).structs@[sid.0 as int].fields@[j]).0@ == rhs@
                        && final(interner).structs@[sid.0 as int].fields@[j].1 == r) || (r
                    == Type::Error && (forall|j: int|
                    0 <= j < final(interner).structs@[sid.0 as int].fields@.len() ==> (
                    #[trigger] final(interner).structs@[sid.0 as int].fields@[j]).0@ != rhs@)
                    && no_member_reported(*old(interner), lhs, rhs@, lt, old(errors)@, final(errors)@)),
                Type::Tuple(elems) => if is_digits(rhs@) && dec_val(rhs@) <= usize::MAX
                    && dec_val(rhs@) < crate::types::llen(elems) {
                    r == crate::types::lnth(elems, dec_val(rhs@))
                } else {
                    r == Type::Error && no_member_reported(
                        *old(interner),
                        lhs,
                        rhs@,
                        lt,
                        old(errors)@,
                        final(errors)@,
                    )
                },
                Type::Error => r == Type::Error,
                _ => r == Type::Error && no_member_reported(
                    *old(interner),
                    lhs,
                    rhs@,
                    lt,
                    old(errors)@,
                    final(errors)@,
                ),
            },
            None => false,
        },
    decreases lhs.0 + 1, 0int,
{
    let ghost e0 = errors@;
    proof {
        lemma_prefix_refl(e0);
    }
    let lhs_type = type_check_expression(interner, &lhs, errors);
    let ghost p1 = errors@;
    match &lhs_type {
        Type::Struct(_, sid) => {
            match interner.get_field(sid, rhs) {
                Some(field) => {
                    return field;
                },
                None => {},
            }
        },
        Type::Tuple(elems) => {
            match parse_index(rhs) {
                Some(index) => {
                    match crate::types::tlist_nth(elems, index) {
                        Some(t) => {
                            proof {
                                crate::types::lemma_lnth_valid(
                                    *elems,
                                    index as nat,
                                    interner.bindings.table@.len(),
                                    interner.structs@.len(),
                                );
                            }
                            return t;
                        },
                        None => {},
                    }
                },
                None => {},
            }
        },
        _ => {},
    }
    if !matches!(lhs_type, Type::Error) {
        let span = interner.expr_span(&lhs);
        errors.push(
            TypeCheckError::new(
                ErrorKind::Unstructured {
                    msg: ErrorMessage::NoMember {
                        typ: lhs_type,
                        field: crate::hir::copy_name(rhs),
                    },
                    span,
                },
            ),
        );
        proof {
            lemma_prefix_push(p1, errors@.last());
            lemma_prefix_trans(e0, p1, errors@);
        }
    }
    Type::Error
}

/// Check an `if` expression: the condition must be boolean; without an
/// `else` the whole expression is `Unit`; with one, both branches must
/// agree and the consequence's type is the result.
#[verifier::rlimit(100)]
pub fn check_if_expr(
    condition: ExprId,
    consequence: ExprId,
    alternative: Option<ExprId>,
    expr_id: &ExprId,
    interner: &mut NodeInterner,
    errors: &mut Vec<TypeCheckError>,
) -> (r: Type)
    requires
        old(interner).wf(),
        expr_id.0 < old(interner).exprs@.len(),
        condition.0 < expr_id.0,
        consequence.0 < expr_id.0,
        match alternative {
            Some(e2) => e2.0 < expr_id.0,
            None => true,
        },
    ensures
        final(interner).wf(),
        evolves(*old(interner), *final(interner), expr_id.0 as int - 1),
        old(errors)@.is_prefix_of(final(errors)@),
        final(interner).subtree_typed(condition.0 as int),
        final(interner).subtree_typed(consequence.0 as int),
        match alternative {
            Some(e2) => final(interner).subtree_typed(e2.0 as int),
            None => true,
        },
        final(interner).type_ok(r),
        alternative is None ==> r == Type::Unit,
        alternative is Some ==> final(interner).expr_types@[consequence.0 as int] == Some(r),
        match final(interner).expr_types@[condition.0 as int] {
            Some(ct) => (!(ct is PolymorphicInteger) && !(ct is Bool) && !(ct is Error) && !(ct
                is Unspecified)) ==> appended_contains(
                old(errors)@,
                final(errors)@,
                TypeCheckError {
                    kind: ErrorKind::TypeMismatch {
                        expected_typ: ExpectedType::Exact(Type::Bool),
                        expr_typ: ct,
                        expr_span: old(interner).expr_spans@[condition.0 as int],
                    },
                    context: None::<crate::errors::ErrContext>,
                },
            ),
            None => false,
        },
        alternative matches Some(a2) ==> (match (
            final(interner).expr_types@[consequence.0 as int],
            final(interner).expr_types@[a2.0 as int],
        ) {
            (Some(tt), Some(et)) => (concrete_operand(tt) && concrete_operand(et)
                && !concrete_unify_ok(tt, et)) ==> final(errors)@.len() > old(errors)@.len()
                && final(errors)@.last() == (TypeCheckError {
                kind: ErrorKind::TypeMismatch {
                    expected_typ: ExpectedType::Exact(tt),
                    expr_typ: et,
                    expr_span: old(interner).expr_spans@[expr_id.0 as int],
                },
                context: Some(
                    if tt == Type::Unit {
                        crate::errors::ErrContext::MissingSemicolonInElse
                    } else if et == Type::Unit {
                        crate::errors::ErrContext::MissingSemicolonInIf
                    } else {
                        crate::errors::ErrContext::IfBranchesMustMatch
                    },
                ),
            }),
            _ => false,
        }),
    decreases expr_id.0, 0int,
{
    let ghost o0 = *interner;
    let ghost e0 = errors@;
    let ghost id0 = expr_id.0 as int - 1;
    proof {
        lemma_prefix_refl(e0);
    }
    let cond_type = type_check_expression(interner, &condition, errors);
    let ghost m1 = *interner;
    let ghost p1 = errors@;
    let then_type = type_check_expression(interner, &consequence, errors);
    let ghost m2 = *interner;
    proof {
        lemma_evolves_trans(o0, m1, m2, condition.0 as int, consequence.0 as int, id0);
        lemma_evolves_subtree_typed(m1, m2, consequence.0 as int, condition.0 as int);
        lemma_prefix_trans(e0, p1, errors@);
        lemma_poly_valid_grow(
            cond_type,
            m1.bindings.table@.len(),
            m2.bindings.table@.len(),
        );
    }
    let ok = cond_type.unify(&Type::Bool, &mut interner.bindings);
    let ghost m3 = *interner;
    let ghost pcond = errors@;
    proof {
        lemma_wf_stable(m2, *interner);
        assert(evolves(m2, m3, id0));
        lemma_evolves_trans(o0, m2, m3, id0, id0, id0);
        lemma_evolves_subtree_typed(m2, m3, id0, condition.0 as int);
        lemma_evolves_subtree_typed(m2, m3, id0, consequence.0 as int);
        assert(m1.expr_types@[condition.0 as int] == Some(cond_type));
        assert(m2.expr_types@[condition.0 as int] == Some(cond_type));
        assert(m3.expr_types@[condition.0 as int] == Some(cond_type));
        if !(cond_type is PolymorphicInteger) {
            lemma_resolve_not_structural(m2.bindings.table@, cond_type);
            assert(ok == (cond_type is Bool || cond_type is Error || cond_type is Unspecified));
        }
    }
    if !ok {
        let ghost pp = errors@;
        let span = interner.expr_span(&condition);
        errors.push(
            TypeCheckError::new(
                ErrorKind::TypeMismatch {
                    expected_typ: ExpectedType::Exact(Type::Bool),
                    expr_typ: cond_type.duplicate(),
                    expr_span: span,
                },
            ),
        );
        proof {
            lemma_prefix_push(pp, errors@.last());
            lemma_prefix_trans(e0, pp, errors@);
            assert(errors@[pcond.len() as int] == errors@.last());
        }
    }
    match alternative {
        None => Type::Unit,
        Some(alt) => {
            let ghost p3 = errors@;
            let else_type = type_check_expression(interner, &alt, errors);
            let ghost m4 = *interner;
            proof {
                lemma_evolves_trans(o0, m3, m4, id0, alt.0 as int, id0);
                lemma_evolves_subtree_typed(m3, m4, alt.0 as int, condition.0 as int);
                lemma_evolves_subtree_typed(m3, m4, alt.0 as int, consequence.0 as int);
                lemma_prefix_trans(e0, p3, errors@);
            }
            proof {
                lemma_poly_valid_grow(
                    then_type,
                    m2.bindings.table@.len(),
                    interner.bindings.table@.len(),
                );
            }
            let ok2 = then_type.unify(&else_type, &mut interner.bindings);
            let ghost m5 = *interner;
            proof {
                lemma_wf_stable(m4, *interner);
                assert(evolves(m4, m5, id0));
                lemma_evolves_trans(o0, m4, m5, id0, id0, id0);
                lemma_evolves_subtree_typed(m4, m5, id0, condition.0 as int);
                lemma_evolves_subtree_typed(m4, m5, id0, consequence.0 as int);
                lemma_evolves_subtree_typed(m4, m5, id0, alt.0 as int);
                assert(m2.expr_types@[consequence.0 as int] == Some(then_type));
                assert(m4.expr_types@[consequence.0 as int] == Some(then_type));
                assert(m5.expr_types@[consequence.0 as int] == Some(then_type));
                assert(m4.expr_types@[alt.0 as int] == Some(else_type));
                assert(m5.expr_types@[alt.0 as int] == Some(else_type));
                assert(m4.expr_types@[condition.0 as int] == Some(cond_type));
                assert(m5.expr_types@[condition.0 as int] == Some(cond_type));
                if concrete_operand(then_type) && concrete_operand(else_type) {
                    lemma_resolve_not_structural(m4.bindings.table@, then_type);
                    lemma_resolve_not_structural(m4.bindings.table@, else_type);
                    assert(ok2 == concrete_unify_ok(then_type, else_type));
                }
                if !ok {
                    crate::node_interner::lemma_prefix_index(p3, errors@, pcond.len() as int);
                }
            }
            if !ok2 {
                let ghost pp2 = errors@;
                let span = interner.expr_span(expr_id);
                let context = if matches!(then_type, Type::Unit) {
                    crate::errors::ErrContext::MissingSemicolonInElse
                } else if matches!(else_type, Type::Unit) {
                    crate::errors::ErrContext::MissingSemicolonInIf
                } else {
                    crate::errors::ErrContext::IfBranchesMustMatch
                };
                errors.push(
                    TypeCheckError::new(
                        ErrorKind::TypeMismatch {
                            expected_typ: ExpectedType::Exact(then_type.duplicate()),
                            expr_typ: else_type.duplicate(),
                            expr_span: span,
                        },
                    ).add_context(context),
                );
                proof {
                    lemma_prefix_push(pp2, errors@.last());
                    lemma_prefix_trans(e0, pp2, errors@);
                }
            }
            proof {
                crate::types::lemma_poly_valid_grow(
                    then_type,
                    m2.bindings.table@.len(),
                    interner.bindings.table@.len(),
                );
            }
            then_type
        },
    }
}

/// The position of the argument spelling `name`, when there is one.
fn find_named_arg(fields: &Vec<(Name, ExprId)>, name: &Name) -> (r: Option<usize>)
    ensures
        match r {
            Some(k) => k < fields@.len() && fields@[k as int].0@ == name@,
            None => forall|k: int| 0 <= k < fields@.len() ==> (#[trigger] fields@[k]).0@ != name@,
        },
{
    let mut k: usize = 0;
    while k < fields.len()
        invariant
            k <= fields@.len(),
            forall|k2: int| 0 <= k2 < k ==> (#[trigger] fields@[k2]).0@ != name@,
        decreases fields@.len() - k,
    {
        if crate::hir::name_eq(&fields[k].0, name) {
            return Some(k);
        }
        k = k + 1;
    }
    None
}

/// Check a constructor expression: each declared field of the struct, in
/// declared order, is matched by name against the caller's fields, and
/// the argument must flow into the field's declared type.  The result is
/// the struct type, private.  (That the visibility is unconditionally
/// private regardless of the target binding mirrors the checker's
/// current rule.)
#[verifier::rlimit(100)]
pub fn check_constructor(
    type_id: &StructId,
    fields: Vec<(Name, ExprId)>,
    expr_id: &ExprId,
    interner: &mut NodeInterner,
    errors: &mut Vec<TypeCheckError>,
) -> (r: Type)
    requires
        old(interner).wf(),
        expr_id.0 < old(interner).exprs@.len(),
        type_id.0 < old(interner).structs@.len(),
        forall|k: int| 0 <= k < fields@.len() ==> (#[trigger] fields@[k]).1.0 < expr_id.0,
        forall|j: int, k: int|
            0 <= j < k < fields@.len() ==> (#[trigger] fields@[j]).0@ != (#[trigger] fields@[k]).0@,
        forall|j: int|
            0 <= j < old(interner).structs@[type_id.0 as int].fields@.len()
                ==> NodeInterner::args_have_name(
                fields@,
                (#[trigger] old(interner).structs@[type_id.0 as int].fields@[j]).0@,
            ),
        forall|k: int|
            0 <= k < fields@.len() ==> NodeInterner::defs_have_name(
                old(interner).structs@[type_id.0 as int].fields@,
                (#[trigger] fields@[k]).0@,
            ),
    ensures
        final(interner).wf(),
        evolves(*old(interner), *final(interner), expr_id.0 as int - 1),
        old(errors)@.is_prefix_of(final(errors)@),
        forall|k: int|
            0 <= k < fields@.len() ==> final(interner).subtree_typed(
                (#[trigger] fields@[k]).1.0 as int,
            ),
        r == Type::Struct(FieldElementType::Private, *type_id),
        final(interner).type_ok(r),
        forall|j: int, k: int|
            0 <= j < old(interner).structs@[type_id.0 as int].fields@.len() && 0 <= k
                < fields@.len() && (#[trigger] old(interner).structs@[type_id.0 as int].fields@[j]).0@
                == (#[trigger] fields@[k]).0@ ==> (
            match final(interner).expr_types@[fields@[k].1.0 as int] {
                Some(at) => (concrete_operand(at) && concrete_operand(
                    old(interner).structs@[type_id.0 as int].fields@[j].1,
                ) && !concrete_subtype_ok(
                    at,
                    old(interner).structs@[type_id.0 as int].fields@[j].1,
                )) ==> appended_contains(
                    old(errors)@,
                    final(errors)@,
                    TypeCheckError {
                        kind: ErrorKind::TypeMismatch {
                            expected_typ: ExpectedType::Exact(
                                old(interner).structs@[type_id.0 as int].fields@[j].1,
                            ),
                            expr_typ: at,
                            expr_span: old(interner).expr_spans@[expr_id.0 as int],
                        },
                        context: None::<crate::errors::ErrContext>,
                    },
                ),
                None => false,
            }),
    decreases expr_id.0, 0int,
{
    let ghost o0 = *interner;
    let ghost e0 = errors@;
    let ghost id0 = expr_id.0 as int - 1;
    let ghost sid = type_id.0 as int;
    proof {
        lemma_prefix_refl(e0);
        assert forall|j2: int|
            0 <= j2 < o0.structs@[sid].fields@.len() implies NodeInterner::args_have_name(
            fields@,
            (#[trigger] o0.structs@[sid].fields@[j2]).0@,
        ) by {
            assert(o0.structs@[sid].fields@[j2] == old(interner).structs@[type_id.0 as int].fields@[j2]);
            assert(NodeInterner::args_have_name(
                fields@,
                (old(interner).structs@[type_id.0 as int].fields@[j2]).0@,
            ));
        }
    }
    let n_fields = interner.struct_field_len(type_id);
    let mut j: usize = 0;
    while j < n_fields
        invariant
            o0.wf(),
            expr_id.0 < o0.exprs@.len(),
            id0 == expr_id.0 as int - 1,
            sid == type_id.0 as int,
            type_id.0 < o0.structs@.len(),
            n_fields == o0.structs@[sid].fields@.len(),
            j <= n_fields,
            forall|k: int| 0 <= k < fields@.len() ==> (#[trigger] fields@[k]).1.0 < expr_id.0,
            forall|j2: int, k: int|
                0 <= j2 < k < fields@.len() ==> (#[trigger] fields@[j2]).0@ != (
                #[trigger] fields@[k]).0@,
            forall|j2: int|
                0 <= j2 < o0.structs@[sid].fields@.len() ==> NodeInterner::args_have_name(
                    fields@,
                    (#[trigger] o0.structs@[sid].fields@[j2]).0@,
                ),
            interner.wf(),
            evolves(o0, *interner, id0),
            e0.is_prefix_of(errors@),
            forall|k: int|
                0 <= k < fields@.len() && (exists|j2: int|
                    0 <= j2 < j && (#[trigger] fields@[k]).0@ == o0.structs@[sid].fields@[j2].0@)
                    ==> interner.subtree_typed(fields@[k].1.0 as int),
            forall|j2: int, k: int|
                0 <= j2 < j && 0 <= k < fields@.len() && (#[trigger] o0.structs@[sid].fields@[j2]).0@
                    == (#[trigger] fields@[k]).0@ ==> (
                match interner.expr_types@[fields@[k].1.0 as int] {
                    Some(at) => (concrete_operand(at) && concrete_operand(
                        o0.structs@[sid].fields@[j2].1,
                    ) && !concrete_subtype_ok(at, o0.structs@[sid].fields@[j2].1))
                        ==> appended_contains(
                        e0,
                        errors@,
                        TypeCheckError {
                            kind: ErrorKind::TypeMismatch {
                                expected_typ: ExpectedType::Exact(o0.structs@[sid].fields@[j2].1),
                                expr_typ: at,
                                expr_span: o0.expr_spans@[expr_id.0 as int],
                            },
                            context: None::<crate::errors::ErrContext>,
                        },
                    ),
                    None => false,
                }),
        decreases n_fields - j,
    {
        proof {
            assert(interner.structs@ == o0.structs@);
        }
        let entry = interner.struct_field(type_id, j);
        match find_named_arg(&fields, &entry.0) {
            Some(k) => {
                let arg_id = fields[k].1;
                let ghost pre = *interner;
                let ghost pe = errors@;
                let arg_type = type_check_expression(interner, &arg_id, errors);
                proof {
                    lemma_evolves_trans(o0, pre, *interner, id0, arg_id.0 as int, id0);
                    lemma_prefix_trans(e0, pe, errors@);
                    assert forall|k2: int|
                        0 <= k2 < fields@.len() && (exists|j2: int|
                            0 <= j2 < j && (#[trigger] fields@[k2]).0@
                                == o0.structs@[sid].fields@[j2].0@) implies interner.subtree_typed(
                        fields@[k2].1.0 as int,
                    ) by {
                        lemma_evolves_subtree_typed(
                            pre,
                            *interner,
                            arg_id.0 as int,
                            fields@[k2].1.0 as int,
                        );
                    }
                    lemma_poly_valid_grow(
                        entry.1,
                        pre.bindings.table@.len(),
                        interner.bindings.table@.len(),
                    );
                }
                let ghost pre2 = *interner;
                let ghost pe2 = errors@;
                let ok = arg_type.make_subtype_of(&entry.1, &mut interner.bindings);
                proof {
                    lemma_wf_stable(pre2, *interner);
                    assert(evolves(pre2, *interner, id0));
                    lemma_evolves_trans(o0, pre2, *interner, id0, id0, id0);
                    assert forall|k2: int|
                        0 <= k2 < fields@.len() && (exists|j2: int|
                            0 <= j2 < j && (#[trigger] fields@[k2]).0@
                                == o0.structs@[sid].fields@[j2].0@) implies interner.subtree_typed(
                        fields@[k2].1.0 as int,
                    ) by {
                        lemma_evolves_subtree_typed(pre2, *interner, id0, fields@[k2].1.0 as int);
                    }
                    lemma_evolves_subtree_typed(pre2, *interner, id0, arg_id.0 as int);
                    assert(pre2.expr_types@[arg_id.0 as int] == Some(arg_type));
                    assert(interner.expr_types@[arg_id.0 as int] == Some(arg_type));
                    if concrete_operand(arg_type) && concrete_operand(entry.1) {
                        lemma_resolve_not_structural(pre2.bindings.table@, arg_type);
                        lemma_resolve_not_structural(pre2.bindings.table@, entry.1);
                        assert(ok == concrete_subtype_ok(arg_type, entry.1));
                    }
                }
                let ghost pdiag = errors@;
                if !ok {
                    let ghost pp = errors@;
                    let span = interner.expr_span(expr_id);
                    errors.push(
                        TypeCheckError::new(
                            ErrorKind::TypeMismatch {
                                expected_typ: ExpectedType::Exact(entry.1),
                                expr_typ: arg_type,
                                expr_span: span,
                            },
                        ),
                    );
                    proof {
                        lemma_prefix_push(pp, errors@.last());
                        lemma_prefix_trans(e0, pp, errors@);
                        assert(errors@[pdiag.len() as int] == errors@.last());
                    }
                }
                proof {
                    assert forall|k2: int|
                        0 <= k2 < fields@.len() && (exists|j2: int|
                            0 <= j2 < j + 1 && (#[trigger] fields@[k2]).0@
                                == o0.structs@[sid].fields@[j2].0@) implies interner.subtree_typed(
                        fields@[k2].1.0 as int,
                    ) by {
                        let j2 = choose|j2: int|
                            0 <= j2 < j + 1 && (#[trigger] fields@[k2]).0@
                                == o0.structs@[sid].fields@[j2].0@;
                        if j2 == j as int {
                            assert(fields@[k2].0@ == fields@[k as int].0@);
                            assert(k2 == k as int);
                        }
                    }
                    assert(pe.is_prefix_of(errors@)) by {
                        lemma_prefix_push(pe2, errors@.last());
                        lemma_prefix_refl(pe2);
                        lemma_prefix_refl(errors@);
                        if errors@ != pe2 {
                            lemma_prefix_trans(pe, pe2, errors@);
                        } else {
                            lemma_prefix_trans(pe, pe2, errors@);
                        }
                    }
                    assert forall|j2: int, k2: int|
                        0 <= j2 < j + 1 && 0 <= k2 < fields@.len() && (
                        #[trigger] o0.structs@[sid].fields@[j2]).0@ == (#[trigger] fields@[k2]).0@
                        implies (match interner.expr_types@[fields@[k2].1.0 as int] {
                        Some(at) => (concrete_operand(at) && concrete_operand(
                            o0.structs@[sid].fields@[j2].1,
                        ) && !concrete_subtype_ok(at, o0.structs@[sid].fields@[j2].1))
                            ==> appended_contains(
                            e0,
                            errors@,
                            TypeCheckError {
                                kind: ErrorKind::TypeMismatch {
                                    expected_typ: ExpectedType::Exact(
                                        o0.structs@[sid].fields@[j2].1,
                                    ),
                                    expr_typ: at,
                                    expr_span: o0.expr_spans@[expr_id.0 as int],
                                },
                                context: None::<crate::errors::ErrContext>,
                            },
                        ),
                        None => false,
                    }) by {
                        if j2 == j as int {
                            assert(fields@[k2].0@ == fields@[k as int].0@);
                            assert(k2 == k as int);
                            assert(interner.expr_types@[arg_id.0 as int] == Some(arg_type));
                            assert(o0.structs@[sid].fields@[j as int].0@ == entry.0@);
                            assert(o0.structs@[sid].fields@[j as int].1 == entry.1);
                        } else {
                            assert(pre.expr_types@[fields@[k2].1.0 as int] == interner
                                .expr_types@[fields@[k2].1.0 as int]) by {
                                match pre.expr_types@[fields@[k2].1.0 as int] {
                                    Some(at0) => {},
                                    None => {
                                        assert(false);
                                    },
                                }
                            }
                            match pre.expr_types@[fields@[k2].1.0 as int] {
                                Some(at) => {
                                    if concrete_operand(at) && concrete_operand(
                                        o0.structs@[sid].fields@[j2].1,
                                    ) && !concrete_subtype_ok(at, o0.structs@[sid].fields@[j2].1) {
                                        let w = choose|w: int|
                                            e0.len() <= w < pe.len() && pe[w] == (TypeCheckError {
                                                kind: ErrorKind::TypeMismatch {
                                                    expected_typ: ExpectedType::Exact(
                                                        o0.structs@[sid].fields@[j2].1,
                                                    ),
                                                    expr_typ: at,
                                                    expr_span: o0.expr_spans@[expr_id.0 as int],
                                                },
                                                context: None::<crate::errors::ErrContext>,
                                            });
                                        crate::node_interner::lemma_prefix_index(pe, errors@, w);
                                    }
                                },
                                None => {},
                            }
                        }
                    }
                }
            },
            None => {
                proof {
                    assert(NodeInterner::args_have_name(
                        fields@,
                        (o0.structs@[sid].fields@[j as int]).0@,
                    ));
                    assert(false);
                }
            },
        }
        j = j + 1;
    }
    proof {
        assert forall|k: int| 0 <= k < fields@.len() implies interner.subtree_typed(
            (#[trigger] fields@[k]).1.0 as int,
        ) by {
            assert(NodeInterner::defs_have_name(
                old(interner).structs@[type_id.0 as int].fields@,
                (fields@[k]).0@,
            ));
            assert(old(interner).structs@[type_id.0 as int].fields@ == o0.structs@[sid].fields@);
            let j2 = choose|j2: int|
                0 <= j2 < o0.structs@[sid].fields@.len() && (
                #[trigger] o0.structs@[sid].fields@[j2]).0@ == (fields@[k]).0@;
            assert(0 <= j2 < j && fields@[k].0@ == o0.structs@[sid].fields@[j2].0@);
            assert(exists|j3: int|
                0 <= j3 < j && (fields@[k]).0@ == (o0.structs@[sid].fields@[j3]).0@);
        }
    }
    Type::Struct(FieldElementType::Private, *type_id)
}

/// Assign a type to the expression node `expr_id`: read its shape,
/// compute its type by the rules of its variant, record the type in the
/// store, and return it.  A node that already carries a type is
/// returned as recorded — types are written once.  On any fault a
/// diagnostic is appended and the traversal continues with `Error`, so
/// one pass surfaces as many faults as possible; every reachable node
/// still receives a type.  A checked method call is rewritten into a
/// plain function call.
#[verifier::rlimit(100)]
pub fn type_check_expression(
    interner: &mut NodeInterner,
    expr_id: &ExprId,
    errors: &mut Vec<TypeCheckError>,
) -> (t: Type)
    requires
        old(interner).wf(),
        expr_id.0 < old(interner).exprs@.len(),
    ensures
        final(interner).wf(),
        evolves(*old(interner), *final(interner), expr_id.0 as int),
        old(errors)@.is_prefix_of(final(errors)@),
        final(interner).subtree_typed(expr_id.0 as int),
        final(interner).expr_types@[expr_id.0 as int] == Some(t),
        final(interner).type_ok(t),
        old(interner).expr_types@[expr_id.0 as int] is None ==> method_desugared(
            *old(interner),
            *final(interner),
            expr_id.0 as int,
            t,
        ),
        old(interner).expr_types@[expr_id.0 as int] is None ==> expr_result_facts(
            *old(interner),
            expr_id.0 as int,
            t,
        ),
        old(interner).expr_types@[expr_id.0 as int] is None ==> expr_diag_facts(
            *old(interner),
            expr_id.0 as int,
            old(errors)@,
            final(errors)@,
        ),
        old(interner).expr_types@[expr_id.0 as int] is None ==> (
        match old(interner).exprs@[expr_id.0 as int] {
            HirExpression::For { identifier, start_range, end_range, block } => final(interner).def_types@[identifier.0 as int] is Some,
            _ => true,
        }),
        old(interner).expr_types@[expr_id.0 as int] is None ==> (
        match old(interner).exprs@[expr_id.0 as int] {
            HirExpression::Infix { lhs, operator, rhs } => match (
                final(interner).expr_types@[lhs.0 as int],
                final(interner).expr_types@[rhs.0 as int],
            ) {
                (Some(lt), Some(rt)) => (!(lt is PolymorphicInteger) && !(rt
                    is PolymorphicInteger)) ==> match spec_infix_concrete(lt, operator, rt) {
                    Ok(t0) => t == t0,
                    Err(m) => t == Type::Error && final(errors)@.len() > old(errors)@.len()
                        && final(errors)@.last() == (TypeCheckError {
                        kind: ErrorKind::Unstructured {
                            msg: m,
                            span: crate::span::spec_merge(
                                old(interner).expr_spans@[lhs.0 as int],
                                old(interner).expr_spans@[rhs.0 as int],
                            ),
                        },
                        context: None::<crate::errors::ErrContext>,
                    }),
                },
                _ => false,
            },
            HirExpression::Literal(lit) => match lit {
                HirLiteral::Array(contents) => (contents@.len() > 0 ==> (
                match final(interner).expr_types@[contents@[0].0 as int] {
                    Some(ft) => t matches Type::Array(_, _, elem) && *elem == ft,
                    None => false,
                })) && (forall|ix: int|
                    1 <= ix < contents@.len() ==> (
                    match (
                        final(interner).expr_types@[contents@[0].0 as int],
                        final(interner).expr_types@[(#[trigger] contents@[ix]).0 as int],
                    ) {
                        (Some(ft), Some(at)) => (concrete_operand(ft) && concrete_operand(at)
                            && !concrete_unify_ok(at, ft)) ==> appended_contains(
                            old(errors)@,
                            final(errors)@,
                            TypeCheckError {
                                kind: ErrorKind::NonHomogeneousArray {
                                    first_span: old(interner).expr_spans@[contents@[0].0 as int],
                                    first_type: ft,
                                    first_index: 0,
                                    second_span: old(interner).expr_spans@[contents@[ix].0 as int],
                                    second_type: at,
                                    second_index: (ix + 1) as usize,
                                },
                                context: Some(crate::errors::ErrContext::ArrayElementsMustMatch),
                            },
                        ),
                        _ => false,
                    })),
                _ => true,
            },
            HirExpression::Block(stmt_ids) => stmt_ids@.len() > 0 ==> (
            match old(interner).stmts@[stmt_ids@[stmt_ids@.len() - 1].0 as int] {
                HirStatement::Expression(e) => final(interner).expr_types@[e.0 as int] == Some(t),
                HirStatement::Semi(e) => t == Type::Unit,
                HirStatement::Let { id, annotated, expression } => t == Type::Unit,
                HirStatement::Error => t == Type::Error,
            }),
            HirExpression::For { identifier, start_range, end_range, block } => (
            match (
                final(interner).expr_types@[start_range.0 as int],
                final(interner).expr_types@[end_range.0 as int],
            ) {
                (Some(st), Some(et)) => ((!(st is PolymorphicInteger) && !const_like(st))
                    ==> appended_contains(
                    old(errors)@,
                    final(errors)@,
                    TypeCheckError {
                        kind: ErrorKind::TypeCannotBeUsed {
                            typ: st,
                            place: crate::errors::Place::ForLoop,
                            span: old(interner).expr_spans@[start_range.0 as int],
                        },
                        context: Some(crate::errors::ErrContext::LoopRangeMustBeConst),
                    },
                )) && ((!(et is PolymorphicInteger) && !const_like(et)) ==> appended_contains(
                    old(errors)@,
                    final(errors)@,
                    TypeCheckError {
                        kind: ErrorKind::TypeCannotBeUsed {
                            typ: et,
                            place: crate::errors::Place::ForLoop,
                            span: old(interner).expr_spans@[end_range.0 as int],
                        },
                        context: Some(crate::errors::ErrContext::LoopRangeMustBeConst),
                    },
                )),
                _ => false,
            }),
            _ => true,
        }),
    decreases expr_id.0, 1int,
{
    let ghost o0 = *interner;
    let ghost e0 = errors@;
    let ghost id0 = expr_id.0 as int;
    proof {
        lemma_prefix_refl(e0);
        assert(o0.expr_wf(id0));
    }
    let memo = interner.expr_type_of(expr_id);
    match memo {
        Some(t0) => {
            proof {
                assert(interner.typed_node_ok(id0));
                crate::node_interner::lemma_typed_subtree(*interner, id0);
                assert(evolves(o0, *interner, id0));
            }
            return t0;
        },
        None => {},
    }
    let e = interner.expression(expr_id);
    let ghost eg = e;
    let typ: Type = match e {
        HirExpression::Ident(d) => {
            proof {
                match o0.exprs@[id0] {
                    HirExpression::Ident(d2) => {
                        assert(d2 == d);
                    },
                    _ => {
                        assert(false);
                    },
                }
            }
            let t0 = interner.id_type(&d);
            proof {
                assert(interner.expr_types@[id0] is None);
                assert(interner.children_typed(id0));
            }
            t0
        },
        HirExpression::Literal(lit) => {
            match lit {
                HirLiteral::Bool(_) => {
                    proof {
                        assert(interner.expr_types@[id0] is None);
                assert(interner.children_typed(id0));
                    }
                    Type::Bool
                },
                HirLiteral::Integer(_) => {
                    let v = interner.next_type_variable_id();
                    proof {
                        assert(evolves(o0, *interner, id0));
                        assert(interner.exprs@[id0] == o0.exprs@[id0]);
                        assert(interner.expr_types@[id0] is None);
                assert(interner.children_typed(id0));
                        assert(interner.type_ok(Type::PolymorphicInteger(v)));
                    }
                    Type::PolymorphicInteger(v)
                },
                HirLiteral::Str(_) => {
                    let ghost pp = errors@;
                    let span = interner.expr_span(expr_id);
                    errors.push(
                        TypeCheckError::new(
                            ErrorKind::Unstructured {
                                msg: ErrorMessage::StringLiteralsUnimplemented,
                                span,
                            },
                        ),
                    );
                    proof {
                        lemma_prefix_push(pp, errors@.last());
                        assert(interner.expr_types@[id0] is None);
                assert(interner.children_typed(id0));
                    }
                    Type::Error
                },
                HirLiteral::Array(contents) => {
                    proof {
                        match o0.exprs@[id0] {
                            HirExpression::Literal(lit2) => {
                                match lit2 {
                                    HirLiteral::Array(c2) => {
                                        assert(c2@ == contents@);
                                    },
                                    _ => {
                                        assert(false);
                                    },
                                }
                            },
                            _ => {
                                assert(false);
                            },
                        }
                    }
                    let mut elem_types: Vec<Type> = Vec::new();
                    let mut j: usize = 0;
                    while j < contents.len()
                        invariant
                            o0.wf(),
                            expr_id.0 < o0.exprs@.len(),
                            id0 == expr_id.0 as int,
                            o0.exprs@[id0] matches HirExpression::Literal(HirLiteral::Array(c2))
                                && c2@ == contents@,
                            forall|k: int|
                                0 <= k < contents@.len() ==> (#[trigger] contents@[k]).0 < id0,
                            interner.wf(),
                            evolves(o0, *interner, id0),
                            interner.exprs@[id0] == o0.exprs@[id0],
                            interner.expr_types@[id0] is None,
                            e0.is_prefix_of(errors@),
                            j <= contents@.len(),
                            elem_types@.len() == j,
                            forall|k: int|
                                0 <= k < j ==> interner.subtree_typed(
                                    (#[trigger] contents@[k]).0 as int,
                                ),
                            forall|k: int|
                                0 <= k < j ==> interner.expr_types@[(#[trigger] contents@[k]).0 as int]
                                    == Some(elem_types@[k]),
                            forall|k: int|
                                0 <= k < j ==> interner.type_ok(#[trigger] elem_types@[k]),
                        decreases contents@.len() - j,
                    {
                        let ghost pre = *interner;
                        let ghost pe = errors@;
                        let c = contents[j];
                        let ct = type_check_expression(interner, &c, errors);
                        proof {
                            lemma_evolves_trans(o0, pre, *interner, id0, c.0 as int, id0);
                            lemma_prefix_trans(e0, pe, errors@);
                            assert(interner.exprs@[id0] == pre.exprs@[id0]);
                    assert(interner.expr_types@[id0] is None);
                            assert(interner.expr_types@[id0] is None);
                            assert forall|k: int| 0 <= k < j implies interner.subtree_typed(
                                (#[trigger] contents@[k]).0 as int,
                            ) by {
                                lemma_evolves_subtree_typed(
                                    pre,
                                    *interner,
                                    c.0 as int,
                                    contents@[k].0 as int,
                                );
                            }
                            assert forall|k: int| 0 <= k < j implies interner.expr_types@[(
                            #[trigger] contents@[k]).0 as int] == Some(elem_types@[k]) by {
                                assert(pre.expr_types@[contents@[k].0 as int] == Some(
                                    elem_types@[k],
                                ));
                            }
                            assert forall|k: int| 0 <= k < j implies interner.type_ok(
                                #[trigger] elem_types@[k],
                            ) by {
                                lemma_poly_valid_grow(
                                    elem_types@[k],
                                    pre.bindings.table@.len(),
                                    interner.bindings.table@.len(),
                                );
                            }
                        }
                        elem_types.push(ct);
                        j = j + 1;
                    }
                    let first_elem_type = if elem_types.len() > 0 {
                        elem_types[0].duplicate()
                    } else {
                        Type::Error
                    };
                    let arr_len: u128 = contents.len() as u128;
                    let mut idx: usize = 1;
                    while idx < elem_types.len()
                        invariant
                            o0.wf(),
                            expr_id.0 < o0.exprs@.len(),
                            id0 == expr_id.0 as int,
                            o0.exprs@[id0] matches HirExpression::Literal(HirLiteral::Array(c2))
                                && c2@ == contents@,
                            forall|k: int|
                                0 <= k < contents@.len() ==> (#[trigger] contents@[k]).0 < id0,
                            interner.wf(),
                            evolves(o0, *interner, id0),
                            interner.exprs@[id0] == o0.exprs@[id0],
                            interner.expr_types@[id0] is None,
                            e0.is_prefix_of(errors@),
                            elem_types@.len() == contents@.len(),
                            contents@.len() > 0 ==> interner.expr_types@[contents@[0].0 as int]
                                == Some(first_elem_type),
                            forall|k: int|
                                0 <= k < contents@.len() ==> interner.expr_types@[(
                                #[trigger] contents@[k]).0 as int] == Some(elem_types@[k]),
                            forall|ix: int|
                                1 <= ix < idx ==> ((concrete_operand(first_elem_type)
                                    && concrete_operand(elem_types@[ix]) && !concrete_unify_ok(
                                    elem_types@[ix],
                                    first_elem_type,
                                )) ==> appended_contains(
                                    e0,
                                    errors@,
                                    TypeCheckError {
                                        kind: ErrorKind::NonHomogeneousArray {
                                            first_span: o0.expr_spans@[contents@[0].0 as int],
                                            first_type: first_elem_type,
                                            first_index: 0,
                                            second_span: o0.expr_spans@[(
                                            #[trigger] contents@[ix]).0 as int],
                                            second_type: elem_types@[ix],
                                            second_index: (ix + 1) as usize,
                                        },
                                        context: Some(
                                            crate::errors::ErrContext::ArrayElementsMustMatch,
                                        ),
                                    },
                                )),
                            1 <= idx,
                            forall|k: int|
                                0 <= k < contents@.len() ==> interner.subtree_typed(
                                    (#[trigger] contents@[k]).0 as int,
                                ),
                            forall|k: int|
                                0 <= k < elem_types@.len() ==> interner.type_ok(
                                    #[trigger] elem_types@[k],
                                ),
                            interner.type_ok(first_elem_type),
                        decreases elem_types@.len() - idx,
                    {
                        let ghost pre2 = *interner;
                        let ghost pe2 = errors@;
                        let ok = elem_types[idx].unify(&first_elem_type, &mut interner.bindings);
                        proof {
                            lemma_wf_stable(pre2, *interner);
                            assert(evolves(pre2, *interner, id0));
                            lemma_evolves_trans(o0, pre2, *interner, id0, id0, id0);
                            assert forall|k: int| 0 <= k < contents@.len() implies interner
                                .subtree_typed((#[trigger] contents@[k]).0 as int) by {
                                lemma_evolves_subtree_typed(
                                    pre2,
                                    *interner,
                                    id0,
                                    contents@[k].0 as int,
                                );
                            }
                            if concrete_operand(first_elem_type) && concrete_operand(
                                elem_types@[idx as int],
                            ) {
                                lemma_resolve_not_structural(
                                    pre2.bindings.table@,
                                    first_elem_type,
                                );
                                lemma_resolve_not_structural(
                                    pre2.bindings.table@,
                                    elem_types@[idx as int],
                                );
                                assert(ok == concrete_unify_ok(
                                    elem_types@[idx as int],
                                    first_elem_type,
                                ));
                            }
                        }
                        if !ok {
                            let first_span = interner.expr_span(&contents[0]);
                            let second_span = interner.expr_span(&contents[idx]);
                            let ghost pp = errors@;
                            errors.push(
                                TypeCheckError::new(
                                    ErrorKind::NonHomogeneousArray {
                                        first_span,
                                        first_type: first_elem_type.duplicate(),
                                        first_index: 0,
                                        second_span,
                                        second_type: elem_types[idx].duplicate(),
                                        second_index: idx + 1,
                                    },
                                ).add_context(crate::errors::ErrContext::ArrayElementsMustMatch),
                            );
                            proof {
                                lemma_prefix_push(pp, errors@.last());
                                lemma_prefix_trans(e0, pp, errors@);
                                assert(errors@[pe2.len() as int] == errors@.last());
                            }
                        }
                        proof {
                            assert(pe2.is_prefix_of(errors@)) by {
                                if errors@ != pe2 {
                                    lemma_prefix_push(pe2, errors@.last());
                                } else {
                                    lemma_prefix_refl(pe2);
                                }
                            }
                            assert forall|ix: int|
                                1 <= ix < idx + 1 implies ((concrete_operand(first_elem_type)
                                    && concrete_operand(elem_types@[ix]) && !concrete_unify_ok(
                                    elem_types@[ix],
                                    first_elem_type,
                                )) ==> appended_contains(
                                    e0,
                                    errors@,
                                    TypeCheckError {
                                        kind: ErrorKind::NonHomogeneousArray {
                                            first_span: o0.expr_spans@[contents@[0].0 as int],
                                            first_type: first_elem_type,
                                            first_index: 0,
                                            second_span: o0.expr_spans@[(
                                            #[trigger] contents@[ix]).0 as int],
                                            second_type: elem_types@[ix],
                                            second_index: (ix + 1) as usize,
                                        },
                                        context: Some(
                                            crate::errors::ErrContext::ArrayElementsMustMatch,
                                        ),
                                    },
                                )) by {
                                if ix < idx {
                                    if concrete_operand(first_elem_type) && concrete_operand(
                                        elem_types@[ix],
                                    ) && !concrete_unify_ok(elem_types@[ix], first_elem_type) {
                                        let w = choose|w: int|
                                            e0.len() <= w < pe2.len() && pe2[w] == (TypeCheckError {
                                                kind: ErrorKind::NonHomogeneousArray {
                                                    first_span: o0.expr_spans@[contents@[0].0 as int],
                                                    first_type: first_elem_type,
                                                    first_index: 0,
                                                    second_span: o0.expr_spans@[contents@[ix].0 as int],
                                                    second_type: elem_types@[ix],
                                                    second_index: (ix + 1) as usize,
                                                },
                                                context: Some(
                                                    crate::errors::ErrContext::ArrayElementsMustMatch,
                                                ),
                                            });
                                        crate::node_interner::lemma_prefix_index(pe2, errors@, w);
                                    }
                                }
                            }
                        }
                        idx = idx + 1;
                    }
                    let t0 = Type::Array(
                        FieldElementType::Private,
                        ArraySize::Fixed(arr_len),
                        Box::new(first_elem_type),
                    );
                    proof {
                        assert(interner.expr_types@[id0] is None);
                assert(interner.children_typed(id0));
                        assert(interner.type_ok(t0));
                    }
                    t0
                },
            }
        },
        HirExpression::Infix { lhs, operator, rhs } => {
            proof {
                match o0.exprs@[id0] {
                    HirExpression::Infix { lhs: l2, operator: op2, rhs: r2 } => {
                        assert(l2 == lhs && r2 == rhs);
                    },
                    _ => {
                        assert(false);
                    },
                }
            }
            let lhs_type = type_check_expression(interner, &lhs, errors);
            let ghost m1 = *interner;
            let ghost p1 = errors@;
            let rhs_type = type_check_expression(interner, &rhs, errors);
            let ghost m2 = *interner;
            proof {
                lemma_evolves_trans(o0, m1, m2, lhs.0 as int, rhs.0 as int, id0);
                lemma_evolves_subtree_typed(m1, m2, rhs.0 as int, lhs.0 as int);
                lemma_prefix_trans(e0, p1, errors@);
                lemma_poly_valid_grow(
                    lhs_type,
                    m1.bindings.table@.len(),
                    m2.bindings.table@.len(),
                );
            }
            let res = infix_operand_type_rules(&lhs_type, &operator, &rhs_type, &mut interner.bindings);
            let ghost m3 = *interner;
            proof {
                lemma_wf_stable(m2, *interner);
                assert(evolves(m2, m3, id0));
                lemma_evolves_trans(o0, m2, m3, id0, id0, id0);
                lemma_evolves_subtree_typed(m2, m3, id0, lhs.0 as int);
                lemma_evolves_subtree_typed(m2, m3, id0, rhs.0 as int);
                assert(m1.exprs@[id0] == o0.exprs@[id0]);
                assert(m2.exprs@[id0] == o0.exprs@[id0]);
                assert(m3.exprs@[id0] == o0.exprs@[id0]);
                assert(m2.expr_types@[lhs.0 as int] == Some(lhs_type));
                assert(m2.expr_types@[rhs.0 as int] == Some(rhs_type));
                assert(m3.expr_types@[lhs.0 as int] == Some(lhs_type));
                assert(m3.expr_types@[rhs.0 as int] == Some(rhs_type));
                if !(lhs_type is PolymorphicInteger) && !(rhs_type is PolymorphicInteger) {
                    lemma_resolve_not_structural(m2.bindings.table@, lhs_type);
                    lemma_resolve_not_structural(m2.bindings.table@, rhs_type);
                    assert(spec_infix_result(m2.bindings.table@, lhs_type, operator, rhs_type)
                        == spec_infix_concrete(lhs_type, operator, rhs_type));
                }
            }
            let t_res: Type = match res {
                Ok(t0) => t0,
                Err(msg) => {
                    let ghost pp = errors@;
                    let lhs_span = interner.expr_span(&lhs);
                    let rhs_span = interner.expr_span(&rhs);
                    errors.push(
                        TypeCheckError::new(
                            ErrorKind::Unstructured { msg, span: lhs_span.merge(&rhs_span) },
                        ),
                    );
                    proof {
                        lemma_prefix_push(pp, errors@.last());
                        lemma_prefix_trans(e0, pp, errors@);
                    }
                    Type::Error
                },
            };
            proof {
                lemma_rule_result_type_ok(*interner, t_res);
                assert(interner.expr_types@[id0] is None);
                assert(interner.children_typed(id0));
            }
            t_res
        },
        HirExpression::Index { collection, index } => {
            proof {
                match o0.exprs@[id0] {
                    HirExpression::Index { collection: c2, index: i2 } => {
                        assert(c2 == collection && i2 == index);
                    },
                    _ => {
                        assert(false);
                    },
                }
            }
            let t0 = type_check_index_expression(interner, collection, index, errors);
            proof {
                assert(evolves(o0, *interner, id0));
                assert(interner.exprs@[id0] == o0.exprs@[id0]);
                assert(interner.expr_types@[id0] is None);
                assert(interner.children_typed(id0));
            }
            t0
        },
        HirExpression::Call { func_id, arguments } => {
            proof {
                match o0.exprs@[id0] {
                    HirExpression::Call { func_id: f2, arguments: a2 } => {
                        assert(f2 == func_id && a2@ == arguments@);
                    },
                    _ => {
                        assert(false);
                    },
                }
            }
            let mut args_t: Vec<Type> = Vec::new();
            let mut j: usize = 0;
            while j < arguments.len()
                invariant
                    o0.wf(),
                    expr_id.0 < o0.exprs@.len(),
                    id0 == expr_id.0 as int,
                    forall|k: int| 0 <= k < arguments@.len() ==> (#[trigger] arguments@[k]).0 < id0,
                    interner.wf(),
                    evolves(o0, *interner, id0),
                    interner.exprs@[id0] == o0.exprs@[id0],
                    interner.expr_types@[id0] is None,
                    e0.is_prefix_of(errors@),
                    j <= arguments@.len(),
                    args_t@.len() == j,
                    forall|k: int|
                        0 <= k < j ==> interner.subtree_typed((#[trigger] arguments@[k]).0 as int),
                    forall|k: int| 0 <= k < j ==> interner.type_ok(#[trigger] args_t@[k]),
                decreases arguments@.len() - j,
            {
                let ghost pre = *interner;
                let ghost pe = errors@;
                let c = arguments[j];
                let ct = type_check_expression(interner, &c, errors);
                proof {
                    lemma_evolves_trans(o0, pre, *interner, id0, c.0 as int, id0);
                    lemma_prefix_trans(e0, pe, errors@);
                    assert(interner.exprs@[id0] == pre.exprs@[id0]);
                    assert(interner.expr_types@[id0] is None);
                    assert forall|k: int| 0 <= k < j implies interner.subtree_typed(
                        (#[trigger] arguments@[k]).0 as int,
                    ) by {
                        lemma_evolves_subtree_typed(
                            pre,
                            *interner,
                            c.0 as int,
                            arguments@[k].0 as int,
                        );
                    }
                    assert forall|k: int| 0 <= k < j implies interner.type_ok(
                        #[trigger] args_t@[k],
                    ) by {
                        lemma_poly_valid_grow(
                            args_t@[k],
                            pre.bindings.table@.len(),
                            interner.bindings.table@.len(),
                        );
                    }
                }
                args_t.push(ct);
                j = j + 1;
            }
            let ghost m1 = *interner;
            let ghost p1 = errors@;
            let t0 = type_check_function_call(interner, expr_id, &func_id, &args_t, errors);
            proof {
                assert(evolves(m1, *interner, id0));
                lemma_evolves_trans(o0, m1, *interner, id0, id0, id0);
                lemma_prefix_trans(e0, p1, errors@);
                assert(interner.exprs@[id0] == o0.exprs@[id0]);
                assert forall|k: int| 0 <= k < arguments@.len() implies interner.subtree_typed(
                    (#[trigger] arguments@[k]).0 as int,
                ) by {
                    lemma_evolves_subtree_typed(m1, *interner, id0, arguments@[k].0 as int);
                }
                assert(interner.expr_types@[id0] is None);
                assert(interner.children_typed(id0));
            }
            t0
        },
        HirExpression::MethodCall { object, method, arguments } => {
            proof {
                match o0.exprs@[id0] {
                    HirExpression::MethodCall { object: ob2, method: m2, arguments: a2 } => {
                        assert(ob2 == object && m2@ == method@ && a2@ == arguments@);
                    },
                    _ => {
                        assert(false);
                    },
                }
            }
            let object_type = type_check_expression(interner, &object, errors);
            let ghost m1 = *interner;
            let ghost p1 = errors@;
            let method_id_opt = lookup_method(interner, &object_type, &method, expr_id, errors);
            proof {
                if errors@ != p1 {
                    lemma_prefix_push(p1, errors@.last());
                } else {
                    lemma_prefix_refl(p1);
                }
                lemma_prefix_trans(e0, p1, errors@);
            }
            let ghost og = object_type;
            let mut args_t: Vec<Type> = Vec::new();
            args_t.push(object_type);
            let mut j: usize = 0;
            while j < arguments.len()
                invariant
                    o0.wf(),
                    expr_id.0 < o0.exprs@.len(),
                    id0 == expr_id.0 as int,
                    object.0 < id0,
                    forall|k: int| 0 <= k < arguments@.len() ==> (#[trigger] arguments@[k]).0 < id0,
                    interner.wf(),
                    evolves(o0, *interner, id0),
                    interner.exprs@[id0] == o0.exprs@[id0],
                    interner.expr_types@[id0] is None,
                    e0.is_prefix_of(errors@),
                    j <= arguments@.len(),
                    args_t@.len() == j + 1,
                    interner.subtree_typed(object.0 as int),
                    forall|k: int|
                        0 <= k < j ==> interner.subtree_typed((#[trigger] arguments@[k]).0 as int),
                    forall|k: int| 0 <= k < args_t@.len() ==> interner.type_ok(#[trigger] args_t@[k]),
                decreases arguments@.len() - j,
            {
                let ghost pre = *interner;
                let ghost pe = errors@;
                let c = arguments[j];
                let ct = type_check_expression(interner, &c, errors);
                proof {
                    lemma_evolves_trans(o0, pre, *interner, id0, c.0 as int, id0);
                    lemma_prefix_trans(e0, pe, errors@);
                    assert(interner.exprs@[id0] == pre.exprs@[id0]);
                    assert(interner.expr_types@[id0] is None);
                    lemma_evolves_subtree_typed(pre, *interner, c.0 as int, object.0 as int);
                    assert forall|k: int| 0 <= k < j implies interner.subtree_typed(
                        (#[trigger] arguments@[k]).0 as int,
                    ) by {
                        lemma_evolves_subtree_typed(
                            pre,
                            *interner,
                            c.0 as int,
                            arguments@[k].0 as int,
                        );
                    }
                    assert forall|k: int| 0 <= k < args_t@.len() implies interner.type_ok(
                        #[trigger] args_t@[k],
                    ) by {
                        lemma_poly_valid_grow(
                            args_t@[k],
                            pre.bindings.table@.len(),
                            interner.bindings.table@.len(),
                        );
                    }
                }
                args_t.push(ct);
                j = j + 1;
            }
            match method_id_opt {
                Some(method_id) => {
                    let ghost m2 = *interner;
                    let ghost p2 = errors@;
                    let ret = type_check_function_call(interner, expr_id, &method_id, &args_t, errors);
                    proof {
                        assert(evolves(m2, *interner, id0));
                        lemma_evolves_trans(o0, m2, *interner, id0, id0, id0);
                        lemma_prefix_trans(e0, p2, errors@);
                        assert(interner.exprs@[id0] == o0.exprs@[id0]);
                        lemma_evolves_subtree_typed(m2, *interner, id0, object.0 as int);
                        assert forall|k: int| 0 <= k < arguments@.len() implies interner
                            .subtree_typed((#[trigger] arguments@[k]).0 as int) by {
                            lemma_evolves_subtree_typed(m2, *interner, id0, arguments@[k].0 as int);
                        }
                    }
                    let function_call = crate::hir::make_function_call(object, &arguments, method_id);
                    proof {
                        assert(interner.expr_shape_wf(function_call, id0));
                    }
                    let ghost m3 = *interner;
                    interner.replace_expr(expr_id, function_call);
                    proof {
                        assert(m3.exprs@[id0] == o0.exprs@[id0]);
                        assert(interner.exprs@[id0] == function_call);
                        assert(desugar_of(interner.exprs@[id0], m3.exprs@[id0]));
                        assert(evolves(m3, *interner, id0));
                        lemma_evolves_trans(o0, m3, *interner, id0, id0, id0);
                        lemma_evolves_subtree_typed(m3, *interner, id0, object.0 as int);
                        assert forall|k: int| 0 <= k < arguments@.len() implies interner
                            .subtree_typed((#[trigger] arguments@[k]).0 as int) by {
                            lemma_evolves_subtree_typed(m3, *interner, id0, arguments@[k].0 as int);
                        }
                        assert(interner.expr_types@[id0] is None);
                assert(interner.children_typed(id0));
                        vstd::std_specs::vec::axiom_spec_len(&interner.funcs);
                        assert(method_id.0 != usize::MAX);
                        match og {
                            Type::Struct(_, sid2) => {
                                assert(method_desugared(o0, *interner, id0, ret));
                            },
                            _ => {
                                assert(false);
                            },
                        }
                    }
                    ret
                },
                None => {
                    proof {
                        assert(interner.exprs@[id0] == o0.exprs@[id0]);
                        assert(interner.expr_types@[id0] is None);
                assert(interner.children_typed(id0));
                        assert(method_desugared(o0, *interner, id0, Type::Error));
                    }
                    Type::Error
                },
            }
        },
        HirExpression::Cast { lhs, target } => {
            proof {
                match o0.exprs@[id0] {
                    HirExpression::Cast { lhs: l2, target: t2 } => {
                        assert(l2 == lhs && t2 == target);
                    },
                    _ => {
                        assert(false);
                    },
                }
            }
            let lhs_type = type_check_expression(interner, &lhs, errors);
            let span = interner.expr_span(expr_id);
            let ghost p1 = errors@;
            let t0 = check_cast(&lhs_type, target, span, errors, &interner.bindings);
            proof {
                if errors@ != p1 {
                    lemma_prefix_push(p1, errors@.last());
                } else {
                    lemma_prefix_refl(p1);
                }
                lemma_prefix_trans(e0, p1, errors@);
                lemma_rule_result_type_ok(*interner, t0);
                assert(interner.exprs@[id0] == o0.exprs@[id0]);
                assert(interner.expr_types@[id0] is None);
                assert(interner.children_typed(id0));
            }
            t0
        },
        HirExpression::For { identifier, start_range, end_range, block } => {
            proof {
                match o0.exprs@[id0] {
                    HirExpression::For { identifier: d2, start_range: s2, end_range: en2, block: b2 } => {
                        assert(d2 == identifier && s2 == start_range && en2 == end_range && b2 == block);
                    },
                    _ => {
                        assert(false);
                    },
                }
            }
            let start_range_type = type_check_expression(interner, &start_range, errors);
            let ghost m1 = *interner;
            let ghost p1 = errors@;
            let end_range_type = type_check_expression(interner, &end_range, errors);
            let ghost m2 = *interner;
            proof {
                lemma_evolves_trans(o0, m1, m2, start_range.0 as int, end_range.0 as int, id0);
                lemma_evolves_subtree_typed(m1, m2, end_range.0 as int, start_range.0 as int);
                lemma_prefix_trans(e0, p1, errors@);
                assert(m1.exprs@[id0] == o0.exprs@[id0]);
                assert(m2.exprs@[id0] == o0.exprs@[id0]);
                lemma_poly_valid_grow(
                    start_range_type,
                    m1.bindings.table@.len(),
                    m2.bindings.table@.len(),
                );
            }
            let ok1 = start_range_type.unify(&Type::Constant, &mut interner.bindings);
            let ghost m3 = *interner;
            let ghost ps = errors@;
            proof {
                lemma_wf_stable(m2, *interner);
                assert(evolves(m2, m3, id0));
                lemma_evolves_trans(o0, m2, m3, id0, id0, id0);
                lemma_evolves_subtree_typed(m2, m3, id0, start_range.0 as int);
                lemma_evolves_subtree_typed(m2, m3, id0, end_range.0 as int);
                assert(m2.expr_types@[start_range.0 as int] == Some(start_range_type));
                assert(m2.expr_types@[end_range.0 as int] == Some(end_range_type));
                assert(m3.expr_types@[start_range.0 as int] == Some(start_range_type));
                assert(m3.expr_types@[end_range.0 as int] == Some(end_range_type));
                if !(start_range_type is PolymorphicInteger) {
                    lemma_resolve_not_structural(m2.bindings.table@, start_range_type);
                    assert(ok1 == const_like(start_range_type));
                }
            }
            if !ok1 {
                let ghost pp = errors@;
                let span = interner.expr_span(&start_range);
                errors.push(
                    TypeCheckError::new(
                        ErrorKind::TypeCannotBeUsed {
                            typ: start_range_type.duplicate(),
                            place: crate::errors::Place::ForLoop,
                            span,
                        },
                    ).add_context(crate::errors::ErrContext::LoopRangeMustBeConst),
                );
                proof {
                    lemma_prefix_push(pp, errors@.last());
                    lemma_prefix_trans(e0, pp, errors@);
                    assert(errors@[ps.len() as int] == errors@.last());
                }
            }
            let ghost ps2 = errors@;
            let ok2 = end_range_type.unify(&Type::Constant, &mut interner.bindings);
            let ghost m4 = *interner;
            proof {
                lemma_wf_stable(m3, *interner);
                assert(evolves(m3, m4, id0));
                lemma_evolves_trans(o0, m3, m4, id0, id0, id0);
                lemma_evolves_subtree_typed(m3, m4, id0, start_range.0 as int);
                lemma_evolves_subtree_typed(m3, m4, id0, end_range.0 as int);
                assert(m4.expr_types@[start_range.0 as int] == Some(start_range_type));
                assert(m4.expr_types@[end_range.0 as int] == Some(end_range_type));
                if !(end_range_type is PolymorphicInteger) {
                    lemma_resolve_not_structural(m3.bindings.table@, end_range_type);
                    assert(ok2 == const_like(end_range_type));
                }
            }
            if !ok2 {
                let ghost pp = errors@;
                let span = interner.expr_span(&end_range);
                errors.push(
                    TypeCheckError::new(
                        ErrorKind::TypeCannotBeUsed {
                            typ: end_range_type.duplicate(),
                            place: crate::errors::Place::ForLoop,
                            span,
                        },
                    ).add_context(crate::errors::ErrContext::LoopRangeMustBeConst),
                );
                proof {
                    lemma_prefix_push(pp, errors@.last());
                    lemma_prefix_trans(e0, pp, errors@);
                    assert(errors@[ps2.len() as int] == errors@.last());
                    if !ok1 {
                        crate::node_interner::lemma_prefix_index(ps2, errors@, ps.len() as int);
                    }
                }
            }
            let ghost ps3 = errors@;
            proof {
                if !ok1 {
                    crate::node_interner::lemma_prefix_index(ps2, ps3, ps.len() as int);
                }
            }
            let ghost m4b = *interner;
            proof {
                lemma_poly_valid_grow(
                    start_range_type,
                    m2.bindings.table@.len(),
                    interner.bindings.table@.len(),
                );
                lemma_poly_valid_grow(
                    end_range_type,
                    m2.bindings.table@.len(),
                    interner.bindings.table@.len(),
                );
            }
            let ok3 = start_range_type.unify(&end_range_type, &mut interner.bindings);
            let ghost m5 = *interner;
            proof {
                lemma_wf_stable(m4b, *interner);
                assert(evolves(m4b, m5, id0));
                lemma_evolves_trans(o0, m4b, m5, id0, id0, id0);
                lemma_evolves_subtree_typed(m4b, m5, id0, start_range.0 as int);
                lemma_evolves_subtree_typed(m4b, m5, id0, end_range.0 as int);
            }
            if !ok3 {
                let ghost pp = errors@;
                let span = interner.expr_span(&end_range);
                errors.push(
                    TypeCheckError::new(
                        ErrorKind::Unstructured {
                            msg: ErrorMessage::RangeMismatch {
                                start: start_range_type.duplicate(),
                                end: end_range_type.duplicate(),
                            },
                            span,
                        },
                    ),
                );
                proof {
                    lemma_prefix_push(pp, errors@.last());
                    lemma_prefix_trans(e0, pp, errors@);
                }
            }
            let ghost m6 = *interner;
            proof {
                lemma_poly_valid_grow(
                    start_range_type,
                    m2.bindings.table@.len(),
                    interner.bindings.table@.len(),
                );
            }
            let def_type = start_range_type.duplicate();
            interner.push_definition_type(&identifier, def_type);
            let ghost m7 = *interner;
            proof {
                assert(evolves(m6, m7, id0));
                lemma_evolves_trans(o0, m6, m7, id0, id0, id0);
                lemma_evolves_subtree_typed(m6, m7, id0, start_range.0 as int);
                lemma_evolves_subtree_typed(m6, m7, id0, end_range.0 as int);
            }
            let ghost p7 = errors@;
            let last_type = type_check_expression(interner, &block, errors);
            proof {
                lemma_evolves_trans(o0, m7, *interner, id0, block.0 as int, id0);
                lemma_prefix_trans(e0, p7, errors@);
                lemma_evolves_subtree_typed(m7, *interner, block.0 as int, start_range.0 as int);
                lemma_evolves_subtree_typed(m7, *interner, block.0 as int, end_range.0 as int);
                assert(m7.exprs@[id0] == o0.exprs@[id0]);
                assert(interner.exprs@[id0] == o0.exprs@[id0]);
                assert(interner.expr_types@[id0] is None);
                assert(interner.children_typed(id0));
                assert(m7.def_types@[identifier.0 as int] is Some);
                assert(interner.def_types@[identifier.0 as int] is Some);
                assert(m7.expr_types@[start_range.0 as int] == Some(start_range_type));
                assert(m7.expr_types@[end_range.0 as int] == Some(end_range_type));
                assert(interner.expr_types@[start_range.0 as int] == Some(start_range_type));
                assert(interner.expr_types@[end_range.0 as int] == Some(end_range_type));
                assert(ps3.is_prefix_of(errors@)) by {
                    lemma_prefix_trans(ps3, p7, errors@);
                }
                if !ok1 {
                    crate::node_interner::lemma_prefix_index(ps3, errors@, ps.len() as int);
                }
                if !ok2 {
                    crate::node_interner::lemma_prefix_index(ps3, errors@, ps2.len() as int);
                }
            }
            Type::Array(FieldElementType::Private, ArraySize::Variable, Box::new(last_type))
        },
        HirExpression::Block(stmt_ids) => {
            proof {
                match o0.exprs@[id0] {
                    HirExpression::Block(s2) => {
                        assert(s2@ == stmt_ids@);
                    },
                    _ => {
                        assert(false);
                    },
                }
            }
            let mut block_type = Type::Unit;
            let mut i: usize = 0;
            while i < stmt_ids.len()
                invariant
                    o0.wf(),
                    expr_id.0 < o0.exprs@.len(),
                    id0 == expr_id.0 as int,
                    o0.exprs@[id0] matches HirExpression::Block(s2) && s2@ == stmt_ids@,
                    forall|k: int|
                        0 <= k < stmt_ids@.len() ==> (#[trigger] stmt_ids@[k]).0
                            < o0.stmts@.len() && o0.stmt_exprs_below(stmt_ids@[k].0 as int, id0),
                    interner.wf(),
                    evolves(o0, *interner, id0),
                    interner.exprs@[id0] == o0.exprs@[id0],
                    interner.expr_types@[id0] is None,
                    e0.is_prefix_of(errors@),
                    i <= stmt_ids@.len(),
                    forall|k: int|
                        0 <= k < i ==> interner.stmt_subtree_typed(
                            (#[trigger] stmt_ids@[k]).0 as int,
                            id0,
                        ),
                    interner.type_ok(block_type),
                    i == 0 ==> block_type == Type::Unit,
                    (i == stmt_ids@.len() && i > 0) ==> (
                    match o0.stmts@[stmt_ids@[stmt_ids@.len() - 1].0 as int] {
                        HirStatement::Expression(e) => interner.expr_types@[e.0 as int] == Some(
                            block_type,
                        ),
                        HirStatement::Semi(e) => block_type == Type::Unit,
                        HirStatement::Let { id, annotated, expression } => block_type == Type::Unit,
                        HirStatement::Error => block_type == Type::Error,
                    }),
                decreases stmt_ids@.len() - i,
            {
                let s = stmt_ids[i];
                let ghost pre = *interner;
                let ghost pe = errors@;
                proof {
                    lemma_stmt_below_stable(o0, *interner, s.0 as int, id0);
                }
                let expr_type = crate::stmt::type_check(interner, &s, errors, Ghost(id0));
                let ghost m1 = *interner;
                proof {
                    assert(evolves(pre, m1, id0));
                    lemma_evolves_trans(o0, pre, m1, id0, id0, id0);
                    lemma_prefix_trans(e0, pe, errors@);
                    assert(m1.exprs@[id0] == pre.exprs@[id0]);
                    assert(m1.expr_types@[id0] is None);
                    assert forall|k: int| 0 <= k < i implies interner.stmt_subtree_typed(
                        (#[trigger] stmt_ids@[k]).0 as int,
                        id0,
                    ) by {
                        lemma_stmt_below_stable(o0, pre, stmt_ids@[k].0 as int, id0);
                        lemma_stmt_below_stable(o0, *interner, stmt_ids@[k].0 as int, id0);
                        lemma_evolves_stmt_subtree_typed(
                            pre,
                            *interner,
                            id0 - 1,
                            stmt_ids@[k].0 as int,
                            id0,
                        );
                    }
                }
                if i + 1 < stmt_ids.len() {
                    let ghost m2 = *interner;
                    let ok = expr_type.unify(&Type::Unit, &mut interner.bindings);
                    proof {
                        lemma_wf_stable(m2, *interner);
                        assert(evolves(m2, *interner, id0));
                        lemma_evolves_trans(o0, m2, *interner, id0, id0, id0);
                        assert forall|k: int| 0 <= k <= i implies interner.stmt_subtree_typed(
                            (#[trigger] stmt_ids@[k]).0 as int,
                            id0,
                        ) by {
                            lemma_stmt_below_stable(o0, m2, stmt_ids@[k].0 as int, id0);
                            lemma_stmt_below_stable(o0, *interner, stmt_ids@[k].0 as int, id0);
                            lemma_evolves_stmt_subtree_typed(
                                m2,
                                *interner,
                                id0 - 1,
                                stmt_ids@[k].0 as int,
                                id0,
                            );
                        }
                    }
                    if !ok {
                        let stmt_val = interner.statement(&s);
                        let sp = match stmt_val {
                            HirStatement::Expression(ex) => {
                                proof {
                                    lemma_stmt_below_stable(o0, *interner, s.0 as int, id0);
                                }
                                interner.expr_span(&ex)
                            },
                            _ => interner.expr_span(expr_id),
                        };
                        let ghost pp = errors@;
                        errors.push(
                            TypeCheckError::new(
                                ErrorKind::TypeMismatch {
                                    expected_typ: ExpectedType::Exact(Type::Unit),
                                    expr_typ: expr_type.duplicate(),
                                    expr_span: sp,
                                },
                            ),
                        );
                        proof {
                            lemma_prefix_push(pp, errors@.last());
                            lemma_prefix_trans(e0, pp, errors@);
                        }
                    }
                    proof {
                        lemma_poly_valid_grow(
                            block_type,
                            pre.bindings.table@.len(),
                            interner.bindings.table@.len(),
                        );
                    }
                } else {
                    block_type = expr_type;
                }
                i = i + 1;
            }
            proof {
                assert(interner.exprs@[id0] is Block);
                assert((interner.exprs@[id0]->Block_0)@ == stmt_ids@);
                assert(interner.children_typed(id0)) by {
                    assert forall|k: int|
                        0 <= k < (interner.exprs@[id0]->Block_0)@.len() implies interner
                        .stmt_subtree_typed(
                        ((#[trigger] (interner.exprs@[id0]->Block_0)@[k])).0 as int,
                        id0,
                    ) by {
                        assert((interner.exprs@[id0]->Block_0)@[k] == stmt_ids@[k]);
                        lemma_stmt_below_stable(o0, *interner, stmt_ids@[k].0 as int, id0);
                        assert(interner.stmt_subtree_typed((stmt_ids@[k]).0 as int, id0));
                    }
                }
            }
            block_type
        },
        HirExpression::Prefix { operator, rhs } => {
            proof {
                match o0.exprs@[id0] {
                    HirExpression::Prefix { operator: op2, rhs: r2 } => {
                        assert(r2 == rhs);
                    },
                    _ => {
                        assert(false);
                    },
                }
            }
            let rhs_type = type_check_expression(interner, &rhs, errors);
            let t_res: Type = match prefix_operand_type_rules(&operator, &rhs_type) {
                Ok(t0) => t0,
                Err(msg) => {
                    let ghost pp = errors@;
                    let rhs_span = interner.expr_span(&rhs);
                    errors.push(
                        TypeCheckError::new(ErrorKind::Unstructured { msg, span: rhs_span }),
                    );
                    proof {
                        lemma_prefix_push(pp, errors@.last());
                        lemma_prefix_trans(e0, pp, errors@);
                    }
                    Type::Error
                },
            };
            proof {
                assert(interner.exprs@[id0] == o0.exprs@[id0]);
                assert(interner.expr_types@[id0] is None);
                assert(interner.children_typed(id0));
                assert(interner.type_ok(t_res));
            }
            t_res
        },
        HirExpression::If { condition, consequence, alternative } => {
            proof {
                match o0.exprs@[id0] {
                    HirExpression::If { condition: c2, consequence: q2, alternative: a2 } => {
                        assert(c2 == condition && q2 == consequence && a2 == alternative);
                    },
                    _ => {
                        assert(false);
                    },
                }
            }
            let t0 = check_if_expr(condition, consequence, alternative, expr_id, interner, errors);
            proof {
                assert(interner.exprs@[id0] == o0.exprs@[id0]);
                assert(evolves(o0, *interner, id0));
                assert(interner.expr_types@[id0] is None);
                assert(interner.children_typed(id0));
            }
            t0
        },
        HirExpression::Constructor { type_id, fields } => {
            proof {
                match o0.exprs@[id0] {
                    HirExpression::Constructor { type_id: t2, fields: f2 } => {
                        assert(t2 == type_id);
                        assert(crate::hir::fields_match(fields@, f2@));
                        assert forall|k: int| 0 <= k < fields@.len() implies (
                        #[trigger] fields@[k]).1.0 < expr_id.0 by {
                            assert(f2@[k].1.0 < id0);
                        }
                        assert forall|j: int, k: int| 0 <= j < k < fields@.len() implies (
                        #[trigger] fields@[j]).0@ != (#[trigger] fields@[k]).0@ by {
                            assert(f2@[j].0@ != f2@[k].0@);
                        }
                        assert forall|j: int|
                            0 <= j < interner.structs@[type_id.0 as int].fields@.len()
                            implies NodeInterner::args_have_name(
                            fields@,
                            (#[trigger] interner.structs@[type_id.0 as int].fields@[j]).0@,
                        ) by {
                            assert(interner.structs@[type_id.0 as int].fields@[j] == o0
                                .structs@[type_id.0 as int].fields@[j]);
                            assert(NodeInterner::args_have_name(
                                f2@,
                                (o0.structs@[type_id.0 as int].fields@[j]).0@,
                            ));
                            let k = choose|k: int|
                                0 <= k < f2@.len() && (#[trigger] f2@[k]).0@ == (
                                o0.structs@[type_id.0 as int].fields@[j]).0@;
                            assert(fields@[k].0@ == f2@[k].0@);
                            assert(exists|k2: int|
                                0 <= k2 < fields@.len() && (#[trigger] fields@[k2]).0@ == (
                                interner.structs@[type_id.0 as int].fields@[j]).0@);
                        }
                        assert forall|k: int|
                            0 <= k < fields@.len() implies NodeInterner::defs_have_name(
                            interner.structs@[type_id.0 as int].fields@,
                            (#[trigger] fields@[k]).0@,
                        ) by {
                            assert(NodeInterner::defs_have_name(
                                o0.structs@[type_id.0 as int].fields@,
                                (f2@[k]).0@,
                            ));
                            assert(fields@[k].0@ == f2@[k].0@);
                            assert(interner.structs@[type_id.0 as int].fields@ == o0
                                .structs@[type_id.0 as int].fields@);
                        }
                    },
                    _ => {
                        assert(false);
                    },
                }
            }
            let ghost fg = fields@;
            let t0 = check_constructor(&type_id, fields, expr_id, interner, errors);
            proof {
                assert(interner.exprs@[id0] == o0.exprs@[id0]);
                assert(evolves(o0, *interner, id0));
                match o0.exprs@[id0] {
                    HirExpression::Constructor { type_id: t2, fields: f2 } => {
                        assert forall|k: int| 0 <= k < f2@.len() implies interner.subtree_typed(
                            (#[trigger] f2@[k]).1.0 as int,
                        ) by {
                            assert(f2@[k].1 == fg[k].1);
                        }
                    },
                    _ => {
                        assert(false);
                    },
                }
                assert(interner.expr_types@[id0] is None);
                assert(interner.children_typed(id0));
            }
            t0
        },
        HirExpression::MemberAccess { lhs, rhs } => {
            proof {
                match o0.exprs@[id0] {
                    HirExpression::MemberAccess { lhs: l2, rhs: r2 } => {
                        assert(l2 == lhs);
                    },
                    _ => {
                        assert(false);
                    },
                }
            }
            let t0 = check_member_access(lhs, &rhs, interner, errors);
            proof {
                assert(interner.exprs@[id0] == o0.exprs@[id0]);
                assert(interner.expr_types@[id0] is None);
                assert(interner.children_typed(id0));
            }
            t0
        },
        HirExpression::Tuple(elems) => {
            proof {
                match o0.exprs@[id0] {
                    HirExpression::Tuple(el2) => {
                        assert(el2@ == elems@);
                    },
                    _ => {
                        assert(false);
                    },
                }
            }
            let mut elem_types: Vec<Type> = Vec::new();
            let mut j: usize = 0;
            while j < elems.len()
                invariant
                    o0.wf(),
                    expr_id.0 < o0.exprs@.len(),
                    id0 == expr_id.0 as int,
                    forall|k: int| 0 <= k < elems@.len() ==> (#[trigger] elems@[k]).0 < id0,
                    interner.wf(),
                    evolves(o0, *interner, id0),
                    interner.exprs@[id0] == o0.exprs@[id0],
                    interner.expr_types@[id0] is None,
                    e0.is_prefix_of(errors@),
                    j <= elems@.len(),
                    elem_types@.len() == j,
                    forall|k: int|
                        0 <= k < j ==> interner.subtree_typed((#[trigger] elems@[k]).0 as int),
                    forall|k: int| 0 <= k < j ==> interner.type_ok(#[trigger] elem_types@[k]),
                decreases elems@.len() - j,
            {
                let ghost pre = *interner;
                let ghost pe = errors@;
                let c = elems[j];
                let ct = type_check_expression(interner, &c, errors);
                proof {
                    lemma_evolves_trans(o0, pre, *interner, id0, c.0 as int, id0);
                    lemma_prefix_trans(e0, pe, errors@);
                    assert(interner.exprs@[id0] == pre.exprs@[id0]);
                    assert(interner.expr_types@[id0] is None);
                    assert forall|k: int| 0 <= k < j implies interner.subtree_typed(
                        (#[trigger] elems@[k]).0 as int,
                    ) by {
                        lemma_evolves_subtree_typed(pre, *interner, c.0 as int, elems@[k].0 as int);
                    }
                    assert forall|k: int| 0 <= k < j implies interner.type_ok(
                        #[trigger] elem_types@[k],
                    ) by {
                        lemma_poly_valid_grow(
                            elem_types@[k],
                            pre.bindings.table@.len(),
                            interner.bindings.table@.len(),
                        );
                    }
                }
                elem_types.push(ct);
                j = j + 1;
            }
            let tl = crate::types::tlist_from_vec(&elem_types, 0);
            proof {
                assert(elem_types@.skip(0) =~= elem_types@);
                crate::types::lemma_tlist_of_valid(
                    elem_types@,
                    interner.bindings.table@.len(),
                    interner.structs@.len(),
                );
                assert(interner.expr_types@[id0] is None);
                assert(interner.children_typed(id0));
            }
            Type::Tuple(tl)
        },
        HirExpression::Error => {
            proof {
                assert(interner.expr_types@[id0] is None);
                assert(interner.children_typed(id0));
            }
            Type::Error
        },
    };
    let ghost mlast = *interner;
    proof {
        crate::node_interner::lemma_children_typed_kids(mlast, id0);
    }
    let out = typ.duplicate();
    interner.push_expr_type(expr_id, typ);
    proof {
        assert(evolves(mlast, *interner, id0));
        lemma_evolves_trans(o0, mlast, *interner, id0, id0, id0);
        lemma_evolves_children_typed(mlast, *interner, id0, id0);
        assert(interner.exprs@[id0] == mlast.exprs@[id0]);
        assert(interner.subtree_typed(id0));
    }
    out
}

/// The infix rules do not look at the order of their operands: swapping
/// the sides of an operation over non-variable types changes neither
/// success nor the resulting type, and binds nothing either way.  Only
/// the wording of a failure may differ.
pub proof fn lemma_infix_rules_symmetric(bs: Seq<TypeBinding>, a: Type, op: HirBinaryOp, b: Type)
    requires
        bindings_wf(bs),
        !(a is PolymorphicInteger),
        !(b is PolymorphicInteger),
    ensures
        spec_infix_result(bs, a, op, b) is Ok <==> spec_infix_result(bs, b, op, a) is Ok,
        spec_infix_result(bs, a, op, b) is Ok ==> spec_infix_result(bs, a, op, b)
            == spec_infix_result(bs, b, op, a),
        spec_poly_bindings(bs, a, b) == bs,
        spec_poly_bindings(bs, b, a) == bs,
{
    lemma_resolve_not_structural(bs, a);
    lemma_resolve_not_structural(bs, b);
}

} // verus!
