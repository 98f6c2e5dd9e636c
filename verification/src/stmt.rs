//! Typing rules for statements.

use vstd::prelude::*;
use crate::errors::ErrorKind;
use crate::errors::ExpectedType;
use crate::errors::TypeCheckError;
use crate::expr::type_check_expression;
use crate::hir::HirStatement;
use crate::hir::StmtId;
use crate::node_interner::evolves;
use crate::node_interner::lemma_evolves_subtree_typed;
use crate::node_interner::lemma_evolves_trans;
use crate::node_interner::lemma_prefix_push;
use crate::node_interner::lemma_prefix_refl;
use crate::node_interner::lemma_prefix_trans;
use crate::node_interner::lemma_stmt_below_stable;
use crate::node_interner::lemma_wf_stable;
use crate::node_interner::NodeInterner;
use crate::types::lemma_poly_valid_grow;
use crate::types::Type;

verus! {

/// Check one statement and return its value's type: `Unit` for a `let`
/// binding and for an expression ended by a semicolon, the expression's
/// type for a trailing expression.  A `let` records the definition's
/// type: the annotation when one is written — the initialiser must flow
/// into it — else the initialiser's type.
///
/// `bound` is the strict upper bound on the statement's expression ids;
/// the surrounding block passes its own node id.
#[verifier::rlimit(100)]
pub fn type_check(
    interner: &mut NodeInterner,
    stmt_id: &StmtId,
    errors: &mut Vec<TypeCheckError>,
    bound: Ghost<int>,
) -> (t: Type)
    requires
        old(interner).wf(),
        stmt_id.0 < old(interner).stmts@.len(),
        old(interner).stmt_exprs_below(stmt_id.0 as int, bound@),
        0 <= bound@ <= old(interner).exprs@.len(),
    ensures
        final(interner).wf(),
        evolves(*old(interner), *final(interner), bound@ - 1),
        old(errors)@.is_prefix_of(final(errors)@),
        final(interner).stmt_subtree_typed(stmt_id.0 as int, bound@),
        final(interner).type_ok(t),
        (match old(interner).stmts@[stmt_id.0 as int] {
            HirStatement::Let { id, annotated, expression } => t == Type::Unit && (if annotated
                == Type::Unspecified {
                final(interner).def_types@[id.0 as int] == final(interner).expr_types@[expression.0 as int]
            } else {
                final(interner).def_types@[id.0 as int] == Some(annotated)
            }),
            HirStatement::Expression(e) => final(interner).expr_types@[e.0 as int] == Some(t),
            HirStatement::Semi(e) => t == Type::Unit,
            HirStatement::Error => t == Type::Error,
        }),
        (match old(interner).stmts@[stmt_id.0 as int] {
            HirStatement::Let { id, annotated, expression } => annotated != Type::Unspecified
                ==> (match final(interner).expr_types@[expression.0 as int] {
                Some(et) => (crate::expr::concrete_operand(et) && crate::expr::concrete_operand(
                    annotated,
                ) && !crate::expr::concrete_subtype_ok(et, annotated)) ==> final(errors)@.len()
                    > old(errors)@.len() && final(errors)@.last() == (TypeCheckError {
                    kind: ErrorKind::TypeMismatch {
                        expected_typ: ExpectedType::Exact(annotated),
                        expr_typ: et,
                        expr_span: old(interner).expr_spans@[expression.0 as int],
                    },
                    context: None::<crate::errors::ErrContext>,
                }),
                None => false,
            }),
            _ => true,
        }),
    decreases bound@, 0int,
{
    let ghost o0 = *interner;
    let ghost e0 = errors@;
    let ghost s0 = stmt_id.0 as int;
    proof {
        lemma_prefix_refl(e0);
    }
    let s = interner.statement(stmt_id);
    match s {
        HirStatement::Let { id, annotated, expression } => {
            let expr_type = type_check_expression(interner, &expression, errors);
            let ghost m1 = *interner;
            if matches!(annotated, Type::Unspecified) {
                let d = expr_type.duplicate();
                let ghost m2 = *interner;
                interner.push_definition_type(&id, d);
                proof {
                    assert(evolves(m2, *interner, bound@ - 1));
                    lemma_evolves_trans(
                        o0,
                        m2,
                        *interner,
                        expression.0 as int,
                        bound@ - 1,
                        bound@ - 1,
                    );
                    lemma_evolves_subtree_typed(m2, *interner, bound@ - 1, expression.0 as int);
                    lemma_stmt_below_stable(o0, *interner, s0, bound@);
                }
            } else {
                let ghost m2 = *interner;
                proof {
                    lemma_poly_valid_grow(
                        annotated,
                        o0.bindings.table@.len(),
                        interner.bindings.table@.len(),
                    );
                }
                let ok = expr_type.make_subtype_of(&annotated, &mut interner.bindings);
                proof {
                    lemma_wf_stable(m2, *interner);
                    assert(evolves(m2, *interner, bound@ - 1));
                    assert(m1.expr_types@[expression.0 as int] == Some(expr_type));
                    assert(interner.expr_types@[expression.0 as int] == Some(expr_type));
                    if crate::expr::concrete_operand(expr_type) && crate::expr::concrete_operand(
                        annotated,
                    ) {
                        crate::types::lemma_resolve_not_structural(
                            m2.bindings.table@,
                            expr_type,
                        );
                        crate::types::lemma_resolve_not_structural(m2.bindings.table@, annotated);
                        assert(ok == crate::expr::concrete_subtype_ok(expr_type, annotated));
                    }
                    lemma_evolves_trans(
                        o0,
                        m2,
                        *interner,
                        expression.0 as int,
                        bound@ - 1,
                        bound@ - 1,
                    );
                    lemma_evolves_subtree_typed(m2, *interner, bound@ - 1, expression.0 as int);
                }
                if !ok {
                    let ghost pp = errors@;
                    let span = interner.expr_span(&expression);
                    errors.push(
                        TypeCheckError::new(
                            ErrorKind::TypeMismatch {
                                expected_typ: ExpectedType::Exact(annotated.duplicate()),
                                expr_typ: expr_type.duplicate(),
                                expr_span: span,
                            },
                        ),
                    );
                    proof {
                        lemma_prefix_push(pp, errors@.last());
                        lemma_prefix_trans(e0, pp, errors@);
                    }
                }
                let ghost m3 = *interner;
                proof {
                    lemma_poly_valid_grow(
                        annotated,
                        o0.bindings.table@.len(),
                        interner.bindings.table@.len(),
                    );
                }
                interner.push_definition_type(&id, annotated);
                proof {
                    assert(evolves(m3, *interner, bound@ - 1));
                    lemma_evolves_trans(o0, m3, *interner, bound@ - 1, bound@ - 1, bound@ - 1);
                    lemma_evolves_subtree_typed(m3, *interner, bound@ - 1, expression.0 as int);
                    lemma_stmt_below_stable(o0, *interner, s0, bound@);
                }
            }
            Type::Unit
        },
        HirStatement::Expression(e) => {
            let t0 = type_check_expression(interner, &e, errors);
            proof {
                lemma_stmt_below_stable(o0, *interner, s0, bound@);
            }
            t0
        },
        HirStatement::Semi(e) => {
            let t0 = type_check_expression(interner, &e, errors);
            proof {
                lemma_stmt_below_stable(o0, *interner, s0, bound@);
            }
            Type::Unit
        },
        HirStatement::Error => Type::Error,
    }
}

} // verus!
