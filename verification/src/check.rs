//! Whole-crate entry points: check one function, and check every
//! function of the store.

use vstd::prelude::*;
use crate::errors::ErrorKind;
use crate::errors::ExpectedType;
use crate::errors::TypeCheckError;
use crate::expr::type_check_expression;
use crate::hir::FuncId;
use crate::node_interner::evolves;
use crate::node_interner::lemma_evolves_subtree_typed;
use crate::node_interner::lemma_evolves_trans;
use crate::node_interner::lemma_prefix_push;
use crate::node_interner::lemma_prefix_refl;
use crate::node_interner::lemma_prefix_trans;
use crate::node_interner::lemma_wf_stable;
use crate::node_interner::NodeInterner;
use crate::types::lemma_poly_valid_grow;

verus! {

/// Check one function: record the declared type of each parameter's
/// definition, check the body, and hold the body's type against the
/// declared return type.
#[verifier::rlimit(100)]
pub fn type_check_func(
    interner: &mut NodeInterner,
    func_id: &FuncId,
    errors: &mut Vec<TypeCheckError>,
)
    requires
        old(interner).wf(),
        func_id.0 < old(interner).funcs@.len(),
    ensures
        final(interner).wf(),
        evolves(*old(interner), *final(interner), old(interner).exprs@.len() as int),
        old(errors)@.is_prefix_of(final(errors)@),
        final(interner).subtree_typed(old(interner).funcs@[func_id.0 as int].body.0 as int),
        match final(interner).expr_types@[old(interner).funcs@[func_id.0 as int].body.0 as int] {
            Some(bt) => (crate::expr::concrete_operand(bt) && crate::expr::concrete_operand(
                old(interner).funcs@[func_id.0 as int].return_type,
            ) && !crate::expr::concrete_subtype_ok(
                bt,
                old(interner).funcs@[func_id.0 as int].return_type,
            )) ==> final(errors)@.len() > old(errors)@.len() && final(errors)@.last() == (
            TypeCheckError {
                kind: ErrorKind::TypeMismatch {
                    expected_typ: ExpectedType::Exact(
                        old(interner).funcs@[func_id.0 as int].return_type,
                    ),
                    expr_typ: bt,
                    expr_span: old(interner).expr_spans@[old(interner).funcs@[func_id.0 as int].body.0 as int],
                },
                context: None::<crate::errors::ErrContext>,
            }),
            None => false,
        },
{
    let ghost o0 = *interner;
    let ghost e0 = errors@;
    let ghost top = o0.exprs@.len() as int;
    proof {
        lemma_prefix_refl(e0);
        assert(o0.func_wf(func_id.0 as int));
    }
    let meta = interner.function_meta(func_id);
    let mut i: usize = 0;
    while i < meta.parameters.len()
        invariant
            o0.wf(),
            func_id.0 < o0.funcs@.len(),
            top == o0.exprs@.len() as int,
            meta.parameters@ == o0.funcs@[func_id.0 as int].parameters@,
            interner.wf(),
            evolves(o0, *interner, top),
            e0.is_prefix_of(errors@),
            i <= meta.parameters@.len(),
        decreases meta.parameters@.len() - i,
    {
        let p = &meta.parameters[i];
        let ghost pre = *interner;
        proof {
            assert(o0.func_wf(func_id.0 as int));
            assert(o0.type_ok(o0.funcs@[func_id.0 as int].parameters@[i as int].1));
            lemma_poly_valid_grow(
                p.1,
                o0.bindings.table@.len(),
                interner.bindings.table@.len(),
            );
        }
        let tdup = p.1.duplicate();
        interner.push_definition_type(&p.0, tdup);
        proof {
            assert(evolves(pre, *interner, top));
            lemma_evolves_trans(o0, pre, *interner, top, top, top);
        }
        i = i + 1;
    }
    let body = meta.body;
    let ghost m1 = *interner;
    let ghost p1 = errors@;
    proof {
        assert(o0.func_wf(func_id.0 as int));
    }
    let body_type = type_check_expression(interner, &body, errors);
    let ghost m2 = *interner;
    proof {
        lemma_evolves_trans(o0, m1, m2, top, body.0 as int, top);
        lemma_prefix_trans(e0, p1, errors@);
        lemma_poly_valid_grow(
            meta.return_type,
            o0.bindings.table@.len(),
            interner.bindings.table@.len(),
        );
    }
    let ok = body_type.make_subtype_of(&meta.return_type, &mut interner.bindings);
    proof {
        lemma_wf_stable(m2, *interner);
        assert(evolves(m2, *interner, top));
        lemma_evolves_trans(o0, m2, *interner, top, top, top);
        lemma_evolves_subtree_typed(m2, *interner, top, body.0 as int);
        assert(m2.expr_types@[body.0 as int] == Some(body_type));
        assert(interner.expr_types@[body.0 as int] == Some(body_type));
        if crate::expr::concrete_operand(body_type) && crate::expr::concrete_operand(
            meta.return_type,
        ) {
            crate::types::lemma_resolve_not_structural(m2.bindings.table@, body_type);
            crate::types::lemma_resolve_not_structural(m2.bindings.table@, meta.return_type);
            assert(ok == crate::expr::concrete_subtype_ok(body_type, meta.return_type));
        }
    }
    if !ok {
        let ghost pp = errors@;
        let span = interner.expr_span(&body);
        errors.push(
            TypeCheckError::new(
                ErrorKind::TypeMismatch {
                    expected_typ: ExpectedType::Exact(meta.return_type),
                    expr_typ: body_type,
                    expr_span: span,
                },
            ),
        );
        proof {
            lemma_prefix_push(pp, errors@.last());
            lemma_prefix_trans(e0, pp, errors@);
        }
    }
}

/// Check every function held by the store and return the diagnostics in
/// the order they were found.  Afterwards every expression reachable
/// from any function body has a recorded type.
#[verifier::rlimit(100)]
pub fn check_crate(interner: &mut NodeInterner) -> (errors: Vec<TypeCheckError>)
    requires
        old(interner).wf(),
    ensures
        final(interner).wf(),
        evolves(*old(interner), *final(interner), old(interner).exprs@.len() as int),
        forall|f: int|
            0 <= f < final(interner).funcs@.len() ==> final(interner).subtree_typed(
                (#[trigger] final(interner).funcs@[f]).body.0 as int,
            ),
{
    let ghost o0 = *interner;
    let ghost top = o0.exprs@.len() as int;
    let mut errors: Vec<TypeCheckError> = Vec::new();
    let n = interner.n_funcs();
    let mut f: usize = 0;
    while f < n
        invariant
            o0.wf(),
            top == o0.exprs@.len() as int,
            n == o0.funcs@.len(),
            interner.wf(),
            evolves(o0, *interner, top),
            f <= n,
            forall|g: int|
                0 <= g < f ==> interner.subtree_typed(
                    (#[trigger] o0.funcs@[g]).body.0 as int,
                ),
        decreases n - f,
    {
        let ghost pre = *interner;
        let fid = FuncId(f);
        proof {
            assert(o0.func_wf(f as int));
        }
        type_check_func(interner, &fid, &mut errors);
        proof {
            lemma_evolves_trans(o0, pre, *interner, top, top, top);
            assert forall|g: int| 0 <= g < f + 1 implies interner.subtree_typed(
                (#[trigger] o0.funcs@[g]).body.0 as int,
            ) by {
                if g < f {
                    assert(o0.func_wf(g));
                    lemma_evolves_subtree_typed(pre, *interner, top, o0.funcs@[g].body.0 as int);
                } else {
                    assert(pre.funcs@[f as int] == o0.funcs@[f as int]);
                }
            }
        }
        f = f + 1;
    }
    proof {
        assert forall|g: int| 0 <= g < interner.funcs@.len() implies interner.subtree_typed(
            (#[trigger] interner.funcs@[g]).body.0 as int,
        ) by {
            assert(interner.funcs@[g] == o0.funcs@[g]);
        }
    }
    errors
}

} // verus!
