//! The typed AST store: expression and statement shapes, function and
//! struct definitions, source spans, and the two result maps the checker
//! writes (expression types and definition types).  It also owns the
//! binding table for polymorphic integer variables.
//!
//! Shapes are addressed by ids, and a node only ever names nodes with
//! smaller ids, as an interner filled bottom-up produces them.  That
//! order is the well-formedness invariant [`NodeInterner::wf`], and the
//! termination measure of the checker's traversal.

use vstd::prelude::*;
use crate::hir::desugar_of;
use crate::hir::expr_matches;
use crate::hir::fields_match;
use crate::hir::copy_expr_ids;
use crate::hir::copy_name;
use crate::hir::copy_stmt_ids;
use crate::hir::copy_fields;
use crate::hir::name_eq;
use crate::hir::DefinitionId;
use crate::hir::ExprId;
use crate::hir::FuncId;
use crate::hir::HirExpression;
use crate::hir::HirLiteral;
use crate::hir::HirStatement;
use crate::hir::Name;
use crate::hir::StmtId;
use crate::span::Span;
use crate::types::lemma_poly_valid_grow;
use crate::types::poly_valid;
use crate::types::struct_valid;
use crate::types::StructId;
use crate::types::Type;
use crate::types::TypeBindings;
use crate::types::TypeVariableId;

verus! {

/// One function parameter: the definition it binds and its declared
/// type.
#[derive(PartialEq, Eq, Debug)]
pub struct Param(pub DefinitionId, pub Type);

/// What call checking needs to know of a function.
#[derive(PartialEq, Eq, Debug)]
pub struct FuncMeta {
    pub parameters: Vec<Param>,
    pub return_type: Type,
    pub body: ExprId,
}

/// A struct definition: its name, its fields in declared order, and its
/// method table.
#[derive(PartialEq, Eq, Debug)]
pub struct StructDef {
    pub name: Name,
    pub fields: Vec<(Name, Type)>,
    pub methods: Vec<(Name, FuncId)>,
}

/// The typed AST store.
#[derive(Debug)]
pub struct NodeInterner {
    pub exprs: Vec<HirExpression>,
    pub expr_types: Vec<Option<Type>>,
    pub expr_spans: Vec<Span>,
    pub stmts: Vec<HirStatement>,
    pub funcs: Vec<FuncMeta>,
    pub structs: Vec<StructDef>,
    pub def_types: Vec<Option<Type>>,
    pub def_spans: Vec<Span>,
    pub bindings: TypeBindings,
}

impl NodeInterner {
    /// Every variable and struct handle of `t` points into this store.
    pub open spec fn type_ok(self, t: Type) -> bool {
        poly_valid(t, self.bindings.table@.len()) && struct_valid(t, self.structs@.len())
    }

    /// The statement's own references: its definition and its expression
    /// ids, the latter strictly below `bound`.
    pub open spec fn stmt_exprs_below(self, s: int, bound: int) -> bool {
        match self.stmts@[s] {
            HirStatement::Let { id, annotated, expression } => id.0 < self.def_types@.len()
                && expression.0 < bound && self.type_ok(annotated),
            HirStatement::Expression(e) => e.0 < bound,
            HirStatement::Semi(e) => e.0 < bound,
            HirStatement::Error => true,
        }
    }

    /// Some constructor argument spells this name.
    pub open spec fn args_have_name(fields: Seq<(Name, ExprId)>, nm: Seq<u8>) -> bool {
        exists|k: int| 0 <= k < fields.len() && (#[trigger] fields[k]).0@ == nm
    }

    /// Some declared field of the definition spells this name.
    pub open spec fn defs_have_name(defs: Seq<(Name, Type)>, nm: Seq<u8>) -> bool {
        exists|j: int| 0 <= j < defs.len() && (#[trigger] defs[j]).0@ == nm
    }

    /// Some entry of the method table spells this name.
    pub open spec fn methods_have_name(methods: Seq<(Name, FuncId)>, nm: Seq<u8>) -> bool {
        exists|j: int| 0 <= j < methods.len() && (#[trigger] methods[j]).0@ == nm
    }

    /// Conditions on one expression shape standing at index `i`: nodes
    /// it names have smaller ids, definitions and functions it names
    /// exist, and types it carries point into the store.  For a
    /// constructor, name resolution further guarantees that its field
    /// names are distinct and cover the definition's field names.
    pub open spec fn expr_shape_wf(self, e: HirExpression, i: int) -> bool {
        match e {
            HirExpression::Ident(d) => d.0 < self.def_types@.len(),
            HirExpression::Literal(lit) => match lit {
                HirLiteral::Array(contents) => forall|j: int|
                    0 <= j < contents@.len() ==> (#[trigger] contents@[j]).0 < i,
                _ => true,
            },
            HirExpression::Infix { lhs, operator, rhs } => lhs.0 < i && rhs.0 < i,
            HirExpression::Index { collection, index } => collection.0 < i && index.0 < i,
            HirExpression::Call { func_id, arguments } => (func_id.0 == usize::MAX || func_id.0
                < self.funcs@.len()) && forall|j: int|
                0 <= j < arguments@.len() ==> (#[trigger] arguments@[j]).0 < i,
            HirExpression::MethodCall { object, method, arguments } => object.0 < i && forall|
                j: int,
            |
                0 <= j < arguments@.len() ==> (#[trigger] arguments@[j]).0 < i,
            HirExpression::Cast { lhs, target } => lhs.0 < i && self.type_ok(target),
            HirExpression::For { identifier, start_range, end_range, block } => identifier.0
                < self.def_types@.len() && start_range.0 < i && end_range.0 < i && block.0 < i,
            HirExpression::Block(stmt_ids) => forall|j: int|
                0 <= j < stmt_ids@.len() ==> (#[trigger] stmt_ids@[j]).0 < self.stmts@.len()
                    && self.stmt_exprs_below(stmt_ids@[j].0 as int, i),
            HirExpression::Prefix { operator, rhs } => rhs.0 < i,
            HirExpression::If { condition, consequence, alternative } => condition.0 < i
                && consequence.0 < i && match alternative {
                Some(e2) => e2.0 < i,
                None => true,
            },
            HirExpression::Constructor { type_id, fields } => type_id.0 < self.structs@.len()
                && (forall|j: int| 0 <= j < fields@.len() ==> (#[trigger] fields@[j]).1.0 < i) && (
            forall|j: int, k: int|
                0 <= j < k < fields@.len() ==> (#[trigger] fields@[j]).0@ != (#[trigger] fields@[k]).0@)
                && fields@.len() == self.structs@[type_id.0 as int].fields@.len() && (forall|j: int|
                0 <= j < self.structs@[type_id.0 as int].fields@.len() ==> Self::args_have_name(
                    fields@,
                    (#[trigger] self.structs@[type_id.0 as int].fields@[j]).0@,
                )) && (forall|k: int|
                0 <= k < fields@.len() ==> Self::defs_have_name(
                    self.structs@[type_id.0 as int].fields@,
                    (#[trigger] fields@[k]).0@,
                )),
            HirExpression::MemberAccess { lhs, rhs } => lhs.0 < i,
            HirExpression::Tuple(elems) => forall|j: int|
                0 <= j < elems@.len() ==> (#[trigger] elems@[j]).0 < i,
            HirExpression::Error => true,
        }
    }

    pub open spec fn expr_wf(self, i: int) -> bool {
        self.expr_shape_wf(self.exprs@[i], i)
    }

    pub open spec fn struct_wf(self, s: int) -> bool {
        (forall|j: int|
            0 <= j < self.structs@[s].fields@.len() ==> self.type_ok(
                (#[trigger] self.structs@[s].fields@[j]).1,
            )) && (forall|j: int|
            0 <= j < self.structs@[s].methods@.len() ==> (#[trigger] self.structs@[s].methods@[j]).1.0
                < self.funcs@.len()) && (forall|j: int, k: int|
            0 <= j < k < self.structs@[s].fields@.len() ==> (#[trigger] self.structs@[s].fields@[j]).0@
                != (#[trigger] self.structs@[s].fields@[k]).0@)
    }

    pub open spec fn func_wf(self, f: int) -> bool {
        (forall|j: int|
            0 <= j < self.funcs@[f].parameters@.len() ==> self.type_ok(
                (#[trigger] self.funcs@[f].parameters@[j]).1,
            ) && self.funcs@[f].parameters@[j].0.0 < self.def_types@.len()) && self.type_ok(
            self.funcs@[f].return_type,
        ) && self.funcs@[f].body.0 < self.exprs@.len()
    }

    pub open spec fn def_type_ok(self, d: int) -> bool {
        match self.def_types@[d] {
            Some(t) => self.type_ok(t),
            None => true,
        }
    }

    /// The whole store is well formed.
    pub open spec fn wf(self) -> bool {
        &&& self.expr_types@.len() == self.exprs@.len()
        &&& self.expr_spans@.len() == self.exprs@.len()
        &&& self.def_types@.len() == self.def_spans@.len()
        &&& self.bindings.wf()
        &&& forall|i: int| 0 <= i < self.exprs@.len() ==> #[trigger] self.expr_wf(i)
        &&& forall|s: int| 0 <= s < self.structs@.len() ==> #[trigger] self.struct_wf(s)
        &&& forall|f: int| 0 <= f < self.funcs@.len() ==> #[trigger] self.func_wf(f)
        &&& forall|d: int| 0 <= d < self.def_types@.len() ==> #[trigger] self.def_type_ok(d)
        &&& forall|i: int| 0 <= i < self.exprs@.len() ==> #[trigger] self.typed_node_ok(i)
    }

    /// An expression has received its type.
    pub open spec fn expr_typed(self, e: int) -> bool {
        self.expr_types@[e] is Some
    }

    /// The direct sub-expressions of statement `s` all carry types.
    pub open spec fn stmt_kids_typed(self, s: int) -> bool {
        match self.stmts@[s] {
            HirStatement::Let { id, annotated, expression } => self.expr_typed(expression.0 as int),
            HirStatement::Expression(e) => self.expr_typed(e.0 as int),
            HirStatement::Semi(e) => self.expr_typed(e.0 as int),
            HirStatement::Error => true,
        }
    }

    /// The direct children of node `i` all carry types.
    pub open spec fn kids_typed(self, i: int) -> bool {
        match self.exprs@[i] {
            HirExpression::Ident(_) => true,
            HirExpression::Literal(lit) => match lit {
                HirLiteral::Array(contents) => forall|j: int|
                    0 <= j < contents@.len() ==> self.expr_typed((#[trigger] contents@[j]).0 as int),
                _ => true,
            },
            HirExpression::Infix { lhs, operator, rhs } => self.expr_typed(lhs.0 as int)
                && self.expr_typed(rhs.0 as int),
            HirExpression::Index { collection, index } => self.expr_typed(collection.0 as int)
                && self.expr_typed(index.0 as int),
            HirExpression::Call { func_id, arguments } => forall|j: int|
                0 <= j < arguments@.len() ==> self.expr_typed((#[trigger] arguments@[j]).0 as int),
            HirExpression::MethodCall { object, method, arguments } => self.expr_typed(
                object.0 as int,
            ) && forall|j: int|
                0 <= j < arguments@.len() ==> self.expr_typed((#[trigger] arguments@[j]).0 as int),
            HirExpression::Cast { lhs, target } => self.expr_typed(lhs.0 as int),
            HirExpression::For { identifier, start_range, end_range, block } => self.expr_typed(
                start_range.0 as int,
            ) && self.expr_typed(end_range.0 as int) && self.expr_typed(block.0 as int),
            HirExpression::Block(stmt_ids) => forall|j: int|
                0 <= j < stmt_ids@.len() ==> self.stmt_kids_typed((#[trigger] stmt_ids@[j]).0 as int),
            HirExpression::Prefix { operator, rhs } => self.expr_typed(rhs.0 as int),
            HirExpression::If { condition, consequence, alternative } => self.expr_typed(
                condition.0 as int,
            ) && self.expr_typed(consequence.0 as int) && match alternative {
                Some(e2) => self.expr_typed(e2.0 as int),
                None => true,
            },
            HirExpression::Constructor { type_id, fields } => forall|j: int|
                0 <= j < fields@.len() ==> self.expr_typed((#[trigger] fields@[j]).1.0 as int),
            HirExpression::MemberAccess { lhs, rhs } => self.expr_typed(lhs.0 as int),
            HirExpression::Tuple(elems) => forall|j: int|
                0 <= j < elems@.len() ==> self.expr_typed((#[trigger] elems@[j]).0 as int),
            HirExpression::Error => true,
        }
    }

    /// A node that already carries a type is fully checked: its recorded
    /// type is valid and its direct children carry types too.  The
    /// checker writes a node's type only after its children's.
    pub open spec fn typed_node_ok(self, i: int) -> bool {
        match self.expr_types@[i] {
            Some(t) => self.type_ok(t) && self.kids_typed(i),
            None => true,
        }
    }

    /// Every expression reachable from node `i` — the node itself, its
    /// sub-expressions, and the expressions of the statements of its
    /// blocks — has received a type.
    pub open spec fn subtree_typed(self, i: int) -> bool
        decreases i, 2int,
            when 0 <= i < self.exprs@.len() && self.wf()
    {
        self.expr_typed(i) && self.children_typed(i)
    }

    /// Every expression reachable from a child of node `i` has received
    /// a type.
    pub open spec fn children_typed(self, i: int) -> bool
        decreases i, 1int,
            when 0 <= i < self.exprs@.len() && self.wf()
            via Self::children_typed_dec
    {
        match self.exprs@[i] {
            HirExpression::Ident(_) => true,
            HirExpression::Literal(lit) => match lit {
                HirLiteral::Array(contents) => forall|j: int|
                    0 <= j < contents@.len() ==> self.subtree_typed(
                        (#[trigger] contents@[j]).0 as int,
                    ),
                _ => true,
            },
            HirExpression::Infix { lhs, operator, rhs } => self.subtree_typed(lhs.0 as int)
                && self.subtree_typed(rhs.0 as int),
            HirExpression::Index { collection, index } => self.subtree_typed(collection.0 as int)
                && self.subtree_typed(index.0 as int),
            HirExpression::Call { func_id, arguments } => forall|j: int|
                0 <= j < arguments@.len() ==> self.subtree_typed((#[trigger] arguments@[j]).0 as int),
            HirExpression::MethodCall { object, method, arguments } => self.subtree_typed(
                object.0 as int,
            ) && forall|j: int|
                0 <= j < arguments@.len() ==> self.subtree_typed((#[trigger] arguments@[j]).0 as int),
            HirExpression::Cast { lhs, target } => self.subtree_typed(lhs.0 as int),
            HirExpression::For { identifier, start_range, end_range, block } => self.subtree_typed(
                start_range.0 as int,
            ) && self.subtree_typed(end_range.0 as int) && self.subtree_typed(block.0 as int),
            HirExpression::Block(stmt_ids) => forall|j: int|
                0 <= j < stmt_ids@.len() ==> self.stmt_subtree_typed(
                    (#[trigger] stmt_ids@[j]).0 as int,
                    i,
                ),
            HirExpression::Prefix { operator, rhs } => self.subtree_typed(rhs.0 as int),
            HirExpression::If { condition, consequence, alternative } => self.subtree_typed(
                condition.0 as int,
            ) && self.subtree_typed(consequence.0 as int) && match alternative {
                Some(e2) => self.subtree_typed(e2.0 as int),
                None => true,
            },
            HirExpression::Constructor { type_id, fields } => forall|j: int|
                0 <= j < fields@.len() ==> self.subtree_typed((#[trigger] fields@[j]).1.0 as int),
            HirExpression::MemberAccess { lhs, rhs } => self.subtree_typed(lhs.0 as int),
            HirExpression::Tuple(elems) => forall|j: int|
                0 <= j < elems@.len() ==> self.subtree_typed((#[trigger] elems@[j]).0 as int),
            HirExpression::Error => true,
        }
    }

    /// Every expression reachable from statement `s` has received a
    /// type; the statement's expressions lie below `bound`.
    pub open spec fn stmt_subtree_typed(self, s: int, bound: int) -> bool
        decreases bound, 0int,
            when 0 <= s < self.stmts@.len() && self.wf()
    {
        match self.stmts@[s] {
            HirStatement::Let { id, annotated, expression } => if expression.0 < bound {
                self.subtree_typed(expression.0 as int)
            } else {
                true
            },
            HirStatement::Expression(e) => if e.0 < bound {
                self.subtree_typed(e.0 as int)
            } else {
                true
            },
            HirStatement::Semi(e) => if e.0 < bound {
                self.subtree_typed(e.0 as int)
            } else {
                true
            },
            HirStatement::Error => true,
        }
    }

    #[via_fn]
    proof fn children_typed_dec(self, i: int) {
        assert(self.expr_wf(i));
    }
}

impl NodeInterner {
    /// The type recorded for a definition, or `Unspecified` when none
    /// has been recorded yet.
    pub open spec fn spec_id_type(self, d: int) -> Type {
        match self.def_types@[d] {
            Some(t) => t,
            None => Type::Unspecified,
        }
    }

    pub fn n_exprs(&self) -> (r: usize)
        ensures
            r == self.exprs@.len(),
    {
        self.exprs.len()
    }

    pub fn n_funcs(&self) -> (r: usize)
        ensures
            r == self.funcs@.len(),
    {
        self.funcs.len()
    }

    /// The shape of an expression node, as an owned copy.
    pub fn expression(&self, expr_id: &ExprId) -> (e: HirExpression)
        requires
            expr_id.0 < self.exprs@.len(),
        ensures
            expr_matches(e, self.exprs@[expr_id.0 as int]),
    {
        match &self.exprs[expr_id.0] {
            HirExpression::Ident(d) => HirExpression::Ident(*d),
            HirExpression::Literal(lit) => HirExpression::Literal(
                match lit {
                    HirLiteral::Array(contents) => HirLiteral::Array(copy_expr_ids(contents)),
                    HirLiteral::Bool(b) => HirLiteral::Bool(*b),
                    HirLiteral::Integer(x) => HirLiteral::Integer(*x),
                    HirLiteral::Str(s) => HirLiteral::Str(copy_name(s)),
                },
            ),
            HirExpression::Infix { lhs, operator, rhs } => HirExpression::Infix {
                lhs: *lhs,
                operator: *operator,
                rhs: *rhs,
            },
            HirExpression::Index { collection, index } => HirExpression::Index {
                collection: *collection,
                index: *index,
            },
            HirExpression::Call { func_id, arguments } => HirExpression::Call {
                func_id: *func_id,
                arguments: copy_expr_ids(arguments),
            },
            HirExpression::MethodCall { object, method, arguments } => HirExpression::MethodCall {
                object: *object,
                method: copy_name(method),
                arguments: copy_expr_ids(arguments),
            },
            HirExpression::Cast { lhs, target } => HirExpression::Cast {
                lhs: *lhs,
                target: target.duplicate(),
            },
            HirExpression::For { identifier, start_range, end_range, block } => HirExpression::For {
                identifier: *identifier,
                start_range: *start_range,
                end_range: *end_range,
                block: *block,
            },
            HirExpression::Block(stmt_ids) => HirExpression::Block(copy_stmt_ids(stmt_ids)),
            HirExpression::Prefix { operator, rhs } => HirExpression::Prefix {
                operator: *operator,
                rhs: *rhs,
            },
            HirExpression::If { condition, consequence, alternative } => HirExpression::If {
                condition: *condition,
                consequence: *consequence,
                alternative: *alternative,
            },
            HirExpression::Constructor { type_id, fields } => HirExpression::Constructor {
                type_id: *type_id,
                fields: copy_fields(fields),
            },
            HirExpression::MemberAccess { lhs, rhs } => HirExpression::MemberAccess {
                lhs: *lhs,
                rhs: copy_name(rhs),
            },
            HirExpression::Tuple(elems) => HirExpression::Tuple(copy_expr_ids(elems)),
            HirExpression::Error => HirExpression::Error,
        }
    }

    /// The type already recorded for an expression node, if any.
    pub fn expr_type_of(&self, expr_id: &ExprId) -> (r: Option<Type>)
        requires
            expr_id.0 < self.expr_types@.len(),
        ensures
            r == self.expr_types@[expr_id.0 as int],
    {
        match &self.expr_types[expr_id.0] {
            Some(t) => Some(t.duplicate()),
            None => None,
        }
    }

    /// The shape of a statement node, as an owned copy.
    pub fn statement(&self, stmt_id: &StmtId) -> (s: HirStatement)
        requires
            stmt_id.0 < self.stmts@.len(),
        ensures
            s == self.stmts@[stmt_id.0 as int],
    {
        self.stmts[stmt_id.0].duplicate()
    }

    pub fn expr_span(&self, expr_id: &ExprId) -> (r: Span)
        requires
            expr_id.0 < self.expr_spans@.len(),
        ensures
            r == self.expr_spans@[expr_id.0 as int],
    {
        self.expr_spans[expr_id.0]
    }

    pub fn id_span(&self, def_id: &DefinitionId) -> (r: Span)
        requires
            def_id.0 < self.def_spans@.len(),
        ensures
            r == self.def_spans@[def_id.0 as int],
    {
        self.def_spans[def_id.0]
    }

    /// The type recorded for a definition; `Unspecified` when the
    /// definition has none yet.
    pub fn id_type(&self, def_id: &DefinitionId) -> (r: Type)
        requires
            self.wf(),
            def_id.0 < self.def_types@.len(),
        ensures
            r == self.spec_id_type(def_id.0 as int),
            self.type_ok(r),
    {
        proof {
            assert(self.def_type_ok(def_id.0 as int));
        }
        match &self.def_types[def_id.0] {
            Some(t) => t.duplicate(),
            None => Type::Unspecified,
        }
    }

    /// The parameters, return type and body of a function, as owned
    /// copies.
    pub fn function_meta(&self, func_id: &FuncId) -> (m: FuncMeta)
        requires
            func_id.0 < self.funcs@.len(),
        ensures
            m.parameters@ == self.funcs@[func_id.0 as int].parameters@,
            m.return_type == self.funcs@[func_id.0 as int].return_type,
            m.body == self.funcs@[func_id.0 as int].body,
    {
        let f = &self.funcs[func_id.0];
        let mut parameters: Vec<Param> = Vec::new();
        let mut i: usize = 0;
        while i < f.parameters.len()
            invariant
                i <= f.parameters@.len(),
                parameters@.len() == i,
                forall|j: int| 0 <= j < i ==> #[trigger] parameters@[j] == f.parameters@[j],
            decreases f.parameters@.len() - i,
        {
            let p = &f.parameters[i];
            parameters.push(Param(p.0, p.1.duplicate()));
            i = i + 1;
        }
        proof {
            assert(parameters@ =~= f.parameters@);
        }
        FuncMeta { parameters, return_type: f.return_type.duplicate(), body: f.body }
    }

    /// Create a fresh type variable; its cell starts unbound.
    pub fn next_type_variable_id(&mut self) -> (v: TypeVariableId)
        requires
            old(self).wf(),
        ensures
            final(self).wf(),
            v.0 == old(self).bindings.table@.len(),
            final(self).bindings.table@ == old(self).bindings.table@.push(
                crate::types::TypeBinding::Unbound(v),
            ),
            final(self).exprs@ == old(self).exprs@,
            final(self).stmts@ == old(self).stmts@,
            final(self).structs@ == old(self).structs@,
            final(self).funcs@ == old(self).funcs@,
            final(self).expr_spans@ == old(self).expr_spans@,
            final(self).def_spans@ == old(self).def_spans@,
            final(self).expr_types@ == old(self).expr_types@,
            final(self).def_types@ == old(self).def_types@,
    {
        let ghost o = *self;
        let v = self.bindings.fresh();
        proof {
            lemma_wf_stable(o, *self);
        }
        v
    }

    /// Record the type of an expression node.
    pub fn push_expr_type(&mut self, expr_id: &ExprId, typ: Type)
        requires
            old(self).wf(),
            expr_id.0 < old(self).expr_types@.len(),
            old(self).type_ok(typ),
            old(self).kids_typed(expr_id.0 as int),
        ensures
            final(self).wf(),
            final(self).expr_types@ == old(self).expr_types@.update(
                expr_id.0 as int,
                Some(typ),
            ),
            final(self).exprs@ == old(self).exprs@,
            final(self).stmts@ == old(self).stmts@,
            final(self).structs@ == old(self).structs@,
            final(self).funcs@ == old(self).funcs@,
            final(self).expr_spans@ == old(self).expr_spans@,
            final(self).def_spans@ == old(self).def_spans@,
            final(self).def_types@ == old(self).def_types@,
            final(self).bindings == old(self).bindings,
    {
        let ghost o = *self;
        self.expr_types.set(expr_id.0, Some(typ));
        proof {
            lemma_wf_stable(o, *self);
        }
    }

    /// Record the type of a definition.
    pub fn push_definition_type(&mut self, def_id: &DefinitionId, typ: Type)
        requires
            old(self).wf(),
            def_id.0 < old(self).def_types@.len(),
            old(self).type_ok(typ),
        ensures
            final(self).wf(),
            final(self).def_types@ == old(self).def_types@.update(def_id.0 as int, Some(typ)),
            final(self).exprs@ == old(self).exprs@,
            final(self).stmts@ == old(self).stmts@,
            final(self).structs@ == old(self).structs@,
            final(self).funcs@ == old(self).funcs@,
            final(self).expr_spans@ == old(self).expr_spans@,
            final(self).def_spans@ == old(self).def_spans@,
            final(self).expr_types@ == old(self).expr_types@,
            final(self).bindings == old(self).bindings,
    {
        let ghost o = *self;
        self.def_types.set(def_id.0, Some(typ));
        proof {
            lemma_wf_stable(o, *self);
        }
    }

    /// Rewrite an expression node in place.  The checker uses this for
    /// exactly one thing: desugaring a checked method call into a plain
    /// function call.
    pub fn replace_expr(&mut self, expr_id: &ExprId, e: HirExpression)
        requires
            old(self).wf(),
            expr_id.0 < old(self).exprs@.len(),
            old(self).expr_shape_wf(e, expr_id.0 as int),
            old(self).expr_types@[expr_id.0 as int] is None,
        ensures
            final(self).wf(),
            final(self).exprs@ == old(self).exprs@.update(expr_id.0 as int, e),
            final(self).stmts@ == old(self).stmts@,
            final(self).structs@ == old(self).structs@,
            final(self).funcs@ == old(self).funcs@,
            final(self).expr_spans@ == old(self).expr_spans@,
            final(self).def_spans@ == old(self).def_spans@,
            final(self).expr_types@ == old(self).expr_types@,
            final(self).def_types@ == old(self).def_types@,
            final(self).bindings == old(self).bindings,
    {
        let ghost o = *self;
        self.exprs.set(expr_id.0, e);
        proof {
            assert forall|i: int| 0 <= i < self.exprs@.len() implies #[trigger] self.expr_wf(i) by {
                if i == expr_id.0 as int {
                    lemma_shape_wf_stable(o, *self, self.exprs@[i], i);
                } else {
                    assert(o.expr_wf(i));
                    lemma_shape_wf_stable(o, *self, self.exprs@[i], i);
                }
            }
            assert forall|s: int| 0 <= s < self.structs@.len() implies #[trigger] self.struct_wf(
                s,
            ) by {
                assert(o.struct_wf(s));
            }
            assert forall|f: int| 0 <= f < self.funcs@.len() implies #[trigger] self.func_wf(f) by {
                assert(o.func_wf(f));
            }
            assert forall|d: int| 0 <= d < self.def_types@.len() implies #[trigger] self.def_type_ok(
                d,
            ) by {
                assert(o.def_type_ok(d));
            }
            assert forall|j: int| 0 <= j < self.exprs@.len() implies #[trigger] self.typed_node_ok(
                j,
            ) by {
                assert(o.typed_node_ok(j));
                assert(o.expr_wf(j));
                if j != expr_id.0 as int {
                    assert(self.exprs@[j] == o.exprs@[j]);
                    match self.expr_types@[j] {
                        Some(t) => {
                            match o.exprs@[j] {
                                HirExpression::Block(stmt_ids) => {
                                    assert forall|k: int|
                                        0 <= k < stmt_ids@.len() implies self.stmt_kids_typed(
                                        (#[trigger] stmt_ids@[k]).0 as int,
                                    ) by {
                                        assert(o.stmt_kids_typed(stmt_ids@[k].0 as int));
                                    }
                                },
                                _ => {},
                            }
                            assert(self.kids_typed(j));
                        },
                        None => {},
                    }
                }
            }
        }
    }

    /// The type of the named field of a struct definition, when there
    /// is one.
    pub fn get_field(&self, type_id: &StructId, name: &Name) -> (r: Option<Type>)
        requires
            self.wf(),
            type_id.0 < self.structs@.len(),
        ensures
            match r {
                Some(t) => self.type_ok(t) && exists|j: int|
                    0 <= j < self.structs@[type_id.0 as int].fields@.len() && (
                    #[trigger] self.structs@[type_id.0 as int].fields@[j]).0@ == name@
                        && self.structs@[type_id.0 as int].fields@[j].1 == t,
                None => forall|j: int|
                    0 <= j < self.structs@[type_id.0 as int].fields@.len() ==> (
                    #[trigger] self.structs@[type_id.0 as int].fields@[j]).0@ != name@,
            },
    {
        proof {
            assert(self.struct_wf(type_id.0 as int));
        }
        let fields = &self.structs[type_id.0].fields;
        let mut i: usize = 0;
        while i < fields.len()
            invariant
                i <= fields@.len(),
                fields@ == self.structs@[type_id.0 as int].fields@,
                self.wf(),
                type_id.0 < self.structs@.len(),
                forall|j: int| 0 <= j < i ==> (#[trigger] fields@[j]).0@ != name@,
            decreases fields@.len() - i,
        {
            if name_eq(&fields[i].0, name) {
                proof {
                    assert(self.struct_wf(type_id.0 as int));
                }
                return Some(fields[i].1.duplicate());
            }
            i = i + 1;
        }
        None
    }

    /// The function registered under the named method of a struct
    /// definition, when there is one.
    pub fn get_method(&self, type_id: &StructId, name: &Name) -> (r: Option<FuncId>)
        requires
            self.wf(),
            type_id.0 < self.structs@.len(),
        ensures
            match r {
                Some(f) => f.0 < self.funcs@.len() && exists|j: int|
                    0 <= j < self.structs@[type_id.0 as int].methods@.len() && (
                    #[trigger] self.structs@[type_id.0 as int].methods@[j]).0@ == name@
                        && self.structs@[type_id.0 as int].methods@[j].1 == f,
                None => forall|j: int|
                    0 <= j < self.structs@[type_id.0 as int].methods@.len() ==> (
                    #[trigger] self.structs@[type_id.0 as int].methods@[j]).0@ != name@,
            },
    {
        proof {
            assert(self.struct_wf(type_id.0 as int));
        }
        let methods = &self.structs[type_id.0].methods;
        let mut i: usize = 0;
        while i < methods.len()
            invariant
                i <= methods@.len(),
                methods@ == self.structs@[type_id.0 as int].methods@,
                self.wf(),
                type_id.0 < self.structs@.len(),
                forall|j: int| 0 <= j < i ==> (#[trigger] methods@[j]).0@ != name@,
            decreases methods@.len() - i,
        {
            if name_eq(&methods[i].0, name) {
                proof {
                    assert(self.struct_wf(type_id.0 as int));
                }
                return Some(methods[i].1);
            }
            i = i + 1;
        }
        None
    }

    /// How many fields the struct definition declares.
    pub fn struct_field_len(&self, type_id: &StructId) -> (r: usize)
        requires
            type_id.0 < self.structs@.len(),
        ensures
            r == self.structs@[type_id.0 as int].fields@.len(),
    {
        self.structs[type_id.0].fields.len()
    }

    /// The name and type of the struct definition's field at `index`,
    /// in declared order.
    pub fn struct_field(&self, type_id: &StructId, index: usize) -> (r: (Name, Type))
        requires
            self.wf(),
            type_id.0 < self.structs@.len(),
            index < self.structs@[type_id.0 as int].fields@.len(),
        ensures
            r.0@ == self.structs@[type_id.0 as int].fields@[index as int].0@,
            r.1 == self.structs@[type_id.0 as int].fields@[index as int].1,
            self.type_ok(r.1),
    {
        proof {
            assert(self.struct_wf(type_id.0 as int));
        }
        let entry = &self.structs[type_id.0].fields[index];
        (copy_name(&entry.0), entry.1.duplicate())
    }
}

/// Prefixes chain: a prefix of a prefix is a prefix.
pub proof fn lemma_prefix_trans<A>(a: Seq<A>, b: Seq<A>, c: Seq<A>)
    requires
        a.is_prefix_of(b),
        b.is_prefix_of(c),
    ensures
        a.is_prefix_of(c),
{
    assert(a =~= c.subrange(0, a.len() as int));
}

/// A prefix agrees with the longer list at every position it covers.
pub proof fn lemma_prefix_index<A>(a: Seq<A>, b: Seq<A>, k: int)
    requires
        a.is_prefix_of(b),
        0 <= k < a.len(),
    ensures
        b[k] == a[k],
{
    assert(a[k] == b.subrange(0, a.len() as int)[k]);
}

/// A list is a prefix of itself.
pub proof fn lemma_prefix_refl<A>(a: Seq<A>)
    ensures
        a.is_prefix_of(a),
{
    assert(a =~= a.subrange(0, a.len() as int));
}

/// A list is a prefix of itself with one element appended.
pub proof fn lemma_prefix_push<A>(a: Seq<A>, x: A)
    ensures
        a.is_prefix_of(a.push(x)),
{
    assert(a =~= a.push(x).subrange(0, a.len() as int));
}

/// How one checking step may change the store: nothing but the two
/// result maps, the binding table, and the desugaring of method-call
/// nodes at or below `top`.  Expression types are written only at or
/// below `top`.  Already bound cells and already recorded expression
/// types are final — once written they never change — and a recorded
/// definition type is never taken away.
pub open spec fn evolves(o: NodeInterner, n: NodeInterner, top: int) -> bool {
    &&& n.exprs@.len() == o.exprs@.len()
    &&& n.stmts@ == o.stmts@
    &&& n.structs@ == o.structs@
    &&& n.funcs@ == o.funcs@
    &&& n.expr_spans@ == o.expr_spans@
    &&& n.def_spans@ == o.def_spans@
    &&& n.expr_types@.len() == o.expr_types@.len()
    &&& n.def_types@.len() == o.def_types@.len()
    &&& n.bindings.table@.len() >= o.bindings.table@.len()
    &&& forall|v: int|
        0 <= v < o.bindings.table@.len() && o.bindings.table@[v] is Bound
            ==> n.bindings.table@[v] == o.bindings.table@[v]
    &&& forall|e: int|
        0 <= e < o.expr_types@.len() && #[trigger] o.expr_types@[e] is Some
            ==> n.expr_types@[e] == o.expr_types@[e]
    &&& forall|d: int|
        0 <= d < o.def_types@.len() && #[trigger] o.def_types@[d] is Some
            ==> n.def_types@[d] is Some
    &&& forall|e: int|
        top < e < o.expr_types@.len() ==> #[trigger] n.expr_types@[e] == o.expr_types@[e]
    &&& forall|j: int|
        0 <= j < o.exprs@.len() ==> #[trigger] n.exprs@[j] == o.exprs@[j] || (j <= top
            && desugar_of(n.exprs@[j], o.exprs@[j]))
}

/// A shape's conditions do not depend on the result maps: they survive
/// any change that keeps the shape tables and only grows the binding
/// table.
#[verifier::rlimit(100)]
pub proof fn lemma_shape_wf_stable(o: NodeInterner, n: NodeInterner, e: HirExpression, i: int)
    requires
        o.expr_shape_wf(e, i),
        n.stmts@ == o.stmts@,
        n.structs@ == o.structs@,
        n.funcs@ == o.funcs@,
        n.def_types@.len() == o.def_types@.len(),
        n.bindings.table@.len() >= o.bindings.table@.len(),
    ensures
        n.expr_shape_wf(e, i),
{
    match e {
        HirExpression::Cast { lhs, target } => {
            lemma_poly_valid_grow(
                target,
                o.bindings.table@.len(),
                n.bindings.table@.len(),
            );
        },
        HirExpression::Block(stmt_ids) => {
            assert forall|j: int| 0 <= j < stmt_ids@.len() implies (#[trigger] stmt_ids@[j]).0
                < n.stmts@.len() && n.stmt_exprs_below(stmt_ids@[j].0 as int, i) by {
                let s = stmt_ids@[j].0 as int;
                assert(o.stmt_exprs_below(s, i));
                match o.stmts@[s] {
                    HirStatement::Let { id, annotated, expression } => {
                        lemma_poly_valid_grow(
                            annotated,
                            o.bindings.table@.len(),
                            n.bindings.table@.len(),
                        );
                    },
                    _ => {},
                }
            }
        },
        HirExpression::Constructor { type_id, fields } => {
            assert forall|j: int| 0 <= j < n.structs@[type_id.0 as int].fields@.len() implies NodeInterner::args_have_name(
                fields@,
                (#[trigger] n.structs@[type_id.0 as int].fields@[j]).0@,
            ) by {
                assert(n.structs@[type_id.0 as int].fields@[j] == o.structs@[type_id.0 as int].fields@[j]);
                assert(NodeInterner::args_have_name(fields@, (o.structs@[type_id.0 as int].fields@[j]).0@));
            }
            assert forall|k: int| 0 <= k < fields@.len() implies NodeInterner::defs_have_name(
                n.structs@[type_id.0 as int].fields@,
                (#[trigger] fields@[k]).0@,
            ) by {
                assert(NodeInterner::defs_have_name(
                    o.structs@[type_id.0 as int].fields@,
                    (fields@[k]).0@,
                ));
                assert(n.structs@[type_id.0 as int].fields@ == o.structs@[type_id.0 as int].fields@);
            }
        },
        _ => {},
    }
}

/// A statement's own conditions survive a step that keeps the shape
/// tables and only grows the binding table.
pub proof fn lemma_stmt_below_stable(o: NodeInterner, n: NodeInterner, s: int, bound: int)
    requires
        0 <= s < o.stmts@.len(),
        o.stmt_exprs_below(s, bound),
        n.stmts@ == o.stmts@,
        n.structs@ == o.structs@,
        n.def_types@.len() == o.def_types@.len(),
        n.bindings.table@.len() >= o.bindings.table@.len(),
    ensures
        n.stmt_exprs_below(s, bound),
{
    match o.stmts@[s] {
        HirStatement::Let { id, annotated, expression } => {
            lemma_poly_valid_grow(annotated, o.bindings.table@.len(), n.bindings.table@.len());
        },
        _ => {},
    }
}

/// Well-formedness survives a step that keeps every shape table, writes
/// result maps only with acceptable types, and only grows the binding
/// table.
#[verifier::rlimit(100)]
pub proof fn lemma_wf_stable(o: NodeInterner, n: NodeInterner)
    requires
        o.wf(),
        n.exprs@ == o.exprs@,
        n.stmts@ == o.stmts@,
        n.structs@ == o.structs@,
        n.funcs@ == o.funcs@,
        n.expr_spans@ == o.expr_spans@,
        n.def_spans@ == o.def_spans@,
        n.expr_types@.len() == o.expr_types@.len(),
        n.def_types@.len() == o.def_types@.len(),
        n.bindings.wf(),
        n.bindings.table@.len() >= o.bindings.table@.len(),
        forall|d: int|
            0 <= d < o.def_types@.len() ==> #[trigger] n.def_types@[d] == o.def_types@[d] || (
            n.def_types@[d] matches Some(t) && n.type_ok(t)),
        forall|e: int|
            0 <= e < o.expr_types@.len() ==> #[trigger] n.expr_types@[e] == o.expr_types@[e] || (
            n.expr_types@[e] matches Some(t) && n.type_ok(t) && o.kids_typed(e)),
    ensures
        n.wf(),
{
    assert forall|i: int| 0 <= i < n.exprs@.len() implies #[trigger] n.expr_wf(i) by {
        assert(o.expr_wf(i));
        lemma_shape_wf_stable(o, n, o.exprs@[i], i);
    }
    assert forall|i: int| 0 <= i < n.exprs@.len() implies #[trigger] n.typed_node_ok(i) by {
        assert(o.typed_node_ok(i));
        assert(o.expr_wf(i));
        match n.expr_types@[i] {
            Some(t) => {
                if n.expr_types@[i] == o.expr_types@[i] {
                    lemma_poly_valid_grow(t, o.bindings.table@.len(), n.bindings.table@.len());
                }
                assert(o.kids_typed(i));
                match o.exprs@[i] {
                        HirExpression::Block(stmt_ids) => {
                            assert forall|j: int| 0 <= j < stmt_ids@.len() implies n.stmt_kids_typed(
                                (#[trigger] stmt_ids@[j]).0 as int,
                            ) by {
                                let s2 = stmt_ids@[j].0 as int;
                                assert(o.stmt_exprs_below(s2, i));
                                assert(o.stmt_kids_typed(s2));
                                match o.stmts@[s2] {
                                    HirStatement::Let { id, annotated, expression } => {
                                        assert(o.expr_typed(expression.0 as int));
                                        assert(n.expr_typed(expression.0 as int));
                                    },
                                    HirStatement::Expression(e) => {
                                        assert(o.expr_typed(e.0 as int));
                                        assert(n.expr_typed(e.0 as int));
                                    },
                                    HirStatement::Semi(e) => {
                                        assert(o.expr_typed(e.0 as int));
                                        assert(n.expr_typed(e.0 as int));
                                    },
                                    HirStatement::Error => {},
                                }
                            }
                        },
                    _ => {},
                }
                assert(n.kids_typed(i));
            },
            None => {},
        }
    }
    assert forall|s: int| 0 <= s < n.structs@.len() implies #[trigger] n.struct_wf(s) by {
        assert(o.struct_wf(s));
        assert forall|j: int| 0 <= j < n.structs@[s].fields@.len() implies n.type_ok(
            (#[trigger] n.structs@[s].fields@[j]).1,
        ) by {
            lemma_poly_valid_grow(
                o.structs@[s].fields@[j].1,
                o.bindings.table@.len(),
                n.bindings.table@.len(),
            );
        }
    }
    assert forall|f: int| 0 <= f < n.funcs@.len() implies #[trigger] n.func_wf(f) by {
        assert(o.func_wf(f));
        assert forall|j: int| 0 <= j < n.funcs@[f].parameters@.len() implies n.type_ok(
            (#[trigger] n.funcs@[f].parameters@[j]).1,
        ) && n.funcs@[f].parameters@[j].0.0 < n.def_types@.len() by {
            lemma_poly_valid_grow(
                o.funcs@[f].parameters@[j].1,
                o.bindings.table@.len(),
                n.bindings.table@.len(),
            );
        }
        lemma_poly_valid_grow(
            o.funcs@[f].return_type,
            o.bindings.table@.len(),
            n.bindings.table@.len(),
        );
    }
    assert forall|d: int| 0 <= d < n.def_types@.len() implies #[trigger] n.def_type_ok(d) by {
        assert(o.def_type_ok(d));
        if n.def_types@[d] == o.def_types@[d] {
            match o.def_types@[d] {
                Some(t) => {
                    lemma_poly_valid_grow(
                        t,
                        o.bindings.table@.len(),
                        n.bindings.table@.len(),
                    );
                },
                None => {},
            }
        }
    }
}

/// Typedness of a subtree survives an evolution step: types are only
/// added, and a desugared call's children are the method call's
/// receiver and arguments over again.
pub proof fn lemma_evolves_subtree_typed(o: NodeInterner, n: NodeInterner, top: int, i: int)
    requires
        o.wf(),
        n.wf(),
        evolves(o, n, top),
        0 <= i < o.exprs@.len(),
        o.subtree_typed(i),
    ensures
        n.subtree_typed(i),
    decreases i, 2int,
{
    lemma_evolves_children_typed(o, n, top, i);
}

/// Companion of [`lemma_evolves_subtree_typed`] for the children of a
/// node.
#[verifier::rlimit(100)]
pub proof fn lemma_evolves_children_typed(o: NodeInterner, n: NodeInterner, top: int, i: int)
    requires
        o.wf(),
        n.wf(),
        evolves(o, n, top),
        0 <= i < o.exprs@.len(),
        o.children_typed(i),
    ensures
        n.children_typed(i),
    decreases i, 1int,
{
    assert(o.expr_wf(i));
    assert(n.expr_wf(i));
    let oe = o.exprs@[i];
    let ne = n.exprs@[i];
    if ne == oe {
        match oe {
            HirExpression::Literal(lit) => {
                match lit {
                    HirLiteral::Array(contents) => {
                        assert forall|j: int| 0 <= j < contents@.len() implies n.subtree_typed(
                            (#[trigger] contents@[j]).0 as int,
                        ) by {
                            lemma_evolves_subtree_typed(o, n, top, contents@[j].0 as int);
                        }
                    },
                    _ => {},
                }
            },
            HirExpression::Infix { lhs, operator, rhs } => {
                lemma_evolves_subtree_typed(o, n, top, lhs.0 as int);
                lemma_evolves_subtree_typed(o, n, top, rhs.0 as int);
            },
            HirExpression::Index { collection, index } => {
                lemma_evolves_subtree_typed(o, n, top, collection.0 as int);
                lemma_evolves_subtree_typed(o, n, top, index.0 as int);
            },
            HirExpression::Call { func_id, arguments } => {
                assert forall|j: int| 0 <= j < arguments@.len() implies n.subtree_typed(
                    (#[trigger] arguments@[j]).0 as int,
                ) by {
                    lemma_evolves_subtree_typed(o, n, top, arguments@[j].0 as int);
                }
            },
            HirExpression::MethodCall { object, method, arguments } => {
                lemma_evolves_subtree_typed(o, n, top, object.0 as int);
                assert forall|j: int| 0 <= j < arguments@.len() implies n.subtree_typed(
                    (#[trigger] arguments@[j]).0 as int,
                ) by {
                    lemma_evolves_subtree_typed(o, n, top, arguments@[j].0 as int);
                }
            },
            HirExpression::Cast { lhs, target } => {
                lemma_evolves_subtree_typed(o, n, top, lhs.0 as int);
            },
            HirExpression::For { identifier, start_range, end_range, block } => {
                lemma_evolves_subtree_typed(o, n, top, start_range.0 as int);
                lemma_evolves_subtree_typed(o, n, top, end_range.0 as int);
                lemma_evolves_subtree_typed(o, n, top, block.0 as int);
            },
            HirExpression::Block(stmt_ids) => {
                assert forall|j: int| 0 <= j < stmt_ids@.len() implies n.stmt_subtree_typed(
                    (#[trigger] stmt_ids@[j]).0 as int,
                    i,
                ) by {
                    lemma_evolves_stmt_subtree_typed(o, n, top, stmt_ids@[j].0 as int, i);
                }
            },
            HirExpression::Prefix { operator, rhs } => {
                lemma_evolves_subtree_typed(o, n, top, rhs.0 as int);
            },
            HirExpression::If { condition, consequence, alternative } => {
                lemma_evolves_subtree_typed(o, n, top, condition.0 as int);
                lemma_evolves_subtree_typed(o, n, top, consequence.0 as int);
                match alternative {
                    Some(e2) => {
                        lemma_evolves_subtree_typed(o, n, top, e2.0 as int);
                    },
                    None => {},
                }
            },
            HirExpression::Constructor { type_id, fields } => {
                assert forall|j: int| 0 <= j < fields@.len() implies n.subtree_typed(
                    (#[trigger] fields@[j]).1.0 as int,
                ) by {
                    lemma_evolves_subtree_typed(o, n, top, fields@[j].1.0 as int);
                }
            },
            HirExpression::MemberAccess { lhs, rhs } => {
                lemma_evolves_subtree_typed(o, n, top, lhs.0 as int);
            },
            HirExpression::Tuple(elems) => {
                assert forall|j: int| 0 <= j < elems@.len() implies n.subtree_typed(
                    (#[trigger] elems@[j]).0 as int,
                ) by {
                    lemma_evolves_subtree_typed(o, n, top, elems@[j].0 as int);
                }
            },
            _ => {},
        }
    } else {
        assert(desugar_of(ne, oe));
        match oe {
            HirExpression::MethodCall { object, method, arguments } => {
                match ne {
                    HirExpression::Call { func_id, arguments: args2 } => {
                        assert forall|j: int| 0 <= j < args2@.len() implies n.subtree_typed(
                            (#[trigger] args2@[j]).0 as int,
                        ) by {
                            if j == 0 {
                                lemma_evolves_subtree_typed(o, n, top, object.0 as int);
                            } else {
                                assert(args2@[j] == arguments@[j - 1]);
                                lemma_evolves_subtree_typed(o, n, top, arguments@[j - 1].0 as int);
                            }
                        }
                    },
                    _ => {},
                }
            },
            _ => {},
        }
    }
}

/// Companion of [`lemma_evolves_subtree_typed`] for statements.
pub proof fn lemma_evolves_stmt_subtree_typed(
    o: NodeInterner,
    n: NodeInterner,
    top: int,
    s: int,
    bound: int,
)
    requires
        o.wf(),
        n.wf(),
        evolves(o, n, top),
        0 <= s < o.stmts@.len(),
        0 <= bound <= o.exprs@.len(),
        o.stmt_exprs_below(s, bound),
        o.stmt_subtree_typed(s, bound),
    ensures
        n.stmt_subtree_typed(s, bound),
    decreases bound, 0int,
{
    match o.stmts@[s] {
        HirStatement::Let { id, annotated, expression } => {
            lemma_poly_valid_grow(annotated, o.bindings.table@.len(), n.bindings.table@.len());
            lemma_evolves_subtree_typed(o, n, top, expression.0 as int);
        },
        HirStatement::Expression(e) => {
            lemma_evolves_subtree_typed(o, n, top, e.0 as int);
        },
        HirStatement::Semi(e) => {
            lemma_evolves_subtree_typed(o, n, top, e.0 as int);
        },
        HirStatement::Error => {},
    }
}

/// A node that carries a type has its whole subtree typed: the store's
/// invariant says a typed node's children are typed, and induction
/// carries it down.
pub proof fn lemma_typed_subtree(itn: NodeInterner, i: int)
    requires
        itn.wf(),
        0 <= i < itn.exprs@.len(),
        itn.expr_typed(i),
    ensures
        itn.subtree_typed(i),
    decreases i, 2int,
{
    assert(itn.typed_node_ok(i));
    lemma_typed_children(itn, i);
}

/// Companion of [`lemma_typed_subtree`] for the children of a node.
pub proof fn lemma_typed_children(itn: NodeInterner, i: int)
    requires
        itn.wf(),
        0 <= i < itn.exprs@.len(),
        itn.kids_typed(i),
    ensures
        itn.children_typed(i),
    decreases i, 1int,
{
    assert(itn.expr_wf(i));
    match itn.exprs@[i] {
        HirExpression::Literal(lit) => {
            match lit {
                HirLiteral::Array(contents) => {
                    assert forall|j: int| 0 <= j < contents@.len() implies itn.subtree_typed(
                        (#[trigger] contents@[j]).0 as int,
                    ) by {
                        assert(itn.typed_node_ok(contents@[j].0 as int));
                        lemma_typed_subtree(itn, contents@[j].0 as int);
                    }
                },
                _ => {},
            }
        },
        HirExpression::Infix { lhs, operator, rhs } => {
            assert(itn.typed_node_ok(lhs.0 as int));
            assert(itn.typed_node_ok(rhs.0 as int));
            lemma_typed_subtree(itn, lhs.0 as int);
            lemma_typed_subtree(itn, rhs.0 as int);
        },
        HirExpression::Index { collection, index } => {
            assert(itn.typed_node_ok(collection.0 as int));
            assert(itn.typed_node_ok(index.0 as int));
            lemma_typed_subtree(itn, collection.0 as int);
            lemma_typed_subtree(itn, index.0 as int);
        },
        HirExpression::Call { func_id, arguments } => {
            assert forall|j: int| 0 <= j < arguments@.len() implies itn.subtree_typed(
                (#[trigger] arguments@[j]).0 as int,
            ) by {
                assert(itn.typed_node_ok(arguments@[j].0 as int));
                lemma_typed_subtree(itn, arguments@[j].0 as int);
            }
        },
        HirExpression::MethodCall { object, method, arguments } => {
            assert(itn.typed_node_ok(object.0 as int));
            lemma_typed_subtree(itn, object.0 as int);
            assert forall|j: int| 0 <= j < arguments@.len() implies itn.subtree_typed(
                (#[trigger] arguments@[j]).0 as int,
            ) by {
                assert(itn.typed_node_ok(arguments@[j].0 as int));
                lemma_typed_subtree(itn, arguments@[j].0 as int);
            }
        },
        HirExpression::Cast { lhs, target } => {
            assert(itn.typed_node_ok(lhs.0 as int));
            lemma_typed_subtree(itn, lhs.0 as int);
        },
        HirExpression::For { identifier, start_range, end_range, block } => {
            assert(itn.typed_node_ok(start_range.0 as int));
            assert(itn.typed_node_ok(end_range.0 as int));
            assert(itn.typed_node_ok(block.0 as int));
            lemma_typed_subtree(itn, start_range.0 as int);
            lemma_typed_subtree(itn, end_range.0 as int);
            lemma_typed_subtree(itn, block.0 as int);
        },
        HirExpression::Block(stmt_ids) => {
            assert forall|j: int| 0 <= j < stmt_ids@.len() implies itn.stmt_subtree_typed(
                (#[trigger] stmt_ids@[j]).0 as int,
                i,
            ) by {
                lemma_typed_stmt_subtree(itn, stmt_ids@[j].0 as int, i);
            }
        },
        HirExpression::Prefix { operator, rhs } => {
            assert(itn.typed_node_ok(rhs.0 as int));
            lemma_typed_subtree(itn, rhs.0 as int);
        },
        HirExpression::If { condition, consequence, alternative } => {
            assert(itn.typed_node_ok(condition.0 as int));
            assert(itn.typed_node_ok(consequence.0 as int));
            lemma_typed_subtree(itn, condition.0 as int);
            lemma_typed_subtree(itn, consequence.0 as int);
            match alternative {
                Some(e2) => {
                    assert(itn.typed_node_ok(e2.0 as int));
                    lemma_typed_subtree(itn, e2.0 as int);
                },
                None => {},
            }
        },
        HirExpression::Constructor { type_id, fields } => {
            assert forall|j: int| 0 <= j < fields@.len() implies itn.subtree_typed(
                (#[trigger] fields@[j]).1.0 as int,
            ) by {
                assert(itn.typed_node_ok(fields@[j].1.0 as int));
                lemma_typed_subtree(itn, fields@[j].1.0 as int);
            }
        },
        HirExpression::MemberAccess { lhs, rhs } => {
            assert(itn.typed_node_ok(lhs.0 as int));
            lemma_typed_subtree(itn, lhs.0 as int);
        },
        HirExpression::Tuple(elems) => {
            assert forall|j: int| 0 <= j < elems@.len() implies itn.subtree_typed(
                (#[trigger] elems@[j]).0 as int,
            ) by {
                assert(itn.typed_node_ok(elems@[j].0 as int));
                lemma_typed_subtree(itn, elems@[j].0 as int);
            }
        },
        _ => {},
    }
}

/// Companion of [`lemma_typed_subtree`] for statements.
pub proof fn lemma_typed_stmt_subtree(itn: NodeInterner, s: int, bound: int)
    requires
        itn.wf(),
        0 <= s < itn.stmts@.len(),
        itn.stmt_kids_typed(s),
        0 <= bound <= itn.exprs@.len(),
    ensures
        itn.stmt_subtree_typed(s, bound),
    decreases bound, 0int,
{
    match itn.stmts@[s] {
        HirStatement::Let { id, annotated, expression } => {
            if expression.0 < bound {
                assert(itn.typed_node_ok(expression.0 as int));
                lemma_typed_subtree(itn, expression.0 as int);
            }
        },
        HirStatement::Expression(e) => {
            if e.0 < bound {
                assert(itn.typed_node_ok(e.0 as int));
                lemma_typed_subtree(itn, e.0 as int);
            }
        },
        HirStatement::Semi(e) => {
            if e.0 < bound {
                assert(itn.typed_node_ok(e.0 as int));
                lemma_typed_subtree(itn, e.0 as int);
            }
        },
        HirStatement::Error => {},
    }
}

/// The children of a fully checked subtree carry types: the one-level
/// view of [`NodeInterner::children_typed`].
pub proof fn lemma_children_typed_kids(itn: NodeInterner, i: int)
    requires
        itn.wf(),
        0 <= i < itn.exprs@.len(),
        itn.children_typed(i),
    ensures
        itn.kids_typed(i),
{
    assert(itn.expr_wf(i));
    match itn.exprs@[i] {
        HirExpression::Block(stmt_ids) => {
            assert forall|j: int| 0 <= j < stmt_ids@.len() implies itn.stmt_kids_typed(
                (#[trigger] stmt_ids@[j]).0 as int,
            ) by {
                let s = stmt_ids@[j].0 as int;
                assert(itn.stmt_exprs_below(s, i));
                assert(itn.stmt_subtree_typed(s, i));
            }
        },
        _ => {},
    }
}

/// `evolves` composes, under any ceiling at or above both steps'.
pub proof fn lemma_evolves_trans(a: NodeInterner, b: NodeInterner, c: NodeInterner, t1: int, t2: int, t: int)
    requires
        evolves(a, b, t1),
        evolves(b, c, t2),
        t1 <= t,
        t2 <= t,
    ensures
        evolves(a, c, t),
{
    assert forall|j: int| 0 <= j < a.exprs@.len() implies #[trigger] c.exprs@[j] == a.exprs@[j] || (
    j <= t && desugar_of(c.exprs@[j], a.exprs@[j])) by {
        assert(b.exprs@[j] == a.exprs@[j] || (j <= t1 && desugar_of(b.exprs@[j], a.exprs@[j])));
        assert(c.exprs@[j] == b.exprs@[j] || (j <= t2 && desugar_of(c.exprs@[j], b.exprs@[j])));
    }
}

} // verus!
