//! Shapes of expressions and statements as produced by the upstream
//! passes, addressed by opaque node identifiers.

use vstd::prelude::*;
use crate::types::Type;
use crate::types::StructId;

verus! {

/// Identifier of an expression node in the interner.
#[derive(Clone, Copy, PartialEq, Eq, Structural, Debug)]
pub struct ExprId(pub usize);

/// Identifier of a statement node in the interner.
#[derive(Clone, Copy, PartialEq, Eq, Structural, Debug)]
pub struct StmtId(pub usize);

/// Identifier of a function in the interner.
#[derive(Clone, Copy, PartialEq, Eq, Structural, Debug)]
pub struct FuncId(pub usize);

/// Identifier of a named definition (a let binding, a parameter, a loop
/// variable) in the interner.
#[derive(Clone, Copy, PartialEq, Eq, Structural, Debug)]
pub struct DefinitionId(pub usize);

impl FuncId {
    /// The sentinel id of a call that name resolution could not resolve;
    /// call checking yields `Error` for it without looking anything up.
    pub fn dummy_id() -> (r: FuncId)
        ensures
            r.0 == usize::MAX,
    {
        FuncId(usize::MAX)
    }
}

/// An identifier's text, as bytes of source.
pub type Name = Vec<u8>;

#[derive(Clone, Copy, PartialEq, Eq, Structural, Debug)]
pub enum BinaryOpKind {
    Add,
    Subtract,
    Multiply,
    Divide,
    Equal,
    NotEqual,
    Less,
    LessEqual,
    Greater,
    GreaterEqual,
    And,
    Or,
    Xor,
}

impl BinaryOpKind {
    /// The operators whose result is a boolean comparison.
    pub open spec fn spec_is_comparator(self) -> bool {
        match self {
            BinaryOpKind::Equal => true,
            BinaryOpKind::NotEqual => true,
            BinaryOpKind::Less => true,
            BinaryOpKind::LessEqual => true,
            BinaryOpKind::Greater => true,
            BinaryOpKind::GreaterEqual => true,
            _ => false,
        }
    }

    pub fn is_comparator(&self) -> (r: bool)
        ensures
            r == self.spec_is_comparator(),
    {
        matches!(
            self,
            BinaryOpKind::Equal | BinaryOpKind::NotEqual | BinaryOpKind::Less
                | BinaryOpKind::LessEqual | BinaryOpKind::Greater | BinaryOpKind::GreaterEqual,
        )
    }
}

use crate::span::Span;

#[derive(Clone, Copy, PartialEq, Eq, Structural, Debug)]
pub struct HirBinaryOp {
    pub kind: BinaryOpKind,
    pub span: Span,
}

#[derive(Clone, Copy, PartialEq, Eq, Structural, Debug)]
pub enum HirUnaryOp {
    Minus,
    Not,
}

/// A literal expression.  String literals are carried through by the
/// parser but have no type yet; the checker reports them as unsupported.
#[derive(PartialEq, Eq, Debug)]
pub enum HirLiteral {
    Array(Vec<ExprId>),
    Bool(bool),
    Integer(u128),
    Str(Name),
}

/// An expression shape.  Fields that name other nodes hold ids; the
/// interner owns every shape.
#[derive(PartialEq, Eq, Debug)]
pub enum HirExpression {
    Ident(DefinitionId),
    Literal(HirLiteral),
    Infix { lhs: ExprId, operator: HirBinaryOp, rhs: ExprId },
    Index { collection: ExprId, index: ExprId },
    Call { func_id: FuncId, arguments: Vec<ExprId> },
    MethodCall { object: ExprId, method: Name, arguments: Vec<ExprId> },
    Cast { lhs: ExprId, target: Type },
    For { identifier: DefinitionId, start_range: ExprId, end_range: ExprId, block: ExprId },
    Block(Vec<StmtId>),
    Prefix { operator: HirUnaryOp, rhs: ExprId },
    If { condition: ExprId, consequence: ExprId, alternative: Option<ExprId> },
    Constructor { type_id: StructId, fields: Vec<(Name, ExprId)> },
    MemberAccess { lhs: ExprId, rhs: Name },
    Tuple(Vec<ExprId>),
    Error,
}

/// A statement shape.
#[derive(PartialEq, Eq, Debug)]
pub enum HirStatement {
    /// `let <id> [: annotated] = <expression>;` — `annotated` is
    /// `Type::Unspecified` when the binding carries no annotation.
    Let { id: DefinitionId, annotated: Type, expression: ExprId },
    /// A trailing expression, whose value is the statement's value.
    Expression(ExprId),
    /// An expression followed by a semicolon; its value is dropped.
    Semi(ExprId),
    Error,
}

/// Two literal shapes carry the same data.
pub open spec fn lit_matches(a: HirLiteral, b: HirLiteral) -> bool {
    match (a, b) {
        (HirLiteral::Array(c1), HirLiteral::Array(c2)) => c1@ == c2@,
        (HirLiteral::Bool(b1), HirLiteral::Bool(b2)) => b1 == b2,
        (HirLiteral::Integer(i1), HirLiteral::Integer(i2)) => i1 == i2,
        (HirLiteral::Str(s1), HirLiteral::Str(s2)) => s1@ == s2@,
        _ => false,
    }
}

/// Two constructor field lists carry the same names and ids.
pub open spec fn fields_match(x: Seq<(Name, ExprId)>, y: Seq<(Name, ExprId)>) -> bool {
    x.len() == y.len() && forall|j: int|
        0 <= j < x.len() ==> (#[trigger] x[j]).0@ == y[j].0@ && x[j].1 == y[j].1
}

/// Two expression shapes carry the same data: the same variant, the same
/// node ids, names spelled the same.
pub open spec fn expr_matches(a: HirExpression, b: HirExpression) -> bool {
    match (a, b) {
        (HirExpression::Ident(d1), HirExpression::Ident(d2)) => d1 == d2,
        (HirExpression::Literal(l1), HirExpression::Literal(l2)) => lit_matches(l1, l2),
        (
            HirExpression::Infix { lhs: l1, operator: o1, rhs: r1 },
            HirExpression::Infix { lhs: l2, operator: o2, rhs: r2 },
        ) => l1 == l2 && o1 == o2 && r1 == r2,
        (
            HirExpression::Index { collection: c1, index: i1 },
            HirExpression::Index { collection: c2, index: i2 },
        ) => c1 == c2 && i1 == i2,
        (
            HirExpression::Call { func_id: f1, arguments: a1 },
            HirExpression::Call { func_id: f2, arguments: a2 },
        ) => f1 == f2 && a1@ == a2@,
        (
            HirExpression::MethodCall { object: o1, method: m1, arguments: a1 },
            HirExpression::MethodCall { object: o2, method: m2, arguments: a2 },
        ) => o1 == o2 && m1@ == m2@ && a1@ == a2@,
        (
            HirExpression::Cast { lhs: l1, target: t1 },
            HirExpression::Cast { lhs: l2, target: t2 },
        ) => l1 == l2 && t1 == t2,
        (
            HirExpression::For { identifier: d1, start_range: s1, end_range: e1, block: b1 },
            HirExpression::For { identifier: d2, start_range: s2, end_range: e2, block: b2 },
        ) => d1 == d2 && s1 == s2 && e1 == e2 && b1 == b2,
        (HirExpression::Block(s1), HirExpression::Block(s2)) => s1@ == s2@,
        (
            HirExpression::Prefix { operator: o1, rhs: r1 },
            HirExpression::Prefix { operator: o2, rhs: r2 },
        ) => o1 == o2 && r1 == r2,
        (
            HirExpression::If { condition: c1, consequence: q1, alternative: a1 },
            HirExpression::If { condition: c2, consequence: q2, alternative: a2 },
        ) => c1 == c2 && q1 == q2 && a1 == a2,
        (
            HirExpression::Constructor { type_id: t1, fields: f1 },
            HirExpression::Constructor { type_id: t2, fields: f2 },
        ) => t1 == t2 && fields_match(f1@, f2@),
        (
            HirExpression::MemberAccess { lhs: l1, rhs: r1 },
            HirExpression::MemberAccess { lhs: l2, rhs: r2 },
        ) => l1 == l2 && r1@ == r2@,
        (HirExpression::Tuple(e1), HirExpression::Tuple(e2)) => e1@ == e2@,
        (HirExpression::Error, HirExpression::Error) => true,
        _ => false,
    }
}

/// The shape that method-call desugaring writes in place of `old_e`: a
/// plain call whose first argument is the receiver, followed by the
/// original arguments.
pub open spec fn desugar_of(new_e: HirExpression, old_e: HirExpression) -> bool {
    match (new_e, old_e) {
        (
            HirExpression::Call { func_id: _, arguments },
            HirExpression::MethodCall { object, method: _, arguments: margs },
        ) => arguments@.len() == margs@.len() + 1 && arguments@[0] == object && (forall|j: int|
            1 <= j < arguments@.len() ==> arguments@[j] == margs@[j - 1]),
        _ => false,
    }
}

/// Build the function call that a checked method call desugars to.
pub fn make_function_call(object: ExprId, arguments: &Vec<ExprId>, func_id: FuncId) -> (r:
    HirExpression)
    ensures
        r matches HirExpression::Call { func_id: f, arguments: a } && f == func_id && a@
            == seq![object] + arguments@,
{
    let mut args: Vec<ExprId> = Vec::new();
    args.push(object);
    let mut i: usize = 0;
    while i < arguments.len()
        invariant
            i <= arguments@.len(),
            args@ == seq![object] + arguments@.subrange(0, i as int),
        decreases arguments@.len() - i,
    {
        args.push(arguments[i]);
        i = i + 1;
        proof {
            assert(args@ =~= seq![object] + arguments@.subrange(0, i as int));
        }
    }
    proof {
        assert(args@ =~= seq![object] + arguments@);
    }
    HirExpression::Call { func_id, arguments: args }
}

/// Byte-for-byte copy of an id list.
pub fn copy_expr_ids(v: &Vec<ExprId>) -> (r: Vec<ExprId>)
    ensures
        r@ == v@,
{
    let mut r: Vec<ExprId> = Vec::new();
    let mut i: usize = 0;
    while i < v.len()
        invariant
            i <= v@.len(),
            r@ == v@.subrange(0, i as int),
        decreases v@.len() - i,
    {
        r.push(v[i]);
        i = i + 1;
        proof {
            assert(r@ =~= v@.subrange(0, i as int));
        }
    }
    proof {
        assert(r@ =~= v@);
    }
    r
}

/// Byte-for-byte copy of a name.
pub fn copy_name(v: &Name) -> (r: Name)
    ensures
        r@ == v@,
{
    let mut r: Name = Vec::new();
    let mut i: usize = 0;
    while i < v.len()
        invariant
            i <= v@.len(),
            r@ == v@.subrange(0, i as int),
        decreases v@.len() - i,
    {
        r.push(v[i]);
        i = i + 1;
        proof {
            assert(r@ =~= v@.subrange(0, i as int));
        }
    }
    proof {
        assert(r@ =~= v@);
    }
    r
}

/// Byte-for-byte copy of a statement id list.
pub fn copy_stmt_ids(v: &Vec<StmtId>) -> (r: Vec<StmtId>)
    ensures
        r@ == v@,
{
    let mut r: Vec<StmtId> = Vec::new();
    let mut i: usize = 0;
    while i < v.len()
        invariant
            i <= v@.len(),
            r@ == v@.subrange(0, i as int),
        decreases v@.len() - i,
    {
        r.push(v[i]);
        i = i + 1;
        proof {
            assert(r@ =~= v@.subrange(0, i as int));
        }
    }
    proof {
        assert(r@ =~= v@);
    }
    r
}

/// Copy of a constructor field list, name for name and id for id.
pub fn copy_fields(v: &Vec<(Name, ExprId)>) -> (r: Vec<(Name, ExprId)>)
    ensures
        fields_match(r@, v@),
{
    let mut r: Vec<(Name, ExprId)> = Vec::new();
    let mut i: usize = 0;
    while i < v.len()
        invariant
            i <= v@.len(),
            r@.len() == i,
            forall|j: int| 0 <= j < i ==> (#[trigger] r@[j]).0@ == v@[j].0@ && r@[j].1 == v@[j].1,
        decreases v@.len() - i,
    {
        let entry = &v[i];
        let name = copy_name(&entry.0);
        r.push((name, entry.1));
        i = i + 1;
    }
    r
}

impl HirStatement {
    /// A deep copy, field for field the same statement.
    pub fn duplicate(&self) -> (r: HirStatement)
        ensures
            r == *self,
    {
        match self {
            HirStatement::Let { id, annotated, expression } => HirStatement::Let {
                id: *id,
                annotated: annotated.duplicate(),
                expression: *expression,
            },
            HirStatement::Expression(e) => HirStatement::Expression(*e),
            HirStatement::Semi(e) => HirStatement::Semi(*e),
            HirStatement::Error => HirStatement::Error,
        }
    }
}

/// Whether two names spell the same identifier.
pub fn name_eq(a: &Name, b: &Name) -> (r: bool)
    ensures
        r == (a@ == b@),
{
    if a.len() != b.len() {
        proof {
            assert(a@.len() != b@.len());
        }
        return false;
    }
    let mut i: usize = 0;
    while i < a.len()
        invariant
            i <= a@.len(),
            a@.len() == b@.len(),
            forall|j: int| 0 <= j < i ==> a@[j] == b@[j],
        decreases a@.len() - i,
    {
        if a[i] != b[i] {
            return false;
        }
        i = i + 1;
    }
    proof {
        assert(a@ =~= b@);
    }
    true
}

} // verus!
