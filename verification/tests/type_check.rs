//! End-to-end checks of the type checker on small programs, plus direct
//! checks of the rule tables and the gadget input assembly.

use noirc_frontend::check::check_crate;
use noirc_frontend::errors::ErrContext;
use noirc_frontend::errors::ErrorKind;
use noirc_frontend::errors::ErrorMessage;
use noirc_frontend::errors::ExpectedType;
use noirc_frontend::errors::Place;
use noirc_frontend::expr::check_cast;
use noirc_frontend::expr::comparator_operand_type_rules;
use noirc_frontend::expr::field_type_rules;
use noirc_frontend::expr::infix_operand_type_rules;
use noirc_frontend::expr::parse_index;
use noirc_frontend::expr::prefix_operand_type_rules;
use noirc_frontend::expr::type_check_expression;
use noirc_frontend::hir::BinaryOpKind;
use noirc_frontend::hir::DefinitionId;
use noirc_frontend::hir::ExprId;
use noirc_frontend::hir::FuncId;
use noirc_frontend::hir::HirBinaryOp;
use noirc_frontend::hir::HirExpression;
use noirc_frontend::hir::HirLiteral;
use noirc_frontend::hir::HirStatement;
use noirc_frontend::hir::HirUnaryOp;
use noirc_frontend::hir::StmtId;
use noirc_frontend::merkle_membership::GadgetInput;
use noirc_frontend::merkle_membership::MerkleMembershipGadget;
use noirc_frontend::merkle_membership::Opcode;
use noirc_frontend::merkle_membership::Witness;
use noirc_frontend::node_interner::FuncMeta;
use noirc_frontend::node_interner::NodeInterner;
use noirc_frontend::node_interner::Param;
use noirc_frontend::node_interner::StructDef;
use noirc_frontend::span::Span;
use noirc_frontend::types::ArraySize;
use noirc_frontend::types::FieldElementType;
use noirc_frontend::types::Signedness;
use noirc_frontend::types::StructId;
use noirc_frontend::types::Type;
use noirc_frontend::types::TypeBinding;
use noirc_frontend::types::TypeBindings;
use noirc_frontend::types::TypeList;

fn new_interner() -> NodeInterner {
    NodeInterner {
        exprs: Vec::new(),
        expr_types: Vec::new(),
        expr_spans: Vec::new(),
        stmts: Vec::new(),
        funcs: Vec::new(),
        structs: Vec::new(),
        def_types: Vec::new(),
        def_spans: Vec::new(),
        bindings: TypeBindings::new(),
    }
}

fn push_expr(itn: &mut NodeInterner, e: HirExpression) -> ExprId {
    itn.exprs.push(e);
    itn.expr_types.push(None);
    itn.expr_spans.push(Span { start: 0, end: 0 });
    ExprId(itn.exprs.len() - 1)
}

fn push_stmt(itn: &mut NodeInterner, s: HirStatement) -> StmtId {
    itn.stmts.push(s);
    StmtId(itn.stmts.len() - 1)
}

fn push_def(itn: &mut NodeInterner, t: Option<Type>) -> DefinitionId {
    itn.def_types.push(t);
    itn.def_spans.push(Span { start: 0, end: 0 });
    DefinitionId(itn.def_types.len() - 1)
}

fn field(vis: FieldElementType) -> Type {
    Type::FieldElement(vis)
}

fn uint(width: u32) -> Type {
    Type::Integer(FieldElementType::Private, Signedness::Unsigned, width)
}

fn op(kind: BinaryOpKind) -> HirBinaryOp {
    HirBinaryOp { kind, span: Span { start: 0, end: 0 } }
}

#[test]
fn scenario_field_plus_literal() {
    // let x: Field = 3; let y = x + 1; — `1` unifies with the field, no faults.
    let mut itn = new_interner();
    let x = push_def(&mut itn, None);
    let y = push_def(&mut itn, None);
    let three = push_expr(&mut itn, HirExpression::Literal(HirLiteral::Integer(3)));
    let x_id = push_expr(&mut itn, HirExpression::Ident(x));
    let one = push_expr(&mut itn, HirExpression::Literal(HirLiteral::Integer(1)));
    let sum = push_expr(
        &mut itn,
        HirExpression::Infix { lhs: x_id, operator: op(BinaryOpKind::Add), rhs: one },
    );
    let s0 = push_stmt(
        &mut itn,
        HirStatement::Let { id: x, annotated: field(FieldElementType::Private), expression: three },
    );
    let s1 = push_stmt(
        &mut itn,
        HirStatement::Let { id: y, annotated: Type::Unspecified, expression: sum },
    );
    let block = push_expr(&mut itn, HirExpression::Block(vec![s0, s1]));
    let mut errors = Vec::new();
    let t = type_check_expression(&mut itn, &block, &mut errors);
    assert!(errors.is_empty());
    assert_eq!(t, Type::Unit);
    assert_eq!(itn.expr_types[sum.0], Some(field(FieldElementType::Private)));
    assert_eq!(itn.def_types[y.0], Some(field(FieldElementType::Private)));
}

#[test]
fn scenario_bit_width_mismatch() {
    // let a: u32 = 1; let b: u64 = 2; let c = a + b; — one width fault, c is Error.
    let mut itn = new_interner();
    let a = push_def(&mut itn, None);
    let b = push_def(&mut itn, None);
    let c = push_def(&mut itn, None);
    let lit1 = push_expr(&mut itn, HirExpression::Literal(HirLiteral::Integer(1)));
    let lit2 = push_expr(&mut itn, HirExpression::Literal(HirLiteral::Integer(2)));
    let a_id = push_expr(&mut itn, HirExpression::Ident(a));
    let b_id = push_expr(&mut itn, HirExpression::Ident(b));
    let sum = push_expr(
        &mut itn,
        HirExpression::Infix { lhs: a_id, operator: op(BinaryOpKind::Add), rhs: b_id },
    );
    let s0 = push_stmt(&mut itn, HirStatement::Let { id: a, annotated: uint(32), expression: lit1 });
    let s1 = push_stmt(&mut itn, HirStatement::Let { id: b, annotated: uint(64), expression: lit2 });
    let s2 = push_stmt(
        &mut itn,
        HirStatement::Let { id: c, annotated: Type::Unspecified, expression: sum },
    );
    let block = push_expr(&mut itn, HirExpression::Block(vec![s0, s1, s2]));
    let mut errors = Vec::new();
    type_check_expression(&mut itn, &block, &mut errors);
    assert_eq!(errors.len(), 1);
    assert_eq!(
        errors[0].kind,
        ErrorKind::Unstructured {
            msg: ErrorMessage::BitWidthMismatch { lhs: 32, rhs: 64 },
            span: Span { start: 0, end: 0 },
        },
    );
    assert_eq!(itn.def_types[c.0], Some(Type::Error));
}

#[test]
fn scenario_non_homogeneous_array() {
    // [1, 2, true] — one fault, first index 0 and second index 3.
    let mut itn = new_interner();
    let e1 = push_expr(&mut itn, HirExpression::Literal(HirLiteral::Integer(1)));
    let e2 = push_expr(&mut itn, HirExpression::Literal(HirLiteral::Integer(2)));
    let e3 = push_expr(&mut itn, HirExpression::Literal(HirLiteral::Bool(true)));
    let arr = push_expr(&mut itn, HirExpression::Literal(HirLiteral::Array(vec![e1, e2, e3])));
    let mut errors = Vec::new();
    let t = type_check_expression(&mut itn, &arr, &mut errors);
    assert_eq!(errors.len(), 1);
    match &errors[0].kind {
        ErrorKind::NonHomogeneousArray { first_index, second_index, second_type, .. } => {
            assert_eq!(*first_index, 0);
            assert_eq!(*second_index, 3);
            assert_eq!(*second_type, Type::Bool);
        },
        other => panic!("unexpected diagnostic {other:?}"),
    }
    assert_eq!(errors[0].context, Some(ErrContext::ArrayElementsMustMatch));
    match t {
        Type::Array(FieldElementType::Private, ArraySize::Fixed(3), _) => {},
        other => panic!("unexpected array type {other:?}"),
    }
    // the two integer literals share one variable: the younger is bound
    assert!(matches!(itn.expr_types[e1.0], Some(Type::PolymorphicInteger(_))));
    assert!(matches!(itn.bindings.table[1], TypeBinding::Bound(_)));
}

#[test]
fn scenario_for_range_not_const() {
    // for i in 0..n with n a private field — the bound cannot be used there.
    let mut itn = new_interner();
    let n = push_def(&mut itn, Some(field(FieldElementType::Private)));
    let i = push_def(&mut itn, None);
    let zero = push_expr(&mut itn, HirExpression::Literal(HirLiteral::Integer(0)));
    let n_id = push_expr(&mut itn, HirExpression::Ident(n));
    let body = push_expr(&mut itn, HirExpression::Block(vec![]));
    let for_e = push_expr(
        &mut itn,
        HirExpression::For { identifier: i, start_range: zero, end_range: n_id, block: body },
    );
    let mut errors = Vec::new();
    let t = type_check_expression(&mut itn, &for_e, &mut errors);
    assert_eq!(errors.len(), 2);
    assert_eq!(
        errors[0].kind,
        ErrorKind::TypeCannotBeUsed {
            typ: field(FieldElementType::Private),
            place: Place::ForLoop,
            span: Span { start: 0, end: 0 },
        },
    );
    assert_eq!(errors[0].context, Some(ErrContext::LoopRangeMustBeConst));
    assert!(matches!(
        errors[1].kind,
        ErrorKind::Unstructured { msg: ErrorMessage::RangeMismatch { .. }, .. },
    ));
    // the body was still checked
    assert_eq!(itn.expr_types[body.0], Some(Type::Unit));
    assert!(matches!(t, Type::Array(FieldElementType::Private, ArraySize::Variable, _)));
}

#[test]
fn scenario_non_const_index() {
    // arr[i] with arr: [Field; 4] and i a non-const field.
    let mut itn = new_interner();
    let arr = push_def(
        &mut itn,
        Some(Type::Array(
            FieldElementType::Private,
            ArraySize::Fixed(4),
            Box::new(field(FieldElementType::Private)),
        )),
    );
    let i = push_def(&mut itn, Some(field(FieldElementType::Private)));
    let i_id = push_expr(&mut itn, HirExpression::Ident(i));
    let arr_id = push_expr(&mut itn, HirExpression::Ident(arr));
    let idx = push_expr(&mut itn, HirExpression::Index { collection: arr_id, index: i_id });
    let mut errors = Vec::new();
    let t = type_check_expression(&mut itn, &idx, &mut errors);
    assert_eq!(errors.len(), 1);
    assert_eq!(
        errors[0].kind,
        ErrorKind::Unstructured {
            msg: ErrorMessage::NonConstIndex { typ: field(FieldElementType::Private) },
            span: Span { start: 0, end: 0 },
        },
    );
    assert_eq!(t, field(FieldElementType::Private));
}

#[test]
fn scenario_constructor_reorders_fields() {
    // struct S { a: Field, b: u32 }; S { b: 1, a: x } with x: Field.
    let mut itn = new_interner();
    itn.structs.push(StructDef {
        name: b"S".to_vec(),
        fields: vec![
            (b"a".to_vec(), field(FieldElementType::Private)),
            (b"b".to_vec(), uint(32)),
        ],
        methods: vec![],
    });
    let x = push_def(&mut itn, Some(field(FieldElementType::Private)));
    let one = push_expr(&mut itn, HirExpression::Literal(HirLiteral::Integer(1)));
    let x_id = push_expr(&mut itn, HirExpression::Ident(x));
    let cons = push_expr(
        &mut itn,
        HirExpression::Constructor {
            type_id: StructId(0),
            fields: vec![(b"b".to_vec(), one), (b"a".to_vec(), x_id)],
        },
    );
    let mut errors = Vec::new();
    let t = type_check_expression(&mut itn, &cons, &mut errors);
    assert!(errors.is_empty(), "unexpected diagnostics {errors:?}");
    assert_eq!(t, Type::Struct(FieldElementType::Private, StructId(0)));
}

#[test]
fn method_call_desugars() {
    // o.m() — after checking, the node is a plain call with the receiver first.
    let mut itn = new_interner();
    let body = push_expr(&mut itn, HirExpression::Literal(HirLiteral::Bool(true)));
    let self_def = push_def(&mut itn, None);
    itn.structs.push(StructDef {
        name: b"S".to_vec(),
        fields: vec![],
        methods: vec![(b"m".to_vec(), FuncId(0))],
    });
    itn.funcs.push(FuncMeta {
        parameters: vec![Param(self_def, Type::Struct(FieldElementType::Private, StructId(0)))],
        return_type: field(FieldElementType::Private),
        body,
    });
    let o = push_def(&mut itn, Some(Type::Struct(FieldElementType::Private, StructId(0))));
    let o_id = push_expr(&mut itn, HirExpression::Ident(o));
    let call = push_expr(
        &mut itn,
        HirExpression::MethodCall { object: o_id, method: b"m".to_vec(), arguments: vec![] },
    );
    let mut errors = Vec::new();
    let t = type_check_expression(&mut itn, &call, &mut errors);
    assert!(errors.is_empty(), "unexpected diagnostics {errors:?}");
    assert_eq!(t, field(FieldElementType::Private));
    assert_eq!(
        itn.exprs[call.0],
        HirExpression::Call { func_id: FuncId(0), arguments: vec![o_id] },
    );
}

#[test]
fn two_independent_errors_two_diagnostics() {
    // !x with x a field, and u + b with u an integer and b a bool:
    // two faults, two diagnostics.
    let mut itn = new_interner();
    let x = push_def(&mut itn, Some(field(FieldElementType::Private)));
    let u = push_def(&mut itn, Some(uint(32)));
    let b = push_def(&mut itn, Some(Type::Bool));
    let x_id = push_expr(&mut itn, HirExpression::Ident(x));
    let not_x = push_expr(&mut itn, HirExpression::Prefix { operator: HirUnaryOp::Not, rhs: x_id });
    let u_id = push_expr(&mut itn, HirExpression::Ident(u));
    let b_id = push_expr(&mut itn, HirExpression::Ident(b));
    let bad_sum = push_expr(
        &mut itn,
        HirExpression::Infix { lhs: u_id, operator: op(BinaryOpKind::Add), rhs: b_id },
    );
    let s0 = push_stmt(&mut itn, HirStatement::Semi(not_x));
    let s1 = push_stmt(&mut itn, HirStatement::Semi(bad_sum));
    let block = push_expr(&mut itn, HirExpression::Block(vec![s0, s1]));
    let mut errors = Vec::new();
    type_check_expression(&mut itn, &block, &mut errors);
    assert_eq!(errors.len(), 2);
    assert!(matches!(
        errors[1].kind,
        ErrorKind::Unstructured { msg: ErrorMessage::IntegerWithType { .. }, .. },
    ));
    // every node still received a type
    for (i, t) in itn.expr_types.iter().enumerate() {
        assert!(t.is_some(), "expression {i} left untyped");
    }
}

#[test]
fn infix_binds_literal_to_bool() {
    // In an operation a free integer variable may bind to Bool — the
    // operand rules are wider than the unifier there.
    let mut itn = new_interner();
    let v = itn.bindings.fresh();
    let poly = Type::PolymorphicInteger(v);
    let r = infix_operand_type_rules(&poly, &op(BinaryOpKind::And), &Type::Bool, &mut itn.bindings);
    assert_eq!(r, Ok(Type::Bool));
    assert_eq!(itn.bindings.table[v.0], TypeBinding::Bound(Type::Bool));
}

#[test]
fn check_crate_types_every_function_body() {
    let mut itn = new_interner();
    let p = push_def(&mut itn, None);
    let p_id = push_expr(&mut itn, HirExpression::Ident(p));
    itn.funcs.push(FuncMeta {
        parameters: vec![Param(p, field(FieldElementType::Private))],
        return_type: field(FieldElementType::Private),
        body: p_id,
    });
    let errors = check_crate(&mut itn);
    assert!(errors.is_empty());
    assert_eq!(itn.expr_types[p_id.0], Some(field(FieldElementType::Private)));
}

#[test]
fn field_type_rules_full_table() {
    let pr = FieldElementType::Private;
    let pu = FieldElementType::Public;
    let co = FieldElementType::Constant;
    assert_eq!(field_type_rules(&pr, &pr), pr);
    assert_eq!(field_type_rules(&pr, &pu), pr);
    assert_eq!(field_type_rules(&pr, &co), pr);
    assert_eq!(field_type_rules(&pu, &pr), pr);
    assert_eq!(field_type_rules(&pu, &pu), pu);
    assert_eq!(field_type_rules(&pu, &co), pu);
    assert_eq!(field_type_rules(&co, &pr), pr);
    assert_eq!(field_type_rules(&co, &pu), pu);
    assert_eq!(field_type_rules(&co, &co), co);
}

#[test]
fn infix_rules_symmetric_on_concrete_operands() {
    let mut b1 = TypeBindings::new();
    let mut b2 = TypeBindings::new();
    let l = field(FieldElementType::Public);
    let r = field(FieldElementType::Public);
    let one = infix_operand_type_rules(&l, &op(BinaryOpKind::Add), &r, &mut b1);
    let two = infix_operand_type_rules(&r, &op(BinaryOpKind::Add), &l, &mut b2);
    // two publics meet as a private witness, whichever side each stands on
    assert_eq!(one, Ok(field(FieldElementType::Private)));
    assert_eq!(one, two);
}

#[test]
fn comparator_rules_on_integers() {
    let mut b = TypeBindings::new();
    assert_eq!(comparator_operand_type_rules(&uint(32), &uint(32), &mut b), Ok(Type::Bool));
    assert_eq!(
        comparator_operand_type_rules(&uint(32), &field(FieldElementType::Private), &mut b),
        Err(ErrorMessage::IntegerAndWitness),
    );
}

#[test]
fn prefix_rules() {
    assert_eq!(
        prefix_operand_type_rules(&HirUnaryOp::Minus, &uint(8)),
        Ok(uint(8)),
    );
    assert_eq!(
        prefix_operand_type_rules(&HirUnaryOp::Minus, &Type::Bool),
        Err(ErrorMessage::MinusRequiresInteger),
    );
    assert_eq!(prefix_operand_type_rules(&HirUnaryOp::Not, &Type::Bool), Ok(Type::Bool));
}

#[test]
fn cast_constant_source_stays_constant() {
    let bindings = TypeBindings::new();
    let mut errors = Vec::new();
    let from = Type::Integer(FieldElementType::Constant, Signedness::Unsigned, 32);
    let to = field(FieldElementType::Private);
    let t = check_cast(&from, to, Span { start: 0, end: 0 }, &mut errors, &bindings);
    assert!(errors.is_empty());
    assert_eq!(t, field(FieldElementType::Constant));
}

#[test]
fn cast_from_struct_is_refused() {
    let bindings = TypeBindings::new();
    let mut errors = Vec::new();
    let from = Type::Struct(FieldElementType::Private, StructId(0));
    let t = check_cast(&from, uint(8), Span { start: 0, end: 0 }, &mut errors, &bindings);
    assert_eq!(t, Type::Error);
    assert_eq!(errors.len(), 1);
    assert!(matches!(
        errors[0].kind,
        ErrorKind::Unstructured { msg: ErrorMessage::CastFromNonPrimitive { .. }, .. },
    ));
}

#[test]
fn unify_binds_literal_to_constant_field() {
    let mut itn = new_interner();
    let v = itn.bindings.fresh();
    let poly = Type::PolymorphicInteger(v);
    let ok = poly.unify(&Type::Constant, &mut itn.bindings);
    assert!(ok);
    assert_eq!(
        itn.bindings.table[v.0],
        TypeBinding::Bound(field(FieldElementType::Constant)),
    );
}

#[test]
fn tuple_member_access_by_numeral() {
    let mut itn = new_interner();
    let tup = push_def(
        &mut itn,
        Some(Type::Tuple(TypeList::Cons(
            Box::new(field(FieldElementType::Private)),
            Box::new(TypeList::Cons(Box::new(Type::Bool), Box::new(TypeList::Nil))),
        ))),
    );
    let t_id = push_expr(&mut itn, HirExpression::Ident(tup));
    let access = push_expr(
        &mut itn,
        HirExpression::MemberAccess { lhs: t_id, rhs: b"1".to_vec() },
    );
    let mut errors = Vec::new();
    let t = type_check_expression(&mut itn, &access, &mut errors);
    assert!(errors.is_empty());
    assert_eq!(t, Type::Bool);
}

#[test]
fn member_access_unknown_name() {
    let mut itn = new_interner();
    let b = push_def(&mut itn, Some(Type::Bool));
    let b_id = push_expr(&mut itn, HirExpression::Ident(b));
    let access = push_expr(
        &mut itn,
        HirExpression::MemberAccess { lhs: b_id, rhs: b"x".to_vec() },
    );
    let mut errors = Vec::new();
    let t = type_check_expression(&mut itn, &access, &mut errors);
    assert_eq!(t, Type::Error);
    assert_eq!(errors.len(), 1);
    assert!(matches!(
        errors[0].kind,
        ErrorKind::Unstructured { msg: ErrorMessage::NoMember { .. }, .. },
    ));
}

#[test]
fn if_without_else_is_unit() {
    let mut itn = new_interner();
    let c = push_expr(&mut itn, HirExpression::Literal(HirLiteral::Bool(true)));
    let one = push_expr(&mut itn, HirExpression::Literal(HirLiteral::Integer(1)));
    let if_e = push_expr(
        &mut itn,
        HirExpression::If { condition: c, consequence: one, alternative: None },
    );
    let mut errors = Vec::new();
    let t = type_check_expression(&mut itn, &if_e, &mut errors);
    assert!(errors.is_empty());
    assert_eq!(t, Type::Unit);
}

#[test]
fn if_branch_mismatch_hints_semicolon() {
    let mut itn = new_interner();
    let c = push_expr(&mut itn, HirExpression::Literal(HirLiteral::Bool(true)));
    let u = push_expr(&mut itn, HirExpression::Block(vec![]));
    let b = push_expr(&mut itn, HirExpression::Literal(HirLiteral::Bool(false)));
    let if_e = push_expr(
        &mut itn,
        HirExpression::If { condition: c, consequence: u, alternative: Some(b) },
    );
    let mut errors = Vec::new();
    let t = type_check_expression(&mut itn, &if_e, &mut errors);
    assert_eq!(t, Type::Unit);
    assert_eq!(errors.len(), 1);
    assert_eq!(errors[0].context, Some(ErrContext::MissingSemicolonInElse));
    assert!(matches!(
        errors[0].kind,
        ErrorKind::TypeMismatch { expected_typ: ExpectedType::Exact(Type::Unit), .. },
    ));
}

#[test]
fn arity_mismatch_is_reported() {
    let mut itn = new_interner();
    let body = push_expr(&mut itn, HirExpression::Literal(HirLiteral::Bool(true)));
    let p = push_def(&mut itn, None);
    itn.funcs.push(FuncMeta {
        parameters: vec![Param(p, field(FieldElementType::Private))],
        return_type: Type::Unit,
        body,
    });
    let call = push_expr(&mut itn, HirExpression::Call { func_id: FuncId(0), arguments: vec![] });
    let mut errors = Vec::new();
    let t = type_check_expression(&mut itn, &call, &mut errors);
    assert_eq!(t, Type::Unit);
    assert_eq!(errors.len(), 1);
    assert_eq!(
        errors[0].kind,
        ErrorKind::ArityMismatch { expected: 1, found: 0, span: Span { start: 0, end: 0 } },
    );
}

#[test]
fn string_literal_is_flagged_unimplemented() {
    let mut itn = new_interner();
    let s = push_expr(&mut itn, HirExpression::Literal(HirLiteral::Str(b"hi".to_vec())));
    let mut errors = Vec::new();
    let t = type_check_expression(&mut itn, &s, &mut errors);
    assert_eq!(t, Type::Error);
    assert_eq!(errors.len(), 1);
    assert!(matches!(
        errors[0].kind,
        ErrorKind::Unstructured { msg: ErrorMessage::StringLiteralsUnimplemented, .. },
    ));
}

#[test]
fn parse_index_reads_decimal() {
    assert_eq!(parse_index(&b"0".to_vec()), Some(0));
    assert_eq!(parse_index(&b"42".to_vec()), Some(42));
    assert_eq!(parse_index(&b"007".to_vec()), Some(7));
    assert_eq!(parse_index(&b"".to_vec()), None);
    assert_eq!(parse_index(&b"4a".to_vec()), None);
}

#[test]
fn merkle_membership_input_order() {
    let path = vec![
        GadgetInput { witness: Witness(7), num_bits: 254 },
        GadgetInput { witness: Witness(8), num_bits: 254 },
    ];
    let call = MerkleMembershipGadget::call(
        Witness(1),
        Witness(2),
        Witness(3),
        &path,
        254,
        Witness(9),
    );
    assert_eq!(call.name, Opcode::MerkleMembership);
    assert_eq!(call.inputs.len(), 5);
    assert_eq!(call.inputs[0], GadgetInput { witness: Witness(1), num_bits: 254 });
    assert_eq!(call.inputs[1], GadgetInput { witness: Witness(2), num_bits: 254 });
    assert_eq!(call.inputs[2], GadgetInput { witness: Witness(3), num_bits: 254 });
    assert_eq!(call.inputs[3], path[0]);
    assert_eq!(call.inputs[4], path[1]);
    assert_eq!(call.outputs, vec![Witness(9)]);
    assert_eq!(MerkleMembershipGadget::name(), Opcode::MerkleMembership);
}
