use std::sync::Arc;

use bur::bytecode::op_code::{FloatConst, OpCode};
use bur::bytecode::BytecodeGenerationError;
use bur::parse_tree::decl::class::ClassDecl;
use bur::parse_tree::decl::function::{FunctionDecl, FunctionImpl};
use bur::parse_tree::decl::import::{
    DirectImport, FromImport, FromImportKind, FromInportValue, ImportDecl, ImportKind,
};
use bur::parse_tree::decl::variable::{VariableDecl, VariableImpl};
use bur::parse_tree::decl::{VariableList, VariableName};
use bur::parse_tree::expr::access::{AccessArm, AccessExpr, AccessKind};
use bur::parse_tree::expr::op::binary::{BinOpExpr, BinOpKind};
use bur::parse_tree::expr::op::unary::{UnaryOpExpr, UnaryOpKind};
use bur::parse_tree::expr::value::array::ArrayExpr;
use bur::parse_tree::expr::value::literal::{LiteralExpr, LiteralExprKind};
use bur::parse_tree::expr::value::object::{ObjectExpr, ObjectValue};
use bur::parse_tree::expr::{Expr, ExprKind};
use bur::parse_tree::stmt::control::{
    ConditionArm, ControlKind, ControlStmt, ForStmt, IfStmt, TryStmt, WhileStmt,
};
use bur::parse_tree::stmt::{Block, Stmt, StmtKind};
use bur::parse_tree::tree::ParseTree;
use bur::string::StringSlice;
use bur::tokenizer::token::Number;

fn sl(start: usize, end: usize) -> StringSlice {
    let src: Arc<str> = "0123456789012345678901234567890123456789".into();
    StringSlice { src, start, end }
}

fn lit(kind: LiteralExprKind) -> Expr {
    Expr { slice: sl(0, 1), kind: ExprKind::Literal(LiteralExpr { slice: sl(0, 1), kind }) }
}

fn num(value: i64) -> Expr {
    lit(LiteralExprKind::Number(Number::Integer(value)))
}

fn var(name: &str) -> Expr {
    lit(LiteralExprKind::Variable(name.to_string()))
}

fn binop(lhs: Expr, op: BinOpKind, rhs: Expr) -> Expr {
    Expr {
        slice: sl(0, 5),
        kind: ExprKind::BinOp(BinOpExpr { slice: sl(0, 5), lhs: Arc::new(lhs), op, rhs: Arc::new(rhs) }),
    }
}

fn access(base: Expr, arms: Vec<AccessKind>) -> Expr {
    let access = arms
        .into_iter()
        .enumerate()
        .map(|(i, kind)| AccessArm { slice: sl(10 + i, 11 + i), kind })
        .collect();
    Expr {
        slice: sl(0, 20),
        kind: ExprKind::Access(AccessExpr { slice: sl(0, 20), base: Arc::new(base), access }),
    }
}

fn expr_stmt(expr: Expr) -> Stmt {
    Stmt { slice: sl(0, 9), kind: StmtKind::Expr(expr) }
}

fn control(kind: ControlKind) -> Stmt {
    Stmt {
        slice: sl(0, 9),
        kind: StmtKind::Control(ControlStmt { slice: sl(0, 9), kind }),
    }
}

fn let_stmt(name: &str, init: Option<Expr>, is_const: bool, export: bool) -> Stmt {
    Stmt {
        slice: sl(0, 9),
        kind: StmtKind::Variable(VariableImpl {
            slice: sl(0, 9),
            decl: VariableDecl {
                slice: sl(0, 5),
                export,
                is_const,
                param: VariableName { slice: sl(4, 5), name: name.to_string(), ty: None },
            },
            init,
        }),
    }
}

fn block(stmts: Vec<Stmt>) -> Block {
    Block { slice: sl(0, 30), stmts }
}

fn tree(stmts: Vec<Stmt>) -> ParseTree {
    ParseTree { slice: sl(0, 40), imports: vec![], functions: vec![], classes: vec![], stmts }
}

fn plain(code: Vec<OpCode>) -> Vec<OpCode> {
    code.into_iter().filter(|op| !matches!(op, OpCode::SetSlice { .. })).collect()
}

fn lower_expr(expr: &Expr) -> Vec<OpCode> {
    let mut code = vec![];
    expr.generate_bytecode(&mut code).unwrap();
    plain(code)
}

fn lower_stmt(stmt: &Stmt, allow_export: bool, allow_break: bool) -> Result<Vec<OpCode>, BytecodeGenerationError> {
    let mut code = vec![];
    stmt.generate_bytecode(&mut code, allow_export, allow_break)?;
    Ok(code)
}

fn name(s: &str) -> String {
    s.to_string()
}

#[test]
fn let_with_sum_lowers_to_init_push_add_store_pop() {
    let t = tree(vec![let_stmt("x", Some(binop(num(1), BinOpKind::Add, num(2))), false, false)]);
    let mut code = vec![];
    t.generate_init_bytecode(&mut code).unwrap();
    assert_eq!(
        plain(code),
        vec![
            OpCode::InitVariable { name: name("x") },
            OpCode::PushConstInt { value: 1 },
            OpCode::PushConstInt { value: 2 },
            OpCode::OpAdd,
            OpCode::StoreVariable { name: name("x") },
            OpCode::Pop,
        ]
    );
}

#[test]
fn every_node_sets_its_slice_first() {
    let e = num(7);
    let mut code = vec![];
    e.generate_bytecode(&mut code).unwrap();
    assert_eq!(
        code,
        vec![
            OpCode::SetSlice { slice: sl(0, 1) },
            OpCode::SetSlice { slice: sl(0, 1) },
            OpCode::PushConstInt { value: 7 },
        ]
    );
    let s = lower_stmt(&expr_stmt(num(7)), false, false).unwrap();
    assert_eq!(s[0], OpCode::SetSlice { slice: sl(0, 9) });
    assert_eq!(s[s.len() - 1], OpCode::Pop);
}

#[test]
fn literals_push_their_constants() {
    assert_eq!(lower_expr(&var("v")), vec![OpCode::PushVariable { name: name("v") }]);
    assert_eq!(lower_expr(&lit(LiteralExprKind::This)), vec![OpCode::PushThis]);
    assert_eq!(lower_expr(&lit(LiteralExprKind::NoneValue)), vec![OpCode::PushConstNone]);
    assert_eq!(lower_expr(&lit(LiteralExprKind::Bool(true))), vec![OpCode::PushConstBool { value: true }]);
    assert_eq!(
        lower_expr(&lit(LiteralExprKind::String(name("s")))),
        vec![OpCode::PushConstString { value: name("s") }]
    );
    assert_eq!(
        lower_expr(&lit(LiteralExprKind::Infinity)),
        vec![OpCode::PushConstFloat { value: FloatConst::Infinity }]
    );
    assert_eq!(
        lower_expr(&lit(LiteralExprKind::NaN)),
        vec![OpCode::PushConstFloat { value: FloatConst::NaN }]
    );
    assert_eq!(
        lower_expr(&lit(LiteralExprKind::Number(Number::Floating { whole: 1, fraction: name("25") }))),
        vec![OpCode::PushConstFloat { value: FloatConst::Decimal { whole: 1, fraction: name("25") } }]
    );
}

#[test]
fn binary_operators_map_to_their_instructions() {
    let cases = vec![
        (BinOpKind::Add, OpCode::OpAdd),
        (BinOpKind::Sub, OpCode::OpSub),
        (BinOpKind::Mul, OpCode::OpMul),
        (BinOpKind::Div, OpCode::OpDiv),
        (BinOpKind::Rem, OpCode::OpRem),
        (BinOpKind::Greater, OpCode::OpGt),
        (BinOpKind::Less, OpCode::OpLt),
        (BinOpKind::GreaterEqual, OpCode::OpGe),
        (BinOpKind::LessEqual, OpCode::OpLe),
        (BinOpKind::Equal, OpCode::OpEq),
        (BinOpKind::NotEqual, OpCode::OpNe),
        (BinOpKind::Is, OpCode::ProtoEq),
        (BinOpKind::IsNot, OpCode::ProtoNe),
        (BinOpKind::And, OpCode::OpAnd),
        (BinOpKind::Or, OpCode::OpOr),
    ];
    for (kind, op) in cases {
        assert_eq!(kind.to_instruction(), op);
        assert_eq!(
            lower_expr(&binop(num(1), kind, num(2))),
            vec![OpCode::PushConstInt { value: 1 }, OpCode::PushConstInt { value: 2 }, op]
        );
    }
}

#[test]
fn binding_and_consume_amount() {
    assert_eq!(BinOpKind::Or.binding(), (3, 4));
    assert_eq!(BinOpKind::And.binding(), (5, 6));
    assert_eq!(BinOpKind::Is.binding(), (7, 8));
    assert_eq!(BinOpKind::IsNot.binding(), (7, 8));
    assert_eq!(BinOpKind::Equal.binding(), (9, 10));
    assert_eq!(BinOpKind::NotEqual.binding(), (9, 10));
    assert_eq!(BinOpKind::Less.binding(), (11, 12));
    assert_eq!(BinOpKind::GreaterEqual.binding(), (11, 12));
    assert_eq!(BinOpKind::Mul.binding(), (13, 14));
    assert_eq!(BinOpKind::Rem.binding(), (13, 14));
    assert_eq!(BinOpKind::Add.binding(), (15, 16));
    assert_eq!(BinOpKind::Sub.binding(), (15, 16));
    assert_eq!(BinOpKind::IsNot.consume_amount(), 2);
    assert_eq!(BinOpKind::Is.consume_amount(), 1);
    assert_eq!(BinOpKind::Add.consume_amount(), 1);
}

#[test]
fn unary_operators_follow_their_operand() {
    for (op, code) in [
        (UnaryOpKind::Add, OpCode::OpUnaryAdd),
        (UnaryOpKind::Sub, OpCode::OpUnarySub),
        (UnaryOpKind::Not, OpCode::OpUnaryNot),
    ] {
        let e = Expr {
            slice: sl(0, 2),
            kind: ExprKind::UnaryOp(UnaryOpExpr { slice: sl(0, 2), op, value: Arc::new(num(3)) }),
        };
        assert_eq!(lower_expr(&e), vec![OpCode::PushConstInt { value: 3 }, code]);
    }
}

#[test]
fn object_literal_stores_each_field() {
    let e = Expr {
        slice: sl(0, 9),
        kind: ExprKind::Object(ObjectExpr {
            slice: sl(0, 9),
            values: vec![
                ObjectValue { slice: sl(1, 4), name: name("a"), value: num(1) },
                ObjectValue { slice: sl(5, 8), name: name("b"), value: num(2) },
            ],
        }),
    };
    assert_eq!(
        lower_expr(&e),
        vec![
            OpCode::PushNewObject,
            OpCode::PushConstString { value: name("a") },
            OpCode::PushConstInt { value: 1 },
            OpCode::StoreIndex,
            OpCode::Pop,
            OpCode::PushConstString { value: name("b") },
            OpCode::PushConstInt { value: 2 },
            OpCode::StoreIndex,
            OpCode::Pop,
        ]
    );
}

#[test]
fn array_literal_stores_each_element_under_its_index() {
    let e = Expr {
        slice: sl(0, 9),
        kind: ExprKind::Array(ArrayExpr { slice: sl(0, 9), values: vec![num(10), num(20), num(30)] }),
    };
    assert_eq!(
        lower_expr(&e),
        vec![
            OpCode::PushNewArray { initial_size: 3 },
            OpCode::PushConstInt { value: 0 },
            OpCode::PushConstInt { value: 10 },
            OpCode::StoreIndex,
            OpCode::Pop,
            OpCode::PushConstInt { value: 1 },
            OpCode::PushConstInt { value: 20 },
            OpCode::StoreIndex,
            OpCode::Pop,
            OpCode::PushConstInt { value: 2 },
            OpCode::PushConstInt { value: 30 },
            OpCode::StoreIndex,
            OpCode::Pop,
        ]
    );
}

#[test]
fn member_and_index_reads() {
    // o.a
    assert_eq!(
        lower_expr(&access(var("o"), vec![AccessKind::Ident(name("a"))])),
        vec![
            OpCode::PushVariable { name: name("o") },
            OpCode::PushConstString { value: name("a") },
            OpCode::PushIndex,
        ]
    );
    // a[1]
    assert_eq!(
        lower_expr(&access(var("a"), vec![AccessKind::Index(Arc::new(num(1)))])),
        vec![
            OpCode::PushVariable { name: name("a") },
            OpCode::PushConstInt { value: 1 },
            OpCode::PushIndex,
        ]
    );
    // a.prototype
    assert_eq!(
        lower_expr(&access(var("a"), vec![AccessKind::Prototype])),
        vec![OpCode::PushVariable { name: name("a") }, OpCode::PushPrototype, OpCode::PushIndex]
    );
    // f(1, 2)
    assert_eq!(
        lower_expr(&access(var("f"), vec![AccessKind::Invoke(vec![num(1), num(2)])])),
        vec![
            OpCode::PushVariable { name: name("f") },
            OpCode::PushConstInt { value: 1 },
            OpCode::PushConstInt { value: 2 },
            OpCode::Invoke { param_count: 2, this_call: false },
        ]
    );
}

#[test]
fn compound_assignment_forms() {
    // a.b = 5
    assert_eq!(
        lower_expr(&access(
            var("a"),
            vec![AccessKind::Ident(name("b")), AccessKind::Assign(Arc::new(num(5)))]
        )),
        vec![
            OpCode::PushVariable { name: name("a") },
            OpCode::PushConstString { value: name("b") },
            OpCode::PushConstInt { value: 5 },
            OpCode::StoreIndex,
        ]
    );
    // a[k] = 5
    assert_eq!(
        lower_expr(&access(
            var("a"),
            vec![AccessKind::Index(Arc::new(var("k"))), AccessKind::Assign(Arc::new(num(5)))]
        )),
        vec![
            OpCode::PushVariable { name: name("a") },
            OpCode::PushVariable { name: name("k") },
            OpCode::PushConstInt { value: 5 },
            OpCode::StoreIndex,
        ]
    );
    // a.prototype = p
    assert_eq!(
        lower_expr(&access(
            var("a"),
            vec![AccessKind::Prototype, AccessKind::Assign(Arc::new(var("p")))]
        )),
        vec![
            OpCode::PushVariable { name: name("a") },
            OpCode::PushVariable { name: name("p") },
            OpCode::StoreProtorype,
        ]
    );
    // x = 5
    assert_eq!(
        lower_expr(&access(var("x"), vec![AccessKind::Assign(Arc::new(num(5)))])),
        vec![OpCode::PushConstInt { value: 5 }, OpCode::StoreVariable { name: name("x") }]
    );
}

#[test]
fn compound_call_forms() {
    // a.b(1)
    assert_eq!(
        lower_expr(&access(
            var("a"),
            vec![AccessKind::Ident(name("b")), AccessKind::Invoke(vec![num(1)])]
        )),
        vec![
            OpCode::PushVariable { name: name("a") },
            OpCode::Dupe,
            OpCode::PushConstString { value: name("b") },
            OpCode::PushIndex,
            OpCode::PushConstInt { value: 1 },
            OpCode::Invoke { param_count: 1, this_call: true },
        ]
    );
    // a[k]()
    assert_eq!(
        lower_expr(&access(
            var("a"),
            vec![AccessKind::Index(Arc::new(var("k"))), AccessKind::Invoke(vec![])]
        )),
        vec![
            OpCode::PushVariable { name: name("a") },
            OpCode::Dupe,
            OpCode::PushVariable { name: name("k") },
            OpCode::PushIndex,
            OpCode::Invoke { param_count: 0, this_call: true },
        ]
    );
    // a.prototype(1, 2)
    assert_eq!(
        lower_expr(&access(
            var("a"),
            vec![AccessKind::Prototype, AccessKind::Invoke(vec![num(1), num(2)])]
        )),
        vec![
            OpCode::PushVariable { name: name("a") },
            OpCode::Dupe,
            OpCode::PushPrototype,
            OpCode::PushIndex,
            OpCode::PushConstInt { value: 1 },
            OpCode::PushConstInt { value: 2 },
            OpCode::Invoke { param_count: 2, this_call: true },
        ]
    );
    // a.b(1).c = 2 : the call consumes two arms, then the store
    assert_eq!(
        lower_expr(&access(
            var("a"),
            vec![
                AccessKind::Ident(name("b")),
                AccessKind::Invoke(vec![num(1)]),
                AccessKind::Ident(name("c")),
                AccessKind::Assign(Arc::new(num(2))),
            ]
        )),
        vec![
            OpCode::PushVariable { name: name("a") },
            OpCode::Dupe,
            OpCode::PushConstString { value: name("b") },
            OpCode::PushIndex,
            OpCode::PushConstInt { value: 1 },
            OpCode::Invoke { param_count: 1, this_call: true },
            OpCode::PushConstString { value: name("c") },
            OpCode::PushConstInt { value: 2 },
            OpCode::StoreIndex,
        ]
    );
}

#[test]
fn misplaced_assignment_is_an_error() {
    // 5 = 3
    let e = access(num(5), vec![AccessKind::Assign(Arc::new(num(3)))]);
    let mut code = vec![];
    assert_eq!(
        e.generate_bytecode(&mut code),
        Err(BytecodeGenerationError::IllegalAssignment(sl(10, 11)))
    );
    // a.b = 1 .c : assignment not last
    let e = access(
        var("a"),
        vec![
            AccessKind::Ident(name("b")),
            AccessKind::Assign(Arc::new(num(1))),
            AccessKind::Ident(name("c")),
        ],
    );
    let mut code = vec![];
    assert_eq!(
        e.generate_bytecode(&mut code),
        Err(BytecodeGenerationError::IllegalAssignment(sl(11, 12)))
    );
    // f() = 1
    let e = access(
        var("f"),
        vec![AccessKind::Invoke(vec![]), AccessKind::Assign(Arc::new(num(1)))],
    );
    let mut code = vec![];
    assert_eq!(
        e.generate_bytecode(&mut code),
        Err(BytecodeGenerationError::IllegalAssignment(sl(11, 12)))
    );
    // an error inside an operand comes out
    let bad = access(num(5), vec![AccessKind::Assign(Arc::new(num(3)))]);
    let mut code = vec![];
    assert_eq!(
        binop(num(1), BinOpKind::Add, bad).generate_bytecode(&mut code),
        Err(BytecodeGenerationError::IllegalAssignment(sl(10, 11)))
    );
}

#[test]
fn variable_declarations() {
    assert_eq!(
        plain(lower_stmt(&let_stmt("x", None, false, false), false, false).unwrap()),
        vec![OpCode::InitVariable { name: name("x") }]
    );
    assert_eq!(
        plain(lower_stmt(&let_stmt("x", Some(num(1)), true, true), true, false).unwrap()),
        vec![
            OpCode::InitVariable { name: name("x") },
            OpCode::PushConstInt { value: 1 },
            OpCode::StoreVariable { name: name("x") },
            OpCode::Pop,
            OpCode::MarkVariableConst { name: name("x") },
            OpCode::Export { name: name("x") },
        ]
    );
    assert_eq!(
        lower_stmt(&let_stmt("x", Some(num(1)), false, true), false, false),
        Err(BytecodeGenerationError::IllegalExport(sl(0, 9)))
    );
}

#[test]
fn break_continue_and_export_need_permission() {
    assert_eq!(
        lower_stmt(&control(ControlKind::Break), true, false),
        Err(BytecodeGenerationError::IllegalBreak(sl(0, 9)))
    );
    assert_eq!(
        lower_stmt(&control(ControlKind::Continue), true, false),
        Err(BytecodeGenerationError::IllegalContinue(sl(0, 9)))
    );
    assert_eq!(
        lower_stmt(&control(ControlKind::Export(name("x"))), false, true),
        Err(BytecodeGenerationError::IllegalExport(sl(0, 9)))
    );
    assert_eq!(
        plain(lower_stmt(&control(ControlKind::Break), false, true).unwrap()),
        vec![OpCode::TempBreak]
    );
    assert_eq!(
        plain(lower_stmt(&control(ControlKind::Continue), false, true).unwrap()),
        vec![OpCode::TempContinue]
    );
    assert_eq!(
        plain(lower_stmt(&control(ControlKind::Export(name("x"))), true, false).unwrap()),
        vec![OpCode::Export { name: name("x") }]
    );
}

#[test]
fn return_and_throw() {
    assert_eq!(
        plain(lower_stmt(&control(ControlKind::Return(None)), false, false).unwrap()),
        vec![OpCode::PushConstNone, OpCode::Return]
    );
    assert_eq!(
        plain(lower_stmt(&control(ControlKind::Return(Some(num(1)))), false, false).unwrap()),
        vec![OpCode::PushConstInt { value: 1 }, OpCode::Return]
    );
    assert_eq!(
        plain(lower_stmt(&control(ControlKind::Throw(num(1))), false, false).unwrap()),
        vec![OpCode::PushConstInt { value: 1 }, OpCode::Throw]
    );
}

fn while_stmt(until: bool, body: Vec<Stmt>) -> Stmt {
    control(ControlKind::While(WhileStmt {
        slice: sl(0, 9),
        until,
        arm: ConditionArm { slice: sl(0, 9), condition: var("c"), block: block(body) },
    }))
}

#[test]
fn while_loop_jumps_and_patches_break_and_continue() {
    let code = lower_stmt(
        &while_stmt(false, vec![control(ControlKind::Break), control(ControlKind::Continue)]),
        false,
        false,
    )
    .unwrap();
    // 0 SetSlice(stmt) 1 SetSlice(control) 2 SetSlice(expr) 3 SetSlice(lit) 4 PushVariable c
    // 5 JumpFalse exit 6 SetSlice(block) 7 PushContext
    // 8 SetSlice 9 SetSlice 10 break 11 SetSlice 12 SetSlice 13 continue
    // 14 PopContext 15 Jump 2 16 exit
    assert_eq!(code.len(), 16);
    assert_eq!(code[4], OpCode::PushVariable { name: name("c") });
    assert_eq!(code[5], OpCode::JumpFalse { location: 16 });
    assert_eq!(code[7], OpCode::PushContext);
    assert_eq!(code[10], OpCode::Jump { location: 16 });
    assert_eq!(code[13], OpCode::Jump { location: 2 });
    assert_eq!(code[14], OpCode::PopContext);
    assert_eq!(code[15], OpCode::Jump { location: 2 });
    assert!(!code.iter().any(|op| matches!(op, OpCode::TempBreak | OpCode::TempContinue)));

    let code = lower_stmt(&while_stmt(true, vec![]), false, false).unwrap();
    assert_eq!(code[5], OpCode::JumpTrue { location: code.len() });
}

#[test]
fn positions_are_absolute() {
    let mut code = vec![OpCode::PushConstNone, OpCode::Pop, OpCode::PushConstNone];
    while_stmt(false, vec![control(ControlKind::Break)])
        .generate_bytecode(&mut code, false, false)
        .unwrap();
    let end = code.len();
    assert_eq!(code[3 + 5], OpCode::JumpFalse { location: end });
    assert_eq!(code[3 + 10], OpCode::Jump { location: end });
    assert_eq!(code[end - 1], OpCode::Jump { location: 3 + 2 });
}

#[test]
fn nested_loops_patch_their_own_breaks() {
    let inner = while_stmt(false, vec![control(ControlKind::Break)]);
    let outer = while_stmt(false, vec![inner, control(ControlKind::Continue)]);
    let code = lower_stmt(&outer, false, false).unwrap();
    assert!(!code.iter().any(|op| matches!(op, OpCode::TempBreak | OpCode::TempContinue)));
    let jumps: Vec<usize> = code
        .iter()
        .filter_map(|op| match op {
            OpCode::Jump { location } => Some(*location),
            _ => None,
        })
        .collect();
    // inner break -> inner exit, inner back jump -> inner condition,
    // outer continue -> outer condition, outer back jump -> outer condition
    let inner_exit = jumps[0];
    assert_eq!(code[inner_exit - 1], OpCode::Jump { location: jumps[1] });
    assert_eq!(jumps[2], 2);
    assert_eq!(jumps[3], 2);
    assert!(inner_exit < code.len());
}

fn branch_with(body: Vec<Stmt>, otherwise: Option<Vec<Stmt>>) -> Stmt {
    control(ControlKind::If(IfStmt {
        slice: sl(0, 9),
        arms: vec![ConditionArm { slice: sl(0, 9), condition: var("c"), block: block(body) }],
        else_arm: otherwise.map(block),
    }))
}

fn guarded(body: Vec<Stmt>, handler: Vec<Stmt>) -> Stmt {
    control(ControlKind::Try(TryStmt {
        slice: sl(0, 9),
        try_block: block(body),
        catch_name: name("e"),
        catch_block: block(handler),
    }))
}

#[test]
fn break_inside_if_inside_loop_is_taken_by_the_loop() {
    let branch = branch_with(
        vec![control(ControlKind::Break)],
        Some(vec![control(ControlKind::Continue)]),
    );
    let code = lower_stmt(&while_stmt(false, vec![branch]), false, false).unwrap();
    assert!(!code.iter().any(|op| matches!(op, OpCode::TempBreak | OpCode::TempContinue)));
    let exit = code.len();
    let jumps: Vec<usize> = code
        .iter()
        .filter_map(|op| match op {
            OpCode::Jump { location } => Some(*location),
            _ => None,
        })
        .collect();
    assert!(jumps.contains(&exit));
    assert_eq!(*jumps.last().unwrap(), 2);
    assert!(jumps.iter().filter(|location| **location == 2).count() >= 2);
}

#[test]
fn break_inside_try_inside_loop_is_taken_by_the_loop() {
    let stmt = guarded(vec![control(ControlKind::Break)], vec![control(ControlKind::Continue)]);
    let code = lower_stmt(&while_stmt(false, vec![stmt]), false, false).unwrap();
    assert!(!code.iter().any(|op| matches!(op, OpCode::TempBreak | OpCode::TempContinue)));
    assert!(code.contains(&OpCode::Jump { location: code.len() }));
}

#[test]
fn break_inside_if_or_try_outside_a_loop_is_an_error() {
    assert_eq!(
        lower_stmt(&branch_with(vec![control(ControlKind::Break)], None), false, false),
        Err(BytecodeGenerationError::IllegalBreak(sl(0, 9)))
    );
    assert_eq!(
        lower_stmt(&branch_with(vec![expr_stmt(num(1))], Some(vec![control(ControlKind::Continue)])), false, false),
        Err(BytecodeGenerationError::IllegalContinue(sl(0, 9)))
    );
    assert_eq!(
        lower_stmt(&guarded(vec![expr_stmt(num(1))], vec![control(ControlKind::Break)]), false, false),
        Err(BytecodeGenerationError::IllegalBreak(sl(0, 9)))
    );
    let inside = lower_stmt(&branch_with(vec![control(ControlKind::Break)], None), false, true).unwrap();
    assert!(inside.contains(&OpCode::TempBreak));
}

#[test]
fn a_refused_statement_appends_only_its_span() {
    let before = vec![OpCode::Pop, OpCode::PushConstNone];
    for (kind, export, in_loop) in [
        (ControlKind::Break, true, false),
        (ControlKind::Continue, true, false),
        (ControlKind::Export(name("x")), false, true),
    ] {
        let mut code = before.clone();
        assert!(control(kind).generate_bytecode(&mut code, export, in_loop).is_err());
        assert_eq!(code[..2], before[..]);
        assert!(code[2..].iter().all(|op| matches!(op, OpCode::SetSlice { .. })));
        assert_eq!(code.last(), Some(&OpCode::SetSlice { slice: sl(0, 9) }));
    }
    let mut code = before.clone();
    let body = while_stmt(false, vec![expr_stmt(num(1)), control(ControlKind::Export(name("x")))]);
    assert!(body.generate_bytecode(&mut code, false, false).is_err());
    assert_eq!(code[..2], before[..]);
}

#[test]
fn if_with_two_arms_and_else() {
    let stmt = control(ControlKind::If(IfStmt {
        slice: sl(0, 9),
        arms: vec![
            ConditionArm { slice: sl(0, 9), condition: var("a"), block: block(vec![expr_stmt(num(1))]) },
            ConditionArm { slice: sl(0, 9), condition: var("b"), block: block(vec![expr_stmt(num(2))]) },
        ],
        else_arm: Some(block(vec![expr_stmt(num(3))])),
    }));
    let code = lower_stmt(&stmt, false, false).unwrap();
    // 0,1: SetSlice stmt, control
    // cond a: 2 SetSlice 3 SetSlice 4 PushVariable a 5 JumpTrue -> block 0
    // cond b: 6 7 8 PushVariable b 9 JumpTrue -> block 1
    // 10 Jump -> else
    // block: SetSlice PushContext [SetSlice(stmt) SetSlice(expr) SetSlice(lit) PushConstInt Pop] PopContext = 8, then Jump
    // block 0: 11..19, 19 Jump exit; block 1: 20..28, 28 Jump exit; else: 29..37; exit 37
    assert_eq!(code.len(), 37);
    assert_eq!(code[5], OpCode::JumpTrue { location: 11 });
    assert_eq!(code[9], OpCode::JumpTrue { location: 20 });
    assert_eq!(code[10], OpCode::Jump { location: 29 });
    assert_eq!(code[16], OpCode::PushConstInt { value: 1 });
    assert_eq!(code[19], OpCode::Jump { location: 37 });
    assert_eq!(code[25], OpCode::PushConstInt { value: 2 });
    assert_eq!(code[28], OpCode::Jump { location: 37 });
    assert_eq!(code[34], OpCode::PushConstInt { value: 3 });
    assert_eq!(code[36], OpCode::PopContext);
}

#[test]
fn if_without_else() {
    let stmt = control(ControlKind::If(IfStmt {
        slice: sl(0, 9),
        arms: vec![ConditionArm { slice: sl(0, 9), condition: var("a"), block: block(vec![]) }],
        else_arm: None,
    }));
    let code = lower_stmt(&stmt, false, false).unwrap();
    // 5 JumpTrue -> 7, 6 Jump -> 11 (else = exit), block 7..10, 10 Jump 11
    assert_eq!(
        plain(code),
        vec![
            OpCode::PushVariable { name: name("a") },
            OpCode::JumpTrue { location: 7 },
            OpCode::Jump { location: 11 },
            OpCode::PushContext,
            OpCode::PopContext,
            OpCode::Jump { location: 11 },
        ]
    );
}

#[test]
fn try_catch_layout() {
    let stmt = control(ControlKind::Try(TryStmt {
        slice: sl(0, 9),
        try_block: block(vec![control(ControlKind::Throw(lit(LiteralExprKind::String(name("oops")))))]),
        catch_name: name("e"),
        catch_block: block(vec![expr_stmt(var("e"))]),
    }));
    let code = lower_stmt(&stmt, false, false).unwrap();
    // 0 1 SetSlice; 2 PushCatch; try block 3..: SetSlice PushContext [SetSlice SetSlice SetSlice SetSlice PushConstString SetSlice Throw] PopContext
    assert_eq!(code[2], OpCode::PushCatch { location: 15 });
    assert_eq!(code[13], OpCode::PopCatch);
    assert_eq!(code[14], OpCode::Jump { location: code.len() });
    assert_eq!(
        code[15..20].to_vec(),
        vec![
            OpCode::InitVariable { name: name("e") },
            OpCode::PushException,
            OpCode::StoreVariable { name: name("e") },
            OpCode::Pop,
            OpCode::MarkVariableConst { name: name("e") },
        ]
    );
    assert_eq!(code[code.len() - 1], OpCode::PopContext);
    assert_eq!(
        plain(code)[1..4].to_vec(),
        vec![
            OpCode::PushContext,
            OpCode::PushConstString { value: name("oops") },
            OpCode::Throw,
        ]
    );
}

#[test]
fn for_each_layout() {
    let stmt = control(ControlKind::For(ForStmt {
        slice: sl(0, 9),
        name: name("i"),
        expr: var("list"),
        block: block(vec![control(ControlKind::Continue), control(ControlKind::Break)]),
    }));
    let code = lower_stmt(&stmt, false, false).unwrap();
    let value = name("__each_i_value__");
    let index = name("__each_i_index__");
    let exit = code.len();
    // 0 1 SetSlice; 2 InitVariable value; 3 4 SetSlice; 5 PushVariable list
    assert_eq!(
        code[2..30].to_vec(),
        vec![
            OpCode::InitVariable { name: value.clone() },
            OpCode::SetSlice { slice: sl(0, 1) },
            OpCode::SetSlice { slice: sl(0, 1) },
            OpCode::PushVariable { name: name("list") },
            OpCode::StoreVariable { name: value.clone() },
            OpCode::Pop,
            OpCode::InitVariable { name: index.clone() },
            OpCode::PushConstInt { value: 0 },
            OpCode::StoreVariable { name: index.clone() },
            OpCode::Pop,
            OpCode::Jump { location: 18 },
            // 13: increment
            OpCode::PushVariable { name: index.clone() },
            OpCode::PushConstInt { value: 1 },
            OpCode::OpAdd,
            OpCode::StoreVariable { name: index.clone() },
            OpCode::Pop,
            // 18: header
            OpCode::PushVariable { name: index.clone() },
            OpCode::PushVariable { name: value.clone() },
            OpCode::PushConstString { value: name("length") },
            OpCode::PushIndex,
            OpCode::OpLt,
            OpCode::JumpFalse { location: exit },
            // 24: body
            OpCode::SetSlice { slice: sl(0, 30) },
            OpCode::PushContext,
            OpCode::SetSlice { slice: sl(0, 9) },
            OpCode::SetSlice { slice: sl(0, 9) },
            OpCode::Jump { location: 13 },
            OpCode::SetSlice { slice: sl(0, 9) },
        ]
    );
    assert_eq!(code[31], OpCode::Jump { location: exit });
    assert_eq!(code[32], OpCode::PopContext);
    assert_eq!(code[33], OpCode::Jump { location: 13 });
    assert_eq!(exit, 34);
}

#[test]
fn blocks_pass_their_permissions_on() {
    let b = block(vec![control(ControlKind::Break)]);
    let mut code = vec![];
    assert_eq!(
        b.generate_bytecode(&mut code, false, false),
        Err(BytecodeGenerationError::IllegalBreak(sl(0, 9)))
    );
    let mut code = vec![];
    b.generate_bytecode(&mut code, false, true).unwrap();
    assert_eq!(plain(code), vec![OpCode::PushContext, OpCode::TempBreak, OpCode::PopContext]);
}

#[test]
fn init_function_orders_imports_classes_functions_statements() {
    let t = ParseTree {
        slice: sl(0, 40),
        imports: vec![
            ImportDecl {
                slice: sl(0, 3),
                kind: ImportKind::Direct(DirectImport { slice: sl(0, 3), file: name("a.bur") }),
            },
            ImportDecl {
                slice: sl(0, 3),
                kind: ImportKind::From(FromImport {
                    slice: sl(0, 3),
                    file: name("b.bur"),
                    values: vec![
                        FromInportValue {
                            slice: sl(0, 1),
                            kind: FromImportKind::Everything { name: name("all") },
                        },
                        FromInportValue {
                            slice: sl(0, 1),
                            kind: FromImportKind::Single { name: name("x"), rename: None },
                        },
                        FromInportValue {
                            slice: sl(0, 1),
                            kind: FromImportKind::Single { name: name("y"), rename: Some(name("z")) },
                        },
                    ],
                }),
            },
        ],
        functions: vec![
            FunctionImpl {
                slice: sl(0, 3),
                export: true,
                decl: FunctionDecl {
                    slice: sl(0, 3),
                    base: None,
                    name: name("f"),
                    generics: None,
                    this: false,
                    this_ty: None,
                    params: Some(VariableList {
                        slice: sl(0, 3),
                        values: vec![
                            VariableName { slice: sl(0, 1), name: name("p"), ty: None },
                            VariableName { slice: sl(0, 1), name: name("q"), ty: None },
                        ],
                    }),
                    ty: None,
                },
                block: block(vec![control(ControlKind::Return(Some(var("p"))))]),
            },
            FunctionImpl {
                slice: sl(0, 3),
                export: true,
                decl: FunctionDecl {
                    slice: sl(0, 3),
                    base: Some(name("Foo")),
                    name: name("bar"),
                    generics: None,
                    this: true,
                    this_ty: None,
                    params: None,
                    ty: None,
                },
                block: block(vec![]),
            },
        ],
        classes: vec![
            ClassDecl {
                slice: sl(0, 3),
                export: false,
                name: name("Base"),
                generics: None,
                extends: None,
                params: None,
            },
            ClassDecl {
                slice: sl(0, 3),
                export: true,
                name: name("Foo"),
                generics: None,
                extends: Some(name("Base")),
                params: None,
            },
        ],
        stmts: vec![control(ControlKind::Export(name("late")))],
    };
    let module = t.compile().unwrap();
    assert_eq!(
        plain(module.init.body.clone()),
        vec![
            OpCode::Import { path: name("a.bur") },
            OpCode::Pop,
            OpCode::Import { path: name("b.bur") },
            OpCode::Dupe,
            OpCode::InitVariable { name: name("all") },
            OpCode::StoreVariable { name: name("all") },
            OpCode::MarkVariableConst { name: name("all") },
            OpCode::Dupe,
            OpCode::InitVariable { name: name("x") },
            OpCode::PushConstString { value: name("x") },
            OpCode::PushIndex,
            OpCode::StoreVariable { name: name("x") },
            OpCode::MarkVariableConst { name: name("x") },
            OpCode::Dupe,
            OpCode::InitVariable { name: name("z") },
            OpCode::PushConstString { value: name("y") },
            OpCode::PushIndex,
            OpCode::StoreVariable { name: name("z") },
            OpCode::MarkVariableConst { name: name("z") },
            OpCode::Pop,
            OpCode::InitVariable { name: name("Base") },
            OpCode::PushNewObject,
            OpCode::StoreVariable { name: name("Base") },
            OpCode::MarkVariableConst { name: name("Base") },
            OpCode::InitVariable { name: name("Foo") },
            OpCode::PushNewObject,
            OpCode::Dupe,
            OpCode::PushVariable { name: name("Base") },
            OpCode::StoreProtorype,
            OpCode::StoreVariable { name: name("Foo") },
            OpCode::MarkVariableConst { name: name("Foo") },
            OpCode::Export { name: name("Foo") },
            OpCode::InitVariable { name: name("f") },
            OpCode::PushFunction { index: 0 },
            OpCode::StoreVariable { name: name("f") },
            OpCode::MarkVariableConst { name: name("f") },
            OpCode::Export { name: name("f") },
            OpCode::PushVariable { name: name("Foo") },
            OpCode::PushConstString { value: name("bar") },
            OpCode::PushFunction { index: 1 },
            OpCode::StoreIndex,
            OpCode::Export { name: name("late") },
        ]
    );
    assert!(module.init.params.is_empty());
    assert_eq!(module.functions.len(), 2);
    assert_eq!(module.functions[0].params, vec![name("p"), name("q")]);
    assert_eq!(
        plain(module.functions[0].body.clone()),
        vec![
            OpCode::PushContext,
            OpCode::PushVariable { name: name("p") },
            OpCode::Return,
            OpCode::PopContext,
        ]
    );
    assert!(module.functions[1].params.is_empty());
    assert_eq!(t.functions[0].decl.parameters(), vec![name("p"), name("q")]);
}

#[test]
fn compiled_module_holds_no_stand_in() {
    let body = vec![
        while_stmt(
            false,
            vec![
                control(ControlKind::Break),
                control(ControlKind::For(ForStmt {
                    slice: sl(0, 9),
                    name: name("i"),
                    expr: var("xs"),
                    block: block(vec![control(ControlKind::Continue), control(ControlKind::Break)]),
                })),
                control(ControlKind::Continue),
            ],
        ),
    ];
    let module = tree(body).compile().unwrap();
    assert!(!module
        .init
        .body
        .iter()
        .any(|op| matches!(op, OpCode::TempBreak | OpCode::TempContinue)));
}

#[test]
fn compile_reports_errors_of_init_and_functions() {
    assert_eq!(
        tree(vec![control(ControlKind::Break)]).compile().err(),
        Some(BytecodeGenerationError::IllegalBreak(sl(0, 9)))
    );
    let mut t = tree(vec![]);
    t.functions.push(FunctionImpl {
        slice: sl(0, 3),
        export: false,
        decl: FunctionDecl {
            slice: sl(0, 3),
            base: None,
            name: name("f"),
            generics: None,
            this: false,
            this_ty: None,
            params: None,
            ty: None,
        },
        block: block(vec![control(ControlKind::Export(name("x")))]),
    });
    assert_eq!(
        t.compile().err(),
        Some(BytecodeGenerationError::IllegalExport(sl(0, 9)))
    );
    assert_eq!(
        t.functions[0].compile().err(),
        Some(BytecodeGenerationError::IllegalExport(sl(0, 9)))
    );
}

#[test]
fn for_each_names_its_hidden_variables_after_the_loop_variable() {
    let stmt = control(ControlKind::For(ForStmt {
        slice: sl(0, 9),
        name: name("item"),
        expr: var("xs"),
        block: block(vec![expr_stmt(num(1))]),
    }));
    let code = lower_stmt(&stmt, false, false).unwrap();
    assert!(code.contains(&OpCode::InitVariable { name: name("__each_item_value__") }));
    assert!(code.contains(&OpCode::InitVariable { name: name("__each_item_index__") }));
    assert!(code.contains(&OpCode::PushConstString { value: name("length") }));
}
