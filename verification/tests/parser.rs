use bur::bytecode::op_code::OpCode;
use bur::bytecode::BytecodeGenerationError;
use bur::parse_tree::decl::class::ClassDecl;
use bur::parse_tree::decl::import::{FromImportKind, ImportDecl, ImportKind};
use bur::parse_tree::decl::variable::VariableImpl;
use bur::parse_tree::decl::{IdeDecl, IdeDeclKind, VariableList};
use bur::parse_tree::expr::access::AccessKind;
use bur::parse_tree::expr::op::binary::BinOpKind;
use bur::parse_tree::expr::op::unary::UnaryOpKind;
use bur::parse_tree::expr::value::literal::LiteralExprKind;
use bur::parse_tree::expr::{Expr, ExprKind};
use bur::parse_tree::stmt::control::{ControlKind, ControlStmt};
use bur::parse_tree::stmt::{Block, Stmt, StmtKind};
use bur::parse_tree::tree::ParseTree;
use bur::parse_tree::ty::{Type, TypeKind};
use bur::parse_tree::ParserError;
use bur::tokenizer::token::{Number, TokenKind};
use bur::tokenizer::Tokenizer;

fn parse(source: &str) -> ParseTree {
    let mut tokenizer = Tokenizer::new(source.into());
    ParseTree::try_parse(&mut tokenizer).unwrap().unwrap()
}

fn plain(code: Vec<OpCode>) -> Vec<OpCode> {
    code.into_iter().filter(|op| !matches!(op, OpCode::SetSlice { .. })).collect()
}

fn init_of(source: &str) -> Vec<OpCode> {
    plain(parse(source).compile().unwrap().init.body)
}

fn expr(source: &str) -> Expr {
    let mut tokenizer = Tokenizer::new(source.into());
    Expr::try_parse(&mut tokenizer).unwrap().unwrap()
}

fn name(s: &str) -> String {
    s.to_string()
}

fn shape(e: &Expr) -> String {
    match &e.kind {
        ExprKind::Literal(l) => match &l.kind {
            LiteralExprKind::Number(Number::Integer(i)) => format!("{}", i),
            LiteralExprKind::Number(Number::Floating { whole, fraction }) => {
                format!("{}.{}", whole, fraction)
            }
            LiteralExprKind::Variable(v) => v.clone(),
            LiteralExprKind::String(s) => format!("{:?}", s),
            LiteralExprKind::Bool(b) => format!("{}", b),
            LiteralExprKind::This => name("this"),
            LiteralExprKind::Infinity => name("Infinity"),
            LiteralExprKind::NaN => name("NaN"),
            LiteralExprKind::NoneValue => name("none"),
        },
        ExprKind::BinOp(b) => format!("({} {:?} {})", shape(&b.lhs), b.op, shape(&b.rhs)),
        ExprKind::UnaryOp(u) => format!("({:?} {})", u.op, shape(&u.value)),
        ExprKind::Array(a) => {
            format!("[{}]", a.values.iter().map(shape).collect::<Vec<_>>().join(", "))
        }
        ExprKind::Object(o) => format!(
            "{{{}}}",
            o.values
                .iter()
                .map(|v| format!("{} = {}", v.name, shape(&v.value)))
                .collect::<Vec<_>>()
                .join(", ")
        ),
        ExprKind::Access(a) => {
            let mut out = shape(&a.base);
            for arm in &a.access {
                match &arm.kind {
                    AccessKind::Ident(n) => out += &format!(".{}", n),
                    AccessKind::Index(i) => out += &format!("[{}]", shape(i)),
                    AccessKind::Invoke(args) => {
                        out += &format!("({})", args.iter().map(shape).collect::<Vec<_>>().join(", "))
                    }
                    AccessKind::Assign(v) => out += &format!(" = {}", shape(v)),
                    AccessKind::Prototype => out += ".prototype",
                }
            }
            out
        }
    }
}

#[test]
fn let_with_sum_from_source() {
    assert_eq!(
        init_of("let x = 1 + 2"),
        vec![
            OpCode::InitVariable { name: name("x") },
            OpCode::PushConstInt { value: 1 },
            OpCode::PushConstInt { value: 2 },
            OpCode::OpAdd,
            OpCode::StoreVariable { name: name("x") },
            OpCode::Pop,
        ]
    );
}

#[test]
fn object_literal_and_member_read_from_source() {
    assert_eq!(
        init_of("let o = { a = 1, b = 2 }; o.a"),
        vec![
            OpCode::InitVariable { name: name("o") },
            OpCode::PushNewObject,
            OpCode::PushConstString { value: name("a") },
            OpCode::PushConstInt { value: 1 },
            OpCode::StoreIndex,
            OpCode::Pop,
            OpCode::PushConstString { value: name("b") },
            OpCode::PushConstInt { value: 2 },
            OpCode::StoreIndex,
            OpCode::Pop,
            OpCode::StoreVariable { name: name("o") },
            OpCode::Pop,
            OpCode::PushVariable { name: name("o") },
            OpCode::PushConstString { value: name("a") },
            OpCode::PushIndex,
            OpCode::Pop,
        ]
    );
}

#[test]
fn array_literal_and_index_read_from_source() {
    let code = init_of("let a = [10, 20, 30]; a[1]");
    assert_eq!(code[1], OpCode::PushNewArray { initial_size: 3 });
    assert_eq!(
        code[code.len() - 4..].to_vec(),
        vec![
            OpCode::PushVariable { name: name("a") },
            OpCode::PushConstInt { value: 1 },
            OpCode::PushIndex,
            OpCode::Pop,
        ]
    );
}

#[test]
fn try_catch_from_source() {
    let code = init_of("try throw \"oops\" catch e e end");
    assert_eq!(
        plain(code.clone())
            .into_iter()
            .filter(|op| !matches!(op, OpCode::PushCatch { .. } | OpCode::Jump { .. }))
            .collect::<Vec<_>>(),
        vec![
            OpCode::PushContext,
            OpCode::PushConstString { value: name("oops") },
            OpCode::Throw,
            OpCode::PopContext,
            OpCode::PopCatch,
            OpCode::InitVariable { name: name("e") },
            OpCode::PushException,
            OpCode::StoreVariable { name: name("e") },
            OpCode::Pop,
            OpCode::MarkVariableConst { name: name("e") },
            OpCode::PushContext,
            OpCode::PushVariable { name: name("e") },
            OpCode::Pop,
            OpCode::PopContext,
        ]
    );
}

#[test]
fn for_each_from_source() {
    let tree = parse("let total = 0 for each i in [5, 6, 7] do total = total + i end");
    assert_eq!(tree.stmts.len(), 2);
    let code = plain(tree.compile().unwrap().init.body);
    let tail: Vec<OpCode> = code
        .iter()
        .skip_while(|op| !matches!(op, OpCode::PushContext))
        .cloned()
        .collect();
    assert_eq!(
        tail[..7].to_vec(),
        vec![
            OpCode::PushContext,
            OpCode::PushVariable { name: name("total") },
            OpCode::PushVariable { name: name("i") },
            OpCode::OpAdd,
            OpCode::StoreVariable { name: name("total") },
            OpCode::Pop,
            OpCode::PopContext,
        ]
    );
    assert!(code.contains(&OpCode::InitVariable { name: name("__each_i_value__") }));
    assert!(code.contains(&OpCode::InitVariable { name: name("__each_i_index__") }));
    assert!(code.contains(&OpCode::PushConstString { value: name("length") }));
}

#[test]
fn operators_group_by_their_binding() {
    assert_eq!(shape(&expr("1 + 2 * 3")), "((1 Add 2) Mul 3)");
    assert_eq!(shape(&expr("1 * 2 + 3")), "(1 Mul (2 Add 3))");
    assert_eq!(shape(&expr("1 - 2 - 3")), "((1 Sub 2) Sub 3)");
    assert_eq!(shape(&expr("a or b and c")), "(a Or (b And c))");
    assert_eq!(shape(&expr("a == b < c")), "(a Equal (b Less c))");
    assert_eq!(shape(&expr("a is not b")), "(a IsNot b)");
    assert_eq!(shape(&expr("a is b")), "(a Is b)");
    assert_eq!(shape(&expr("(1 * 2) + 3")), "((1 Mul 2) Add 3)");
    assert_eq!(shape(&expr("a >= b != c <= d")), "((a GreaterEqual b) NotEqual (c LessEqual d))");
    assert_eq!(shape(&expr("a % b / c")), "((a Rem b) Div c)");
    assert_eq!(shape(&expr("a > b")), "(a Greater b)");
}

#[test]
fn unary_operators_and_literals() {
    assert_eq!(shape(&expr("not - + x")), "(Not (Sub (Add x)))");
    assert_eq!(shape(&expr("-1 + 2")), "((Sub 1) Add 2)");
    assert_eq!(shape(&expr("1.5")), "1.5");
    assert_eq!(shape(&expr("\"s\"")), "\"s\"");
    assert_eq!(shape(&expr("true")), "true");
    assert_eq!(shape(&expr("false")), "false");
    assert_eq!(shape(&expr("none")), "none");
    assert_eq!(shape(&expr("this")), "this");
    assert_eq!(shape(&expr("Infinity")), "Infinity");
    assert_eq!(shape(&expr("NaN")), "NaN");
    let e = expr("not x");
    assert!(matches!(&e.kind, ExprKind::UnaryOp(u) if u.op == UnaryOpKind::Not));
    let e = expr("a + b");
    assert!(matches!(&e.kind, ExprKind::BinOp(b) if b.op == BinOpKind::Add));
}

#[test]
fn access_chains() {
    assert_eq!(shape(&expr("a.b.c")), "a.b.c");
    assert_eq!(shape(&expr("a[1](2, 3).d")), "a[1](2, 3).d");
    assert_eq!(shape(&expr("a.prototype = b")), "a.prototype = b");
    assert_eq!(shape(&expr("f()")), "f()");
    assert_eq!(shape(&expr("f(1,)")), "f(1)");
    assert_eq!(shape(&expr("x = y = 3")), "x = y = 3");
    assert_eq!(shape(&expr("a.b = 1 + 2")), "a.b = (1 Add 2)");
    assert_eq!(shape(&expr("[1, [2, 3], {a = 4; b = 5}]")), "[1, [2, 3], {a = 4, b = 5}]");
    assert_eq!(shape(&expr("{}")), "{}");
    assert_eq!(shape(&expr("[]")), "[]");
}

#[test]
fn spans_cover_what_was_read() {
    let e = expr("  (a + b)");
    assert_eq!((e.slice.start, e.slice.end), (2, 9));
    assert_eq!(e.slice.value(), "(a + b)");
    let e = expr("foo.bar(1)");
    assert_eq!(e.slice.value(), "foo.bar(1)");
    if let ExprKind::Access(a) = &e.kind {
        assert_eq!(a.access[0].slice.value(), ".bar");
        assert_eq!(a.access[1].slice.value(), "(1)");
    } else {
        panic!("no access");
    }
}

#[test]
fn statements_and_blocks() {
    let tree = parse(
        "while a do break; continue end\n\
         until b do x = 1 end\n\
         if a then 1 else if b then 2 else 3 end\n\
         if a then 1 end\n\
         return\n\
         return 1\n\
         throw x\n\
         export y\n\
         const z = 2\n\
         export let w",
    );
    let kinds: Vec<&str> = tree
        .stmts
        .iter()
        .map(|s| match &s.kind {
            StmtKind::Control(c) => match &c.kind {
                ControlKind::While(w) => {
                    if w.until {
                        "until"
                    } else {
                        "while"
                    }
                }
                ControlKind::If(i) => {
                    if i.else_arm.is_some() {
                        "if-else"
                    } else {
                        "if"
                    }
                }
                ControlKind::For(_) => "for",
                ControlKind::Try(_) => "try",
                ControlKind::Throw(_) => "throw",
                ControlKind::Return(Some(_)) => "return-value",
                ControlKind::Return(None) => "return",
                ControlKind::Export(_) => "export",
                ControlKind::Continue => "continue",
                ControlKind::Break => "break",
            },
            StmtKind::Expr(_) => "expr",
            StmtKind::Variable(v) => {
                if v.decl.is_const {
                    "const"
                } else if v.decl.export {
                    "export-let"
                } else {
                    "let"
                }
            }
        })
        .collect();
    assert_eq!(
        kinds,
        vec![
            "while", "until", "if-else", "if", "return", "return-value", "throw", "export",
            "const", "export-let"
        ]
    );
    if let StmtKind::Control(ControlStmt { kind: ControlKind::If(stmt), .. }) = &tree.stmts[2].kind {
        assert_eq!(stmt.arms.len(), 2);
    } else {
        panic!("no if");
    }
    let mut tokenizer = Tokenizer::new("a; b c".into());
    let block = Block::try_parse(&mut tokenizer).unwrap().unwrap();
    assert_eq!(block.stmts.len(), 3);
    let mut tokenizer = Tokenizer::new("".into());
    assert_eq!(Block::try_parse(&mut tokenizer), Ok(None));
    assert_eq!(Stmt::try_parse(&mut tokenizer), Ok(None));
}

#[test]
fn const_declaration_marks_the_variable_const() {
    assert_eq!(
        init_of("const c = 1"),
        vec![
            OpCode::InitVariable { name: name("c") },
            OpCode::PushConstInt { value: 1 },
            OpCode::StoreVariable { name: name("c") },
            OpCode::Pop,
            OpCode::MarkVariableConst { name: name("c") },
        ]
    );
    let mut tokenizer = Tokenizer::new("export const c: int = 1".into());
    let decl = VariableImpl::try_parse(&mut tokenizer).unwrap().unwrap();
    assert!(decl.decl.export && decl.decl.is_const);
    assert!(decl.decl.param.ty.is_some());
}

#[test]
fn imports_classes_and_functions() {
    let tree = parse(
        "import \"a.bur\"\n\
         from \"b.bur\" import everything as all x y as z\n\
         class Base\n\
         export class Foo[T] extends Base is a, b: int end\n\
         function Foo.bar(this, p, q: int): int return p end\n\
         export function f() return 1 end\n\
         declare function g(x)\n\
         declare module \"m\" is let v function h() end\n\
         f()",
    );
    assert_eq!(tree.imports.len(), 2);
    assert!(matches!(&tree.imports[0].kind, ImportKind::Direct(d) if d.file == "a.bur"));
    if let ImportKind::From(from) = &tree.imports[1].kind {
        assert_eq!(from.file, "b.bur");
        assert_eq!(from.values.len(), 3);
        assert!(matches!(&from.values[0].kind, FromImportKind::Everything { name } if name == "all"));
        assert!(
            matches!(&from.values[1].kind, FromImportKind::Single { name, rename: None } if name == "x")
        );
        assert!(matches!(
            &from.values[2].kind,
            FromImportKind::Single { name, rename: Some(r) } if name == "y" && r == "z"
        ));
    } else {
        panic!("no from import");
    }
    assert_eq!(tree.classes.len(), 2);
    assert!(!tree.classes[0].export && tree.classes[0].extends.is_none());
    assert!(tree.classes[1].export);
    assert_eq!(tree.classes[1].extends, Some(name("Base")));
    assert_eq!(tree.classes[1].params.as_ref().unwrap().values.len(), 2);
    assert_eq!(tree.classes[1].generics.as_ref().unwrap().values.len(), 1);
    assert_eq!(tree.functions.len(), 2);
    assert_eq!(tree.functions[0].decl.base, Some(name("Foo")));
    assert_eq!(tree.functions[0].decl.name, "bar");
    assert!(tree.functions[0].decl.this);
    assert_eq!(tree.functions[0].decl.parameters(), vec![name("p"), name("q")]);
    assert!(tree.functions[0].decl.ty.is_some());
    assert!(!tree.functions[0].export);
    assert!(tree.functions[1].export);
    assert_eq!(tree.stmts.len(), 1);
    let module = tree.compile().unwrap();
    assert_eq!(module.functions.len(), 2);
    assert_eq!(module.functions[0].params, vec![name("p"), name("q")]);
    let init = plain(module.init.body);
    assert_eq!(init[0], OpCode::Import { path: name("a.bur") });
    assert!(init.contains(&OpCode::PushFunction { index: 1 }));
    assert!(init.contains(&OpCode::Export { name: name("f") }));
    assert_eq!(
        init[init.len() - 3..].to_vec(),
        vec![
            OpCode::PushVariable { name: name("f") },
            OpCode::Invoke { param_count: 0, this_call: false },
            OpCode::Pop,
        ]
    );
}

#[test]
fn declarations_for_tools() {
    let mut tokenizer = Tokenizer::new("declare class A declare let x: a or b declare module \"m\" is class B end".into());
    let a = IdeDecl::try_parse(&mut tokenizer).unwrap().unwrap();
    assert!(matches!(a.kind, IdeDeclKind::Class(_)));
    let b = IdeDecl::try_parse(&mut tokenizer).unwrap().unwrap();
    assert!(matches!(b.kind, IdeDeclKind::Variable(_)));
    let c = IdeDecl::try_parse(&mut tokenizer).unwrap().unwrap();
    assert!(matches!(&c.kind, IdeDeclKind::Module(m) if m.name == "m" && m.values.len() == 1));
    assert_eq!(IdeDecl::try_parse(&mut tokenizer), Ok(None));
    let mut tokenizer = Tokenizer::new("declare 5".into());
    assert!(matches!(
        IdeDecl::try_parse(&mut tokenizer),
        Err(ParserError::UnexpectedToken { .. })
    ));
    let mut tokenizer = Tokenizer::new("a, b: c".into());
    let list = VariableList::try_parse(&mut tokenizer).unwrap().unwrap();
    assert_eq!(list.values.len(), 2);
    let mut tokenizer = Tokenizer::new("class".into());
    assert!(matches!(ClassDecl::try_parse(&mut tokenizer), Err(ParserError::UnexpectedToken { .. })));
    let mut tokenizer = Tokenizer::new("import 5".into());
    assert!(matches!(ImportDecl::try_parse(&mut tokenizer), Err(ParserError::UnexpectedToken { .. })));
}

#[test]
fn types() {
    let ty = |source: &str| {
        let mut tokenizer = Tokenizer::new(source.into());
        Type::try_parse(&mut tokenizer).unwrap().unwrap()
    };
    assert!(matches!(ty("int").kind, TypeKind::Value(v) if v.name == "int" && v.generics.is_empty()));
    assert!(matches!(ty("list[int, str]").kind, TypeKind::Value(v) if v.generics.len() == 2));
    assert!(matches!(ty("a or b or c").kind, TypeKind::Or(tys) if tys.len() == 3));
    assert!(matches!(ty("a and b").kind, TypeKind::And(tys) if tys.len() == 2));
    assert!(matches!(ty("a or b and c").kind, TypeKind::And(tys) if matches!(tys[0].kind, TypeKind::Or(_))));
    assert!(matches!(ty("(a)").kind, TypeKind::Value(_)));
    assert!(matches!(ty("prototype[a]").kind, TypeKind::Prototype(_)));
    assert!(matches!(ty("class").kind, TypeKind::Class));
    assert!(matches!(ty("this").kind, TypeKind::This));
    assert!(matches!(ty("none").kind, TypeKind::NoneType));
    assert!(
        matches!(ty("function(a, b) c").kind, TypeKind::Function(f) if f.params.len() == 2 && f.ret.is_some())
    );
    assert!(
        matches!(ty("function()").kind, TypeKind::Function(f) if f.params.is_empty() && f.ret.is_none())
    );
    assert_eq!(ty("list[int]").slice.value(), "list[int]");
}

#[test]
fn parse_errors() {
    let fails = |source: &str| {
        let mut tokenizer = Tokenizer::new(source.into());
        ParseTree::try_parse(&mut tokenizer).unwrap_err()
    };
    assert!(matches!(
        fails("let = 1"),
        ParserError::UnexpectedToken { token, .. } if matches!(token.kind, TokenKind::Symbol(_))
    ));
    assert!(matches!(fails("1 +"), ParserError::UnexpectedToken { token, .. } if token.kind == TokenKind::Eof));
    assert!(matches!(fails("(1"), ParserError::UnexpectedToken { .. }));
    assert!(matches!(fails("while a do end"), ParserError::UnexpectedToken { .. }));
    assert!(matches!(fails("f(1 2)"), ParserError::UnexpectedToken { .. }));
    assert!(matches!(fails(")"), ParserError::UnexpectedToken { throwing_location, .. } if throwing_location == "ParseTree::try_parse"));
    assert!(matches!(fails("\"open"), ParserError::TokenizeError(_)));
    assert!(matches!(fails("a $"), ParserError::TokenizeError(_)));
}

#[test]
fn compile_errors_from_source() {
    let compile = |source: &str| parse(source).compile().unwrap_err();
    assert!(matches!(compile("break"), BytecodeGenerationError::IllegalBreak(_)));
    assert!(matches!(compile("continue"), BytecodeGenerationError::IllegalContinue(_)));
    assert!(matches!(
        compile("function f() export x end"),
        BytecodeGenerationError::IllegalExport(_)
    ));
    assert!(matches!(compile("while a do export x end"), BytecodeGenerationError::IllegalExport(_)));
    assert!(matches!(compile("1 = 2"), BytecodeGenerationError::IllegalAssignment(_)));
    assert!(matches!(compile("f() = 2"), BytecodeGenerationError::IllegalAssignment(_)));
    assert!(parse("export x while a do break end").compile().is_ok());
}

#[test]
fn compile_takes_text_to_a_module() {
    let module = bur::bytecode::compile("function f(a) return a end f(1)".into()).unwrap();
    assert_eq!(module.functions.len(), 1);
    assert_eq!(module.functions[0].params, vec![name("a")]);
    assert_eq!(
        plain(module.init.body)[..4].to_vec(),
        vec![
            OpCode::InitVariable { name: name("f") },
            OpCode::PushFunction { index: 0 },
            OpCode::StoreVariable { name: name("f") },
            OpCode::MarkVariableConst { name: name("f") },
        ]
    );
}

#[test]
fn compile_wraps_parser_errors() {
    assert!(matches!(
        bur::bytecode::compile("let = 1".into()),
        Err(BytecodeGenerationError::ParserError(ParserError::UnexpectedToken { .. }))
    ));
    assert!(matches!(
        bur::bytecode::compile("\"open".into()),
        Err(BytecodeGenerationError::ParserError(ParserError::TokenizeError(_)))
    ));
    assert!(matches!(
        bur::bytecode::compile("break".into()),
        Err(BytecodeGenerationError::IllegalBreak(_))
    ));
    let mut tokenizer = Tokenizer::new("- )".into());
    assert!(matches!(
        Expr::try_parse(&mut tokenizer),
        Err(ParserError::UnexpectedToken { throwing_location, .. }) if throwing_location == "Expr::try_parse_unary"
    ));
    let wrapped: BytecodeGenerationError =
        ParserError::TokenizeError(bur::tokenizer::TokenizeError::UnexpectedEof).into();
    assert!(matches!(wrapped, BytecodeGenerationError::ParserError(_)));
}

#[test]
fn a_try_that_finds_nothing_consumes_nothing() {
    let mut tokenizer = Tokenizer::new(") x".into());
    assert_eq!(Expr::try_parse(&mut tokenizer), Ok(None));
    assert_eq!(Stmt::try_parse(&mut tokenizer), Ok(None));
    assert_eq!(Block::try_parse(&mut tokenizer), Ok(None));
    assert!(matches!(Type::try_parse(&mut tokenizer), Ok(None)));
    assert!(matches!(ClassDecl::try_parse(&mut tokenizer), Ok(None)));
    assert!(matches!(ImportDecl::try_parse(&mut tokenizer), Ok(None)));
    assert!(matches!(
        tokenizer.next().unwrap().kind,
        TokenKind::Symbol(bur::tokenizer::token::Symbol::ParenClose)
    ));
    let mut tokenizer = Tokenizer::new("export 5".into());
    assert_eq!(Stmt::try_parse(&mut tokenizer), Ok(None));
    assert!(matches!(
        tokenizer.next().unwrap().kind,
        TokenKind::Keyword(bur::tokenizer::token::Keyword::Export)
    ));
}
