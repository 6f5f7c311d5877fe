use bur::bytecode::{compile, BytecodeGenerationError};
use bur::parse_tree::decl::class::ClassDecl;
use bur::parse_tree::decl::function::{FunctionDecl, FunctionImpl};
use bur::parse_tree::decl::import::{
    DirectImport, FromImport, FromImportKind, FromInportValue, ImportDecl, ImportKind,
};
use bur::parse_tree::decl::variable::{VariableDecl, VariableImpl};
use bur::parse_tree::decl::{IdeDecl, IdeDeclKind, IdeModule, VariableName};
use bur::parse_tree::expr::access::{AccessExpr, AccessKind};
use bur::parse_tree::expr::op::unary::UnaryOpKind;
use bur::parse_tree::expr::value::array::ArrayExpr;
use bur::parse_tree::expr::value::literal::{LiteralExpr, LiteralExprKind};
use bur::parse_tree::expr::value::object::{ObjectExpr, ObjectValue};
use bur::parse_tree::expr::{Expr, ExprKind};
use bur::parse_tree::stmt::control::{ControlKind, ControlStmt, ForStmt, IfStmt, TryStmt, WhileStmt};
use bur::parse_tree::stmt::{Block, Stmt, StmtKind};
use bur::parse_tree::tree::ParseTree;
use bur::parse_tree::ty::{FunctionType, Type, TypeKind};
use bur::parse_tree::{accept_keywords, unexpected_next, ParserError};
use bur::string::StringSlice;
use bur::tokenizer::token::{Keyword, Number, Symbol, Token, TokenKind};
use bur::tokenizer::{TokenizeError, Tokenizer};

fn tokens(source: &str) -> Tokenizer {
    Tokenizer::new(source.into())
}

fn span(source: &str, start: usize, end: usize) -> StringSlice {
    StringSlice { src: source.into(), start, end }
}

fn token(source: &str, start: usize, end: usize, kind: TokenKind) -> Token {
    Token { slice: span(source, start, end), kind }
}

fn unexpected(token: Token, location: &str) -> ParserError {
    ParserError::UnexpectedToken { token, throwing_location: location.to_string() }
}

fn ident(name: &str) -> TokenKind {
    TokenKind::Identifier(name.to_string())
}

fn bad_char(source: &str, start: usize) -> ParserError {
    ParserError::TokenizeError(TokenizeError::InvalidChar(span(source, start, start + 1)))
}

#[test]
fn an_error_of_the_tokenizer_consumes_nothing() {
    let mut tokenizer = tokens("a  @ b");
    assert_eq!(tokenizer.next().unwrap().kind, ident("a"));
    let first = tokenizer.next();
    assert_eq!(first, Err(TokenizeError::InvalidChar(span("a  @ b", 3, 4))));
    assert_eq!(tokenizer.next(), first);
    assert_eq!(tokenizer.peek(0), first);
    assert_eq!(tokenizer.peek(2), first);

    let mut tokenizer = tokens("x \"ab");
    assert_eq!(tokenizer.peek(1), Err(TokenizeError::UnexpectedEof));
    assert_eq!(tokenizer.next().unwrap().kind, ident("x"));
    assert_eq!(tokenizer.next(), Err(TokenizeError::UnexpectedEof));
    assert_eq!(tokenizer.next(), Err(TokenizeError::UnexpectedEof));
}

#[test]
fn two_keywords_are_taken_together_or_not_at_all() {
    let mut tokenizer = tokens("export let x");
    assert_eq!(accept_keywords(&mut tokenizer, Keyword::Export, Keyword::Const), Ok(false));
    assert_eq!(tokenizer.peek(0).unwrap().kind, TokenKind::Keyword(Keyword::Export));
    assert_eq!(accept_keywords(&mut tokenizer, Keyword::Export, Keyword::Let), Ok(true));
    assert_eq!(tokenizer.next().unwrap().kind, ident("x"));

    let mut tokenizer = tokens("let @");
    assert_eq!(accept_keywords(&mut tokenizer, Keyword::Export, Keyword::Let), Ok(false));
    let mut tokenizer = tokens("export @");
    assert_eq!(
        accept_keywords(&mut tokenizer, Keyword::Export, Keyword::Let),
        Err(bad_char("export @", 7))
    );
    assert_eq!(tokenizer.next().unwrap().kind, TokenKind::Keyword(Keyword::Export));
}

#[test]
fn the_next_token_is_named_as_unexpected() {
    let mut tokenizer = tokens("  end");
    assert_eq!(
        unexpected_next(&mut tokenizer, "here"),
        unexpected(token("  end", 2, 5, TokenKind::Keyword(Keyword::End)), "here")
    );
    assert_eq!(tokenizer.next().unwrap().kind, TokenKind::Keyword(Keyword::End));
    let mut tokenizer = tokens("$");
    assert_eq!(unexpected_next(&mut tokenizer, "here"), bad_char("$", 0));
}

#[test]
fn a_literal_is_the_token_that_spells_it() {
    let read = |source: &str| LiteralExpr::try_parse(&mut tokens(source));
    let literal = |source: &str, end: usize, kind: LiteralExprKind| {
        Ok(Some(LiteralExpr { slice: span(source, 0, end), kind }))
    };
    assert_eq!(read("12 x"), literal("12 x", 2, LiteralExprKind::Number(Number::Integer(12))));
    assert_eq!(read("\"a\""), literal("\"a\"", 3, LiteralExprKind::String("a".to_string())));
    assert_eq!(read("abc"), literal("abc", 3, LiteralExprKind::Variable("abc".to_string())));
    assert_eq!(read("true"), literal("true", 4, LiteralExprKind::Bool(true)));
    assert_eq!(read("false"), literal("false", 5, LiteralExprKind::Bool(false)));
    assert_eq!(read("none"), literal("none", 4, LiteralExprKind::NoneValue));
    assert_eq!(read("this"), literal("this", 4, LiteralExprKind::This));
    assert_eq!(read("let"), Ok(None));
    assert_eq!(read("+"), Ok(None));
    assert_eq!(read(""), Ok(None));
    assert_eq!(read("@"), Err(bad_char("@", 0)));

    let mut tokenizer = tokens("let");
    assert_eq!(LiteralExpr::try_parse(&mut tokenizer), Ok(None));
    assert_eq!(tokenizer.next().unwrap().kind, TokenKind::Keyword(Keyword::Let));
}

#[test]
fn a_lone_literal_is_the_whole_expression() {
    let source = "count then";
    let mut tokenizer = tokens(source);
    let expr = Expr::try_parse(&mut tokenizer).unwrap().unwrap();
    let literal = LiteralExpr {
        slice: span(source, 0, 5),
        kind: LiteralExprKind::Variable("count".to_string()),
    };
    assert_eq!(expr, Expr { slice: span(source, 0, 5), kind: ExprKind::Literal(literal) });
    assert_eq!(tokenizer.next().unwrap().kind, TokenKind::Keyword(Keyword::Then));

    assert_eq!(Expr::try_parse(&mut tokens("end")), Ok(None));
    assert_eq!(Expr::try_parse(&mut tokens("@")), Err(bad_char("@", 0)));
    assert_eq!(Expr::try_parse(&mut tokens("a @")), Err(bad_char("a @", 2)));
    assert_eq!(
        Expr::try_parse(&mut tokens("( end")),
        Err(unexpected(token("( end", 2, 5, TokenKind::Keyword(Keyword::End)), "Expr::try_parse_paren"))
    );
    assert_eq!(
        Expr::try_parse(&mut tokens("- end")),
        Err(unexpected(token("- end", 2, 5, TokenKind::Keyword(Keyword::End)), "Expr::try_parse_unary"))
    );
}

#[test]
fn arrays_and_objects_by_their_first_tokens() {
    let array = ArrayExpr::try_parse(&mut tokens("[ ]")).unwrap().unwrap();
    assert_eq!(array.values.len(), 0);
    assert_eq!(array.slice, span("[ ]", 0, 3));
    let array = ArrayExpr::try_parse(&mut tokens("[a]")).unwrap().unwrap();
    assert_eq!(array.values.len(), 1);
    assert_eq!(array.slice, span("[a]", 0, 3));
    assert_eq!(array.values[0].slice, span("[a]", 1, 2));
    assert_eq!(ArrayExpr::try_parse(&mut tokens("a")), Ok(None));
    assert_eq!(
        ArrayExpr::try_parse(&mut tokens("[ end")),
        Err(unexpected(token("[ end", 2, 5, TokenKind::Keyword(Keyword::End)), "ArrayExpr::try_parse"))
    );
    assert_eq!(ArrayExpr::try_parse(&mut tokens("[ @")), Err(bad_char("[ @", 2)));

    let object = ObjectExpr::try_parse(&mut tokens("{}")).unwrap().unwrap();
    assert_eq!(object.values.len(), 0);
    assert_eq!(object.slice, span("{}", 0, 2));
    let object = ObjectExpr::try_parse(&mut tokens("{ a = 1 }")).unwrap().unwrap();
    assert_eq!(object.values.len(), 1);
    assert_eq!(object.values[0].name, "a");
    assert_eq!(
        ObjectExpr::try_parse(&mut tokens("{ 1 }")),
        Err(unexpected(
            token("{ 1 }", 2, 3, TokenKind::Number(Number::Integer(1))),
            "ObjectExpr::try_parse"
        ))
    );
    assert_eq!(ObjectValue::try_parse(&mut tokens("1")), Ok(None));
    assert_eq!(
        ObjectValue::try_parse(&mut tokens("a 1")),
        Err(unexpected(
            token("a 1", 2, 3, TokenKind::Number(Number::Integer(1))),
            "ObjectValue::try_parse"
        ))
    );
    assert_eq!(
        ObjectValue::try_parse(&mut tokens("a = end")),
        Err(unexpected(
            token("a = end", 4, 7, TokenKind::Keyword(Keyword::End)),
            "ObjectValue::try_parse"
        ))
    );
}

#[test]
fn control_statements_that_two_tokens_decide() {
    let read = |source: &str| ControlStmt::try_parse(&mut tokens(source));
    assert_eq!(
        read("break"),
        Ok(Some(ControlStmt { slice: span("break", 0, 5), kind: ControlKind::Break }))
    );
    assert_eq!(
        read("continue x"),
        Ok(Some(ControlStmt { slice: span("continue x", 0, 8), kind: ControlKind::Continue }))
    );
    assert_eq!(
        read("export abc"),
        Ok(Some(ControlStmt {
            slice: span("export abc", 0, 10),
            kind: ControlKind::Export("abc".to_string())
        }))
    );
    assert_eq!(read("export let"), Ok(None));
    assert_eq!(read("export @"), Err(bad_char("export @", 7)));
    assert_eq!(
        read("return end"),
        Ok(Some(ControlStmt { slice: span("return end", 0, 6), kind: ControlKind::Return(None) }))
    );
    assert!(matches!(read("return 1").unwrap().unwrap().kind, ControlKind::Return(Some(_))));
    assert!(matches!(read("throw 1").unwrap().unwrap().kind, ControlKind::Throw(_)));
    assert_eq!(
        read("throw end"),
        Err(unexpected(
            token("throw end", 6, 9, TokenKind::Keyword(Keyword::End)),
            "ControlStmt::try_parse"
        ))
    );
    assert_eq!(read("x"), Ok(None));
    assert_eq!(read("let"), Ok(None));
}

#[test]
fn loops_and_branches_refuse_what_cannot_follow() {
    let end = |source: &str, at: usize| token(source, at, at + 3, TokenKind::Keyword(Keyword::End));
    assert_eq!(
        WhileStmt::try_parse(&mut tokens("while end")),
        Err(unexpected(end("while end", 6), "WhileStmt::try_parse"))
    );
    assert_eq!(WhileStmt::try_parse(&mut tokens("until @")), Err(bad_char("until @", 6)));
    assert_eq!(WhileStmt::try_parse(&mut tokens("if")), Ok(None));
    assert!(!WhileStmt::try_parse(&mut tokens("while a do b end")).unwrap().unwrap().until);
    assert!(WhileStmt::try_parse(&mut tokens("until a do b end")).unwrap().unwrap().until);
    assert_eq!(
        WhileStmt::try_parse(&mut tokens("while a end")),
        Err(unexpected(end("while a end", 8), "ConditionArm::try_parse_do"))
    );
    assert_eq!(
        WhileStmt::try_parse(&mut tokens("while a do end")),
        Err(unexpected(end("while a do end", 11), "ConditionArm::try_parse_do"))
    );

    assert_eq!(
        IfStmt::try_parse(&mut tokens("if end")),
        Err(unexpected(end("if end", 3), "IfStmt::try_parse"))
    );
    assert_eq!(IfStmt::try_parse(&mut tokens("if a then b end")).unwrap().unwrap().arms.len(), 1);

    assert_eq!(
        ForStmt::try_parse(&mut tokens("for end")),
        Err(unexpected(end("for end", 4), "ForStmt::try_parse"))
    );
    assert_eq!(
        ForStmt::try_parse(&mut tokens("for each end")),
        Err(unexpected(end("for each end", 9), "ForStmt::try_parse"))
    );
    assert_eq!(
        ForStmt::try_parse(&mut tokens("for each x end")),
        Err(unexpected(end("for each x end", 11), "ForStmt::try_parse"))
    );
    assert_eq!(
        ForStmt::try_parse(&mut tokens("for each x in end")),
        Err(unexpected(end("for each x in end", 14), "ForStmt::try_parse"))
    );
    assert_eq!(ForStmt::try_parse(&mut tokens("for each x in y do z end")).unwrap().unwrap().name, "x");

    assert_eq!(
        TryStmt::try_parse(&mut tokens("try end")),
        Err(unexpected(end("try end", 4), "TryStmt::try_parse"))
    );
}

#[test]
fn statements_take_the_kind_that_their_tokens_open() {
    let kind = |source: &str| Stmt::try_parse(&mut tokens(source)).unwrap().unwrap().kind;
    assert!(matches!(kind("break"), StmtKind::Control(_)));
    assert!(matches!(kind("export a"), StmtKind::Control(_)));
    assert!(matches!(kind("export let a"), StmtKind::Variable(_)));
    assert!(matches!(kind("const a"), StmtKind::Variable(_)));
    assert!(matches!(kind("a"), StmtKind::Expr(_)));
    assert_eq!(Stmt::try_parse(&mut tokens("end")), Ok(None));
    assert_eq!(Stmt::try_parse(&mut tokens("export end")), Ok(None));
    assert_eq!(Stmt::try_parse(&mut tokens("export @")), Err(bad_char("export @", 7)));

    let block = Block::try_parse(&mut tokens("a; break end")).unwrap().unwrap();
    assert_eq!(block.stmts.len(), 2);
    assert_eq!(block.stmts[0].slice, span("a; break end", 0, 1));
    assert!(matches!(block.stmts[0].kind, StmtKind::Expr(_)));
    assert_eq!(Block::try_parse(&mut tokens("end")), Ok(None));
}

#[test]
fn a_name_without_a_type_is_read_whole() {
    let mut tokenizer = tokens("abc = 1");
    assert_eq!(
        VariableName::try_parse(&mut tokenizer),
        Ok(Some(VariableName { slice: span("abc = 1", 0, 3), name: "abc".to_string(), ty: None }))
    );
    assert_eq!(tokenizer.next().unwrap().kind, TokenKind::Symbol(Symbol::Assign));
    assert_eq!(VariableName::try_parse(&mut tokens("1")), Ok(None));
    assert_eq!(VariableName::try_parse(&mut tokens("a @")), Err(bad_char("a @", 2)));
    let typed = VariableName::try_parse(&mut tokens("a: b")).unwrap().unwrap();
    assert_eq!(typed.name, "a");
    assert!(typed.ty.is_some());
}

#[test]
fn the_head_of_a_variable_by_its_keywords_and_name() {
    let read = |source: &str| VariableDecl::try_parse(&mut tokens(source));
    let decl = |source: &str, at: usize, export: bool, is_const: bool| VariableDecl {
        slice: span(source, 0, at + 1),
        export,
        is_const,
        param: VariableName { slice: span(source, at, at + 1), name: "x".to_string(), ty: None },
    };
    assert_eq!(read("let x"), Ok(Some(decl("let x", 4, false, false))));
    assert_eq!(read("const x = 1"), Ok(Some(decl("const x = 1", 6, false, true))));
    assert_eq!(read("export let x"), Ok(Some(decl("export let x", 11, true, false))));
    assert_eq!(read("export const x"), Ok(Some(decl("export const x", 13, true, true))));
    assert_eq!(read("x"), Ok(None));
    assert_eq!(read("export x"), Ok(None));
    assert_eq!(read("export @"), Err(bad_char("export @", 7)));
    assert_eq!(
        read("let 1"),
        Err(unexpected(
            token("let 1", 4, 5, TokenKind::Number(Number::Integer(1))),
            "VariableDecl::try_parse"
        ))
    );
    assert_eq!(
        read("export const end"),
        Err(unexpected(
            token("export const end", 13, 16, TokenKind::Keyword(Keyword::End)),
            "VariableDecl::try_parse"
        ))
    );
    assert_eq!(VariableDecl::try_parse_let(&mut tokens("const x")), Ok(None));
    assert_eq!(VariableDecl::try_parse_const(&mut tokens("let x")), Ok(None));

    let var = VariableImpl::try_parse(&mut tokens("export let x = 1")).unwrap().unwrap();
    assert_eq!(var.decl, decl("export let x = 1", 11, true, false));
    assert!(var.init.is_some());
}

#[test]
fn the_head_of_a_function_by_its_name() {
    let source = "function f() end";
    let mut tokenizer = tokens(source);
    let decl = FunctionDecl::try_parse(&mut tokenizer).unwrap().unwrap();
    assert_eq!(
        decl,
        FunctionDecl {
            slice: span(source, 0, 12),
            base: None,
            name: "f".to_string(),
            generics: None,
            this: false,
            this_ty: None,
            params: None,
            ty: None,
        }
    );
    assert_eq!(tokenizer.next().unwrap().kind, TokenKind::Keyword(Keyword::End));

    let source = "export function g() x";
    let decl = FunctionDecl::try_parse_with_export(&mut tokens(source)).unwrap().unwrap();
    assert_eq!(decl.slice, span(source, 0, 19));
    assert_eq!(decl.name, "g");
    assert_eq!(decl.base, None);

    let decl = FunctionDecl::try_parse(&mut tokens("function a.b(c)")).unwrap().unwrap();
    assert_eq!(decl.base, Some("a".to_string()));
    assert_eq!(decl.name, "b");

    assert_eq!(FunctionDecl::try_parse(&mut tokens("export function f()")), Ok(None));
    assert_eq!(FunctionDecl::try_parse_with_export(&mut tokens("function f()")), Ok(None));
    assert_eq!(
        FunctionDecl::try_parse(&mut tokens("function (")),
        Err(unexpected(
            token("function (", 9, 10, TokenKind::Symbol(Symbol::ParenOpen)),
            "FunctionDecl::parse_base"
        ))
    );
    assert_eq!(FunctionDecl::try_parse(&mut tokens("function @")), Err(bad_char("function @", 9)));

    let function = FunctionImpl::try_parse(&mut tokens("export function f() a end")).unwrap().unwrap();
    assert!(function.export);
    assert_eq!(function.decl.name, "f");
    let function = FunctionImpl::try_parse(&mut tokens("function f() a end")).unwrap().unwrap();
    assert!(!function.export);
    assert_eq!(FunctionImpl::try_parse(&mut tokens("export let")), Ok(None));
}

#[test]
fn the_head_of_a_class_by_its_keywords_and_name() {
    let class = ClassDecl::try_parse(&mut tokens("class A")).unwrap().unwrap();
    assert_eq!(class.name, "A");
    assert!(!class.export);
    let class = ClassDecl::try_parse(&mut tokens("export class B extends A")).unwrap().unwrap();
    assert_eq!(class.name, "B");
    assert!(class.export);
    assert_eq!(ClassDecl::try_parse(&mut tokens("export let")), Ok(None));
    assert_eq!(
        ClassDecl::try_parse(&mut tokens("class 1")),
        Err(unexpected(
            token("class 1", 6, 7, TokenKind::Number(Number::Integer(1))),
            "ClassDecl::try_parse"
        ))
    );
    assert_eq!(ClassDecl::try_parse(&mut tokens("export class @")), Err(bad_char("export class @", 13)));
}

#[test]
fn imports_by_their_tokens() {
    let source = "import \"a.bur\" x";
    let mut tokenizer = tokens(source);
    assert_eq!(
        DirectImport::try_parse(&mut tokenizer),
        Ok(Some(DirectImport { slice: span(source, 0, 14), file: "a.bur".to_string() }))
    );
    assert_eq!(tokenizer.next().unwrap().kind, ident("x"));
    assert_eq!(DirectImport::try_parse(&mut tokens("from")), Ok(None));
    assert_eq!(
        DirectImport::try_parse(&mut tokens("import a")),
        Err(unexpected(token("import a", 7, 8, ident("a")), "DirectImport::try_parse"))
    );
    assert_eq!(DirectImport::try_parse(&mut tokens("import @")), Err(bad_char("import @", 7)));

    let value = |source: &str| FromInportValue::try_parse(&mut tokens(source));
    assert_eq!(
        value("everything as m"),
        Ok(Some(FromInportValue {
            slice: span("everything as m", 0, 15),
            kind: FromImportKind::Everything { name: "m".to_string() }
        }))
    );
    assert_eq!(
        value("a as b"),
        Ok(Some(FromInportValue {
            slice: span("a as b", 0, 6),
            kind: FromImportKind::Single { name: "a".to_string(), rename: Some("b".to_string()) }
        }))
    );
    assert_eq!(
        value("a b"),
        Ok(Some(FromInportValue {
            slice: span("a b", 0, 1),
            kind: FromImportKind::Single { name: "a".to_string(), rename: None }
        }))
    );
    assert_eq!(value("1"), Ok(None));
    assert_eq!(
        value("everything m"),
        Err(unexpected(token("everything m", 11, 12, ident("m")), "FromInportValue::try_parse"))
    );
    assert_eq!(
        value("everything as 1"),
        Err(unexpected(
            token("everything as 1", 14, 15, TokenKind::Number(Number::Integer(1))),
            "FromInportValue::try_parse"
        ))
    );
    assert_eq!(
        value("a as 1"),
        Err(unexpected(
            token("a as 1", 5, 6, TokenKind::Number(Number::Integer(1))),
            "FromInportValue::try_parse_as"
        ))
    );
    assert_eq!(value("a @"), Err(bad_char("a @", 2)));

    let source = "from \"a\" import";
    let from = FromImport::try_parse(&mut tokens(source)).unwrap().unwrap();
    assert_eq!(from.file, "a");
    assert_eq!(from.values.len(), 0);
    assert_eq!(from.slice, span(source, 0, 15));
    let from = FromImport::try_parse(&mut tokens("from \"a\" import x as y z")).unwrap().unwrap();
    assert_eq!(from.values.len(), 2);
    assert_eq!(
        from.values[0].kind,
        FromImportKind::Single { name: "x".to_string(), rename: Some("y".to_string()) }
    );
    assert_eq!(
        FromImport::try_parse(&mut tokens("from a")),
        Err(unexpected(token("from a", 5, 6, ident("a")), "FromImport::try_parse"))
    );
    assert_eq!(
        FromImport::try_parse(&mut tokens("from \"a\" x")),
        Err(unexpected(token("from \"a\" x", 9, 10, ident("x")), "FromImport::try_parse"))
    );

    let source = "import \"a\"";
    assert_eq!(
        ImportDecl::try_parse(&mut tokens(source)),
        Ok(Some(ImportDecl {
            slice: span(source, 0, 10),
            kind: ImportKind::Direct(DirectImport { slice: span(source, 0, 10), file: "a".to_string() })
        }))
    );
    assert!(matches!(
        ImportDecl::try_parse(&mut tokens("from \"a\" import x")).unwrap().unwrap().kind,
        ImportKind::From(_)
    ));
    assert_eq!(ImportDecl::try_parse(&mut tokens("let")), Ok(None));
}

#[test]
fn declarations_for_tools_by_what_follows_declare() {
    let kind = |source: &str| IdeDecl::try_parse(&mut tokens(source)).unwrap().unwrap().kind;
    assert!(matches!(kind("declare class A"), IdeDeclKind::Class(_)));
    assert!(matches!(kind("declare export class A"), IdeDeclKind::Class(_)));
    assert!(matches!(kind("declare let a"), IdeDeclKind::Variable(_)));
    assert!(matches!(kind("declare const a"), IdeDeclKind::Variable(_)));
    assert!(matches!(kind("declare function f()"), IdeDeclKind::Function(_)));
    assert!(matches!(kind("declare module \"m\" is end"), IdeDeclKind::Module(_)));
    assert_eq!(IdeDecl::try_parse(&mut tokens("let")), Ok(None));
    assert_eq!(
        IdeDecl::try_parse(&mut tokens("declare x")),
        Err(unexpected(token("declare x", 8, 9, ident("x")), "IdeDecl::try_parse"))
    );
    assert_eq!(IdeDecl::try_parse(&mut tokens("declare @")), Err(bad_char("declare @", 8)));

    let module = IdeModule::try_parse(&mut tokens("module \"m\" is let a end")).unwrap().unwrap();
    assert_eq!(module.name, "m");
    assert_eq!(module.values.len(), 1);
    assert_eq!(
        IdeModule::try_parse(&mut tokens("module m")),
        Err(unexpected(token("module m", 7, 8, ident("m")), "IdeModule::try_parse"))
    );
    assert_eq!(
        IdeModule::try_parse(&mut tokens("module \"m\" end")),
        Err(unexpected(
            token("module \"m\" end", 11, 14, TokenKind::Keyword(Keyword::End)),
            "IdeModule::try_parse"
        ))
    );
}

#[test]
fn a_type_that_one_token_spells() {
    let read = |source: &str| Type::try_parse(&mut tokens(source)).unwrap().unwrap();
    assert_eq!(read("class x"), Type { slice: span("class x", 0, 5), kind: TypeKind::Class });
    assert_eq!(read("this"), Type { slice: span("this", 0, 4), kind: TypeKind::This });
    assert_eq!(read("none ="), Type { slice: span("none =", 0, 4), kind: TypeKind::NoneType });
    let named = read("number =");
    assert_eq!(named.slice, span("number =", 0, 6));
    match named.kind {
        TypeKind::Value(value) => {
            assert_eq!(value.name, "number");
            assert_eq!(value.slice, span("number =", 0, 6));
            assert_eq!(value.generics.len(), 0);
        }
        other => panic!("{:?}", other),
    }
    assert!(matches!(read("a or b").kind, TypeKind::Or(_)));
    assert!(matches!(read("a and b").kind, TypeKind::And(_)));
    assert!(matches!(read("function()").kind, TypeKind::Function(_)));
    assert!(matches!(read("prototype[a]").kind, TypeKind::Prototype(_)));
    assert_eq!(Type::try_parse(&mut tokens("1")), Ok(None));
    assert_eq!(
        Type::try_parse(&mut tokens("prototype a")),
        Err(unexpected(token("prototype a", 10, 11, ident("a")), "Type::try_parse_prototype"))
    );
    assert_eq!(
        Type::try_parse(&mut tokens("( 1")),
        Err(unexpected(
            token("( 1", 2, 3, TokenKind::Number(Number::Integer(1))),
            "Type::try_parse_paren"
        ))
    );
    assert_eq!(
        Type::try_parse(&mut tokens("a[1")),
        Err(unexpected(
            token("a[1", 2, 3, TokenKind::Number(Number::Integer(1))),
            "Type::try_parse_value"
        ))
    );
    assert_eq!(
        FunctionType::try_parse(&mut tokens("function a")),
        Err(unexpected(token("function a", 9, 10, ident("a")), "FunctionType::try_parse"))
    );
}

#[test]
fn a_module_by_its_first_token() {
    let empty = ParseTree::try_parse(&mut tokens("  ")).unwrap().unwrap();
    assert_eq!(empty.imports.len(), 0);
    assert_eq!(empty.functions.len(), 0);
    assert_eq!(empty.classes.len(), 0);
    assert_eq!(empty.stmts.len(), 0);
    assert_eq!(empty.slice, span("  ", 2, 2));
    assert_eq!(
        ParseTree::try_parse(&mut tokens(" )")),
        Err(unexpected(token(" )", 1, 2, TokenKind::Symbol(Symbol::ParenClose)), "ParseTree::try_parse"))
    );
    assert_eq!(ParseTree::try_parse(&mut tokens("@")), Err(bad_char("@", 0)));
    assert_eq!(ParseTree::try_parse(&mut tokens("export @")), Err(bad_char("export @", 7)));
    assert_eq!(
        ParseTree::try_parse(&mut tokens("export )")),
        Err(unexpected(
            token("export )", 0, 6, TokenKind::Keyword(Keyword::Export)),
            "ParseTree::try_parse"
        ))
    );
}

#[test]
fn compiling_by_the_first_token() {
    let module = compile("".into()).unwrap();
    assert_eq!(module.functions.len(), 0);
    assert_eq!(module.init.body.len(), 0);
    assert_eq!(module.init.params.len(), 0);
    let module = compile("# nothing\n".into()).unwrap();
    assert_eq!(module.init.body.len(), 0);
    assert_eq!(
        compile("end".into()),
        Err(BytecodeGenerationError::ParserError(unexpected(
            token("end", 0, 3, TokenKind::Keyword(Keyword::End)),
            "ParseTree::try_parse"
        )))
    );
    assert_eq!(
        compile(" $".into()),
        Err(BytecodeGenerationError::ParserError(bad_char(" $", 1)))
    );
}

#[test]
fn access_arms_by_their_first_tokens() {
    let base = || Expr::try_parse(&mut tokens("a")).unwrap().unwrap();
    let read = |source: &str| {
        let mut tokenizer = tokens(source);
        tokenizer.next().unwrap();
        let base = Expr { slice: span(source, 0, 1), ..base() };
        AccessExpr::try_parse(&mut tokenizer, base)
    };
    let first = |source: &str| read(source).unwrap().unwrap().access.remove(0).kind;
    assert_eq!(first("a.b"), AccessKind::Ident("b".to_string()));
    assert_eq!(first("a.prototype"), AccessKind::Prototype);
    assert!(matches!(first("a[1].c"), AccessKind::Index(_)));
    assert!(matches!(first("a()"), AccessKind::Invoke(_)));
    assert!(matches!(first("a(b)"), AccessKind::Invoke(_)));
    assert!(matches!(first("a = 1"), AccessKind::Assign(_)));
    assert_eq!(read("a = b . c = d").unwrap().unwrap().access.len(), 1);
    let chain = read("a.b").unwrap().unwrap();
    assert_eq!(chain.base.slice, span("a.b", 0, 1));
    assert_eq!(chain.slice, span("a.b", 0, 3));

    let same = read("a then").unwrap().unwrap_err();
    assert_eq!(same.slice, span("a then", 0, 1));
    let number = |source: &str, at: usize| token(source, at, at + 1, TokenKind::Number(Number::Integer(1)));
    let end = |source: &str, at: usize| token(source, at, at + 3, TokenKind::Keyword(Keyword::End));
    assert_eq!(read("a.1"), Err(unexpected(number("a.1", 2), "AccessExpr::try_parse")));
    assert_eq!(read("a[end"), Err(unexpected(end("a[end", 2), "AccessExpr::try_parse")));
    assert_eq!(read("a(end"), Err(unexpected(end("a(end", 2), "AccessExpr::try_parse")));
    assert_eq!(read("a = end"), Err(unexpected(end("a = end", 4), "AccessExpr::try_parse")));
    assert_eq!(read("a. @"), Err(bad_char("a. @", 3)));
    assert_eq!(read("a @"), Err(bad_char("a @", 2)));
}

#[test]
fn operators_by_their_first_tokens() {
    let read = |source: &str| Expr::try_parse(&mut tokens(source));
    match read("- a").unwrap().unwrap() {
        Expr { slice, kind: ExprKind::UnaryOp(unary) } => {
            assert_eq!(unary.op, UnaryOpKind::Sub);
            assert_eq!(unary.slice, slice);
            assert_eq!(slice, span("- a", 0, 3));
        }
        other => panic!("{:?}", other),
    }
    match Expr::try_parse_unary(&mut tokens("not + a")).unwrap().unwrap().kind {
        ExprKind::UnaryOp(unary) => assert_eq!(unary.op, UnaryOpKind::Not),
        other => panic!("{:?}", other),
    }
    assert!(matches!(read("a + b").unwrap().unwrap().kind, ExprKind::BinOp(_)));
    assert!(matches!(read("a is not b or c").unwrap().unwrap().kind, ExprKind::BinOp(_)));
    let end = |source: &str, at: usize| token(source, at, at + 3, TokenKind::Keyword(Keyword::End));
    assert_eq!(read("a + end"), Err(unexpected(end("a + end", 4), "Expr::try_parse_binop")));
    assert_eq!(read("a is end"), Err(unexpected(end("a is end", 5), "Expr::try_parse_binop")));
    assert_eq!(read("a is not end"), Err(unexpected(end("a is not end", 9), "Expr::try_parse_binop")));
    assert_eq!(read("a * @"), Err(bad_char("a * @", 4)));
    assert_eq!(read("a is @"), Err(bad_char("a is @", 5)));
}

fn variable(source: &str, start: usize, end: usize) -> Expr {
    let slice = span(source, start, end);
    let kind = LiteralExprKind::Variable(source[start..end].to_string());
    Expr { slice: slice.clone(), kind: ExprKind::Literal(LiteralExpr { slice, kind }) }
}

fn one(source: &str, at: usize) -> Expr {
    let slice = span(source, at, at + 1);
    let kind = LiteralExprKind::Number(Number::Integer(1));
    Expr { slice: slice.clone(), kind: ExprKind::Literal(LiteralExpr { slice, kind }) }
}

#[test]
fn simple_statements_are_read_whole() {
    let source = "return x end";
    let mut tokenizer = tokens(source);
    assert_eq!(
        Stmt::try_parse(&mut tokenizer),
        Ok(Some(Stmt {
            slice: span(source, 0, 8),
            kind: StmtKind::Control(ControlStmt {
                slice: span(source, 0, 8),
                kind: ControlKind::Return(Some(variable(source, 7, 8))),
            }),
        }))
    );
    assert_eq!(tokenizer.next().unwrap().kind, TokenKind::Keyword(Keyword::End));

    let source = "throw 1";
    assert_eq!(
        ControlStmt::try_parse(&mut tokens(source)),
        Ok(Some(ControlStmt { slice: span(source, 0, 7), kind: ControlKind::Throw(one(source, 6)) }))
    );

    let source = "x end";
    let mut tokenizer = tokens(source);
    assert_eq!(
        Stmt::try_parse(&mut tokenizer),
        Ok(Some(Stmt { slice: span(source, 0, 1), kind: StmtKind::Expr(variable(source, 0, 1)) }))
    );
    assert_eq!(tokenizer.next().unwrap().kind, TokenKind::Keyword(Keyword::End));

    let head = |source: &str, at: usize, export: bool, is_const: bool| VariableDecl {
        slice: span(source, 0, at + 1),
        export,
        is_const,
        param: VariableName { slice: span(source, at, at + 1), name: "x".to_string(), ty: None },
    };
    let source = "let x = 1 end";
    let mut tokenizer = tokens(source);
    let var = VariableImpl {
        slice: span(source, 0, 9),
        decl: head(source, 4, false, false),
        init: Some(one(source, 8)),
    };
    assert_eq!(VariableImpl::try_parse(&mut tokenizer), Ok(Some(var)));
    assert_eq!(tokenizer.next().unwrap().kind, TokenKind::Keyword(Keyword::End));

    let source = "export const x end";
    let mut tokenizer = tokens(source);
    let var = VariableImpl { slice: span(source, 0, 14), decl: head(source, 13, true, true), init: None };
    assert_eq!(
        Stmt::try_parse(&mut tokenizer),
        Ok(Some(Stmt { slice: span(source, 0, 14), kind: StmtKind::Variable(var) }))
    );
    assert_eq!(tokenizer.next().unwrap().kind, TokenKind::Keyword(Keyword::End));

    assert_eq!(
        VariableImpl::try_parse(&mut tokens("let x = end")),
        Err(unexpected(
            token("let x = end", 8, 11, TokenKind::Keyword(Keyword::End)),
            "VariableImpl::try_parse"
        ))
    );
    assert_eq!(VariableImpl::try_parse(&mut tokens("let x @")), Err(bad_char("let x @", 6)));

    let source = "a = 1 }";
    let mut tokenizer = tokens(source);
    assert_eq!(
        ObjectValue::try_parse(&mut tokenizer),
        Ok(Some(ObjectValue { slice: span(source, 0, 5), name: "a".to_string(), value: one(source, 4) }))
    );
    assert_eq!(tokenizer.next().unwrap().kind, TokenKind::Symbol(Symbol::BraceClose));
}

#[test]
fn conditions_that_are_lone_literals() {
    let source = "while x do y end";
    let stmt = WhileStmt::try_parse(&mut tokens(source)).unwrap().unwrap();
    assert_eq!(stmt.arm.condition, variable(source, 6, 7));
    let source = "if x then y else z end";
    let stmt = IfStmt::try_parse(&mut tokens(source)).unwrap().unwrap();
    assert_eq!(stmt.arms[0].condition, variable(source, 3, 4));
    assert!(stmt.else_arm.is_some());
    let source = "for each a in b do c end";
    let stmt = ForStmt::try_parse(&mut tokens(source)).unwrap().unwrap();
    assert_eq!(stmt.expr, variable(source, 14, 15));

    let end = |source: &str, at: usize| token(source, at, at + 3, TokenKind::Keyword(Keyword::End));
    assert_eq!(
        IfStmt::try_parse(&mut tokens("if x end")),
        Err(unexpected(end("if x end", 5), "ConditionArm::try_parse_else"))
    );
    assert_eq!(
        IfStmt::try_parse(&mut tokens("if x then end")),
        Err(unexpected(end("if x then end", 10), "ConditionArm::try_parse_else"))
    );
    assert_eq!(
        ForStmt::try_parse(&mut tokens("for each a in b end")),
        Err(unexpected(end("for each a in b end", 16), "ForStmt::try_parse"))
    );
    assert_eq!(
        ForStmt::try_parse(&mut tokens("for each a in b do end")),
        Err(unexpected(end("for each a in b do end", 19), "ForStmt::try_parse"))
    );
}

#[test]
fn plain_classes_are_read_whole() {
    let class = |source: &str, end: usize, export: bool, extends: Option<&str>| ClassDecl {
        slice: span(source, 0, end),
        export,
        name: "A".to_string(),
        generics: None,
        extends: extends.map(|parent| parent.to_string()),
        params: None,
    };
    let read = |source: &str| ClassDecl::try_parse(&mut tokens(source));
    assert_eq!(read("class A x"), Ok(Some(class("class A x", 7, false, None))));
    assert_eq!(read("export class A"), Ok(Some(class("export class A", 14, true, None))));
    let source = "class A extends B let";
    let mut tokenizer = tokens(source);
    assert_eq!(ClassDecl::try_parse(&mut tokenizer), Ok(Some(class(source, 17, false, Some("B")))));
    assert_eq!(tokenizer.next().unwrap().kind, TokenKind::Keyword(Keyword::Let));
    assert_eq!(
        read("class A extends 1"),
        Err(unexpected(
            token("class A extends 1", 16, 17, TokenKind::Number(Number::Integer(1))),
            "ClassDecl::try_parse"
        ))
    );
}

#[test]
fn values_behind_the_first_token_of_an_arm() {
    let source = "[x]";
    let mut tokenizer = tokens(source);
    let array = ArrayExpr::try_parse(&mut tokenizer).unwrap().unwrap();
    assert_eq!(array.values, vec![variable(source, 1, 2)]);
    assert_eq!(array.slice, span(source, 0, 3));
    assert_eq!(tokenizer.next().unwrap().kind, TokenKind::Eof);
    let array = ArrayExpr::try_parse(&mut tokens("[x, 1 + 2]")).unwrap().unwrap();
    assert_eq!(array.values.len(), 2);
    assert_eq!(array.values[0], variable("[x, 1 + 2]", 1, 2));

    let arm = |source: &str| {
        let mut tokenizer = tokens(source);
        tokenizer.next().unwrap();
        let chain = AccessExpr::try_parse(&mut tokenizer, variable(source, 0, 1)).unwrap().unwrap();
        assert_eq!(*chain.base, variable(source, 0, 1));
        chain.access.into_iter().next().unwrap().kind
    };
    match arm("a[1]") {
        AccessKind::Index(index) => assert_eq!(*index, one("a[1]", 2)),
        other => panic!("{:?}", other),
    }
    match arm("a(b, c)") {
        AccessKind::Invoke(values) => {
            assert_eq!(values.len(), 2);
            assert_eq!(values[0], variable("a(b, c)", 2, 3));
        }
        other => panic!("{:?}", other),
    }
    match arm("a = 1") {
        AccessKind::Assign(value) => assert_eq!(*value, one("a = 1", 4)),
        other => panic!("{:?}", other),
    }
}

#[test]
fn first_fields_and_bare_function_types() {
    let source = "{ a = 1, b = a + 1 }";
    let object = ObjectExpr::try_parse(&mut tokens(source)).unwrap().unwrap();
    assert_eq!(object.values.len(), 2);
    assert_eq!(
        object.values[0],
        ObjectValue { slice: span(source, 2, 7), name: "a".to_string(), value: one(source, 6) }
    );

    let source = "function() =";
    let mut tokenizer = tokens(source);
    let function = FunctionType::try_parse(&mut tokenizer).unwrap().unwrap();
    assert_eq!(function.params.len(), 0);
    assert!(function.ret.is_none());
    assert_eq!(function.slice, span(source, 0, 10));
    assert_eq!(tokenizer.next().unwrap().kind, TokenKind::Symbol(Symbol::Assign));
    let function = FunctionType::try_parse(&mut tokens("function() none")).unwrap().unwrap();
    assert_eq!(function.params.len(), 0);
    assert!(function.ret.is_some());
    assert_eq!(FunctionType::try_parse(&mut tokens("function() @")), Err(bad_char("function() @", 11)));

    let function = FunctionType::try_parse(&mut tokens("function(a) =")).unwrap().unwrap();
    assert_eq!(function.params.len(), 1);
    assert_eq!(function.params[0].slice, span("function(a) =", 9, 10));
    match &function.params[0].kind {
        TypeKind::Value(value) => assert_eq!(value.name, "a"),
        other => panic!("{:?}", other),
    }
}
