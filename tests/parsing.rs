use trilc::lexer::Lexer;
use trilc::nodes::{BinOp, Expression, FunctionCall, Literal, Statement, TopLevel, UnOp};
use trilc::parser::{ParseFault, Parser};
use trilc::types::{FunctionType, PrimitiveType, Type};

fn parse(src: &str) -> Result<Vec<TopLevel>, ParseFault> {
    Parser::new(Lexer::new(src.to_string()).lex().unwrap()).parse()
}

fn int_ty() -> Type {
    Type::Primitive(PrimitiveType::Int)
}

fn var(n: &str) -> Expression {
    Expression::Variable(n.to_string(), Type::Unknown)
}

fn bin(op: BinOp, l: Expression, r: Expression) -> Expression {
    Expression::BinExpr(op, Box::new(l), Box::new(r), Type::Unknown)
}

fn body_of(src: &str) -> Vec<Statement> {
    match parse(src).unwrap().remove(0) {
        TopLevel::FnDecl(_, _, _, body) => body,
        other => panic!("not a function: {:?}", other),
    }
}

#[test]
fn add_function_tree() {
    let tree = parse("fn add(a: Int, b: Int) -> Int { return a + b; }").unwrap();
    let want = vec![TopLevel::FnDecl(
        "add".to_string(),
        FunctionType::new(Some(Box::new(int_ty())), vec![Box::new(int_ty()), Box::new(int_ty())]),
        vec!["a".to_string(), "b".to_string()],
        vec![Statement::Return(Some(bin(BinOp::Add, var("a"), var("b"))))],
    )];
    assert_eq!(tree, want);
}

#[test]
fn same_level_operators_group_to_the_right() {
    let body = body_of("fn f() { return a - b - c; }");
    assert_eq!(body, vec![Statement::Return(Some(bin(BinOp::Sub, var("a"), bin(BinOp::Sub, var("b"), var("c")))))]);
}

#[test]
fn precedence_of_levels() {
    let body = body_of("fn f() { return a == b + c * d < e; }");
    let want = bin(
        BinOp::Equal,
        var("a"),
        bin(BinOp::Lesser, bin(BinOp::Add, var("b"), bin(BinOp::Mul, var("c"), var("d"))), var("e")),
    );
    assert_eq!(body, vec![Statement::Return(Some(want))]);
}

#[test]
fn negation_parentheses_and_calls() {
    let body = body_of("fn f() { return -(x + 1) * g(2, \"s\", true); }");
    let neg = Expression::UnaryExpr(
        UnOp::ArithmeticNeg,
        Box::new(bin(BinOp::Add, var("x"), Expression::Literal(Literal::Int(1)))),
        Type::Unknown,
    );
    let call = Expression::FnCall(FunctionCall::new(
        "g".to_string(),
        vec![
            Expression::Literal(Literal::Int(2)),
            Expression::Literal(Literal::String("s".to_string())),
            Expression::Literal(Literal::Bool(true)),
        ],
    ));
    assert_eq!(body, vec![Statement::Return(Some(bin(BinOp::Mul, neg, call)))]);
}

#[test]
fn statements_of_every_kind() {
    let body = body_of(
        "fn f() { let x: Int = 1; let y = 2.5; x = 3; g(); if x < 2 { return; } else { x = 1; } while false { } }",
    );
    let want = vec![
        Statement::Assignment("x".to_string(), int_ty(), Expression::Literal(Literal::Int(1))),
        Statement::Assignment("y".to_string(), Type::Unknown, Expression::Literal(Literal::Float("2.5".to_string()))),
        Statement::Mutate("x".to_string(), Expression::Literal(Literal::Int(3))),
        Statement::FnCall(FunctionCall::new("g".to_string(), vec![])),
        Statement::If(
            bin(BinOp::Lesser, var("x"), Expression::Literal(Literal::Int(2))),
            vec![Statement::Return(None)],
            vec![Statement::Mutate("x".to_string(), Expression::Literal(Literal::Int(1)))],
        ),
        Statement::While(Expression::Literal(Literal::Bool(false)), vec![]),
    ];
    assert_eq!(body, want);
}

#[test]
fn if_without_else_has_empty_else_block() {
    let body = body_of("fn f() { if true { g(); } }");
    assert_eq!(
        body,
        vec![Statement::If(
            Expression::Literal(Literal::Bool(true)),
            vec![Statement::FnCall(FunctionCall::new("g".to_string(), vec![]))],
            vec![],
        )]
    );
}

#[test]
fn extern_declaration() {
    let tree = parse("extern fn puts(String, Int) -> Int; fn main() { }").unwrap();
    assert_eq!(tree.len(), 2);
    assert_eq!(
        tree[0],
        TopLevel::Extern(
            "puts".to_string(),
            FunctionType::new(
                Some(Box::new(int_ty())),
                vec![Box::new(Type::Primitive(PrimitiveType::String)), Box::new(int_ty())]
            )
        )
    );
    assert_eq!(tree[1], TopLevel::FnDecl("main".to_string(), FunctionType::new(None, vec![]), vec![], vec![]));
}

#[test]
fn unexpected_token_carries_its_position() {
    assert_eq!(parse("fn 1"), Err(ParseFault::UnexpectedToken(1, 4)));
    assert_eq!(parse("fn f() {\n  let = 2; }"), Err(ParseFault::UnexpectedToken(2, 7)));
}

#[test]
fn unexpected_end() {
    assert_eq!(parse("fn f("), Err(ParseFault::UnexpectedEnd));
    assert_eq!(parse("fn f() { return 1;"), Err(ParseFault::UnexpectedEnd));
}

#[test]
fn empty_program() {
    assert_eq!(parse(""), Ok(vec![]));
}
