use trilc::codegen::{BlockRole, CodeGenerator, LowerFault, NumKind, Request};
use trilc::lexer::Lexer;
use trilc::nodes::{BinOp, Expression, Literal, Statement, TopLevel};
use trilc::parser::Parser;
use trilc::typefiller::TypeFiller;
use trilc::types::{FunctionType, PrimitiveType, StructType, Type};

fn lower(src: &str) -> Result<Vec<Request>, LowerFault> {
    let tree = Parser::new(Lexer::new(src.to_string()).lex().unwrap()).parse().unwrap();
    let (typed, sigs) = TypeFiller::new(tree).fill().unwrap();
    CodeGenerator::new(typed, sigs).generate()
}

fn int_ty() -> Type {
    Type::Primitive(PrimitiveType::Int)
}

fn blocks(reqs: &[Request]) -> usize {
    reqs.iter().filter(|r| matches!(r, Request::AppendBlock(_))).count()
}

#[test]
fn add_function_lowers_to_a_sum() {
    let reqs = lower("fn add(a: Int, b: Int) -> Int { return a + b; }").unwrap();
    let want = vec![
        Request::DeclareFunction(
            "add".to_string(),
            FunctionType::new(Some(Box::new(int_ty())), vec![Box::new(int_ty()), Box::new(int_ty())]),
        ),
        Request::AppendBlock(BlockRole::Entry),
        Request::PositionAtEnd(1),
        Request::Alloca(int_ty(), "a".to_string()),
        Request::Param(0),
        Request::Store(3, 4),
        Request::Alloca(int_ty(), "b".to_string()),
        Request::Param(1),
        Request::Store(6, 7),
        Request::Load(int_ty(), 3, "a".to_string()),
        Request::Load(int_ty(), 6, "b".to_string()),
        Request::Binary(NumKind::Int, BinOp::Add, 9, 10),
        Request::Return(Some(11)),
    ];
    assert_eq!(reqs, want);
}

#[test]
fn if_without_else_makes_three_blocks() {
    let reqs = lower("fn f(x: Int) { if x < 1 { } }").unwrap();
    let want = vec![
        Request::DeclareFunction("f".to_string(), FunctionType::new(None, vec![Box::new(int_ty())])),
        Request::AppendBlock(BlockRole::Entry),
        Request::PositionAtEnd(1),
        Request::Alloca(int_ty(), "x".to_string()),
        Request::Param(0),
        Request::Store(3, 4),
        Request::Load(int_ty(), 3, "x".to_string()),
        Request::ConstInt(1),
        Request::Binary(NumKind::Int, BinOp::Lesser, 6, 7),
        Request::AppendBlock(BlockRole::Then),
        Request::AppendBlock(BlockRole::Else),
        Request::AppendBlock(BlockRole::Merge),
        Request::CondBranch(8, 9, 10),
        Request::PositionAtEnd(9),
        Request::Branch(11),
        Request::PositionAtEnd(10),
        Request::Branch(11),
        Request::PositionAtEnd(11),
        Request::Return(None),
    ];
    assert_eq!(reqs, want);
}

#[test]
fn while_makes_three_blocks() {
    let reqs = lower("fn f() { let i = 0; while i < 3 { i = i + 1; } }").unwrap();
    assert_eq!(blocks(&reqs), 4);
    let at = reqs.iter().position(|r| *r == Request::AppendBlock(BlockRole::WhileCond)).unwrap();
    assert_eq!(reqs[at + 1], Request::AppendBlock(BlockRole::WhileLoop));
    assert_eq!(reqs[at + 2], Request::AppendBlock(BlockRole::AfterWhile));
    assert_eq!(reqs[at + 3], Request::Branch(at));
    assert_eq!(reqs[at + 4], Request::PositionAtEnd(at));
    let cond = reqs.iter().position(|r| matches!(r, Request::CondBranch(..))).unwrap();
    assert!(matches!(reqs[cond], Request::CondBranch(_, l, a) if l == at + 1 && a == at + 2));
    let n = reqs.len();
    assert_eq!(reqs[n - 3], Request::Branch(at));
    assert_eq!(reqs[n - 2], Request::PositionAtEnd(at + 2));
    assert_eq!(reqs[n - 1], Request::Return(None));
}

#[test]
fn nested_constructs_each_add_three_blocks() {
    let reqs = lower("fn f(x: Int) { if x > 0 { while x > 0 { x = x - 1; } } else { if true { } } }").unwrap();
    assert_eq!(blocks(&reqs), 1 + 3 * 3);
}

#[test]
fn call_passes_one_value_per_parameter() {
    let reqs = lower("extern fn put(Int, Float) -> Int; fn f() { put(1, 2.5); }").unwrap();
    let call = reqs.iter().find(|r| matches!(r, Request::Call(..))).unwrap();
    match call {
        Request::Call(name, args) => {
            assert_eq!(name, "put");
            assert_eq!(args.len(), 2);
            assert_eq!(reqs[args[0]], Request::ConstInt(1));
            assert_eq!(reqs[args[1]], Request::ConstFloat("2.5".to_string()));
        },
        _ => unreachable!(),
    }
}

#[test]
fn void_function_gets_a_closing_return() {
    let reqs = lower("fn f() { }").unwrap();
    assert_eq!(
        reqs,
        vec![
            Request::DeclareFunction("f".to_string(), FunctionType::new(None, vec![])),
            Request::AppendBlock(BlockRole::Entry),
            Request::PositionAtEnd(1),
            Request::Return(None),
        ]
    );
    let reqs = lower("fn g() { return; }").unwrap();
    assert_eq!(reqs.iter().filter(|r| **r == Request::Return(None)).count(), 1);
}

#[test]
fn literals_and_negation() {
    let reqs = lower("fn f() -> Float { let s = \"hi\"; let b = true; return -1.5; }").unwrap();
    assert!(reqs.contains(&Request::ConstString("hi".to_string())));
    assert!(reqs.contains(&Request::ConstBool(true)));
    let neg = reqs.iter().position(|r| matches!(r, Request::Neg(NumKind::Float, _))).unwrap();
    assert_eq!(reqs[neg - 1], Request::ConstFloat("1.5".to_string()));
    assert_eq!(reqs[neg], Request::Neg(NumKind::Float, neg - 1));
}

#[test]
fn float_comparison_and_bool_equality() {
    let reqs = lower("fn f(a: Float, p: Bool) -> Bool { return (a >= 1.0) == p; }").unwrap();
    assert!(reqs.iter().any(|r| matches!(r, Request::Binary(NumKind::Float, BinOp::GEq, _, _))));
    assert!(reqs.iter().any(|r| matches!(r, Request::Binary(NumKind::Bool, BinOp::Equal, _, _))));
}

#[test]
fn string_arithmetic_is_unsupported() {
    assert_eq!(lower("fn f() -> String { return \"a\" + \"b\"; }"), Err(LowerFault::UnsupportedFeature));
}

#[test]
fn struct_declaration_is_unsupported() {
    let tree = vec![TopLevel::StructDecl(StructType { name: "P".to_string(), contents: vec![] })];
    assert_eq!(CodeGenerator::new(tree, vec![]).generate(), Err(LowerFault::UnsupportedFeature));
}

#[test]
fn array_value_is_unsupported() {
    let arr = Expression::Literal(Literal::Array(vec![Expression::Literal(Literal::Int(1))], Type::Unknown));
    let body = vec![Statement::Assignment("a".to_string(), Type::Unknown, arr)];
    let tree = vec![TopLevel::FnDecl("f".to_string(), FunctionType::new(None, vec![]), vec![], body)];
    let (typed, sigs) = TypeFiller::new(tree).fill().unwrap();
    assert_eq!(CodeGenerator::new(typed, sigs).generate(), Err(LowerFault::UnsupportedFeature));
}

#[test]
fn variable_without_slot() {
    let body = vec![Statement::Return(Some(Expression::Variable("q".to_string(), int_ty())))];
    let tree = vec![TopLevel::FnDecl("f".to_string(), FunctionType::new(Some(Box::new(int_ty())), vec![]), vec![], body)];
    assert_eq!(CodeGenerator::new(tree, vec![]).generate(), Err(LowerFault::UnknownVariable));
}
