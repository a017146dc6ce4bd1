use trilc::lexer::Lexer;
use trilc::nodes::{BinOp, Expression, Literal, Statement, TopLevel};
use trilc::parser::Parser;
use trilc::semantic::SemanticAnalyzer;
use trilc::typefiller::{replace_type, TypeFault, TypeFiller};
use trilc::types::{FunctionType, PrimitiveType, Type};

type Filled = (Vec<TopLevel>, Vec<(String, FunctionType)>);

fn fill(src: &str) -> Result<Filled, TypeFault> {
    let tree = Parser::new(Lexer::new(src.to_string()).lex().unwrap()).parse().unwrap();
    TypeFiller::new(tree).fill()
}

fn int_ty() -> Type {
    Type::Primitive(PrimitiveType::Int)
}

fn body(filled: &Filled, k: usize) -> &Vec<Statement> {
    match &filled.0[k] {
        TopLevel::FnDecl(_, _, _, body) => body,
        other => panic!("not a function: {:?}", other),
    }
}

fn collect_vars(e: &Expression, out: &mut Vec<(String, Type)>) {
    match e {
        Expression::Variable(n, t) => out.push((n.clone(), t.clone())),
        Expression::BinExpr(_, l, r, _) => {
            collect_vars(l, out);
            collect_vars(r, out);
        },
        Expression::UnaryExpr(_, x, _) => collect_vars(x, out),
        Expression::FnCall(c) => c.args.iter().for_each(|a| collect_vars(a, out)),
        Expression::Literal(Literal::Array(es, _)) => es.iter().for_each(|a| collect_vars(a, out)),
        Expression::Literal(_) => {},
    }
}

fn collect_stmt_vars(s: &Statement, out: &mut Vec<(String, Type)>) {
    match s {
        Statement::While(c, b) => {
            collect_vars(c, out);
            b.iter().for_each(|s| collect_stmt_vars(s, out));
        },
        Statement::If(c, a, b) => {
            collect_vars(c, out);
            a.iter().for_each(|s| collect_stmt_vars(s, out));
            b.iter().for_each(|s| collect_stmt_vars(s, out));
        },
        Statement::Assignment(_, _, e) | Statement::Mutate(_, e) | Statement::Return(Some(e)) => collect_vars(e, out),
        Statement::FnCall(c) => c.args.iter().for_each(|a| collect_vars(a, out)),
        Statement::Return(None) => {},
    }
}

#[test]
fn add_function_cell_is_int() {
    let filled = fill("fn add(a: Int, b: Int) -> Int { return a + b; }").unwrap();
    match &body(&filled, 0)[0] {
        Statement::Return(Some(Expression::BinExpr(BinOp::Add, l, r, cell))) => {
            assert_eq!(*cell, int_ty());
            assert_eq!(**l, Expression::Variable("a".to_string(), int_ty()));
            assert_eq!(**r, Expression::Variable("b".to_string(), int_ty()));
        },
        other => panic!("unexpected statement {:?}", other),
    }
    assert_eq!(filled.1.len(), 1);
    assert_eq!(filled.1[0].0, "add");
}

#[test]
fn mutate_with_other_type_fails() {
    assert_eq!(fill("fn main() { let x = 1; x = \"s\"; }"), Err(TypeFault::TypeMismatch));
}

#[test]
fn call_to_undeclared_function_fails_in_typing() {
    let tokens = Lexer::new("fn main() { foo(1); }".to_string()).lex().unwrap();
    let tree = Parser::new(tokens).parse();
    assert!(tree.is_ok());
    assert_eq!(TypeFiller::new(tree.unwrap()).fill(), Err(TypeFault::UnknownFunction("foo".to_string())));
}

#[test]
fn refilling_a_cell() {
    let mut cell = Type::Unknown;
    assert_eq!(replace_type(&mut cell, int_ty()), Ok(()));
    assert_eq!(cell, int_ty());
    assert_eq!(replace_type(&mut cell, int_ty()), Ok(()));
    assert_eq!(cell, int_ty());
    assert_eq!(replace_type(&mut cell, Type::Primitive(PrimitiveType::String)), Err(TypeFault::TypeMismatch));
    assert_eq!(cell, int_ty());
}

#[test]
fn every_use_of_a_variable_has_one_type() {
    let filled = fill(
        "fn f(a: Int) -> Int { let x = a; if a < 1 { x = a * 2; let y = x; } while x > 0 { x = x - y; } return x + a; }",
    )
    .unwrap();
    let mut uses = Vec::new();
    body(&filled, 0).iter().for_each(|s| collect_stmt_vars(s, &mut uses));
    assert_eq!(uses.len(), 9);
    for (name, t) in &uses {
        assert_eq!(*t, int_ty(), "use of {}", name);
    }
}

#[test]
fn declared_let_type_must_match() {
    assert!(fill("fn f() { let x: Float = 1.5; }").is_ok());
    assert_eq!(fill("fn f() { let x: Float = 1; }"), Err(TypeFault::TypeMismatch));
}

#[test]
fn rebinding_with_another_type_fails() {
    assert!(fill("fn f() { let x = 1; let x = 2; }").is_ok());
    assert_eq!(fill("fn f() { let x = 1; let x = true; }"), Err(TypeFault::TypeMismatch));
}

#[test]
fn duplicate_function() {
    assert_eq!(fill("fn f() { } fn f() { }"), Err(TypeFault::DuplicateDeclaration("f".to_string())));
    assert_eq!(fill("extern fn f(); fn f() { }"), Err(TypeFault::DuplicateDeclaration("f".to_string())));
}

#[test]
fn unknown_variable() {
    assert_eq!(fill("fn f() { y = 1; }"), Err(TypeFault::UnknownVariable("y".to_string())));
    assert_eq!(fill("fn f() { return; } fn g() -> Int { return z; }"), Err(TypeFault::UnknownVariable("z".to_string())));
}

#[test]
fn argument_count_must_match() {
    assert_eq!(
        fill("fn g(a: Int, b: Int) { } fn f() { g(1); }"),
        Err(TypeFault::Arity("g".to_string()))
    );
}

#[test]
fn argument_types_must_match() {
    assert_eq!(
        fill("fn g(a: Int, b: String) { } fn f() { g(1, 2); }"),
        Err(TypeFault::TypeMismatch)
    );
    assert!(fill("fn g(a: Int, b: String) { } fn f() { g(1, \"two\"); }").is_ok());
}

#[test]
fn call_result_type_and_forward_reference() {
    let filled = fill("fn f() -> Bool { return g(2) == 3; } fn g(x: Int) -> Int { return x; }").unwrap();
    match &body(&filled, 0)[0] {
        Statement::Return(Some(Expression::BinExpr(BinOp::Equal, _, _, cell))) => {
            assert_eq!(*cell, Type::Primitive(PrimitiveType::Bool))
        },
        other => panic!("unexpected statement {:?}", other),
    }
}

#[test]
fn return_type_must_match() {
    assert_eq!(fill("fn f() -> Int { return; }"), Err(TypeFault::ReturnTypeMismatch));
    assert_eq!(fill("fn f() { return 1; }"), Err(TypeFault::ReturnTypeMismatch));
    assert_eq!(fill("fn f() -> Int { return true; }"), Err(TypeFault::ReturnTypeMismatch));
}

#[test]
fn conditions_must_be_bool() {
    assert_eq!(fill("fn f() { if 1 { } }"), Err(TypeFault::TypeMismatch));
    assert_eq!(fill("fn f() { while \"s\" { } }"), Err(TypeFault::TypeMismatch));
}

#[test]
fn ordering_only_on_numbers() {
    assert_eq!(fill("fn f() -> Bool { return \"a\" < \"b\"; }"), Err(TypeFault::TypeMismatch));
    assert!(fill("fn f() -> Bool { return \"a\" == \"b\"; }").is_ok());
    assert!(fill("fn f() -> Bool { return 1.5 <= 2.5; }").is_ok());
}

#[test]
fn negation_only_on_numbers() {
    assert_eq!(fill("fn f() -> Bool { return -true; }"), Err(TypeFault::TypeMismatch));
    assert!(fill("fn f() -> Float { return -2.5; }").is_ok());
}

#[test]
fn operands_must_agree() {
    assert_eq!(fill("fn f() -> Int { return 1 + 2.0; }"), Err(TypeFault::TypeMismatch));
}

#[test]
fn names_from_a_branch_stay_bound() {
    assert!(fill("fn f() -> Int { if true { let z = 4; } return z; }").is_ok());
}

#[test]
fn array_literal_types() {
    let elems = vec![Expression::Literal(Literal::Int(1)), Expression::Literal(Literal::Int(2))];
    let body = vec![Statement::Assignment(
        "a".to_string(),
        Type::Unknown,
        Expression::Literal(Literal::Array(elems, Type::Unknown)),
    )];
    let tree = vec![TopLevel::FnDecl("f".to_string(), FunctionType::new(None, vec![]), vec![], body)];
    let (typed, _) = TypeFiller::new(tree).fill().unwrap();
    match &typed[0] {
        TopLevel::FnDecl(_, _, _, b) => match &b[0] {
            Statement::Assignment(_, cell, Expression::Literal(Literal::Array(_, elem))) => {
                assert_eq!(*elem, int_ty());
                assert_eq!(*cell, Type::Primitive(PrimitiveType::Array(Box::new(int_ty()), Some(2))));
            },
            other => panic!("unexpected statement {:?}", other),
        },
        other => panic!("unexpected item {:?}", other),
    }
    let mixed = vec![Expression::Literal(Literal::Int(1)), Expression::Literal(Literal::Bool(true))];
    let body = vec![Statement::Assignment(
        "a".to_string(),
        Type::Unknown,
        Expression::Literal(Literal::Array(mixed, Type::Unknown)),
    )];
    let tree = vec![TopLevel::FnDecl("f".to_string(), FunctionType::new(None, vec![]), vec![], body)];
    assert_eq!(TypeFiller::new(tree).fill(), Err(TypeFault::TypeMismatch));
}

#[test]
fn type_equality_and_clone() {
    let f = Type::Func(FunctionType::new(Some(Box::new(int_ty())), vec![Box::new(int_ty())]));
    let g = f.clone();
    assert_eq!(f, g);
    assert_ne!(f, Type::Func(FunctionType::new(None, vec![Box::new(int_ty())])));
    assert_ne!(int_ty(), Type::Primitive(PrimitiveType::Float));
}

#[test]
fn parameter_names_must_match_types() {
    let tree = vec![TopLevel::FnDecl(
        "h".to_string(),
        FunctionType::new(None, vec![Box::new(int_ty())]),
        vec![],
        vec![],
    )];
    assert_eq!(TypeFiller::new(tree).fill(), Err(TypeFault::Arity("h".to_string())));
}

#[test]
fn semantic_pass_keeps_the_tree() {
    let tree = Parser::new(Lexer::new("fn f() { }".to_string()).lex().unwrap()).parse().unwrap();
    let again = Parser::new(Lexer::new("fn f() { }".to_string()).lex().unwrap()).parse().unwrap();
    assert_eq!(SemanticAnalyzer::new(tree).analyze(), again);
}
