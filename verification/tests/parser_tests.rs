use matrix_lang::ast::{BinaryOperator, Expression, Item, Statement, Type};
use matrix_lang::lexer::{Lexer, Token};
use matrix_lang::parser::{parse_source, Expectation, ParseErrorKind, Parser};

#[test]
fn debug_function_parsing() {
    let input = r#"
            let add = (a: Int, b: Int) -> Int => a + b
        "#;
    println!("Debugging input: {:?}", input);

    let lexer = Lexer::new(input);
    let mut parser = Parser::new(lexer).expect("Failed to create parser");

    match parser.parse_program() {
        Ok(ast) => println!("Successfully parsed: {:?}", ast),
        Err(e) => {
            println!("Parse error: {:?}", e);
            panic!("Parse failed");
        }
    }
}

#[test]
fn test_sim_directive_parsing() {
    let source = r#"
        let test = @sim {
            let x = 42;
            x
        }
    "#;

    let lexer = Lexer::new(source);
    let mut parser = Parser::new(lexer).unwrap();
    let program = parser.parse_program().unwrap();

    assert_eq!(program.items.len(), 1);

    if let Item::LetBinding(binding) = &program.items[0] {
        if let Expression::SimDirective { expression: _, .. } = &binding.value {
            assert!(true);
        } else {
            panic!("Expected SimDirective, got: {:?}", binding.value);
        }
    } else {
        panic!("Expected LetBinding, got: {:?}", program.items[0]);
    }
}

#[test]
fn test_plot_directive_parsing() {
    let source = r#"
        let test_plot = @plot {
            let y = 42;
            y
        }
    "#;

    let lexer = Lexer::new(source);
    let mut parser = Parser::new(lexer).unwrap();
    let program = parser.parse_program().unwrap();

    assert_eq!(program.items.len(), 1);

    if let Item::LetBinding(binding) = &program.items[0] {
        if let Expression::PlotDirective { expression: _, .. } = &binding.value {
            assert!(true);
        } else {
            panic!("Expected PlotDirective, got: {:?}", binding.value);
        }
    } else {
        panic!("Expected LetBinding, got: {:?}", program.items[0]);
    }
}

#[test]
fn lexer_yields_tokens_with_positions() {
    let mut lexer = Lexer::new("let x = 42\n  y");
    let tokens = lexer.tokenize().unwrap();
    assert_eq!(tokens.len(), 6);
    assert!(matches!(tokens[0].token, Token::Let));
    assert!(matches!(tokens[3].token, Token::IntLiteral(42)));
    assert_eq!((tokens[4].line, tokens[4].column), (2, 3));
    assert!(matches!(tokens[5].token, Token::Eof));
}

#[test]
fn lambda_has_typed_parameters_and_return_type() {
    let program = parse_source("let add = (a: Int, b: Int) -> Int => a + b").unwrap();
    match &program.items[0] {
        Item::LetBinding(b) => match &b.value {
            Expression::Lambda { params, return_type, body } => {
                assert_eq!(params.len(), 2);
                assert_eq!(params[0].name, "a");
                assert!(matches!(params[1].type_annotation, Some(Type::Int)));
                assert!(matches!(return_type, Some(Type::Int)));
                assert!(matches!(**body, Expression::BinaryOp { operator: BinaryOperator::Add, .. }));
            }
            other => panic!("expected a lambda, got {:?}", other),
        },
        other => panic!("expected a let binding, got {:?}", other),
    }
}

#[test]
fn multiplication_binds_tighter_than_addition() {
    let program = parse_source("1 + 2 * 3").unwrap();
    match &program.items[0] {
        Item::Expression(Expression::BinaryOp { left, operator, right }) => {
            assert_eq!(*operator, BinaryOperator::Add);
            assert!(matches!(**left, Expression::IntLiteral(1)));
            assert!(matches!(**right, Expression::BinaryOp { operator: BinaryOperator::Mul, .. }));
        }
        other => panic!("unexpected {:?}", other),
    }
}

#[test]
fn subtraction_is_left_associative_and_power_right_associative() {
    let program = parse_source("8 - 2 - 1; 2 ^ 3 ^ 2").unwrap();
    assert_eq!(program.items.len(), 2);
    match &program.items[0] {
        Item::Expression(Expression::BinaryOp { left, operator: BinaryOperator::Sub, right }) => {
            assert!(matches!(**left, Expression::BinaryOp { operator: BinaryOperator::Sub, .. }));
            assert!(matches!(**right, Expression::IntLiteral(1)));
        }
        other => panic!("unexpected {:?}", other),
    }
    match &program.items[1] {
        Item::Expression(Expression::BinaryOp { left, operator: BinaryOperator::Pow, right }) => {
            assert!(matches!(**left, Expression::IntLiteral(2)));
            assert!(matches!(**right, Expression::BinaryOp { operator: BinaryOperator::Pow, .. }));
        }
        other => panic!("unexpected {:?}", other),
    }
}

#[test]
fn matrix_struct_and_block_forms() {
    let program = parse_source(
        "struct Point { x: Float, y: Float }\nlet m = [[1, 2], [3, 4]]\nlet p = Point { x: 1.5, y: 2.0 }\n{ let z = 1; z }",
    )
    .unwrap();
    assert_eq!(program.items.len(), 4);
    match &program.items[0] {
        Item::StructDef(d) => {
            assert_eq!(d.name, "Point");
            assert_eq!(d.fields.len(), 2);
            assert!(matches!(d.fields[1].field_type, Type::Float));
        }
        other => panic!("unexpected {:?}", other),
    }
    match &program.items[1] {
        Item::LetBinding(b) => match &b.value {
            Expression::MatrixLiteral(rows) => {
                assert_eq!(rows.len(), 2);
                assert_eq!(rows[1].len(), 2);
            }
            other => panic!("unexpected {:?}", other),
        },
        other => panic!("unexpected {:?}", other),
    }
    match &program.items[2] {
        Item::LetBinding(b) => match &b.value {
            Expression::StructCreation { name, fields } => {
                assert_eq!(name, "Point");
                assert_eq!(fields.len(), 2);
                assert!(matches!(&fields[0].value, Expression::FloatLiteral(s) if s == "1.5"));
            }
            other => panic!("unexpected {:?}", other),
        },
        other => panic!("unexpected {:?}", other),
    }
    match &program.items[3] {
        Item::Expression(Expression::Block { statements, result }) => {
            assert_eq!(statements.len(), 1);
            assert!(matches!(statements[0], Statement::LetBinding(_)));
            assert!(result.is_some());
        }
        other => panic!("unexpected {:?}", other),
    }
}

#[test]
fn if_else_and_calls() {
    let program = parse_source("if x < 1 { f(x, 2) } else { g.h }").unwrap();
    match &program.items[0] {
        Item::Expression(Expression::IfExpression { condition, else_branch, .. }) => {
            assert!(matches!(**condition, Expression::BinaryOp { operator: BinaryOperator::Lt, .. }));
            assert!(else_branch.is_some());
        }
        other => panic!("unexpected {:?}", other),
    }
}

#[test]
fn errors_carry_their_position() {
    let e = parse_source("let = 3").unwrap_err();
    assert_eq!(e.kind, ParseErrorKind::Expected(Expectation::Identifier));
    assert_eq!((e.line, e.column), (1, 5));

    let e = parse_source("@sim").unwrap_err();
    assert_eq!(e.kind, ParseErrorKind::Expected(Expectation::LeftBrace));

    let e = parse_source("@loop { 1 }").unwrap_err();
    assert_eq!(e.kind, ParseErrorKind::Expected(Expectation::DirectiveName));

    let e = parse_source("(1 + 2").unwrap_err();
    assert_eq!(e.kind, ParseErrorKind::Expected(Expectation::RightParen));

    let e = parse_source("let s = \"open").unwrap_err();
    assert!(matches!(e.kind, ParseErrorKind::Lex(_)));
}
