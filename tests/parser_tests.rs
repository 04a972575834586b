use monkey::ast::{Expression, Statement};
use monkey::lexer::Lexer;
use monkey::parser::{ParseError, Parser};
use monkey::token::Token;

fn parse(input: &str) -> (Vec<Statement>, Vec<ParseError>) {
    let lex = Lexer::new(input);
    let mut parser = Parser::new(lex);
    let program = parser.parse_program();
    let errors = parser.errors().clone();
    (program, errors)
}

fn render(program: &[Statement]) -> String {
    let mut out = String::new();
    for stmt in program {
        out.push_str(&stmt.to_string());
    }
    out
}

fn ident(name: &str) -> Box<Expression> {
    Box::new(Expression::Ident(name.to_string()))
}

#[test]
fn test_let_statements() {
    let input = r"
let x = 5;
let y = 10;
let foobar = 838383;
";
    let lex = Lexer::new(input);
    let mut parser = Parser::new(lex);
    let program = parser.parse_program();
    println!("{:?}", program);
    assert_eq!(program.len(), 3);
    let tests: Vec<(&str, i64)> = vec![("x", 5), ("y", 10), ("foobar", 838383)];
    for test_pair in tests.iter().zip(program.iter()) {
        println!("{:?}", test_pair.1);
        if let Statement::Let { identifier, expr } = test_pair.1 {
            assert_eq!((test_pair.0).0, identifier.to_string());
            if let Expression::Int(int) = expr {
                assert_eq!((test_pair.0).1, *int);
            }
        }
    }
}

#[test]
fn test_return_statements() {
    let input = r"
return 5;
return 10;
return 838383;
";
    let lex = Lexer::new(input);
    let mut parser = Parser::new(lex);
    let program = parser.parse_program();
    assert_eq!(program.len(), 3);
    assert_eq!(parser.errors().len(), 0);
}

#[test]
fn test_parse_errors() {
    let input = r"
let x  5;
let  = 10;
let  838383;
";
    let lex = Lexer::new(input);
    let mut parser = Parser::new(lex);
    let program = parser.parse_program();
    println!("{:?}", program);
    assert_eq!(program.len(), 0);
    assert_eq!(parser.errors().len(), 3);
}

#[test]
fn test_identifier_expression() {
    let input = r"foobar;";
    let lex = Lexer::new(input);
    let mut parser = Parser::new(lex);
    let program = parser.parse_program();
    assert_eq!(program.len(), 1);
    assert_eq!(parser.errors().len(), 0);
    assert_eq!(program[0], Statement::Expr(Expression::Ident("foobar".to_string())));
}

#[test]
fn test_int_literal_expression() {
    let input = r"5;";
    let lex = Lexer::new(input);
    let mut parser = Parser::new(lex);
    let program = parser.parse_program();
    assert_eq!(program.len(), 1);
    assert_eq!(parser.errors().len(), 0);
    assert_eq!(program[0], Statement::Expr(Expression::Int(5)));
}

#[test]
fn test_prefix_expression() {
    let input = ["!5;", "-15;", "!true;", "!false;"];
    let test_expr = [
        Statement::Expr(Expression::Prefix {
            operator: Token::BANG,
            right: Box::new(Expression::Int(5)),
        }),
        Statement::Expr(Expression::Prefix {
            operator: Token::MINUS,
            right: Box::new(Expression::Int(15)),
        }),
        Statement::Expr(Expression::Prefix {
            operator: Token::BANG,
            right: Box::new(Expression::Boolean(true)),
        }),
        Statement::Expr(Expression::Prefix {
            operator: Token::BANG,
            right: Box::new(Expression::Boolean(false)),
        }),
    ];

    assert_eq!(input.len(), test_expr.len());
    for i in 0..input.len() {
        let lex = Lexer::new(input[i]);
        let mut parser = Parser::new(lex);
        let program = parser.parse_program();
        assert_eq!(program.len(), 1);
        assert_eq!(parser.errors().len(), 0);
        assert_eq!(program[0], test_expr[i]);
    }
}

#[test]
fn test_infix_expression() {
    let input = [
        "5 + 5;", "5 - 5;", "5 * 5;", "5 / 5;", "5 < 5;", "5 > 5;", "5 == 5;", "5 != 5;",
    ];
    let operators = [
        Token::PLUS,
        Token::MINUS,
        Token::ASTERISK,
        Token::SLASH,
        Token::LT,
        Token::GT,
        Token::EQ,
        Token::NOTEQ,
    ];
    for i in 0..8 {
        let expected = Statement::Expr(Expression::Infix {
            operator: operators[i].clone(),
            left: Box::new(Expression::Int(5)),
            right: Box::new(Expression::Int(5)),
        });
        let lex = Lexer::new(input[i]);
        let mut parser = Parser::new(lex);
        let program = parser.parse_program();
        println!("{:?}", program);
        assert_eq!(program.len(), 1);
        assert_eq!(parser.errors().len(), 0);
        assert_eq!(program[0], expected);
    }
}

#[test]
fn test_operator_precedence_pasing() {
    let input = [
        "-a * b;",
        "!-a;",
        "a+b+c;",
        "a+b-c;",
        "a*b*c;",
        "a*b/c",
        "a+b/c;",
        "a+b*c+d/e-f;",
        "3+4;-5*5;",
        "5>4==3<4;",
        "5<4!=3>4;",
        "3+4*5==3*1+4*5;",
        "true",
        "false",
        "!true",
        "3>5 == false",
        "3<5 == true",
        "1+ (2+3)+4",
        "(5+5)*2",
        "2/(5+5)",
        "-(5+5)",
        "!(true==true)",
    ];
    let test_expr = [
        "((-a)*b)",
        "(!(-a))",
        "((a+b)+c)",
        "((a+b)-c)",
        "((a*b)*c)",
        "((a*b)/c)",
        "(a+(b/c))",
        "(((a+(b*c))+(d/e))-f)",
        "(3+4)((-5)*5)",
        "((5>4)==(3<4))",
        "((5<4)!=(3>4))",
        "((3+(4*5))==((3*1)+(4*5)))",
        "true",
        "false",
        "(!true)",
        "((3>5)==false)",
        "((3<5)==true)",
        "((1+(2+3))+4)",
        "((5+5)*2)",
        "(2/(5+5))",
        "(-(5+5))",
        "(!(true==true))",
    ];
    assert_eq!(input.len(), test_expr.len());
    for i in 0..input.len() {
        let lex = Lexer::new(input[i]);
        let mut parser = Parser::new(lex);
        let program = parser.parse_program();
        assert_eq!(parser.errors().len(), 0);
        let mut result_expr = String::new();
        for stmt in program {
            result_expr.push_str(&stmt.to_string());
        }
        println!("{2:} :  {0:?} , {1:?}", result_expr, test_expr[i], i);
        assert_eq!(result_expr, test_expr[i]);
    }
}

#[test]
fn test_if_expression() {
    let input = ["if (x < y) { x }", "if (x < y) { x } else { y }"];
    let test_expr = ["If(x<y){x}", "If(x<y){x}else{y}"];
    assert_eq!(input.len(), test_expr.len());
    for i in 0..input.len() {
        let lex = Lexer::new(input[i]);
        let mut parser = Parser::new(lex);
        let program = parser.parse_program();
        assert_eq!(program.len(), 1);
        assert_eq!(parser.errors().len(), 0);
        assert_eq!(program[0].to_string(), test_expr[i]);
    }
}

#[test]
fn test_function_expression() {
    let input = ["fn(x, y){ x + y; }"];
    let test_expr = ["fn(x,y){(x+y);}"];
    assert_eq!(input.len(), test_expr.len());
    for i in 0..input.len() {
        let lex = Lexer::new(input[i]);
        let mut parser = Parser::new(lex);
        let program = parser.parse_program();
        assert_eq!(program.len(), 1);
        assert_eq!(parser.errors().len(), 0);
        assert_eq!(program[0].to_string(), test_expr[i]);
    }
}

#[test]
fn let_statement_structure() {
    let (program, errors) = parse("let x = 5;");
    assert!(errors.is_empty());
    assert_eq!(
        program,
        vec![Statement::Let { identifier: "x".to_string(), expr: Expression::Int(5) }]
    );
    assert_eq!(program[0].to_string(), "Let x=5");
}

#[test]
fn return_statement_rendering() {
    let (program, errors) = parse("return a + 1;");
    assert!(errors.is_empty());
    assert_eq!(render(&program), "return (a+1)");
}

#[test]
fn precedence_renderings() {
    let (program, errors) = parse("-a * b;");
    assert!(errors.is_empty());
    assert_eq!(render(&program), "((-a)*b)");
    let (program, errors) = parse("a + b * c + d / e - f;");
    assert!(errors.is_empty());
    assert_eq!(render(&program), "(((a+(b*c))+(d/e))-f)");
}

#[test]
fn conditional_structure() {
    let (program, errors) = parse("if (x < y) { x } else { y }");
    assert!(errors.is_empty());
    assert_eq!(render(&program), "If(x<y){x}else{y}");
    let expected = Statement::Expr(Expression::If {
        condition: Box::new(Expression::Infix {
            operator: Token::LT,
            left: ident("x"),
            right: ident("y"),
        }),
        consequence: Box::new(Expression::Block(vec![Statement::Expr(Expression::Ident(
            "x".to_string(),
        ))])),
        alternative: Some(Box::new(Expression::Block(vec![Statement::Expr(
            Expression::Ident("y".to_string()),
        )]))),
    });
    assert_eq!(program, vec![expected]);
}

#[test]
fn function_literal_structure() {
    let (program, errors) = parse("fn() { return 1; }; fn(a) { a }");
    assert!(errors.is_empty());
    assert_eq!(
        program,
        vec![
            Statement::Expr(Expression::Function {
                parameters: vec![],
                body: Box::new(Expression::Block(vec![Statement::Return(Expression::Int(1))])),
            }),
            Statement::Expr(Expression::Function {
                parameters: vec!["a".to_string()],
                body: Box::new(Expression::Block(vec![Statement::Expr(Expression::Ident(
                    "a".to_string(),
                ))])),
            }),
        ]
    );
}

#[test]
fn missing_assign_records_one_error_and_recovers() {
    let (program, errors) = parse("let x 5;");
    assert_eq!(program.len(), 0);
    assert_eq!(
        errors,
        vec![ParseError::UnexpectedToken { expected: Token::ASSIGN, found: Token::INT(5) }]
    );
    let (program, errors) = parse("let x 5; let y = 1;");
    assert_eq!(errors.len(), 1);
    assert_eq!(
        program,
        vec![Statement::Let { identifier: "y".to_string(), expr: Expression::Int(1) }]
    );
}

#[test]
fn each_error_kind_is_reported() {
    let (program, errors) = parse("let = 1;");
    assert!(program.is_empty());
    assert_eq!(errors, vec![ParseError::ExpectedIdentifier { found: Token::ASSIGN }]);
    assert_eq!(errors[0].message(), "expected next token to be IDENT, got = instead");

    let (program, errors) = parse("let x = 1 2;");
    assert!(program.is_empty());
    assert_eq!(
        errors,
        vec![ParseError::UnexpectedToken { expected: Token::SEMICOLON, found: Token::INT(2) }]
    );
    assert_eq!(errors[0].message(), "expected next token to be ;, got INT(2) instead");

    let (program, errors) = parse("* 3; x;");
    assert_eq!(program, vec![Statement::Expr(Expression::Ident("x".to_string()))]);
    assert_eq!(errors, vec![ParseError::NoPrefixRule { found: Token::ASTERISK }]);
    assert_eq!(errors[0].message(), "Parse Expression:Unknown token *");
}

#[test]
fn unclosed_group_is_an_error() {
    let (program, errors) = parse("(1 + 2;");
    assert!(program.is_empty());
    assert_eq!(
        errors,
        vec![ParseError::UnexpectedToken { expected: Token::RPAREN, found: Token::SEMICOLON }]
    );
}

#[test]
fn error_inside_block_is_recorded_and_block_kept() {
    let (program, errors) = parse("if (x) { let = 1; y } z");
    assert_eq!(errors, vec![ParseError::ExpectedIdentifier { found: Token::ASSIGN }]);
    assert_eq!(render(&program), "Ifx{}z");
}

#[test]
fn bad_parameter_lists_are_errors() {
    let (_, errors) = parse("fn(x y) { x }");
    assert_eq!(
        errors,
        vec![ParseError::UnexpectedToken { expected: Token::COMMA, found: Token::IDENT("y".to_string()) }]
    );
    let (_, errors) = parse("fn(1) { x }");
    assert_eq!(errors, vec![ParseError::ExpectedIdentifier { found: Token::INT(1) }]);
}

#[test]
fn empty_input_gives_empty_program() {
    let (program, errors) = parse("");
    assert!(program.is_empty());
    assert!(errors.is_empty());
}

#[test]
fn rendering_is_stable_under_reparsing() {
    let inputs = ["a + b * c", "-(x - y) / 3", "!(a == b) != c", "fn(a, b) { a * b; }", "(a)", "((a + b))", "x; y * 2"];
    for input in inputs.iter() {
        let (first, errors) = parse(input);
        assert!(errors.is_empty());
        let text = render(&first);
        let (second, errors) = parse(&text);
        assert!(errors.is_empty());
        let text2 = render(&second);
        assert_eq!(text, text2);
        let (third, errors) = parse(&text2);
        assert!(errors.is_empty());
        assert_eq!(second, third);
    }
}

#[test]
fn negative_integer_renders_with_sign() {
    assert_eq!(Expression::Int(-5).to_string(), "-5");
    assert_eq!(Expression::Int(i64::MIN).to_string(), "-9223372036854775808");
    assert_eq!(Expression::Boolean(false).to_string(), "false");
}
