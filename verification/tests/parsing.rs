use interpret_deez::lexer::token::Token;
use interpret_deez::lexer::Lexer;
use interpret_deez::parser::ast::expressions::{Expression, Identifier, Infix, InfixOp};
use interpret_deez::parser::ast::statements::Statement;
use interpret_deez::parser::ast::Precedence;
use interpret_deez::parser::error::Error;
use interpret_deez::parser::{assert_token, Parse, Parser};

fn program(input: &str) -> Result<Vec<Statement>, Error> {
    Parser::new(Lexer::new(input)).collect()
}

fn shown(input: &str) -> String {
    let statements = program(input).unwrap();
    let lines: Vec<String> = statements.iter().map(|s| s.to_string()).collect();
    lines.join("\n")
}

fn first_error(input: &str) -> Error {
    program(input).unwrap_err()
}

fn operators() -> Vec<(&'static str, u8)> {
    vec![("==", 1), ("!=", 1), ("<", 2), (">", 2), ("+", 3), ("-", 3), ("*", 4), ("/", 4)]
}

#[test]
fn a_tighter_operator_takes_the_operand_between() {
    for (o1, first_level) in operators() {
        for (o2, second_level) in operators() {
            if first_level < second_level {
                let input = format!("a {} b {} c", o1, o2);
                let expected = format!("(a {} (b {} c));", o1, o2);
                assert_eq!(shown(&input), expected);
            }
        }
    }
}

#[test]
fn operators_of_one_level_group_from_the_left() {
    for (o1, first_level) in operators() {
        for (o2, second_level) in operators() {
            if first_level >= second_level {
                let input = format!("a {} b {} c", o1, o2);
                let expected = format!("((a {} b) {} c);", o1, o2);
                assert_eq!(shown(&input), expected);
            }
        }
    }
}

#[test]
fn a_parsed_chain_is_the_tree_it_shows() {
    let statements = program("a + b * c").unwrap();
    let name = |n: &str| Box::new(Expression::Identifier(Identifier { value: n.to_string() }));
    let expected = Expression::Infix(Infix {
        left: name("a"),
        operator: InfixOp::Plus,
        right: Box::new(Expression::Infix(Infix {
            left: name("b"),
            operator: InfixOp::Asterisk,
            right: name("c"),
        })),
    });
    match &statements[0] {
        Statement::Expression(e) => assert_eq!(e.expression, expected),
        _ => panic!("Not expression statement received"),
    }
    assert_eq!(statements.len(), 1);
}

#[test]
fn suffixes_chain_from_the_left() {
    assert_eq!(shown("a[0](1)[2]"), "a[0](1)[2];");
    assert_eq!(shown("-a[0]"), "(-a[0]);");
    assert_eq!(shown("a + f(1)[2] * b"), "(a + (f(1)[2] * b));");
    assert_eq!(shown("fn(x) { x }(11)"), "fn(x) {\n  x;\n}(11);");
}

#[test]
fn blocks_show_indented() {
    assert_eq!(shown("if (x < y) { x } else { y }"), "if ((x < y)) {\n  x;\n} else {\n  y;\n};");
    assert_eq!(shown("fn() {}"), "fn() {\n};");
    assert_eq!(
        shown("fn(a, b) { let c = a; return c + b; }"),
        "fn(a, b) {\n  let c = a;\n  return (c + b);\n};"
    );
    assert_eq!(shown("{ 1; { 2 } }"), "{\n1;\n{\n2;\n};\n};");
    assert_eq!(shown("if (a) { if (b) { c } }"), "if (a) {\n  if (b) {\n    c;\n  };\n};");
}

#[test]
fn literals_show_as_written() {
    assert_eq!(shown("let x = \"a b\";"), "let x = \"a b\";");
    assert_eq!(shown("return 007;"), "return 7;");
    assert_eq!(shown("hash!{}"), "hash!{\n};");
    assert_eq!(shown("hash!{1: 2, a: b}"), "hash!{\n1: 2,\na: b,\n};");
    assert_eq!(shown("!true; [1, a]"), "(!true);\n[1, a];");
}

#[test]
fn semicolons_between_statements_are_skipped() {
    assert_eq!(shown(";;1;;;2;"), "1;\n2;");
    assert_eq!(program(";;;").unwrap().len(), 0);
    assert_eq!(program("").unwrap().len(), 0);
}

#[test]
fn the_greatest_integer_literal_fits() {
    assert_eq!(shown("9223372036854775807"), "9223372036854775807;");
    assert_eq!(first_error("9223372036854775808"), Error::ParseIntError);
    assert_eq!(first_error("99999999999999999999999999"), Error::ParseIntError);
}

#[test]
fn input_that_ends_early_is_an_eof_error() {
    assert_eq!(first_error("let x ="), Error::EOFError);
    assert_eq!(first_error("let x"), Error::EOFError);
    assert_eq!(first_error("(1"), Error::EOFError);
    assert_eq!(first_error("fn("), Error::EOFError);
    assert_eq!(first_error("[1,"), Error::EOFError);
    assert_eq!(first_error("if (x) { 1"), Error::EOFError);
    assert_eq!(first_error("-"), Error::EOFError);
}

#[test]
fn a_wrong_token_is_named_with_the_one_required() {
    assert_eq!(
        first_error("let x 5"),
        Error::UnexpectedTokenError { expected: Token::Assign, received: Token::Int("5".to_string()) }
    );
    assert_eq!(
        first_error("let 5 = 3"),
        Error::UnexpectedTokenError {
            expected: Token::Ident(String::new()),
            received: Token::Int("5".to_string()),
        }
    );
    assert_eq!(
        first_error("(1 2"),
        Error::UnexpectedTokenError { expected: Token::RParen, received: Token::Int("2".to_string()) }
    );
    assert_eq!(
        first_error("[1 2]"),
        Error::UnexpectedTokenError { expected: Token::RSquare, received: Token::Int("2".to_string()) }
    );
    assert_eq!(
        first_error("if (x) 1"),
        Error::UnexpectedTokenError { expected: Token::LBrace, received: Token::Int("1".to_string()) }
    );
    assert_eq!(
        first_error("hash!{1 2}"),
        Error::UnexpectedTokenError { expected: Token::Colon, received: Token::Int("2".to_string()) }
    );
    assert_eq!(
        first_error("fn(1) {}"),
        Error::UnexpectedTokenError {
            expected: Token::Ident(String::new()),
            received: Token::Int("1".to_string()),
        }
    );
}

#[test]
fn a_token_that_starts_no_expression_is_a_prefix_error() {
    assert_eq!(first_error(")"), Error::PrefixTokenError(Token::RParen));
    assert_eq!(first_error("1 + *"), Error::PrefixTokenError(Token::Asterisk));
    assert_eq!(first_error("hash!{1: 2,}"), Error::PrefixTokenError(Token::RBrace));
}

#[test]
fn the_parser_goes_on_after_an_error() {
    let mut parser = Parser::new(Lexer::new(") 1; 2"));
    assert_eq!(parser.next(), Some(Err(Error::PrefixTokenError(Token::RParen))));
    assert_eq!(parser.next().unwrap().unwrap().to_string(), "1;");
    assert_eq!(parser.next().unwrap().unwrap().to_string(), "2;");
    assert_eq!(parser.next(), None);
    assert_eq!(parser.next(), None);
}

#[test]
fn an_expression_stops_at_an_operator_that_binds_no_tighter() {
    let mut parser = Parser::new(Lexer::new("a * b + c"));
    let e = Expression::parse(&mut parser, &Precedence::Product).unwrap();
    assert_eq!(e.to_string(), "a");
    assert_eq!(parser.current(), &Some(Token::Ident("a".to_string())));
    assert_eq!(parser.peek(), &Some(Token::Asterisk));

    let mut parser = Parser::new(Lexer::new("a * b + c"));
    let e = Expression::parse(&mut parser, &Precedence::Sum).unwrap();
    assert_eq!(e.to_string(), "(a * b)");
    assert_eq!(parser.peek(), &Some(Token::Plus));
}

#[test]
fn a_block_inherits_the_level_around_it() {
    assert_eq!(shown("1 + { 2 }"), "(1 + {\n2;\n});");
    assert_eq!(first_error("-[1, 2 + 3]"), Error::UnexpectedTokenError {
        expected: Token::RSquare,
        received: Token::Plus,
    });
}

#[test]
fn precedence_of_tokens() {
    assert_eq!(Precedence::from(&Token::Equal), Precedence::Equals);
    assert_eq!(Precedence::from(&Token::NotEqual), Precedence::Equals);
    assert_eq!(Precedence::from(&Token::LessThan), Precedence::LessGreater);
    assert_eq!(Precedence::from(&Token::GreaterThan), Precedence::LessGreater);
    assert_eq!(Precedence::from(&Token::Plus), Precedence::Sum);
    assert_eq!(Precedence::from(&Token::Minus), Precedence::Sum);
    assert_eq!(Precedence::from(&Token::Asterisk), Precedence::Product);
    assert_eq!(Precedence::from(&Token::ForwardSlash), Precedence::Product);
    assert_eq!(Precedence::from(&Token::LParen), Precedence::Call);
    assert_eq!(Precedence::from(&Token::LSquare), Precedence::Call);
    assert_eq!(Precedence::from(&Token::Bang), Precedence::Lowest);
    assert_eq!(Precedence::from(&Token::Semicolon), Precedence::Lowest);
    assert!(Precedence::Lowest.at_most(&Precedence::Equals));
    assert!(Precedence::Sum.at_most(&Precedence::Sum));
    assert!(!Precedence::Call.at_most(&Precedence::Prefix));
}

#[test]
fn assert_token_compares_with_the_token_required() {
    assert_eq!(assert_token(&Some(Token::Let), Token::Let), Ok(()));
    assert_eq!(
        assert_token(&Some(Token::Comma), Token::Let),
        Err(Error::UnexpectedTokenError { expected: Token::Let, received: Token::Comma })
    );
    assert_eq!(assert_token(&None, Token::Let), Err(Error::EOFError));
}

#[test]
fn parser_errors_have_messages() {
    assert_eq!(Error::EOFError.to_string(), "Input stopped unexpectedly");
    assert_eq!(
        Error::UnexpectedTokenError { expected: Token::Assign, received: Token::Int("5".to_string()) }
            .to_string(),
        "Expected =, received Int(5)"
    );
    assert_eq!(Error::PrefixTokenError(Token::RParen).to_string(), "Expression expected");
    assert_eq!(Error::ParseIntError.to_string(), "Error parsing integer");
    assert_eq!(Error::Unknown.to_string(), "unknown parser error");
}

fn printed(statements: &[Statement]) -> String {
    let mut text = String::new();
    for s in statements {
        text.push_str(&s.to_string());
        text.push('\n');
    }
    text
}

#[test]
fn what_is_printed_is_read_back() {
    let inputs = [
        "a + b * c - d / e",
        "let x = 007; return -x; !true == false",
        "add(1, 2 * 3, [4, 5][0], \"a b\")(x)[y]",
        "if (a < b) { let c = a; c } else { if (b) { return b; } }",
        "let f = fn(x, y) { fn() { x + y } }; f(1, 2)()",
        "{ 1; { 2; { 3 } } }",
        "hash!{}; []; fn() {}; if (x) {}",
        "-fn(a) { a }(1) * (2 + 3)",
        "let s = \"if (x) { y }\"; len(s)",
    ];
    for input in inputs {
        let first = program(input).unwrap();
        let text = printed(&first);
        let second = program(&text).unwrap();
        assert_eq!(second, first);
        assert_eq!(printed(&second), text);
    }
}

#[test]
fn a_printed_hash_with_entries_is_not_read_back() {
    let first = program("hash!{1: 2}").unwrap();
    assert_eq!(printed(&first), "hash!{\n1: 2,\n};\n");
    assert_eq!(first_error(&printed(&first)), Error::PrefixTokenError(Token::RBrace));
}

#[test]
fn a_line_break_in_a_string_is_indented_with_its_block() {
    let first = program("if (x) { \"a\nb\" }").unwrap();
    assert_eq!(printed(&first), "if (x) {\n  \"a\n  b\";\n};\n");
    let second = program(&printed(&first)).unwrap();
    assert_eq!(printed(&second), "if (x) {\n  \"a\n    b\";\n};\n");
}
