use interpret_deez::lexer::token::Token;
use interpret_deez::lexer::Lexer;

fn lex(input: &str) -> Vec<Token> {
    Lexer::new(input).collect()
}

fn ident(name: &str) -> Token {
    Token::Ident(name.to_string())
}

#[test]
fn empty_and_blank_inputs_hold_no_token() {
    assert_eq!(lex(""), vec![]);
    assert_eq!(lex(" \t\r\n "), vec![]);
    let mut lexer = Lexer::new("   ");
    assert_eq!(lexer.next(), None);
    assert_eq!(lexer.next(), None);
}

#[test]
fn a_double_quote_ends_an_identifier() {
    assert_eq!(lex("abc\"def\""), vec![ident("abc"), Token::Str("def".to_string())]);
}

#[test]
fn an_unterminated_string_runs_to_the_end() {
    assert_eq!(lex("\"joe mama"), vec![Token::Str("joe mama".to_string())]);
    assert_eq!(lex("\""), vec![Token::Str(String::new())]);
}

#[test]
fn a_string_keeps_its_text_as_it_is() {
    assert_eq!(lex("\"a\\nb = 1;\""), vec![Token::Str("a\\nb = 1;".to_string())]);
    assert_eq!(lex("\"\"x"), vec![Token::Str(String::new()), ident("x")]);
}

#[test]
fn hash_is_a_marker_only_right_before_a_bang() {
    assert_eq!(lex("hash!"), vec![Token::HashMacro]);
    assert_eq!(lex("hash !"), vec![ident("hash"), Token::Bang]);
    assert_eq!(lex("hash"), vec![ident("hash")]);
    assert_eq!(lex("hash!="), vec![Token::HashMacro, Token::Assign]);
    assert_eq!(lex("hashed!"), vec![ident("hashed"), Token::Bang]);
}

#[test]
fn equal_signs_pair_up_from_the_left() {
    assert_eq!(lex("==="), vec![Token::Equal, Token::Assign]);
    assert_eq!(lex("!=="), vec![Token::NotEqual, Token::Assign]);
    assert_eq!(lex("= ="), vec![Token::Assign, Token::Assign]);
    assert_eq!(lex("!!="), vec![Token::Bang, Token::NotEqual]);
}

#[test]
fn digits_after_a_letter_belong_to_the_identifier() {
    assert_eq!(lex("a1"), vec![ident("a1")]);
    assert_eq!(lex("1a"), vec![Token::Int("1".to_string()), ident("a")]);
    assert_eq!(lex("007"), vec![Token::Int("007".to_string())]);
}

#[test]
fn keywords_are_whole_words() {
    assert_eq!(
        lex("fn let true false if else return"),
        vec![
            Token::Function,
            Token::Let,
            Token::True,
            Token::False,
            Token::If,
            Token::Else,
            Token::Return,
        ]
    );
    assert_eq!(lex("fnx iff letter"), vec![ident("fnx"), ident("iff"), ident("letter")]);
}

#[test]
fn identifiers_take_any_other_character() {
    assert_eq!(lex("x_y? @ #"), vec![ident("x_y?"), ident("@"), ident("#")]);
    assert_eq!(lex("🍌+🍆"), vec![ident("🍌"), Token::Plus, ident("🍆")]);
}

#[test]
fn tokens_written_out_again_lex_to_the_same_tokens() {
    let text = "let add=fn(x,y){x+y};add(1,\"a b\")!=hash!{1:[2]}";
    let tokens = lex(text);
    let spaced = "\n let  add =\tfn ( x , y ) { x + y } ; add ( 1 , \"a b\" ) != hash! { 1 : [ 2 ] }\r\n";
    assert_eq!(lex(spaced), tokens);
    assert_eq!(tokens.len(), 30);
}

#[test]
fn tokens_show_as_in_messages() {
    assert_eq!(ident("x").to_string(), "Identifier(x)");
    assert_eq!(Token::Int("12".to_string()).to_string(), "Int(12)");
    assert_eq!(Token::Str("a b".to_string()).to_string(), "Str(a b)");
    assert_eq!(Token::Equal.to_string(), "==");
    assert_eq!(Token::LBrace.to_string(), "{");
    assert_eq!(Token::Return.to_string(), "return");
}

#[test]
fn tokens_compare_by_variant_and_text() {
    assert!(ident("a").same(&ident("a")));
    assert!(!ident("a").same(&ident("b")));
    assert!(!ident("a").same(&Token::Str("a".to_string())));
    assert!(Token::Comma.same(&Token::Comma));
    assert!(!Token::Comma.same(&Token::Colon));
    assert_eq!(ident("a").clone(), ident("a"));
}
