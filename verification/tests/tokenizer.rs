// The tokenizer's classification loop on whole-program samples. The library
// lexes materialized text, so each sample is given as the string a source
// loader would hand over.

use fll::token::{Brace, Identifier, Keyword, NewLine, Operator, OperatorType, Parenthesis, Token, Whitespace};
use fll::tokenizer::{CaretPos, Tokenizer};

#[test]
fn tokenize_main_fn() {
    let source = "main();\n";
    let mut tokenizer = Tokenizer::default();
    let tokenized = tokenizer.tokenize(source).unwrap();

    let tokenized_eq: Vec<Token> = vec![
        Token::Identifier(Identifier::from(String::from("main"))),
        Token::Parenthesis(Parenthesis::open()),
        Token::Parenthesis(Parenthesis::close()),
        Token::Operator(Operator::from(OperatorType::StatementTerminator)),
        Token::NewLine(NewLine::default()),
        Token::EndOfFile(fll::token::EndOfFile::default()),
    ];

    println!("tc > {:?}", tokenized);
    println!("eq > {:?}", tokenized_eq);

    assert_eq!(tokenized.len(), tokenized_eq.len());
}

#[test]
fn tokenize_other_fn() {
    let source = "man();\nother_fn();\n";
    let mut tokenizer = Tokenizer::default();
    let actual = tokenizer.tokenize(source).unwrap();

    let expected: Vec<Token> = vec![
        Token::Identifier(Identifier::from(String::from("man"))),
        Token::Parenthesis(Parenthesis::open()),
        Token::Parenthesis(Parenthesis::close()),
        Token::Operator(Operator::from(OperatorType::StatementTerminator)),
        Token::NewLine(NewLine::default()),
        Token::Identifier(Identifier::from(String::from("other_fn"))),
        Token::Parenthesis(Parenthesis::open()),
        Token::Parenthesis(Parenthesis::close()),
        Token::Operator(Operator::from(OperatorType::StatementTerminator)),
        Token::NewLine(NewLine::default()),
        Token::EndOfFile(fll::token::EndOfFile::default()),
    ];

    println!("(expected) > {:?}", expected);
    println!(" (actual)  > {:?}", actual);

    assert_eq!(expected.len(), actual.len());
}

#[test]
fn tokenize_add() {
    let source = "add(a: u8, b: u8): -> u8 {\n  return a + b;\n};\n";
    let mut tokenizer = Tokenizer::default();
    let actual = tokenizer.tokenize(source).unwrap();

    let expected: Vec<Token> = vec![
        Token::Identifier(Identifier::from(String::from("add"))),
        Token::Parenthesis(Parenthesis::open()),
        Token::Identifier(Identifier::from(String::from("a"))),
        Token::Operator(Operator::from(OperatorType::TypeSpecifier)),
        Token::Whitespace(Whitespace::default()),
        Token::Keyword(Keyword::from(String::from("u8"))),
        Token::Operator(Operator::from(OperatorType::CommaSeparator)),
        Token::Whitespace(Whitespace::default()),
        Token::Identifier(Identifier::from(String::from("b"))),
        Token::Operator(Operator::from(OperatorType::TypeSpecifier)),
        Token::Whitespace(Whitespace::default()),
        Token::Keyword(Keyword::from(String::from("u8"))),
        Token::Parenthesis(Parenthesis::close()),
        Token::Operator(Operator::from(OperatorType::TypeSpecifier)),
        Token::Whitespace(Whitespace::default()),
        Token::Operator(Operator::from(OperatorType::ReturnType)),
        Token::Whitespace(Whitespace::default()),
        Token::Keyword(Keyword::from(String::from("u8"))),
        Token::Whitespace(Whitespace::default()),
        Token::Brace(Brace::open()),
        Token::NewLine(NewLine::default()),
        Token::Whitespace(Whitespace::default()),
        Token::Keyword(Keyword::from(String::from("return"))),
        Token::Whitespace(Whitespace::default()),
        Token::Identifier(Identifier::from(String::from("a"))),
        Token::Whitespace(Whitespace::default()),
        Token::Operator(Operator::from(OperatorType::Addition)),
        Token::Whitespace(Whitespace::default()),
        Token::Identifier(Identifier::from(String::from("b"))),
        Token::Operator(Operator::from(OperatorType::StatementTerminator)),
        Token::NewLine(NewLine::default()),
        Token::Brace(Brace::close()),
        Token::Operator(Operator::from(OperatorType::StatementTerminator)),
        Token::NewLine(NewLine::default()),
        Token::EndOfFile(fll::token::EndOfFile::default()),
    ];

    println!("(expected) > {:?}", expected);
    println!(" (actual)  > {:?}", actual);

    assert_eq!(expected.len(), actual.len());
}

#[test]
fn rows_and_colums() {
    let source = "man();\nother_fn();\n";
    let mut tokenizer = Tokenizer::default();
    let _ = tokenizer.tokenize(source).unwrap();
    let actual = tokenizer.get_caret_pos();
    let expected = CaretPos::from((3, 1));

    assert_eq!(actual, expected)
}
