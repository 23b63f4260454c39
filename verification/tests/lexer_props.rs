// Behavioural tests for the token model, the caret tracker and the
// tokenizer: the documented scenarios, the edge cases around keyword
// precedence, whitespace collapsing, lookahead, position accounting, and the
// structured lexical error.

use fll::token::{
    is_keyword, BracketType, Bracket, Brace, EndOfFile, Identifier, Keyword, NewLine, Operator,
    OperatorType, Parenthesis, Token, Whitespace,
};
use fll::tokenizer::{CaretPos, LexError, Tokenizer};

fn lex(source: &str) -> Result<Vec<Token>, LexError> {
    let mut tokenizer = Tokenizer::default();
    tokenizer.tokenize(source)
}

#[test]
fn scenario_main_fn_prefix() {
    // The recognizable prefix of the `main(): -> u8 := {...}` sample, up to
    // the `:=` that lies outside the current grammar.
    let tokens = lex("main(): -> u8 ").unwrap();
    assert_eq!(tokens.len(), 10);
    match &tokens[0] {
        Token::Identifier(id) => assert_eq!(id.identifier(), String::from("main")),
        other => panic!("expected an identifier, got {:?}", other),
    }
    assert!(matches!(&tokens[1], Token::Parenthesis(p) if p.bracket_type() == BracketType::Opening));
    assert!(matches!(&tokens[2], Token::Parenthesis(p) if p.bracket_type() == BracketType::Closing));
    assert!(matches!(&tokens[3], Token::Operator(o) if o.operator_type() == OperatorType::TypeSpecifier));
    assert!(matches!(&tokens[4], Token::Whitespace(_)));
    assert!(matches!(&tokens[5], Token::Operator(o) if o.operator_type() == OperatorType::ReturnType));
    assert!(matches!(&tokens[6], Token::Whitespace(_)));
    match &tokens[7] {
        Token::Keyword(k) => assert_eq!(k.keyword(), String::from("u8")),
        other => panic!("expected a keyword, got {:?}", other),
    }
    assert!(matches!(&tokens[8], Token::Whitespace(_)));
    assert!(matches!(&tokens[9], Token::EndOfFile(_)));
}

#[test]
fn scenario_main_fn_sample() {
    // The full sample: `=` (in `:=`) matches no classification rule, so the
    // lex surfaces the structured error instead of a token sequence. The `:`
    // before it was consumed; the caret sits one step past the `=`.
    let result = lex("main(): -> u8 := {\n  return 0;\n}\n");
    assert_eq!(
        result.unwrap_err(),
        LexError::UnrecognizedCharacter {
            character: '=',
            position: CaretPos { line: 1, column: 17 },
        }
    );
}

#[test]
fn scenario_statement_lines() {
    // Two one-statement lines: 11 tokens ending in EndOfFile, with a NewLine
    // after each statement terminator.
    let tokens = lex("man();\nother_fn();\n").unwrap();
    assert_eq!(tokens.len(), 11);
    assert!(matches!(&tokens[3], Token::Operator(o) if o.operator_type() == OperatorType::StatementTerminator));
    assert!(matches!(&tokens[4], Token::NewLine(_)));
    assert!(matches!(&tokens[8], Token::Operator(o) if o.operator_type() == OperatorType::StatementTerminator));
    assert!(matches!(&tokens[9], Token::NewLine(_)));
    assert!(matches!(&tokens[10], Token::EndOfFile(_)));
    match &tokens[5] {
        Token::Identifier(id) => assert_eq!(id.identifier(), String::from("other_fn")),
        other => panic!("expected an identifier, got {:?}", other),
    }
}

#[test]
fn scenario_bare_keyword() {
    // A bare `u8` lexes to exactly [Keyword("u8"), EndOfFile].
    let tokens = lex("u8").unwrap();
    assert_eq!(tokens.len(), 2);
    match &tokens[0] {
        Token::Keyword(k) => assert_eq!(k.keyword(), String::from("u8")),
        other => panic!("expected a keyword, got {:?}", other),
    }
    assert!(matches!(&tokens[1], Token::EndOfFile(_)));
}

#[test]
fn scenario_unrecognized_character() {
    // `$` is outside every defined class: a structured error, not a token,
    // and the caret is left exactly where the error says.
    let mut tokenizer = Tokenizer::default();
    let result = tokenizer.tokenize("$");
    let expected_pos = CaretPos { line: 1, column: 2 };
    assert_eq!(
        result.unwrap_err(),
        LexError::UnrecognizedCharacter { character: '$', position: expected_pos }
    );
    assert_eq!(tokenizer.get_caret_pos(), expected_pos);
}

#[test]
fn keyword_precedence() {
    // Every string in the fixed keyword set lexes to a Keyword token, never
    // an Identifier, though each satisfies the identifier grammar.
    for word in ["u8", "return"] {
        let tokens = lex(word).unwrap();
        assert_eq!(tokens.len(), 2);
        assert!(matches!(&tokens[0], Token::Keyword(_)), "{} must lex as a keyword", word);
    }
    // Near misses are identifiers.
    for word in ["ret", "u9", "returns", "u", "r"] {
        let tokens = lex(word).unwrap();
        assert_eq!(tokens.len(), 2);
        assert!(matches!(&tokens[0], Token::Identifier(_)), "{} must lex as an identifier", word);
    }
}

#[test]
fn is_keyword_exact_match() {
    assert!(is_keyword("u8"));
    assert!(is_keyword("return"));
    assert!(!is_keyword("u"));
    assert!(!is_keyword("u88"));
    assert!(!is_keyword("returns"));
    assert!(!is_keyword("retur"));
    assert!(!is_keyword(""));
}

#[test]
fn whitespace_collapsing() {
    // N and N + 1 spaces are indistinguishable: one Whitespace token each.
    let one = lex("a b").unwrap();
    let many = lex("a      b").unwrap();
    assert_eq!(one.len(), 4);
    assert_eq!(many.len(), 4);
    assert!(matches!(&one[1], Token::Whitespace(_)));
    assert!(matches!(&many[1], Token::Whitespace(_)));
    let only_spaces = lex("   ").unwrap();
    assert_eq!(only_spaces.len(), 2);
    assert!(matches!(&only_spaces[0], Token::Whitespace(_)));
    assert!(matches!(&only_spaces[1], Token::EndOfFile(_)));
}

#[test]
fn lookahead_return_type() {
    // `->` is a single ReturnType operator, never two tokens.
    let tokens = lex("->").unwrap();
    assert_eq!(tokens.len(), 2);
    assert!(matches!(&tokens[0], Token::Operator(o) if o.operator_type() == OperatorType::ReturnType));
    assert!(matches!(&tokens[1], Token::EndOfFile(_)));
}

#[test]
fn bare_minus_is_unrecognized() {
    // A `-` not followed by `>` matches no rule of the current grammar.
    let at_end = lex("-");
    assert_eq!(
        at_end.unwrap_err(),
        LexError::UnrecognizedCharacter {
            character: '-',
            position: CaretPos { line: 1, column: 2 },
        }
    );
    let mid = lex("a-b");
    assert_eq!(
        mid.unwrap_err(),
        LexError::UnrecognizedCharacter {
            character: '-',
            position: CaretPos { line: 1, column: 3 },
        }
    );
}

#[test]
fn position_accounting() {
    // Two newline-terminated lines and a third line with no trailing newline:
    // the final line is 3 (one more than the newlines consumed) and the final
    // column is 1 plus the three characters of the last line.
    let mut tokenizer = Tokenizer::default();
    tokenizer.tokenize("ab\ncd\nxyz").unwrap();
    let pos = tokenizer.get_caret_pos();
    assert_eq!(pos.get_line(), 3);
    assert_eq!(pos.get_column(), 4);
}

#[test]
fn empty_input_is_end_of_file_only() {
    let tokens = lex("").unwrap();
    assert_eq!(tokens.len(), 1);
    assert!(matches!(&tokens[0], Token::EndOfFile(_)));
}

#[test]
fn caret_process_char() {
    let mut pos = CaretPos::default();
    assert_eq!(pos.get_line(), 1);
    assert_eq!(pos.get_column(), 1);
    pos.process_char(Some('a'));
    assert_eq!((pos.get_line(), pos.get_column()), (1, 2));
    pos.process_char(Some('\n'));
    assert_eq!((pos.get_line(), pos.get_column()), (2, 1));
    pos.process_char(None);
    assert_eq!((pos.get_line(), pos.get_column()), (2, 1));
}

#[test]
fn caret_display_string() {
    assert_eq!(CaretPos::default().display_string(), String::from(":1:1"));
    assert_eq!(CaretPos::from((12, 34)).display_string(), String::from(":12:34"));
    assert_eq!(CaretPos::from((3, 107)).display_string(), String::from(":3:107"));
}

#[test]
fn token_equality_is_by_kind() {
    // Coarse equality: same kind, equal; payload ignored.
    let kw_u8 = Token::Keyword(Keyword::from(String::from("u8")));
    let kw_return = Token::Keyword(Keyword::from(String::from("return")));
    let id_u9 = Token::Identifier(Identifier::from(String::from("u9")));
    assert!(kw_u8.same_kind(&kw_return));
    assert!(!kw_u8.same_kind(&id_u9));
    let open = Token::Parenthesis(Parenthesis::open());
    let close = Token::Parenthesis(Parenthesis::close());
    assert!(open.same_kind(&close));
    assert!(!open.same_kind(&Token::Brace(Brace::open())));
    assert!(Token::EndOfFile(EndOfFile::default()).same_kind(&Token::EndOfFile(
        EndOfFile::default()
    )));
    assert!(!Token::NewLine(NewLine::default()).same_kind(&Token::Whitespace(
        Whitespace::default()
    )));
}

#[test]
fn bracket_families() {
    assert_eq!(Parenthesis::open().bracket_type(), BracketType::Opening);
    assert_eq!(Parenthesis::close().bracket_type(), BracketType::Closing);
    assert_eq!(Bracket::open().bracket_type(), BracketType::Opening);
    assert_eq!(Bracket::close().bracket_type(), BracketType::Closing);
    assert_eq!(Brace::open().bracket_type(), BracketType::Opening);
    assert_eq!(Brace::close().bracket_type(), BracketType::Closing);
    assert_eq!(Bracket::from(BracketType::Opening).bracket_type(), BracketType::Opening);
}

#[test]
fn operator_kind_is_kept() {
    let op = Operator::from(OperatorType::Addition);
    assert_eq!(op.operator_type(), OperatorType::Addition);
    assert_eq!(
        Operator::from(OperatorType::StatementTerminator).operator_type(),
        OperatorType::StatementTerminator
    );
}

#[test]
fn character_classes() {
    assert!(Keyword::is_valid_char(&'a'));
    assert!(Keyword::is_valid_char(&'z'));
    assert!(!Keyword::is_valid_char(&'A'));
    assert!(!Keyword::is_valid_char(&'0'));
    assert!(!Keyword::is_valid_char(&'_'));

    assert!(Identifier::is_valid_char(&'a', true));
    assert!(Identifier::is_valid_char(&'Z', true));
    assert!(Identifier::is_valid_char(&'_', true));
    assert!(!Identifier::is_valid_char(&'7', true));
    assert!(Identifier::is_valid_char(&'7', false));
    assert!(!Identifier::is_valid_char(&'-', false));
    assert!(!Identifier::is_valid_char(&' ', true));
}

#[test]
fn token_text_getters() {
    let kw = Keyword::from(String::from("return"));
    assert_eq!(kw.keyword(), String::from("return"));
    let id = Identifier::from(String::from("other_fn"));
    assert_eq!(id.identifier(), String::from("other_fn"));
}
