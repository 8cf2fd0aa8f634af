use tapevm::lexer::{LexError, LexErrorKind, Lexer, Token, TokenType};

fn lex(text: &str) -> Vec<Token> {
    Lexer::lex_string(text.to_string()).expect("the text tokenizes")
}

fn lex_err(text: &str) -> LexError {
    Lexer::lex_string(text.to_string()).expect_err("the text does not tokenize")
}

fn kinds(tokens: &[Token]) -> Vec<TokenType> {
    tokens.iter().map(|t| t.token_type).collect()
}

fn token(token_type: TokenType, value: &str, x: u32, y: u32) -> Token {
    Token { token_type, value: value.to_string(), x, y }
}

fn error(kind: LexErrorKind, line: u32, column: u32) -> LexError {
    LexError { kind, line, column }
}

#[test]
fn string_literal_resolves_escapes() {
    let tokens = lex("\"ab\\nc\"");
    assert_eq!(
        tokens,
        vec![token(TokenType::String, "ab\nc", 1, 1), token(TokenType::EndOfFile, "", 1, 1)]
    );
}

#[test]
fn string_literal_knows_four_escapes() {
    let tokens = lex("\"a\\tb\\\\c\\ d\\n\"");
    assert_eq!(kinds(&tokens), vec![TokenType::String, TokenType::EndOfFile]);
    assert_eq!(tokens[0].value, "a\tb\\cd\n");
}

#[test]
fn string_literal_keeps_slashes_and_symbols() {
    let tokens = lex("\"//+ [1]\"");
    assert_eq!(kinds(&tokens), vec![TokenType::String, TokenType::EndOfFile]);
    assert_eq!(tokens[0].value, "//+ [1]");
}

#[test]
fn empty_string_literal() {
    let tokens = lex("\"\"");
    assert_eq!(
        tokens,
        vec![token(TokenType::String, "", 1, 1), token(TokenType::EndOfFile, "", 1, 1)]
    );
}

#[test]
fn float_literal_is_one_token() {
    let tokens = lex("123.45");
    assert_eq!(
        tokens,
        vec![
            token(TokenType::FloatingPoint, "123.45", 1, 1),
            token(TokenType::EndOfFile, "", 1, 1)
        ]
    );
}

#[test]
fn integer_followed_by_symbol() {
    let tokens = lex("123+");
    assert_eq!(
        tokens,
        vec![
            token(TokenType::Integer, "123", 1, 1),
            token(TokenType::AddOperation, "", 4, 1),
            token(TokenType::EndOfFile, "", 4, 1)
        ]
    );
}

#[test]
fn integer_followed_by_blank() {
    let tokens = lex("123 ");
    assert_eq!(
        tokens,
        vec![token(TokenType::Integer, "123", 1, 1), token(TokenType::EndOfFile, "", 4, 1)]
    );
}

#[test]
fn integer_at_the_end_of_the_text() {
    let tokens = lex("123");
    assert_eq!(
        tokens,
        vec![token(TokenType::Integer, "123", 1, 1), token(TokenType::EndOfFile, "", 1, 1)]
    );
}

#[test]
fn comment_produces_no_token() {
    let tokens = lex("//comment\n+");
    assert_eq!(
        tokens,
        vec![token(TokenType::AddOperation, "", 1, 2), token(TokenType::EndOfFile, "", 1, 2)]
    );
}

#[test]
fn comment_runs_to_the_end_of_the_text() {
    let tokens = lex("+ // \"x\" 12 ab");
    assert_eq!(
        tokens,
        vec![token(TokenType::AddOperation, "", 1, 1), token(TokenType::EndOfFile, "", 3, 1)]
    );
}

#[test]
fn comment_flushes_an_identifier() {
    let tokens = lex("ab//c\n-");
    assert_eq!(
        tokens,
        vec![
            token(TokenType::Identifier, "ab", 1, 1),
            token(TokenType::SubOperation, "", 1, 2),
            token(TokenType::EndOfFile, "", 1, 2)
        ]
    );
}

#[test]
fn empty_text_is_the_end_marker_alone() {
    assert_eq!(lex(""), vec![token(TokenType::EndOfFile, "", 0, 0)]);
}

#[test]
fn every_symbol_has_its_token() {
    let tokens = lex("+-><.(),{}[]:;&");
    assert_eq!(
        kinds(&tokens),
        vec![
            TokenType::AddOperation,
            TokenType::SubOperation,
            TokenType::MovRightOperation,
            TokenType::MovLeftOperation,
            TokenType::PrintOut,
            TokenType::ParenthesisOpen,
            TokenType::ParenthesisClose,
            TokenType::SeparatorComma,
            TokenType::CurlyBracketOpen,
            TokenType::CurlyBracketClose,
            TokenType::BracketOpen,
            TokenType::BracketClose,
            TokenType::Colon,
            TokenType::SemiColon,
            TokenType::FunctionCall,
            TokenType::EndOfFile,
        ]
    );
    for (i, t) in tokens.iter().take(15).enumerate() {
        assert_eq!((t.x, t.y), (i as u32 + 1, 1));
        assert_eq!(t.value, "");
    }
}

#[test]
fn blanks_are_skipped_and_lines_counted() {
    let tokens = lex(" +\n\t-\n\n  >");
    assert_eq!(
        tokens,
        vec![
            token(TokenType::AddOperation, "", 2, 1),
            token(TokenType::SubOperation, "", 2, 2),
            token(TokenType::MovRightOperation, "", 3, 4),
            token(TokenType::EndOfFile, "", 3, 4)
        ]
    );
}

#[test]
fn end_marker_repeats_the_last_mark() {
    let tokens = lex("+\n");
    assert_eq!(
        tokens,
        vec![token(TokenType::AddOperation, "", 1, 1), token(TokenType::EndOfFile, "", 0, 2)]
    );
}

#[test]
fn identifier_takes_letters_digits_and_underscores() {
    let tokens = lex("_ab_12Z");
    assert_eq!(
        tokens,
        vec![token(TokenType::Identifier, "_ab_12Z", 1, 1), token(TokenType::EndOfFile, "", 1, 1)]
    );
}

#[test]
fn letter_ends_a_number_and_starts_an_identifier() {
    let tokens = lex("12ab34");
    assert_eq!(
        tokens,
        vec![
            token(TokenType::Integer, "12", 1, 1),
            token(TokenType::Identifier, "ab34", 3, 1),
            token(TokenType::EndOfFile, "", 3, 1)
        ]
    );
}

#[test]
fn quote_ends_a_number_which_keeps_its_own_position() {
    let tokens = lex("12\"a\"");
    assert_eq!(
        tokens,
        vec![
            token(TokenType::Integer, "12", 1, 1),
            token(TokenType::String, "a", 3, 1),
            token(TokenType::EndOfFile, "", 3, 1)
        ]
    );
}

#[test]
fn quote_ends_a_float_and_an_identifier() {
    let tokens = lex("1.5\"a\"b\"c\"");
    assert_eq!(
        tokens,
        vec![
            token(TokenType::FloatingPoint, "1.5", 1, 1),
            token(TokenType::String, "a", 4, 1),
            token(TokenType::Identifier, "b", 7, 1),
            token(TokenType::String, "c", 8, 1),
            token(TokenType::EndOfFile, "", 8, 1)
        ]
    );
}

#[test]
fn dot_after_an_integer_prints_unless_a_digit_follows() {
    let tokens = lex("1.+");
    assert_eq!(
        kinds(&tokens),
        vec![
            TokenType::Integer,
            TokenType::PrintOut,
            TokenType::AddOperation,
            TokenType::EndOfFile
        ]
    );
    let tokens = lex("1.\n5");
    assert_eq!(
        kinds(&tokens),
        vec![TokenType::Integer, TokenType::PrintOut, TokenType::Integer, TokenType::EndOfFile]
    );
}

#[test]
fn dot_looks_past_spaces_for_a_digit() {
    let tokens = lex("1.  5");
    assert_eq!(
        tokens,
        vec![
            token(TokenType::FloatingPoint, "1.", 1, 1),
            token(TokenType::Integer, "5", 5, 1),
            token(TokenType::EndOfFile, "", 5, 1)
        ]
    );
}

#[test]
fn second_dot_of_a_float_prints() {
    let tokens = lex("1.2.3");
    assert_eq!(
        tokens,
        vec![
            token(TokenType::FloatingPoint, "1.2", 1, 1),
            token(TokenType::PrintOut, "", 4, 1),
            token(TokenType::Integer, "3", 5, 1),
            token(TokenType::EndOfFile, "", 5, 1)
        ]
    );
}

#[test]
fn dot_without_a_number_prints() {
    let tokens = lex(".5 a.");
    assert_eq!(
        kinds(&tokens),
        vec![
            TokenType::PrintOut,
            TokenType::Integer,
            TokenType::Identifier,
            TokenType::PrintOut,
            TokenType::EndOfFile
        ]
    );
}

#[test]
fn tokens_of_a_small_program() {
    let tokens = lex("[10 +.]\n(> \"<=\" <; &)");
    assert_eq!(
        tokens,
        vec![
            token(TokenType::BracketOpen, "", 1, 1),
            token(TokenType::Integer, "10", 2, 1),
            token(TokenType::AddOperation, "", 5, 1),
            token(TokenType::PrintOut, "", 6, 1),
            token(TokenType::BracketClose, "", 7, 1),
            token(TokenType::ParenthesisOpen, "", 1, 2),
            token(TokenType::MovRightOperation, "", 2, 2),
            token(TokenType::String, "<=", 4, 2),
            token(TokenType::MovLeftOperation, "", 9, 2),
            token(TokenType::SemiColon, "", 10, 2),
            token(TokenType::FunctionCall, "", 12, 2),
            token(TokenType::ParenthesisClose, "", 13, 2),
            token(TokenType::EndOfFile, "", 13, 2),
        ]
    );
}

#[test]
fn end_marker_is_last_and_only_last() {
    for text in ["", "+", "12", "ab", "\"s\"", "//c", "1.5 x\n[3+]"] {
        let tokens = lex(text);
        let (last, rest) = tokens.split_last().expect("there is an end marker");
        assert_eq!(last.token_type, TokenType::EndOfFile);
        assert!(rest.iter().all(|t| t.token_type != TokenType::EndOfFile));
        assert!(rest.iter().all(|t| t.token_type != TokenType::Boolean));
    }
}

#[test]
fn newline_inside_a_string_is_rejected() {
    assert_eq!(lex_err("+\"ab\ncd\""), error(LexErrorKind::UnterminatedString, 2, 0));
}

#[test]
fn string_open_at_the_end_is_rejected() {
    assert_eq!(lex_err("+ \"abc"), error(LexErrorKind::UnterminatedString, 1, 6));
}

#[test]
fn backslash_at_the_end_is_rejected() {
    assert_eq!(lex_err("\"ab\\"), error(LexErrorKind::UnterminatedString, 1, 4));
}

#[test]
fn unknown_escape_is_rejected() {
    assert_eq!(lex_err("\"a\\qb\""), error(LexErrorKind::UnknownEscape, 1, 4));
    assert_eq!(lex_err("\"a\\\nb\""), error(LexErrorKind::UnknownEscape, 2, 0));
    assert_eq!(lex_err("\"a\\\"\""), error(LexErrorKind::UnknownEscape, 1, 4));
}

#[test]
fn single_slash_is_rejected() {
    assert_eq!(lex_err("+ /x"), error(LexErrorKind::MalformedComment, 1, 3));
    assert_eq!(lex_err("+\n/"), error(LexErrorKind::MalformedComment, 2, 1));
    assert_eq!(lex_err("/ /"), error(LexErrorKind::MalformedComment, 1, 1));
}

#[test]
fn unknown_character_is_rejected() {
    assert_eq!(lex_err("+ #"), error(LexErrorKind::UnknownCharacter, 1, 3));
    assert_eq!(lex_err("=="), error(LexErrorKind::UnknownCharacter, 1, 1));
    assert_eq!(lex_err("+\r\n"), error(LexErrorKind::UnknownCharacter, 1, 2));
    assert_eq!(lex_err("ab\u{e9}"), error(LexErrorKind::UnknownCharacter, 1, 3));
}

#[test]
fn dot_after_an_integer_needs_a_character_to_look_at() {
    assert_eq!(lex_err("12."), error(LexErrorKind::MissingLookahead, 1, 3));
    assert_eq!(lex_err("12.   "), error(LexErrorKind::MissingLookahead, 1, 3));
}

#[test]
fn first_error_wins() {
    assert_eq!(lex_err("#\"abc"), error(LexErrorKind::UnknownCharacter, 1, 1));
    assert_eq!(lex_err("\"a\\q\nb"), error(LexErrorKind::UnknownEscape, 1, 4));
}

#[test]
fn lexer_instance_gives_what_lex_string_gives() {
    let text = "[5 +.]//x\n\"==\" 1.5 ab";
    let mut lexer = Lexer::new();
    assert_eq!(lexer.lex_text(text.to_string()), Lexer::lex_string(text.to_string()));
}

#[test]
fn new_token_sits_at_the_origin() {
    let t = Token::new(TokenType::Integer, "12".to_string());
    assert_eq!(t, token(TokenType::Integer, "12", 0, 0));
}

#[test]
fn token_kind_predicates() {
    let string = Token::new(TokenType::String, "a".to_string());
    let integer = Token::new(TokenType::Integer, "1".to_string());
    let float = Token::new(TokenType::FloatingPoint, "1.5".to_string());
    let boolean = Token::new(TokenType::Boolean, "true".to_string());
    let identifier = Token::new(TokenType::Identifier, "a".to_string());
    assert!(string.is_string() && !string.is_integer() && !string.is_float() && !string.is_bool());
    assert!(integer.is_integer() && !integer.is_string());
    assert!(float.is_float() && !float.is_integer());
    assert!(boolean.is_bool() && !boolean.is_string());
    assert!(string.is_data_type());
    assert!(integer.is_data_type());
    assert!(float.is_data_type());
    assert!(boolean.is_data_type());
    assert!(!identifier.is_data_type());
    assert!(!Token::new(TokenType::AddOperation, String::new()).is_data_type());
}

#[test]
fn true_value_puts_the_quotes_back() {
    assert_eq!(Token::new(TokenType::String, "a b".to_string()).true_value(), "\"a b\"");
    assert_eq!(Token::new(TokenType::String, String::new()).true_value(), "\"\"");
    assert_eq!(Token::new(TokenType::Integer, "12".to_string()).true_value(), "12");
    assert_eq!(Token::new(TokenType::Identifier, "ab".to_string()).true_value(), "ab");
}

#[test]
fn token_clone_and_equality() {
    let t = token(TokenType::String, "ab", 3, 4);
    assert_eq!(t.clone(), t);
    assert_ne!(t, token(TokenType::String, "ab", 3, 5));
    assert_ne!(t, token(TokenType::String, "ab", 2, 4));
    assert_ne!(t, token(TokenType::String, "ac", 3, 4));
    assert_ne!(t, token(TokenType::Identifier, "ab", 3, 4));
}
