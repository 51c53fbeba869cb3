use lox_frontend::scanner::{format_number_string, tokenize, LexError, Token};

fn text(token: Token) -> String {
    token.render()
}

#[test]
fn punctuation_shows_name_mark_and_null() {
    assert_eq!(text(Token::LeftParen), "LEFT_PAREN ( null");
    assert_eq!(text(Token::RightParen), "RIGHT_PAREN ) null");
    assert_eq!(text(Token::LeftBrace), "LEFT_BRACE { null");
    assert_eq!(text(Token::RightBrace), "RIGHT_BRACE } null");
    assert_eq!(text(Token::Comma), "COMMA , null");
    assert_eq!(text(Token::Dot), "DOT . null");
    assert_eq!(text(Token::Minus), "MINUS - null");
    assert_eq!(text(Token::Plus), "PLUS + null");
    assert_eq!(text(Token::Semicolon), "SEMICOLON ; null");
    assert_eq!(text(Token::Star), "STAR * null");
}

#[test]
fn scanned_punctuation_shows_name_mark_and_null() {
    let marks = [
        ('(', "LEFT_PAREN"),
        (')', "RIGHT_PAREN"),
        ('{', "LEFT_BRACE"),
        ('}', "RIGHT_BRACE"),
        (',', "COMMA"),
        ('.', "DOT"),
        ('-', "MINUS"),
        ('+', "PLUS"),
        (';', "SEMICOLON"),
        ('*', "STAR"),
    ];
    for (mark, name) in marks {
        let entries = tokenize(&mark.to_string(), 1);
        assert_eq!(entries.len(), 1);
        let token = entries[0].clone().unwrap();
        assert_eq!(token.render(), format!("{} {} null", name, mark));
    }
}

#[test]
fn operators_show_name_text_and_null() {
    assert_eq!(text(Token::Bang), "BANG ! null");
    assert_eq!(text(Token::BangEqual), "BANG_EQUAL != null");
    assert_eq!(text(Token::Equal), "EQUAL = null");
    assert_eq!(text(Token::EqualEqual), "EQUAL_EQUAL == null");
    assert_eq!(text(Token::Greater), "GREATER > null");
    assert_eq!(text(Token::GreaterEqual), "GREATER_EQUAL >= null");
    assert_eq!(text(Token::Less), "LESS < null");
    assert_eq!(text(Token::LessEqual), "LESS_EQUAL <= null");
    assert_eq!(text(Token::Slash), "SLASH / null");
}

#[test]
fn keywords_show_name_word_and_null() {
    assert_eq!(text(Token::And), "AND and null");
    assert_eq!(text(Token::Class), "CLASS class null");
    assert_eq!(text(Token::Else), "ELSE else null");
    assert_eq!(text(Token::False), "FALSE false null");
    assert_eq!(text(Token::For), "FOR for null");
    assert_eq!(text(Token::Fun), "FUN fun null");
    assert_eq!(text(Token::If), "IF if null");
    assert_eq!(text(Token::Nil), "NIL nil null");
    assert_eq!(text(Token::Or), "OR or null");
    assert_eq!(text(Token::Print), "PRINT print null");
    assert_eq!(text(Token::Return), "RETURN return null");
    assert_eq!(text(Token::Super), "SUPER super null");
    assert_eq!(text(Token::This), "THIS this null");
    assert_eq!(text(Token::True), "TRUE true null");
    assert_eq!(text(Token::Var), "VAR var null");
    assert_eq!(text(Token::While), "WHILE while null");
}

#[test]
fn end_marker_has_no_text() {
    assert_eq!(text(Token::Eof), "EOF  null");
}

#[test]
fn string_shows_quoted_text_and_content() {
    assert_eq!(text(Token::String("abc".to_string())), "STRING \"abc\" abc");
    assert_eq!(text(Token::String("".to_string())), "STRING \"\" ");
    assert_eq!(text(Token::String("a b".to_string())), "STRING \"a b\" a b");
}

#[test]
fn number_shows_numeral_and_value() {
    assert_eq!(text(Token::Number("3".to_string())), "NUMBER 3 3.0");
    assert_eq!(text(Token::Number("3.0".to_string())), "NUMBER 3.0 3.0");
    assert_eq!(text(Token::Number("3.14".to_string())), "NUMBER 3.14 3.14");
    assert_eq!(text(Token::Number("3.00".to_string())), "NUMBER 3.00 3.0");
    assert_eq!(text(Token::Number("3.001".to_string())), "NUMBER 3.001 3.001");
}

#[test]
fn identifier_shows_name_and_null() {
    assert_eq!(text(Token::Identifier("foo".to_string())), "IDENTIFIER foo null");
    assert_eq!(text(Token::Identifier("_x1".to_string())), "IDENTIFIER _x1 null");
}

#[test]
fn token_parts() {
    let token = Token::Number("12".to_string());
    assert_eq!(token.name(), "NUMBER");
    assert_eq!(token.lexeme(), "12");
    assert_eq!(token.literal(), "12.0");
    let token = Token::String("hi".to_string());
    assert_eq!(token.name(), "STRING");
    assert_eq!(token.lexeme(), "\"hi\"");
    assert_eq!(token.literal(), "hi");
    assert_eq!(Token::Eof.lexeme(), "");
    assert_eq!(Token::LessEqual.lexeme(), "<=");
    assert_eq!(Token::While.literal(), "null");
}

#[test]
fn numeral_without_dot_gets_dot_zero() {
    assert_eq!(format_number_string(&"3".to_string()), "3.0");
    assert_eq!(format_number_string(&"123".to_string()), "123.0");
    assert_eq!(format_number_string(&"0".to_string()), "0.0");
}

#[test]
fn numeral_with_fraction_stays() {
    assert_eq!(format_number_string(&"3.14".to_string()), "3.14");
    assert_eq!(format_number_string(&"1.5001".to_string()), "1.5001");
    assert_eq!(format_number_string(&"10.50".to_string()), "10.50");
    assert_eq!(format_number_string(&"0.05".to_string()), "0.05");
}

#[test]
fn numeral_with_zeros_inside_its_fraction_keeps_its_value() {
    assert_eq!(format_number_string(&"3.001".to_string()), "3.001");
    assert_eq!(format_number_string(&"1.005".to_string()), "1.005");
    assert_eq!(format_number_string(&"0.0001".to_string()), "0.0001");
    assert_eq!(format_number_string(&"7.1000".to_string()), "7.1000");
    assert_eq!(format_number_string(&"7.0010".to_string()), "7.0010");
}

#[test]
fn numeral_with_only_zeros_behind_the_dot_shows_one() {
    assert_eq!(format_number_string(&"3.0".to_string()), "3.0");
    assert_eq!(format_number_string(&"3.00".to_string()), "3.0");
    assert_eq!(format_number_string(&"3.000".to_string()), "3.0");
    assert_eq!(format_number_string(&"42.0000".to_string()), "42.0");
    assert_eq!(format_number_string(&"0.00".to_string()), "0.0");
    assert_eq!(format_number_string(&"007.00".to_string()), "007.0");
}

#[test]
fn format_number_string_on_other_text() {
    assert_eq!(format_number_string(&"".to_string()), ".0");
    assert_eq!(format_number_string(&"abc".to_string()), "abc.0");
    assert_eq!(format_number_string(&"1.2.00".to_string()), "1.2.00");
    assert_eq!(format_number_string(&"1.00.2".to_string()), "1.00.2");
    assert_eq!(format_number_string(&".".to_string()), ".0");
    assert_eq!(format_number_string(&"3.".to_string()), "3.0");
    assert_eq!(format_number_string(&".00".to_string()), ".0");
    assert_eq!(format_number_string(&".5".to_string()), ".5");
}

#[test]
fn formatted_numeral_writes_the_same_number() {
    for numeral in ["0", "7", "10", "3.0", "3.14", "3.00", "3.001", "100.001", "5.50", "0.125"] {
        let formatted = format_number_string(&numeral.to_string());
        let written: f64 = numeral.parse().unwrap();
        let shown: f64 = formatted.parse().unwrap();
        assert_eq!(shown, written, "{}", numeral);
    }
}

#[test]
fn formatted_numeral_always_has_a_digit_behind_the_dot() {
    for numeral in ["0", "7", "10", "3.0", "3.14", "3.00", "3.001", "100.001", "5.50"] {
        let formatted = format_number_string(&numeral.to_string());
        let dot = formatted.find('.').unwrap();
        let behind = &formatted[dot + 1..];
        assert!(!behind.is_empty());
        assert!(behind.chars().all(|c| c.is_ascii_digit()));
        assert!(dot > 0);
    }
}

#[test]
fn unexpected_character_message() {
    let error = LexError::UnexpectedCharacter { line: 1, character: '@' };
    assert_eq!(error.message(), "[line 1] Error: Unexpected character: @");
    let error = LexError::UnexpectedCharacter { line: 120, character: '\u{20ac}' };
    assert_eq!(error.message(), "[line 120] Error: Unexpected character: \u{20ac}");
}

#[test]
fn unterminated_string_message() {
    let error = LexError::UnterminatedString { line: 12 };
    assert_eq!(error.message(), "[line 12] Error: Unterminated string.");
    let error = LexError::UnterminatedString { line: 0 };
    assert_eq!(error.message(), "[line 0] Error: Unterminated string.");
}

#[test]
fn message_of_the_largest_line() {
    let error = LexError::UnterminatedString { line: usize::MAX };
    assert_eq!(
        error.message(),
        format!("[line {}] Error: Unterminated string.", usize::MAX)
    );
}

#[test]
fn messages_of_a_scanned_line() {
    let messages: Vec<String> = tokenize("@ \"abc", 3)
        .into_iter()
        .map(|entry| entry.unwrap_err().message())
        .collect();
    assert_eq!(
        messages,
        vec![
            "[line 3] Error: Unexpected character: @".to_string(),
            "[line 3] Error: Unterminated string.".to_string(),
        ]
    );
}
