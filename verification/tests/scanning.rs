use lox_frontend::chars::CharClass;
use lox_frontend::scanner::{number_end, run_end, skip_char, tokenize, LexError, Token};

fn number(text: &str) -> Result<Token, LexError> {
    Ok(Token::Number(text.to_string()))
}

fn identifier(text: &str) -> Result<Token, LexError> {
    Ok(Token::Identifier(text.to_string()))
}

fn string(text: &str) -> Result<Token, LexError> {
    Ok(Token::String(text.to_string()))
}

#[test]
fn empty_line_yields_nothing() {
    assert_eq!(tokenize("", 1), vec![]);
}

#[test]
fn whitespace_yields_nothing() {
    assert_eq!(tokenize(" \t\r\n  ", 1), vec![]);
}

#[test]
fn skip_char_knows_the_four_blanks() {
    assert!(skip_char(' '));
    assert!(skip_char('\t'));
    assert!(skip_char('\r'));
    assert!(skip_char('\n'));
    assert!(!skip_char('a'));
    assert!(!skip_char('\u{a0}'));
    assert!(!skip_char('/'));
}

#[test]
fn each_punctuation_mark_is_one_token() {
    assert_eq!(tokenize("(", 1), vec![Ok(Token::LeftParen)]);
    assert_eq!(tokenize(")", 1), vec![Ok(Token::RightParen)]);
    assert_eq!(tokenize("{", 1), vec![Ok(Token::LeftBrace)]);
    assert_eq!(tokenize("}", 1), vec![Ok(Token::RightBrace)]);
    assert_eq!(tokenize(",", 1), vec![Ok(Token::Comma)]);
    assert_eq!(tokenize(".", 1), vec![Ok(Token::Dot)]);
    assert_eq!(tokenize("-", 1), vec![Ok(Token::Minus)]);
    assert_eq!(tokenize("+", 1), vec![Ok(Token::Plus)]);
    assert_eq!(tokenize(";", 1), vec![Ok(Token::Semicolon)]);
    assert_eq!(tokenize("*", 1), vec![Ok(Token::Star)]);
}

#[test]
fn punctuation_in_a_row() {
    assert_eq!(
        tokenize("(){},.-+;*", 1),
        vec![
            Ok(Token::LeftParen),
            Ok(Token::RightParen),
            Ok(Token::LeftBrace),
            Ok(Token::RightBrace),
            Ok(Token::Comma),
            Ok(Token::Dot),
            Ok(Token::Minus),
            Ok(Token::Plus),
            Ok(Token::Semicolon),
            Ok(Token::Star),
        ]
    );
}

#[test]
fn operator_followed_by_equal_is_one_token() {
    assert_eq!(tokenize("!=", 1), vec![Ok(Token::BangEqual)]);
    assert_eq!(tokenize("==", 1), vec![Ok(Token::EqualEqual)]);
    assert_eq!(tokenize(">=", 1), vec![Ok(Token::GreaterEqual)]);
    assert_eq!(tokenize("<=", 1), vec![Ok(Token::LessEqual)]);
}

#[test]
fn operator_alone_is_the_short_token() {
    assert_eq!(tokenize("!", 1), vec![Ok(Token::Bang)]);
    assert_eq!(tokenize("=", 1), vec![Ok(Token::Equal)]);
    assert_eq!(tokenize(">", 1), vec![Ok(Token::Greater)]);
    assert_eq!(tokenize("<", 1), vec![Ok(Token::Less)]);
    assert_eq!(tokenize("! =", 1), vec![Ok(Token::Bang), Ok(Token::Equal)]);
    assert_eq!(tokenize("<>", 1), vec![Ok(Token::Less), Ok(Token::Greater)]);
}

#[test]
fn equals_pair_up_from_the_left() {
    assert_eq!(tokenize("===", 1), vec![Ok(Token::EqualEqual), Ok(Token::Equal)]);
    assert_eq!(tokenize("!==", 1), vec![Ok(Token::BangEqual), Ok(Token::Equal)]);
    assert_eq!(tokenize("====", 1), vec![Ok(Token::EqualEqual), Ok(Token::EqualEqual)]);
}

#[test]
fn slash_alone_is_a_token() {
    assert_eq!(tokenize("/", 1), vec![Ok(Token::Slash)]);
    assert_eq!(tokenize("/ /", 1), vec![Ok(Token::Slash), Ok(Token::Slash)]);
    assert_eq!(
        tokenize("a/b", 1),
        vec![identifier("a"), Ok(Token::Slash), identifier("b")]
    );
}

#[test]
fn comment_alone_yields_nothing() {
    assert_eq!(tokenize("// comment", 1), vec![]);
    assert_eq!(tokenize("//", 1), vec![]);
    assert_eq!(tokenize("   // comment", 1), vec![]);
}

#[test]
fn comment_ends_the_line() {
    assert_eq!(tokenize("1 // + 2", 1), vec![number("1")]);
    assert_eq!(tokenize("(// )", 1), vec![Ok(Token::LeftParen)]);
    assert_eq!(tokenize("/// @", 1), vec![]);
}

#[test]
fn string_holds_what_stands_between_the_quotes() {
    assert_eq!(tokenize("\"abc\"", 1), vec![string("abc")]);
    assert_eq!(tokenize("\"\"", 1), vec![string("")]);
    assert_eq!(tokenize("\"a b\" 1", 1), vec![string("a b"), number("1")]);
    assert_eq!(tokenize("\"a//b\"", 1), vec![string("a//b")]);
    assert_eq!(tokenize("\"a\\n\"", 1), vec![string("a\\n")]);
    assert_eq!(tokenize("\"a\"\"b\"", 1), vec![string("a"), string("b")]);
}

#[test]
fn unterminated_string_is_one_error_and_no_token() {
    assert_eq!(
        tokenize("\"abc", 3),
        vec![Err(LexError::UnterminatedString { line: 3 })]
    );
    assert_eq!(
        tokenize("\"", 3),
        vec![Err(LexError::UnterminatedString { line: 3 })]
    );
}

#[test]
fn unterminated_string_takes_the_rest_of_the_line() {
    assert_eq!(
        tokenize("x = \"abc + 1 // c", 9),
        vec![
            identifier("x"),
            Ok(Token::Equal),
            Err(LexError::UnterminatedString { line: 9 }),
        ]
    );
    assert_eq!(
        tokenize("\"a\" \"b", 2),
        vec![string("a"), Err(LexError::UnterminatedString { line: 2 })]
    );
}

#[test]
fn numeral_is_kept_as_written() {
    assert_eq!(tokenize("3", 1), vec![number("3")]);
    assert_eq!(tokenize("3.0", 1), vec![number("3.0")]);
    assert_eq!(tokenize("3.14", 1), vec![number("3.14")]);
    assert_eq!(tokenize("007", 1), vec![number("007")]);
    assert_eq!(tokenize("1234567890.0987654321", 1), vec![number("1234567890.0987654321")]);
    assert_eq!(
        tokenize("123456789012345678901234567890", 1),
        vec![number("123456789012345678901234567890")]
    );
}

#[test]
fn dot_without_digit_behind_it_is_no_part_of_a_number() {
    assert_eq!(tokenize("1.", 1), vec![number("1"), Ok(Token::Dot)]);
    assert_eq!(tokenize("1.a", 1), vec![number("1"), Ok(Token::Dot), identifier("a")]);
    assert_eq!(tokenize(".5", 1), vec![Ok(Token::Dot), number("5")]);
    assert_eq!(tokenize("1..2", 1), vec![number("1"), Ok(Token::Dot), Ok(Token::Dot), number("2")]);
}

#[test]
fn number_has_one_fraction_at_most() {
    assert_eq!(
        tokenize("1.2.3", 1),
        vec![number("1.2"), Ok(Token::Dot), number("3")]
    );
    assert_eq!(
        tokenize("1.2.3.4", 1),
        vec![number("1.2"), Ok(Token::Dot), number("3.4")]
    );
}

#[test]
fn number_ends_where_digits_end() {
    assert_eq!(tokenize("12ab", 1), vec![number("12"), identifier("ab")]);
    assert_eq!(tokenize("1+2", 1), vec![number("1"), Ok(Token::Plus), number("2")]);
    assert_eq!(tokenize("1.5e3", 1), vec![number("1.5"), identifier("e3")]);
}

#[test]
fn digits_beyond_ascii_are_no_numbers() {
    assert_eq!(
        tokenize("\u{663}", 4),
        vec![Err(LexError::UnexpectedCharacter { line: 4, character: '\u{663}' })]
    );
}

#[test]
fn reserved_words_are_keywords() {
    assert_eq!(tokenize("and", 1), vec![Ok(Token::And)]);
    assert_eq!(tokenize("class", 1), vec![Ok(Token::Class)]);
    assert_eq!(tokenize("else", 1), vec![Ok(Token::Else)]);
    assert_eq!(tokenize("false", 1), vec![Ok(Token::False)]);
    assert_eq!(tokenize("for", 1), vec![Ok(Token::For)]);
    assert_eq!(tokenize("fun", 1), vec![Ok(Token::Fun)]);
    assert_eq!(tokenize("if", 1), vec![Ok(Token::If)]);
    assert_eq!(tokenize("nil", 1), vec![Ok(Token::Nil)]);
    assert_eq!(tokenize("or", 1), vec![Ok(Token::Or)]);
    assert_eq!(tokenize("print", 1), vec![Ok(Token::Print)]);
    assert_eq!(tokenize("return", 1), vec![Ok(Token::Return)]);
    assert_eq!(tokenize("super", 1), vec![Ok(Token::Super)]);
    assert_eq!(tokenize("this", 1), vec![Ok(Token::This)]);
    assert_eq!(tokenize("true", 1), vec![Ok(Token::True)]);
    assert_eq!(tokenize("var", 1), vec![Ok(Token::Var)]);
    assert_eq!(tokenize("while", 1), vec![Ok(Token::While)]);
}

#[test]
fn reserved_word_is_never_an_identifier() {
    assert_ne!(tokenize("and", 1), vec![identifier("and")]);
}

#[test]
fn words_that_differ_from_reserved_words_are_identifiers() {
    assert_eq!(tokenize("And1", 1), vec![identifier("And1")]);
    assert_eq!(tokenize("And", 1), vec![identifier("And")]);
    assert_eq!(tokenize("AND", 1), vec![identifier("AND")]);
    assert_eq!(tokenize("and1", 1), vec![identifier("and1")]);
    assert_eq!(tokenize("andy", 1), vec![identifier("andy")]);
    assert_eq!(tokenize("an", 1), vec![identifier("an")]);
    assert_eq!(tokenize("_and", 1), vec![identifier("_and")]);
    assert_eq!(tokenize("and_", 1), vec![identifier("and_")]);
    assert_eq!(tokenize("whiles", 1), vec![identifier("whiles")]);
    assert_eq!(tokenize("nill", 1), vec![identifier("nill")]);
}

#[test]
fn identifiers_take_letters_digits_and_underscores() {
    assert_eq!(tokenize("foo", 1), vec![identifier("foo")]);
    assert_eq!(tokenize("_", 1), vec![identifier("_")]);
    assert_eq!(tokenize("_x1", 1), vec![identifier("_x1")]);
    assert_eq!(tokenize("a_b_9", 1), vec![identifier("a_b_9")]);
    assert_eq!(tokenize("foo bar", 1), vec![identifier("foo"), identifier("bar")]);
    assert_eq!(
        tokenize("foo.bar", 1),
        vec![identifier("foo"), Ok(Token::Dot), identifier("bar")]
    );
    assert_eq!(
        tokenize("a-b", 1),
        vec![identifier("a"), Ok(Token::Minus), identifier("b")]
    );
}

#[test]
fn identifiers_take_letters_beyond_ascii() {
    assert_eq!(tokenize("\u{e9}t\u{e9}", 1), vec![identifier("\u{e9}t\u{e9}")]);
    assert_eq!(tokenize("\u{4eac}", 1), vec![identifier("\u{4eac}")]);
    assert_eq!(tokenize("x\u{663}", 1), vec![identifier("x\u{663}")]);
    assert_eq!(tokenize("x\u{bd}", 1), vec![identifier("x\u{bd}")]);
}

#[test]
fn symbols_beyond_ascii_begin_no_identifier() {
    assert_eq!(
        tokenize("\u{20ac}", 5),
        vec![Err(LexError::UnexpectedCharacter { line: 5, character: '\u{20ac}' })]
    );
    assert_eq!(
        tokenize("a\u{20ac}b", 5),
        vec![
            identifier("a"),
            Err(LexError::UnexpectedCharacter { line: 5, character: '\u{20ac}' }),
            identifier("b"),
        ]
    );
    assert_eq!(
        tokenize("\u{1f49d}", 5),
        vec![Err(LexError::UnexpectedCharacter { line: 5, character: '\u{1f49d}' })]
    );
}

#[test]
fn unexpected_character_is_one_error_at_its_line() {
    assert_eq!(
        tokenize("@", 7),
        vec![Err(LexError::UnexpectedCharacter { line: 7, character: '@' })]
    );
    assert_eq!(
        tokenize("#", 42),
        vec![Err(LexError::UnexpectedCharacter { line: 42, character: '#' })]
    );
}

#[test]
fn unexpected_character_does_not_stop_the_line() {
    assert_eq!(
        tokenize("@ +", 7),
        vec![
            Err(LexError::UnexpectedCharacter { line: 7, character: '@' }),
            Ok(Token::Plus),
        ]
    );
    assert_eq!(
        tokenize("1 @ 2 $ x", 2),
        vec![
            number("1"),
            Err(LexError::UnexpectedCharacter { line: 2, character: '@' }),
            number("2"),
            Err(LexError::UnexpectedCharacter { line: 2, character: '$' }),
            identifier("x"),
        ]
    );
    assert_eq!(
        tokenize(",.$(#", 1),
        vec![
            Ok(Token::Comma),
            Ok(Token::Dot),
            Err(LexError::UnexpectedCharacter { line: 1, character: '$' }),
            Ok(Token::LeftParen),
            Err(LexError::UnexpectedCharacter { line: 1, character: '#' }),
        ]
    );
}

#[test]
fn a_whole_statement() {
    assert_eq!(
        tokenize("var x = (a1 >= 2.50) and !done; // note", 1),
        vec![
            Ok(Token::Var),
            identifier("x"),
            Ok(Token::Equal),
            Ok(Token::LeftParen),
            identifier("a1"),
            Ok(Token::GreaterEqual),
            number("2.50"),
            Ok(Token::RightParen),
            Ok(Token::And),
            Ok(Token::Bang),
            identifier("done"),
            Ok(Token::Semicolon),
        ]
    );
}

#[test]
fn grouping_of_one_number_scans_to_three_tokens() {
    assert_eq!(
        tokenize("(1)", 1),
        vec![Ok(Token::LeftParen), number("1"), Ok(Token::RightParen)]
    );
}

#[test]
fn lines_are_scanned_independently() {
    let first = tokenize("\"abc", 1);
    let second = tokenize("def\"", 2);
    assert_eq!(first, vec![Err(LexError::UnterminatedString { line: 1 })]);
    assert_eq!(
        second,
        vec![identifier("def"), Err(LexError::UnterminatedString { line: 2 })]
    );
}

#[test]
fn from_chars_takes_one_step() {
    let chars: Vec<char> = "ab >= 12.5".chars().collect();
    assert_eq!(Token::from_chars(&chars, 0, 1), (identifier("ab"), 2));
    assert_eq!(Token::from_chars(&chars, 1, 1), (identifier("b"), 2));
    assert_eq!(Token::from_chars(&chars, 3, 1), (Ok(Token::GreaterEqual), 5));
    assert_eq!(Token::from_chars(&chars, 4, 1), (Ok(Token::Equal), 5));
    assert_eq!(Token::from_chars(&chars, 6, 1), (number("12.5"), 10));
    assert_eq!(Token::from_chars(&chars, 8, 1), (Ok(Token::Dot), 9));
    assert_eq!(
        Token::from_chars(&chars, 2, 6),
        (Err(LexError::UnexpectedCharacter { line: 6, character: ' ' }), 3)
    );
}

#[test]
fn from_chars_on_strings() {
    let chars: Vec<char> = "\"ab\" \"c".chars().collect();
    assert_eq!(Token::from_chars(&chars, 0, 1), (string("ab"), 4));
    assert_eq!(
        Token::from_chars(&chars, 5, 8),
        (Err(LexError::UnterminatedString { line: 8 }), 7)
    );
    assert_eq!(Token::from_chars(&chars, 3, 1), (string(" "), 6));
}

#[test]
fn run_end_stops_at_the_first_stranger() {
    let chars: Vec<char> = "123ab_9 \"x".chars().collect();
    assert_eq!(run_end(&chars, 0, CharClass::Digit), 3);
    assert_eq!(run_end(&chars, 3, CharClass::Digit), 3);
    assert_eq!(run_end(&chars, 0, CharClass::IdentifierPart), 7);
    assert_eq!(run_end(&chars, 0, CharClass::Except('"')), 8);
    assert_eq!(run_end(&chars, 9, CharClass::Except('"')), 10);
    assert_eq!(run_end(&chars, 0, CharClass::Only('1')), 1);
    assert_eq!(run_end(&chars, 10, CharClass::Digit), 10);
}

#[test]
fn number_end_takes_one_fraction() {
    let chars: Vec<char> = "12.50.1x".chars().collect();
    assert_eq!(number_end(&chars, 0), 5);
    assert_eq!(number_end(&chars, 1), 5);
    assert_eq!(number_end(&chars, 3), 7);
    assert_eq!(number_end(&chars, 6), 7);
    assert_eq!(number_end(&chars, 4), 7);
    let bare: Vec<char> = "7.".chars().collect();
    assert_eq!(number_end(&bare, 0), 1);
}

#[test]
fn scan_chars_scans_a_slice() {
    let chars: Vec<char> = "a = \"b\" // c".chars().collect();
    assert_eq!(lox_frontend::scanner::scan_chars(&chars, 5), tokenize("a = \"b\" // c", 5));
    assert_eq!(
        lox_frontend::scanner::scan_chars(&chars[..6], 5),
        vec![
            identifier("a"),
            Ok(Token::Equal),
            Err(LexError::UnterminatedString { line: 5 }),
        ]
    );
    assert_eq!(lox_frontend::scanner::scan_chars(&[], 5), vec![]);
}
