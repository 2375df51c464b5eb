use lispjit::tokenizer::{Token, Tokenizer};

#[test]
fn test_tokenize_char() {
    let mut tokenizer = Tokenizer::new("#\\a");
    assert_eq!(tokenizer.next(), Ok(Some(Token::Char('a'))));

    let mut tokenizer = Tokenizer::new("#\\space");
    assert_eq!(tokenizer.next(), Ok(Some(Token::Char(' '))));

    let mut tokenizer = Tokenizer::new("#\\newline");
    assert_eq!(tokenizer.next(), Ok(Some(Token::Char('\n'))));

    let mut tokenizer = Tokenizer::new("#\\tab");
    assert_eq!(tokenizer.next(), Ok(Some(Token::Char('\t'))));
}

#[test]
fn test_tokenize_parens_and_numbers() {
    let mut tokenizer = Tokenizer::new("(12 345)");
    assert_eq!(tokenizer.next(), Ok(Some(Token::LParen)));
    assert_eq!(tokenizer.next(), Ok(Some(Token::Integer(12))));
    assert_eq!(tokenizer.next(), Ok(Some(Token::Integer(345))));
    assert_eq!(tokenizer.next(), Ok(Some(Token::RParen)));
    assert_eq!(tokenizer.next(), Ok(None));
}

#[test]
fn test_tokenize_symbols_and_whitespace() {
    let mut tokenizer = Tokenizer::new("  add1\t(nil?)\n");
    assert_eq!(
        tokenizer.next(),
        Ok(Some(Token::Symbol("add1".to_string())))
    );
    assert_eq!(tokenizer.next(), Ok(Some(Token::LParen)));
    assert_eq!(
        tokenizer.next(),
        Ok(Some(Token::Symbol("nil?".to_string())))
    );
    assert_eq!(tokenizer.next(), Ok(Some(Token::RParen)));
    assert_eq!(tokenizer.next(), Ok(None));
}

#[test]
fn test_tokenize_hash_without_backslash_is_a_symbol() {
    let mut tokenizer = Tokenizer::new("#t");
    assert_eq!(tokenizer.next(), Ok(Some(Token::Symbol("#t".to_string()))));
}

#[test]
fn test_tokenize_number_overflow_is_an_error() {
    // Twenty digits cannot fit in a 64-bit word.
    let mut tokenizer = Tokenizer::new("99999999999999999999");
    assert!(tokenizer.next().is_err());
}

#[test]
fn test_tokenize_largest_number() {
    let mut tokenizer = Tokenizer::new("9223372036854775807");
    assert_eq!(tokenizer.next(), Ok(Some(Token::Integer(i64::MAX))));
}

#[test]
fn test_tokenize_unknown_char_name_is_an_error() {
    let mut tokenizer = Tokenizer::new("#\\bogus");
    assert!(tokenizer.next().is_err());
}
