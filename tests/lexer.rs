use minic::{get_token_from_char, get_token_from_word, lexer, preprocess_code, ErrKind, Sequence, Token, Type, Value};

#[test]
fn lexer_test_lexer() {
    let code = "int foo() {}";
    match lexer(code) {
        Ok(tks) => {
            assert_eq!(tks[0], Token::Type(Type::Int));
            assert_eq!(tks[1], Token::Name("foo".to_owned()));
            assert_eq!(tks[2], Token::LParen);
            assert_eq!(tks[3], Token::RParen);
            assert_eq!(tks[4], Token::LBrace);
            assert_eq!(tks[5], Token::RBrace);
        }
        Err(_) => {
            assert!(false, "Not Ok");
        }
    }
}

#[test]
fn token_test_lexer() {
    let code = "int foo() {}";
    match lexer(code) {
        Ok(tks) => {
            let seq = Sequence::new(tks);
            assert_eq!(seq.get(0), Some(Token::Type(Type::Int)));
            assert_eq!(seq.get(1), Some(Token::Name("foo".to_owned())));
            assert_eq!(seq.get(2), Some(Token::LParen));
            assert_eq!(seq.get(3), Some(Token::RParen));
            assert_eq!(seq.get(4), Some(Token::LBrace));
            assert_eq!(seq.get(5), Some(Token::RBrace));
        }
        Err(_) => {
            assert!(false, "Not Ok");
        }
    }
}

#[test]
fn test_preprocess_code() {
    let code = "12345//123\n12345";
    let res = preprocess_code(code.to_owned());
    assert_eq!("12345\n12345", res);
}

#[test]
fn preprocess_keeps_lines_without_comments() {
    assert_eq!("a = 1; \n\nb;", preprocess_code("a = 1; // one\n// all comment\nb;".to_owned()));
    assert_eq!("x / y", preprocess_code("x / y".to_owned()));
}

#[test]
fn words_become_keywords_numbers_or_names() {
    assert_eq!(get_token_from_word("while"), Some(Token::While));
    assert_eq!(get_token_from_word("void"), Some(Token::Type(Type::Void)));
    assert_eq!(get_token_from_word("2147483647"), Some(Token::Value(Value::Int(2147483647))));
    assert_eq!(get_token_from_word("2147483648"), None);
    assert_eq!(get_token_from_word("foo_Bar"), Some(Token::Name("foo_Bar".to_owned())));
    assert_eq!(get_token_from_word("a1"), None);
    assert_eq!(get_token_from_char('%'), Some(Token::Modulo));
    assert_eq!(get_token_from_char('#'), None);
}

#[test]
fn lexer_rejects_bad_words() {
    assert_eq!(lexer("int 1a;"), Err(ErrKind::LexErr));
    assert_eq!(lexer("a $ b"), Err(ErrKind::LexErr));
    let tks = lexer("a>=12").unwrap();
    assert_eq!(
        tks,
        vec![Token::Name("a".to_owned()), Token::Greater, Token::Eq, Token::Value(Value::Int(12))]
    );
}
