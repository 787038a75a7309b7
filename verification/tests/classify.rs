use lexer_tokens::text::same_word;
use lexer_tokens::{Token, TokenType, TokenizationError};

fn table() -> Vec<(&'static str, TokenType)> {
    vec![
        ("fun", TokenType::Function),
        ("if", TokenType::If),
        ("(", TokenType::OpenParen),
        (")", TokenType::CloseParen),
        ("<", TokenType::OpenAngle),
        (">", TokenType::CloseAngle),
        ("{", TokenType::OpenCurly),
        ("}", TokenType::CloseCurly),
        ("+", TokenType::Plus),
        ("-", TokenType::Minus),
        ("*", TokenType::Star),
        ("/", TokenType::Slash),
        (":", TokenType::TypeSeperator),
        (",", TokenType::Comma),
        ("\"", TokenType::DoubleQuote),
        ("'", TokenType::SingleQuote),
        ("`", TokenType::Backtick),
        (" ", TokenType::Space),
        ("\n", TokenType::Newline),
        ("\r\n", TokenType::Newline),
    ]
}

fn strangers() -> Vec<&'static str> {
    vec![
        "", "x", "foo", "fun ", " fun", "FUN", "Fun", "fu", "funn", "iff", "i", "f", "((", "()",
        "<=", "->", "//", "/*", "*/", "::", ",,", "\"\"", "''", "  ", "\t", "\r", "\n\r", "\n\n",
        "\r\n\n", "42", "3.14", "\"text\"", "é", "λ", "日本語", "\u{0}",
    ]
}

fn probes() -> Vec<(fn(u32, &str) -> Option<Token>, usize, usize)> {
    // each probe with the part of the table that is its own list
    vec![
        (Token::try_keyword, 0, 2),
        (Token::try_paren, 2, 8),
        (Token::try_operator, 8, 12),
        (Token::try_seperator, 12, 14),
        (Token::try_quote, 14, 17),
        (Token::try_whitespace, 17, 20),
    ]
}

fn packed_probes() -> Vec<(fn(u32, &str) -> Result<[u8; 5], TokenizationError>, usize, usize)> {
    vec![
        (Token::try_keyword_packed, 0, 2),
        (Token::try_paren_packed, 2, 8),
        (Token::try_operator_packed, 8, 12),
        (Token::try_seperator_packed, 12, 14),
        (Token::try_quote_packed, 14, 17),
        (Token::try_whitespace_packed, 17, 20),
    ]
}

#[test]
fn keyword_bracket_and_line_ending() {
    assert_eq!(Token::new(0, "fun"), Token { loc: 0, ty: TokenType::Function });
    assert_eq!(Token::new(10, "("), Token { loc: 10, ty: TokenType::OpenParen });
    assert_eq!(Token::new(20, "\r\n"), Token { loc: 20, ty: TokenType::Newline });
    assert_eq!(Token::new(20, "\n").ty, Token::new(20, "\r\n").ty);
}

#[test]
fn every_listed_word_has_its_category() {
    for (i, (word, ty)) in table().into_iter().enumerate() {
        let loc = 7 * i as u32;
        assert_eq!(Token::new(loc, word), Token { loc, ty }, "word {:?}", word);
    }
}

#[test]
fn every_other_word_is_unknown() {
    for word in strangers() {
        assert_eq!(
            Token::new(5, word),
            Token { loc: 5, ty: TokenType::Unknown },
            "word {:?}",
            word
        );
    }
}

#[test]
fn classification_keeps_the_offset() {
    for loc in [0u32, 1, 255, 256, 65_535, 65_536, 0x7fff_ffff, u32::MAX] {
        assert_eq!(Token::new(loc, "if").loc, loc);
        assert_eq!(Token::new(loc, "name").loc, loc);
    }
}

#[test]
fn a_probe_answers_for_its_own_list_only() {
    let table = table();
    for (probe, from, to) in probes() {
        for (i, (word, ty)) in table.iter().enumerate() {
            let expected = if from <= i && i < to {
                Some(Token { loc: 9, ty: *ty })
            } else {
                None
            };
            assert_eq!(probe(9, word), expected, "word {:?}", word);
        }
        for word in strangers() {
            assert_eq!(probe(9, word), None, "word {:?}", word);
        }
    }
}

#[test]
fn a_packed_probe_answers_for_its_own_list_only() {
    let table = table();
    for (probe, from, to) in packed_probes() {
        for (i, (word, ty)) in table.iter().enumerate() {
            let expected = if from <= i && i < to {
                Ok(Token { loc: 0x0a0b_0c0d, ty: *ty }.pack())
            } else {
                Err(TokenizationError::NoMatch)
            };
            assert_eq!(probe(0x0a0b_0c0d, word), expected, "word {:?}", word);
        }
        for word in strangers() {
            assert_eq!(probe(1, word), Err(TokenizationError::NoMatch), "word {:?}", word);
        }
    }
}

#[test]
fn packed_probe_bytes() {
    assert_eq!(Token::try_keyword_packed(0, "fun"), Ok([0, 0, 0, 0, 0]));
    assert_eq!(Token::try_keyword_packed(258, "if"), Ok([0, 0, 1, 2, 1]));
    assert_eq!(Token::try_paren_packed(10, "("), Ok([0, 0, 0, 10, 2]));
    assert_eq!(Token::try_paren_packed(10, "}"), Ok([0, 0, 0, 10, 5]));
    assert_eq!(Token::try_paren_packed(10, "<"), Ok([0, 0, 0, 10, 6]));
    assert_eq!(Token::try_operator_packed(u32::MAX, "/"), Ok([255, 255, 255, 255, 16]));
    assert_eq!(Token::try_seperator_packed(1 << 24, ","), Ok([1, 0, 0, 0, 12]));
    assert_eq!(Token::try_quote_packed(1 << 16, "`"), Ok([0, 1, 0, 0, 10]));
    assert_eq!(Token::try_whitespace_packed(20, "\r\n"), Ok([0, 0, 0, 20, 18]));
    assert_eq!(Token::try_whitespace_packed(20, "\n"), Ok([0, 0, 0, 20, 18]));
}

#[test]
fn no_word_is_in_two_lists() {
    for (word, ty) in table() {
        let answers: Vec<Token> =
            probes().into_iter().filter_map(|(probe, _, _)| probe(3, word)).collect();
        assert_eq!(answers, vec![Token { loc: 3, ty }], "word {:?}", word);
    }
}

#[test]
fn unknown_only_where_no_probe_answers() {
    let mut words: Vec<&str> = table().into_iter().map(|(word, _)| word).collect();
    words.extend(strangers());
    for word in words {
        let answered = probes().into_iter().any(|(probe, _, _)| probe(0, word).is_some());
        assert_eq!(Token::new(0, word).ty == TokenType::Unknown, !answered, "word {:?}", word);
    }
}

#[test]
fn comment_marks_get_no_category_of_their_own() {
    assert_eq!(Token::new(0, "/").ty, TokenType::Slash);
    assert_eq!(Token::new(0, "*").ty, TokenType::Star);
    assert_eq!(Token::new(0, "//").ty, TokenType::Unknown);
    assert_eq!(Token::new(0, "/*").ty, TokenType::Unknown);
}

#[test]
fn same_word_compares_characters() {
    assert!(same_word("", ""));
    assert!(same_word("fun", "fun"));
    assert!(same_word("日本語", "日本語"));
    assert!(!same_word("fun", "fum"));
    assert!(!same_word("fun", "fu"));
    assert!(!same_word("fu", "fun"));
    assert!(!same_word("", " "));
    assert!(!same_word("é", "e"));
}
