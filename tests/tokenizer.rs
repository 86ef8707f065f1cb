use transformer::{
    clean, tokenize, Keyword, LexError, LexErrorKind, Operator, Sided, Symbol, Token,
};

fn ident(s: &str) -> Token {
    Token::Identifier(String::from(s))
}

#[test]
fn identifier() {
    assert_eq!(tokenize("foo"), Ok(vec![ident("foo")]));
    assert_eq!(tokenize("a1_b2"), Ok(vec![ident("a1_b2")]));
    assert_eq!(tokenize("_x"), Ok(vec![ident("_x")]));
    assert_eq!(tokenize("classy"), Ok(vec![ident("classy")]));
    assert_eq!(tokenize("Class"), Ok(vec![ident("Class")]));
}

#[test]
fn keyword_priority() {
    assert_eq!(tokenize("class"), Ok(vec![Token::Keyword(Keyword::Class)]));
}

#[test]
fn every_keyword_is_recognized() {
    let words = [
        ("class", Keyword::Class),
        ("method", Keyword::Method),
        ("function", Keyword::Function),
        ("constructor", Keyword::Constructor),
        ("int", Keyword::Int),
        ("bool", Keyword::Bool),
        ("char", Keyword::Char),
        ("void", Keyword::Void),
        ("var", Keyword::Var),
        ("static", Keyword::Static),
        ("field", Keyword::Field),
        ("let", Keyword::Let),
        ("do", Keyword::Do),
        ("if", Keyword::If),
        ("else", Keyword::Else),
        ("while", Keyword::While),
        ("return", Keyword::Return),
        ("true", Keyword::True),
        ("false", Keyword::False),
        ("null", Keyword::Null),
        ("this", Keyword::This),
    ];
    for (w, k) in words {
        assert_eq!(Keyword::from_word(w), Some(k));
        assert_eq!(tokenize(w), Ok(vec![Token::Keyword(k)]));
    }
    assert_eq!(Keyword::from_word("clas"), None);
    assert_eq!(Keyword::from_word("CLASS"), None);
}

#[test]
fn symbol_operator_disambiguation() {
    assert_eq!(
        tokenize("x=y+1;"),
        Ok(vec![
            ident("x"),
            Token::Symbol(Symbol::Equals),
            ident("y"),
            Token::Symbol(Symbol::Operator(Operator::Add)),
            Token::Integer(1),
            Token::Symbol(Symbol::Semicolon),
        ])
    );
}

#[test]
fn every_symbol_is_recognized() {
    let all = [
        ('(', Symbol::Parenthese(Sided::Left)),
        (')', Symbol::Parenthese(Sided::Right)),
        ('[', Symbol::Bracket(Sided::Left)),
        (']', Symbol::Bracket(Sided::Right)),
        ('{', Symbol::Brace(Sided::Left)),
        ('}', Symbol::Brace(Sided::Right)),
        (',', Symbol::Comma),
        (';', Symbol::Semicolon),
        ('=', Symbol::Equals),
        ('.', Symbol::Period),
        ('+', Symbol::Operator(Operator::Add)),
        ('-', Symbol::Operator(Operator::Subtract)),
        ('*', Symbol::Operator(Operator::Multiply)),
        ('/', Symbol::Operator(Operator::Divide)),
        ('&', Symbol::Operator(Operator::And)),
        ('|', Symbol::Operator(Operator::Or)),
        ('~', Symbol::Operator(Operator::Not)),
        ('<', Symbol::Operator(Operator::Lesser)),
        ('>', Symbol::Operator(Operator::Greater)),
    ];
    for (c, s) in all {
        assert_eq!(Symbol::from_char(c), Some(s));
        assert_eq!(tokenize(&c.to_string()), Ok(vec![Token::Symbol(s)]));
    }
    assert_eq!(Symbol::from_char('a'), None);
    assert_eq!(Operator::from_char('='), None);
    assert_eq!(Operator::from_char('~'), Some(Operator::Not));
}

#[test]
fn integer_bounds() {
    assert_eq!(tokenize("32767"), Ok(vec![Token::Integer(32767)]));
    assert_eq!(
        tokenize("32768"),
        Err(LexError { kind: LexErrorKind::IntegerOverflow, offset: 0 })
    );
    assert_eq!(tokenize("0"), Ok(vec![Token::Integer(0)]));
    assert_eq!(tokenize("007"), Ok(vec![Token::Integer(7)]));
    assert_eq!(
        tokenize("x 99999999999999999999"),
        Err(LexError { kind: LexErrorKind::IntegerOverflow, offset: 2 })
    );
}

#[test]
fn unterminated_string_failure() {
    assert_eq!(
        tokenize("\"abc"),
        Err(LexError { kind: LexErrorKind::UnterminatedString, offset: 0 })
    );
    assert_eq!(
        tokenize("x \"ab\ncd\""),
        Err(LexError { kind: LexErrorKind::UnterminatedString, offset: 2 })
    );
}

#[test]
fn string_constant_holds_its_contents() {
    assert_eq!(
        tokenize("\"a b // c\";"),
        Ok(vec![
            Token::String(String::from("a b // c")),
            Token::Symbol(Symbol::Semicolon),
        ])
    );
    assert_eq!(tokenize("\"\""), Ok(vec![Token::String(String::new())]));
}

#[test]
fn unrecognized_character_failure() {
    assert_eq!(
        tokenize("x # y"),
        Err(LexError { kind: LexErrorKind::UnrecognizedCharacter, offset: 2 })
    );
    assert_eq!(
        tokenize("a\tb"),
        Err(LexError { kind: LexErrorKind::UnrecognizedCharacter, offset: 1 })
    );
}

#[test]
fn separators_are_skipped() {
    assert_eq!(tokenize(""), Ok(vec![]));
    assert_eq!(tokenize("  \n \n"), Ok(vec![]));
    assert_eq!(
        tokenize("let  x\n\n= 5"),
        Ok(vec![
            Token::Keyword(Keyword::Let),
            ident("x"),
            Token::Symbol(Symbol::Equals),
            Token::Integer(5),
        ])
    );
}

#[test]
fn word_followed_by_digits_and_symbols() {
    assert_eq!(
        tokenize("do f(12)"),
        Ok(vec![
            Token::Keyword(Keyword::Do),
            ident("f"),
            Token::Symbol(Symbol::Parenthese(Sided::Left)),
            Token::Integer(12),
            Token::Symbol(Symbol::Parenthese(Sided::Right)),
        ])
    );
}

#[test]
fn cleaning_keeps_the_token_stream() {
    let s = "let x = y  +\n\n 1 ;\n\n";
    assert_eq!(tokenize(&clean(s)), tokenize(s));
}

#[test]
fn clean_then_tokenize_drops_comments() {
    assert_eq!(
        tokenize(&clean("return /* r */ x; // done\n")),
        Ok(vec![
            Token::Keyword(Keyword::Return),
            ident("x"),
            Token::Symbol(Symbol::Semicolon),
        ])
    );
}

#[test]
fn cleaning_keeps_the_token_stream_across_tabs() {
    assert_eq!(tokenize(&clean("let\t\tx =\t1;\n")), tokenize("let x = 1;"));
    assert_eq!(
        tokenize(&clean("x\t#")).map_err(|e| e.kind),
        tokenize("x #").map_err(|e| e.kind)
    );
}

#[test]
fn identifiers_never_spell_keywords() {
    let toks = tokenize("while whiles if_ this2").unwrap();
    assert_eq!(
        toks,
        vec![
            Token::Keyword(Keyword::While),
            ident("whiles"),
            ident("if_"),
            ident("this2"),
        ]
    );
}

#[test]
fn try_from_maps_spellings() {
    assert_eq!(Keyword::try_from("constructor"), Ok(Keyword::Constructor));
    assert_eq!(Keyword::try_from("constructors"), Err(()));
    assert_eq!(Operator::try_from('|'), Ok(Operator::Or));
    assert_eq!(Operator::try_from('('), Err(()));
    assert_eq!(Symbol::try_from('('), Ok(Symbol::Parenthese(Sided::Left)));
    assert_eq!(Symbol::try_from('<'), Ok(Symbol::Operator(Operator::Lesser)));
    assert_eq!(Symbol::try_from('#'), Err(()));
}
