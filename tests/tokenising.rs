use offside::tokenising::{tokenise, Token, TokenCluster, Tokeniser};

fn tok(k: Token) -> TokenCluster {
    (k, None)
}

fn cap(k: Token, s: &str) -> TokenCluster {
    (k, Some(s.to_string()))
}

fn needs_capture(k: Token) -> bool {
    matches!(k, Token::Identifier | Token::Symbols | Token::String | Token::Whitespaces)
}

fn fixed_lexeme(k: Token) -> Option<&'static str> {
    Some(match k {
        Token::Using => "use",
        Token::Binder => "bind",
        Token::Tighter => "tighter",
        Token::LParen => "(",
        Token::RParen => ")",
        Token::LBracket => "[",
        Token::RBracket => "]",
        Token::LBrace => "{",
        Token::RBrace => "}",
        Token::Exclaimation => "!",
        Token::PatternAt => "@",
        Token::HashTag => "#",
        Token::DollarSign => "$",
        Token::Modulo => "%",
        Token::UpperArrow => "^",
        Token::Ampersand => "&",
        Token::Asterisk => "*",
        Token::Plus => "+",
        Token::Minus => "-",
        Token::EqualSign => "=",
        Token::Underscore => "_",
        Token::Whitespace => " ",
        Token::WhitespaceTab => "\t",
        Token::Newline => "\n",
        _ => return None,
    })
}

fn rebuild(tokens: &[TokenCluster]) -> String {
    let mut out = String::new();
    for (k, text) in tokens {
        match (k, text) {
            (Token::String, Some(t)) => {
                out.push('"');
                out.push_str(t);
                out.push('"');
            }
            (_, Some(t)) => out.push_str(t),
            (k, None) => out.push_str(fixed_lexeme(*k).expect("kind without a fixed lexeme")),
        }
    }
    out
}

#[test]
fn assignment_tokens() {
    assert_eq!(
        tokenise("f=apple"),
        vec![cap(Token::Identifier, "f"), tok(Token::EqualSign), cap(Token::Identifier, "apple")]
    );
}

#[test]
fn string_is_stripped_of_quotes() {
    assert_eq!(tokenise("\"hello\""), vec![cap(Token::String, "hello")]);
    assert_eq!(tokenise("'hi there'"), vec![cap(Token::String, "hi there")]);
    assert_eq!(tokenise("\"\""), vec![cap(Token::String, "")]);
}

#[test]
fn string_keeps_escapes() {
    assert_eq!(tokenise(r#""a\"b""#), vec![cap(Token::String, r#"a\"b"#)]);
}

#[test]
fn unterminated_string_is_an_error_token() {
    assert_eq!(tokenise("\"ab"), vec![tok(Token::Error), cap(Token::Identifier, "ab")]);
}

#[test]
fn keywords_and_identifiers() {
    assert_eq!(tokenise("use"), vec![tok(Token::Using)]);
    assert_eq!(tokenise("bind"), vec![tok(Token::Binder)]);
    assert_eq!(tokenise("tighter"), vec![tok(Token::Tighter)]);
    assert_eq!(tokenise("user"), vec![cap(Token::Identifier, "user")]);
    assert_eq!(tokenise("_"), vec![tok(Token::Underscore)]);
    assert_eq!(tokenise("_a1"), vec![cap(Token::Identifier, "_a1")]);
}

#[test]
fn numbers_are_not_captured() {
    assert_eq!(tokenise("1_000"), vec![tok(Token::Number)]);
    assert_eq!(tokenise("12ab"), vec![tok(Token::Number), cap(Token::Identifier, "ab")]);
}

#[test]
fn single_punctuation_and_symbol_runs() {
    assert_eq!(tokenise("+"), vec![tok(Token::Plus)]);
    assert_eq!(tokenise("="), vec![tok(Token::EqualSign)]);
    assert_eq!(tokenise("<"), vec![cap(Token::Symbols, "<")]);
    assert_eq!(tokenise("<*>"), vec![cap(Token::Symbols, "<*>")]);
    assert_eq!(tokenise("=="), vec![cap(Token::Symbols, "==")]);
    assert_eq!(
        tokenise("([{}])$^"),
        vec![
            tok(Token::LParen),
            tok(Token::LBracket),
            tok(Token::LBrace),
            tok(Token::RBrace),
            tok(Token::RBracket),
            tok(Token::RParen),
            tok(Token::DollarSign),
            tok(Token::UpperArrow),
        ]
    );
}

#[test]
fn whitespace_kinds() {
    assert_eq!(tokenise(" "), vec![tok(Token::Whitespace)]);
    assert_eq!(tokenise("   "), vec![cap(Token::Whitespaces, "   ")]);
    assert_eq!(tokenise("\t"), vec![tok(Token::WhitespaceTab)]);
    assert_eq!(tokenise("\t\t"), vec![tok(Token::WhitespaceTabs)]);
    assert_eq!(tokenise("\n"), vec![tok(Token::Newline)]);
    assert_eq!(tokenise("\n\n\n"), vec![tok(Token::Newlines)]);
}

#[test]
fn unmatched_input_is_an_error_token() {
    assert_eq!(tokenise("a?b"), vec![cap(Token::Identifier, "a"), tok(Token::Error), cap(Token::Identifier, "b")]);
}

#[test]
fn empty_input_has_no_tokens() {
    assert_eq!(tokenise(""), vec![]);
}

#[test]
fn capture_matches_kind() {
    let input = "use x = \"s\"  +\t\t(y)\n\n12 <=> ? 'q'";
    for (k, text) in tokenise(input) {
        assert_eq!(needs_capture(k), text.is_some(), "{:?}", k);
    }
}

#[test]
fn rebuilding_gives_input_back() {
    let input = "use x = \"a b\" +  (y)\n{z} <*> bind_1 tighter";
    assert_eq!(rebuild(&tokenise(input)), input);
}

#[test]
fn tokeniser_hands_out_tokens_one_by_one() {
    let mut lexer = Tokeniser::new("a b");
    assert_eq!(lexer.source(), "a b");
    assert_eq!(lexer.next(), Some(cap(Token::Identifier, "a")));
    assert_eq!(lexer.next(), Some(tok(Token::Whitespace)));
    assert_eq!(lexer.next(), Some(cap(Token::Identifier, "b")));
    assert_eq!(lexer.next(), None);
    assert_eq!(lexer.next(), None);
}

#[test]
fn non_ascii_text_is_captured_by_characters() {
    assert_eq!(tokenise("'é'"), vec![cap(Token::String, "é")]);
}
