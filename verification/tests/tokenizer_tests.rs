use mylang_compiler::tokenizer::{TokenKind, Tokenizer};

fn toks(src: &str) -> Vec<TokenKind> {
    let mut t = Tokenizer::new(src.as_bytes().to_vec());
    let mut out = Vec::new();
    loop {
        let tok = t.next();
        if tok.token_kind == TokenKind::EOF {
            return out;
        }
        out.push(tok.token_kind);
    }
}

fn id(s: &str) -> TokenKind {
    TokenKind::Id(s.to_string())
}

#[test]
fn tokenizes_a_declaration() {
    assert_eq!(
        toks("pub def x: I32 = 42;"),
        vec![
            TokenKind::Pub,
            TokenKind::Def,
            id("x"),
            TokenKind::Colon,
            TokenKind::Type("I32".to_string()),
            TokenKind::Equal,
            TokenKind::Int("42".to_string()),
            TokenKind::Semicolon,
        ]
    );
}

#[test]
fn eof_repeats() {
    let mut t = Tokenizer::new(b"x".to_vec());
    assert_eq!(t.next().token_kind, id("x"));
    assert_eq!(t.next().token_kind, TokenKind::EOF);
    assert_eq!(t.next().token_kind, TokenKind::EOF);
}

#[test]
fn peek_does_not_consume() {
    let mut t = Tokenizer::new(b"a b c".to_vec());
    assert_eq!(t.peek(2).token_kind, id("c"));
    assert_eq!(t.peek(0).token_kind, id("a"));
    assert_eq!(t.next().token_kind, id("a"));
    t.consume_peeked();
    assert_eq!(t.next().token_kind, id("c"));
}

#[test]
fn keywords_are_never_identifiers() {
    let words = [
        "pub", "alias", "newtype", "struct", "union", "enum", "trait", "impl", "of", "for", "var",
        "let", "def", "virt", "pure", "macro", "extern", "return", "break", "continue", "do",
        "true", "false",
    ];
    for w in words {
        let ts = toks(w);
        assert_eq!(ts.len(), 1, "{w}");
        assert!(!matches!(ts[0], TokenKind::Id(_)), "{w} must not be an Id");
    }
    assert_eq!(toks("truex"), vec![id("truex")]);
    assert_eq!(toks("true"), vec![TokenKind::Bool(true)]);
    assert_eq!(toks("false"), vec![TokenKind::Bool(false)]);
}

#[test]
fn comments_are_skipped() {
    assert_eq!(toks("a // rest of line\nb"), vec![id("a"), id("b")]);
    assert_eq!(toks("a /* x /* nested */ y */ b"), vec![id("a"), id("b")]);
    // A line comment inside a block comment hides the closer until the next
    // newline, without closing the block.
    assert_eq!(toks("/* // hidden */\n still */ x"), vec![id("x")]);
    // An unterminated comment swallows the rest of the input.
    assert_eq!(toks("a /* trailing"), vec![id("a")]);
}

#[test]
fn string_literals() {
    assert_eq!(toks("\"hi\""), vec![TokenKind::Str("hi".to_string())]);
    assert_eq!(toks("\"\""), vec![TokenKind::Str(String::new())]);
    assert_eq!(
        toks("\"partial"),
        vec![TokenKind::Invalid("partial".to_string())]
    );
    assert_eq!(
        toks("\"two\nlines\""),
        vec![
            TokenKind::Invalid("two".to_string()),
            id("lines"),
            TokenKind::Invalid(String::new()),
        ]
    );
}

#[test]
fn numbers() {
    assert_eq!(toks("42"), vec![TokenKind::Int("42".to_string())]);
    assert_eq!(toks("3.5"), vec![TokenKind::Dec("3.5".to_string())]);
    // A bare trailing dot is not absorbed into the number.
    assert_eq!(
        toks("12."),
        vec![TokenKind::Int("12".to_string()), TokenKind::Dot]
    );
    assert_eq!(
        toks("1.2.3"),
        vec![
            TokenKind::Dec("1.2".to_string()),
            TokenKind::Dot,
            TokenKind::Int("3".to_string()),
        ]
    );
}

#[test]
fn operators_and_punctuation() {
    assert_eq!(toks("->"), vec![TokenKind::Arrow]);
    assert_eq!(toks("="), vec![TokenKind::Equal]);
    assert_eq!(toks("=="), vec![TokenKind::Op("==".to_string())]);
    // `=` immediately followed by an operator symbol begins an operator.
    assert_eq!(toks("=+"), vec![TokenKind::Op("=+".to_string())]);
    assert_eq!(toks("#+"), vec![TokenKind::Op("#+".to_string())]);
    assert_eq!(
        toks("a+b"),
        vec![id("a"), TokenKind::Op("+".to_string()), id("b")]
    );
    // An operator run stops before `->`.
    assert_eq!(
        toks("+->"),
        vec![TokenKind::Op("+".to_string()), TokenKind::Arrow]
    );
    assert_eq!(
        toks(",:;()[]{}"),
        vec![
            TokenKind::Comma,
            TokenKind::Colon,
            TokenKind::Semicolon,
            TokenKind::OpenParen,
            TokenKind::CloseParen,
            TokenKind::OpenSquare,
            TokenKind::CloseSquare,
            TokenKind::OpenBracket,
            TokenKind::CloseBracket,
        ]
    );
    assert_eq!(toks("§"), vec![TokenKind::Invalid("\u{c2}".to_string()), TokenKind::Invalid("\u{a7}".to_string())]);
}

#[test]
fn type_words_stop_at_underscore() {
    assert_eq!(
        toks("Ab_c"),
        vec![TokenKind::Type("Ab".to_string()), id("_c")]
    );
    assert_eq!(toks("_x"), vec![id("_x")]);
}

#[test]
fn locations() {
    let mut t = Tokenizer::new(b"a\nbb c".to_vec());
    let a = t.next();
    assert_eq!((a.location.line, a.location.column), (1, 1));
    let b = t.next();
    assert_eq!((b.location.line, b.location.column), (2, 0));
    let c = t.next();
    assert_eq!((c.location.line, c.location.column), (2, 3));
}

#[test]
fn pretty_print() {
    let mut t = Tokenizer::new(b"def x = 1; { a; }".to_vec());
    let s = t.str();
    assert_eq!(s, "def x = 1 ;\n{\n    a ;\n}\n");
    // Printing peeks without consuming.
    assert_eq!(t.next().token_kind, TokenKind::Def);
}

#[test]
fn pretty_print_round_trip() {
    // Tokens from a source, pretty-printed and tokenized again, come back
    // identical.
    let src = "pub def id(x: I32) -> I32 do x; var y: F32 = 3.5; a == 1.5 -> [#+] {}";
    let first = toks(src);
    let mut t = Tokenizer::new(src.as_bytes().to_vec());
    let printed = t.str();
    let second = toks(&printed);
    assert_eq!(first, second);
}

#[test]
fn degenerate_equal_operator_does_not_round_trip() {
    // `=` immediately followed by `->` leaves a lone `=` operator token; its
    // printed form re-lexes as the `=` punctuation instead, so such streams
    // are the one operator shape excluded from the round-trip law.
    assert_eq!(
        toks("=->"),
        vec![TokenKind::Op("=".to_string()), TokenKind::Arrow]
    );
    let mut t = Tokenizer::new(b"=->".to_vec());
    let printed = t.str();
    assert_eq!(printed, "= -> ");
    assert_eq!(toks(&printed), vec![TokenKind::Equal, TokenKind::Arrow]);
}

#[test]
fn comments_vanish_in_round_trip() {
    let src = "def x /* note */ = 1; // done";
    let mut t = Tokenizer::new(src.as_bytes().to_vec());
    let printed = t.str();
    assert_eq!(toks(src), toks(&printed));
}

#[test]
fn empty_input() {
    assert_eq!(toks(""), Vec::<TokenKind>::new());
    assert_eq!(toks("   \t\n  "), Vec::<TokenKind>::new());
    let mut t = Tokenizer::new(Vec::new());
    assert_eq!(t.str(), "");
}
