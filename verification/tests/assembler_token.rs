use hack_toolchain::assembler::token::{Token, TokenType, Tokenizer};

#[test]
fn test_tokenizer_space() {
    let src = "hello world";
    let mut tokenizer = Tokenizer::new(src);
    let toke1 = tokenizer.next_token().unwrap();
    let toke2 = tokenizer.next_token().unwrap();
    let toke3 = tokenizer.next_token().unwrap();
    assert_eq!(toke1.t, TokenType::Text);
    assert_eq!(toke2.t, TokenType::WhiteSpace);
    assert_eq!(toke3.t, TokenType::Text);
    assert_eq!(tokenizer.read_token(toke1), "hello");
    assert_eq!(tokenizer.read_token(toke2), " ");
    assert_eq!(tokenizer.read_token(toke3), "world");
}

#[test]
fn test_tokenizer_newline() {
    let src = "hello\nworld";
    let mut tokenizer = Tokenizer::new(src);
    let toke1 = tokenizer.next_token().unwrap();
    let toke2 = tokenizer.next_token().unwrap();
    let toke3 = tokenizer.next_token().unwrap();
    assert_eq!(toke1.t, TokenType::Text);
    assert_eq!(toke2.t, TokenType::Newline);
    assert_eq!(toke3.t, TokenType::Text);
    assert_eq!(tokenizer.read_token(toke1), "hello");
    assert_eq!(tokenizer.read_token(toke2), "\n");
    assert_eq!(tokenizer.read_token(toke3), "world");
}

#[test]
fn test_tokenizer_comment() {
    let src = "hello // world";
    let mut tokenizer = Tokenizer::new(src);
    let toke1 = tokenizer.next_token().unwrap();
    let toke2 = tokenizer.next_token().unwrap();
    let toke3 = tokenizer.next_token().unwrap();
    assert_eq!(toke1.t, TokenType::Text);
    assert_eq!(toke2.t, TokenType::WhiteSpace);
    assert_eq!(toke3.t, TokenType::Comment);
    assert_eq!(tokenizer.read_token(toke1), "hello");
    assert_eq!(tokenizer.read_token(toke2), " ");
    assert_eq!(tokenizer.read_token(toke3), "// world");
}

#[test]
fn test_tokenizer_comment_newline_multi() {
    let src = "hello // world\n// another comment\n";
    let mut tokenizer = Tokenizer::new(src);
    let toke1 = tokenizer.next_token().unwrap();
    let toke2 = tokenizer.next_token().unwrap();
    let toke3 = tokenizer.next_token().unwrap();
    let toke4 = tokenizer.next_token().unwrap();
    let toke5 = tokenizer.next_token().unwrap();
    assert_eq!(toke1.t, TokenType::Text);
    assert_eq!(toke2.t, TokenType::WhiteSpace);
    assert_eq!(toke3.t, TokenType::Comment);
    assert_eq!(toke4.t, TokenType::Newline);
    assert_eq!(toke5.t, TokenType::Comment);
    assert_eq!(tokenizer.read_token(toke1), "hello");
    assert_eq!(tokenizer.read_token(toke2), " ");
    assert_eq!(tokenizer.read_token(toke3), "// world");
    assert_eq!(tokenizer.read_token(toke4), "\n");
    assert_eq!(tokenizer.read_token(toke5), "// another comment");
}

#[test]
fn test_tokenizer_comment_newline() {
    let src = "hello // world\n";
    let mut tokenizer = Tokenizer::new(src);
    let toke1 = tokenizer.next_token().unwrap();
    let toke2 = tokenizer.next_token().unwrap();
    let toke3 = tokenizer.next_token().unwrap();
    let toke4 = tokenizer.next_token().unwrap();
    assert_eq!(toke1.t, TokenType::Text);
    assert_eq!(toke2.t, TokenType::WhiteSpace);
    assert_eq!(toke3.t, TokenType::Comment);
    assert_eq!(toke4.t, TokenType::Newline);
    assert_eq!(tokenizer.read_token(toke1), "hello");
    assert_eq!(tokenizer.read_token(toke2), " ");
    assert_eq!(tokenizer.read_token(toke3), "// world");
    assert_eq!(tokenizer.read_token(toke4), "\n");
}

#[test]
fn test_tokenizer_address() {
    let src = "@hello";
    let mut tokenizer = Tokenizer::new(src);
    let toke1 = tokenizer.next_token().unwrap();
    let toke2 = tokenizer.next_token().unwrap();
    assert_eq!(toke1.t, TokenType::Address);
    assert_eq!(toke2.t, TokenType::Text);
    assert_eq!(tokenizer.read_token(toke1), "@");
    assert_eq!(tokenizer.read_token(toke2), "hello");
}

#[test]
fn test_tokenizer_comp() {
    let src = "hello;";
    let mut tokenizer = Tokenizer::new(src);
    let toke1 = tokenizer.next_token().unwrap();
    let toke2 = tokenizer.next_token().unwrap();
    assert_eq!(toke1.t, TokenType::Text);
    assert_eq!(toke2.t, TokenType::Comp);
    assert_eq!(tokenizer.read_token(toke1), "hello");
    assert_eq!(tokenizer.read_token(toke2), ";");
}

#[test]
fn tokenizer_every_single_byte_token() {
    let src = "@(;=)\t\r \n";
    let mut tokenizer = Tokenizer::new(src);
    let expected = [
        TokenType::Address,
        TokenType::OpenParens,
        TokenType::Comp,
        TokenType::Eq,
        TokenType::CloseParens,
        TokenType::WhiteSpace,
        TokenType::WhiteSpace,
        TokenType::WhiteSpace,
        TokenType::Newline,
    ];
    for (i, t) in expected.iter().enumerate() {
        assert!(!tokenizer.is_empty());
        let token = tokenizer.next_token().unwrap();
        assert_eq!(token, Token::new(*t, i, i + 1));
        assert_eq!(token.get_type(), *t);
    }
    assert!(tokenizer.is_empty());
    assert_eq!(tokenizer.next_token(), None);
}

#[test]
fn tokenizer_peek_does_not_consume_and_restore_starts_over() {
    let src = "D=M // load\n";
    let mut tokenizer = Tokenizer::new(src);
    assert_eq!(tokenizer.remaining(), src);
    let peeked = tokenizer.peek_token();
    assert_eq!(peeked, Some(Token::new(TokenType::Text, 0, 1)));
    assert_eq!(tokenizer.peek_token(), peeked);
    assert_eq!(tokenizer.next_token(), peeked);
    assert_eq!(tokenizer.next_token(), Some(Token::new(TokenType::Eq, 1, 2)));
    assert_eq!(tokenizer.next_token(), Some(Token::new(TokenType::Text, 2, 3)));
    assert_eq!(tokenizer.next_token(), Some(Token::new(TokenType::WhiteSpace, 3, 4)));
    assert_eq!(tokenizer.next_token(), Some(Token::new(TokenType::Comment, 4, 11)));
    assert_eq!(tokenizer.get_slice(4, 11), "// load");
    assert_eq!(tokenizer.next_token(), Some(Token::new(TokenType::Newline, 11, 12)));
    assert_eq!(tokenizer.peek_token(), None);
    tokenizer.restore();
    assert!(!tokenizer.is_empty());
    assert_eq!(tokenizer.next_token(), peeked);
}

#[test]
fn tokenizer_text_stops_where_a_comment_starts() {
    let src = "D+1//x";
    let mut tokenizer = Tokenizer::new(src);
    assert_eq!(tokenizer.next_token(), Some(Token::new(TokenType::Text, 0, 3)));
    assert_eq!(tokenizer.next_token(), Some(Token::new(TokenType::Comment, 3, 6)));
    assert_eq!(tokenizer.next_token(), None);
}

#[test]
fn tokenizer_two_slashes_at_the_end_are_a_comment() {
    let mut tokenizer = Tokenizer::new("D //");
    assert_eq!(tokenizer.next_token(), Some(Token::new(TokenType::Text, 0, 1)));
    assert_eq!(tokenizer.next_token(), Some(Token::new(TokenType::WhiteSpace, 1, 2)));
    assert_eq!(tokenizer.next_token(), Some(Token::new(TokenType::Comment, 2, 4)));
    let mut single = Tokenizer::new("/");
    assert_eq!(single.next_token(), Some(Token::new(TokenType::Text, 0, 1)));
}

#[test]
fn tokenizer_offsets_count_bytes_of_wide_characters() {
    let src = "h\u{e9}llo w\u{f6}rld";
    let mut tokenizer = Tokenizer::new(src);
    let first = tokenizer.next_token().unwrap();
    let blank = tokenizer.next_token().unwrap();
    let second = tokenizer.next_token().unwrap();
    assert_eq!(first, Token::new(TokenType::Text, 0, 6));
    assert_eq!(blank, Token::new(TokenType::WhiteSpace, 6, 7));
    assert_eq!(second, Token::new(TokenType::Text, 7, 13));
    assert_eq!(tokenizer.read_token(first), "h\u{e9}llo");
    assert_eq!(tokenizer.read_token(second), "w\u{f6}rld");
}

#[test]
fn token_expectations_name_what_was_due_and_what_was_found() {
    let token = Token::new(TokenType::Comp, 3, 4);
    assert_eq!(token.expect_type(TokenType::Comp), Ok(token));
    assert_eq!(
        token.expect_type(TokenType::Text),
        Err("token expected Text found Comp".to_string())
    );
    let enders = [TokenType::WhiteSpace, TokenType::Newline, TokenType::Comment];
    assert_eq!(
        token.expect_one_of(&enders),
        Err("token expected [WhiteSpace, Newline, Comment] found Comp".to_string())
    );
    assert_eq!(token.expect_one_of(&[TokenType::Eq, TokenType::Comp]), Ok(token));
    assert_eq!(
        token.expect_one_of(&[]),
        Err("token expected [] found Comp".to_string())
    );
    let got = format!("{:?}", TokenType::CloseParens);
    assert_eq!(TokenType::CloseParens.name(), got);
}

/// The tokens of a source, cut character by character.
fn tokens_by_characters(src: &str) -> Vec<Token> {
    let simple = |c: char| match c {
        ' ' | '\t' | '\r' => Some(TokenType::WhiteSpace),
        '\n' => Some(TokenType::Newline),
        '@' => Some(TokenType::Address),
        ';' => Some(TokenType::Comp),
        '=' => Some(TokenType::Eq),
        '(' => Some(TokenType::OpenParens),
        ')' => Some(TokenType::CloseParens),
        _ => None,
    };
    let mut tokens = Vec::new();
    let mut pos = 0;
    while pos < src.len() {
        let rest = &src[pos..];
        let first = rest.chars().next().unwrap();
        let (t, width) = if let Some(t) = simple(first) {
            (t, first.len_utf8())
        } else if rest.starts_with("//") {
            (TokenType::Comment, rest.find('\n').unwrap_or(rest.len()))
        } else {
            let mut width = 0;
            for (at, c) in rest.char_indices() {
                if simple(c).is_some() || rest[at..].starts_with("//") {
                    break;
                }
                width = at + c.len_utf8();
            }
            (TokenType::Text, width)
        };
        tokens.push(Token::new(t, pos, pos + width));
        pos += width;
    }
    tokens
}

#[test]
fn tokenizer_cuts_bytes_as_it_would_cut_characters() {
    let sources = [
        "",
        "@2\nD=A\n@3\nD=D+A\n@0\nM=D\n",
        "// comment only",
        "//\n//",
        "/ / /a//b/ //",
        "(LOOP)\r\n\t@LOOP // again\r\n0;JMP",
        "h\u{e9}llo=w\u{f6}rld;\u{4e16}\u{754c}//\u{1f600} end\n\u{1f600}@\u{e9}",
        "a/b//c\n/",
        "===;;;@@@((()))",
        " \t \r \n",
        "\u{a0}x\u{2028}y",
    ];
    for src in sources {
        let mut tokenizer = Tokenizer::new(src);
        let mut seen = Vec::new();
        while let Some(token) = tokenizer.next_token() {
            assert!(src.is_char_boundary(token.start) && src.is_char_boundary(token.end));
            assert_eq!(tokenizer.read_token(token), &src[token.start..token.end]);
            seen.push(token);
        }
        assert_eq!(seen, tokens_by_characters(src), "{:?}", src);
    }
}
