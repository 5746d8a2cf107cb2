use hack_toolchain::vm_translator::token::{Token, TokenType, Tokenizer};

fn get_compare_token(tokenizer: &Tokenizer, nth: usize, expected: &str) -> Token {
    let token = &tokenizer.tokens[nth];
    let actual = tokenizer.source[token.start..token.end].to_string();
    assert_eq!(actual, expected);
    token.clone()
}

#[test]
fn test_tokenize_hello() {
    let source = "Hello, World!".to_string();
    let mut tokenizer = Tokenizer::new(&source);
    tokenizer.tokenize();
    let t1 = get_compare_token(&tokenizer, 0, "Hello,");
    let t2 = get_compare_token(&tokenizer, 1, " ");
    let t3 = get_compare_token(&tokenizer, 2, "World!");
    assert!(tokenizer.tokens.len() == 3);
    assert_eq!(t1.token_type, TokenType::Text);
    assert_eq!(t2.token_type, TokenType::WhiteSpace);
    assert_eq!(t3.token_type, TokenType::Text);
}

#[test]
fn test_tokenize_comment() {
    let source = "// this is a comment".to_string();
    let mut tokenizer = Tokenizer::new(&source);
    tokenizer.tokenize();
    let t1 = get_compare_token(&tokenizer, 0, "// this is a comment");
    assert!(tokenizer.tokens.len() == 1);
    assert_eq!(t1.token_type, TokenType::Comment);
}

#[test]
fn test_tokenize_newline() {
    let source = "Hello,\nWorld!".to_string();
    let mut tokenizer = Tokenizer::new(&source);
    tokenizer.tokenize();
    let t1 = get_compare_token(&tokenizer, 0, "Hello,");
    let t2 = get_compare_token(&tokenizer, 1, "\n");
    let t3 = get_compare_token(&tokenizer, 2, "World!");
    assert!(tokenizer.tokens.len() == 3);
    assert_eq!(t1.token_type, TokenType::Text);
    assert_eq!(t2.token_type, TokenType::Newline);
    assert_eq!(t3.token_type, TokenType::Text);
}

#[test]
fn test_tokenize_actual_example() {
    let source = "// Executes pop and push commands using the static segment.\npush constant 111\npop static 8\nsub\nadd\n".to_string();
    let mut tokenizer = Tokenizer::new(&source);
    tokenizer.tokenize();
    let t1 = get_compare_token(
        &tokenizer,
        0,
        "// Executes pop and push commands using the static segment.",
    );
    let t2 = get_compare_token(&tokenizer, 1, "\n");
    let t3 = get_compare_token(&tokenizer, 2, "push");
    let t4 = get_compare_token(&tokenizer, 3, " ");
    let t5 = get_compare_token(&tokenizer, 4, "constant");
    let t6 = get_compare_token(&tokenizer, 5, " ");
    let t7 = get_compare_token(&tokenizer, 6, "111");
    let t8 = get_compare_token(&tokenizer, 7, "\n");
    let t9 = get_compare_token(&tokenizer, 8, "pop");
    let t10 = get_compare_token(&tokenizer, 9, " ");
    let t11 = get_compare_token(&tokenizer, 10, "static");
    let t12 = get_compare_token(&tokenizer, 11, " ");
    let t13 = get_compare_token(&tokenizer, 12, "8");
    let t14 = get_compare_token(&tokenizer, 13, "\n");
    let t15 = get_compare_token(&tokenizer, 14, "sub");
    let t16 = get_compare_token(&tokenizer, 15, "\n");
    let t17 = get_compare_token(&tokenizer, 16, "add");
    let t18 = get_compare_token(&tokenizer, 17, "\n");
    assert!(tokenizer.tokens.len() == 18);
    assert_eq!(t1.token_type, TokenType::Comment);
    assert_eq!(t2.token_type, TokenType::Newline);
    assert_eq!(t3.token_type, TokenType::Text);
    assert_eq!(t4.token_type, TokenType::WhiteSpace);
    assert_eq!(t5.token_type, TokenType::Text);
    assert_eq!(t6.token_type, TokenType::WhiteSpace);
    assert_eq!(t7.token_type, TokenType::Text);
    assert_eq!(t8.token_type, TokenType::Newline);
    assert_eq!(t9.token_type, TokenType::Text);
    assert_eq!(t10.token_type, TokenType::WhiteSpace);
    assert_eq!(t11.token_type, TokenType::Text);
    assert_eq!(t12.token_type, TokenType::WhiteSpace);
    assert_eq!(t13.token_type, TokenType::Text);
    assert_eq!(t14.token_type, TokenType::Newline);
    assert_eq!(t15.token_type, TokenType::Text);
    assert_eq!(t16.token_type, TokenType::Newline);
    assert_eq!(t17.token_type, TokenType::Text);
    assert_eq!(t18.token_type, TokenType::Newline);
}

#[test]
fn vm_tokens_cover_the_source_without_gap() {
    let source = "push local 2 // x\r\n\tneg//y\nh\u{e9}//";
    let tokenizer = Tokenizer::new(source);
    let mut at = 0;
    for token in tokenizer.tokens.iter() {
        assert_eq!(token.start, at);
        assert!(token.start < token.end);
        at = token.end;
    }
    assert_eq!(at, source.len());
    let last = tokenizer.tokens.last().unwrap();
    assert_eq!(last.token_type, TokenType::Comment);
    assert_eq!(tokenizer.get_token_str(last), "//");
    let texts: Vec<&str> = tokenizer
        .tokens
        .iter()
        .filter(|t| t.token_type == TokenType::Text)
        .map(|t| tokenizer.get_token_str(t))
        .collect();
    assert_eq!(texts, vec!["push", "local", "2", "neg", "h\u{e9}"]);
    let tokens = Tokenizer::new("a b").take_tokens();
    assert_eq!(
        tokens,
        vec![
            Token { token_type: TokenType::Text, start: 0, end: 1 },
            Token { token_type: TokenType::WhiteSpace, start: 1, end: 2 },
            Token { token_type: TokenType::Text, start: 2, end: 3 },
        ]
    );
}

/// The tokens of a source, cut character by character.
fn tokens_by_characters(src: &str) -> Vec<Token> {
    let mut tokens = Vec::new();
    let mut pos = 0;
    while pos < src.len() {
        let rest = &src[pos..];
        let first = rest.chars().next().unwrap();
        let (token_type, width) = if rest.starts_with("//") {
            (TokenType::Comment, rest.find('\n').unwrap_or(rest.len()))
        } else if first == '\n' {
            (TokenType::Newline, 1)
        } else if first == ' ' || first == '\t' || first == '\r' {
            (TokenType::WhiteSpace, 1)
        } else {
            let mut width = 0;
            for (at, c) in rest.char_indices() {
                if c == '\n' || c == ' ' || c == '\t' || c == '\r' || rest[at..].starts_with("//")
                {
                    break;
                }
                width = at + c.len_utf8();
            }
            (TokenType::Text, width)
        };
        tokens.push(Token { token_type, start: pos, end: pos + width });
        pos += width;
    }
    tokens
}

#[test]
fn vm_tokenizer_cuts_bytes_as_it_would_cut_characters() {
    let sources = [
        "",
        "push constant 7\npush constant 8\nadd\n",
        "// comment only",
        "//\n//",
        "/ / /a//b/ //",
        "push\tlocal\r\n  2//x\n",
        "h\u{e9}llo w\u{f6}rld \u{4e16}\u{754c}//\u{1f600} end\n\u{1f600} \u{e9}",
        "a/b//c\n/",
        " \t \r \n",
        "\u{a0}x\u{2028}y",
    ];
    for src in sources {
        let tokenizer = Tokenizer::new(src);
        for token in tokenizer.tokens.iter() {
            assert!(src.is_char_boundary(token.start) && src.is_char_boundary(token.end));
            assert_eq!(tokenizer.get_token_str(token), &src[token.start..token.end]);
        }
        assert_eq!(tokenizer.tokens, tokens_by_characters(src), "{:?}", src);
    }
}
