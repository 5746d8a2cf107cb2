//! The lexer of the assembly language: it hands out the tokens of a source
//! one at a time, each with its byte offsets, and can start over.
use crate::text::{
    comment_at, is_blank, lemma_ascii_boundary, lemma_line_end, line_end, sliceable, str_slice,
    CARRIAGE_RETURN, NEWLINE, SLASH, SPACE, TAB,
};
use vstd::prelude::*;
use vstd::string::*;
use vstd::utf8::*;

verus! {

pub const AT_SIGN: u8 = 64;

pub const SEMICOLON: u8 = 59;

pub const EQUALS_SIGN: u8 = 61;

pub const OPEN_PAREN: u8 = 40;

pub const CLOSE_PAREN: u8 = 41;

#[derive(Debug, Clone, Copy, PartialEq, Eq, Structural)]
pub enum TokenType {
    /// A run of characters that holds no other token.
    Text,
    /// Two slashes and what follows them on the line.
    Comment,
    /// `)`
    CloseParens,
    /// `(`
    OpenParens,
    /// `=`
    Eq,
    /// `;`
    Comp,
    /// `@`
    Address,
    Newline,
    /// One blank: a space, a tab or a carriage return.
    WhiteSpace,
}

impl TokenType {
    /// The name of the token type.
    pub open spec fn text(self) -> Seq<char> {
        match self {
            TokenType::Text => "Text"@,
            TokenType::Comment => "Comment"@,
            TokenType::CloseParens => "CloseParens"@,
            TokenType::OpenParens => "OpenParens"@,
            TokenType::Eq => "Eq"@,
            TokenType::Comp => "Comp"@,
            TokenType::Address => "Address"@,
            TokenType::Newline => "Newline"@,
            TokenType::WhiteSpace => "WhiteSpace"@,
        }
    }

    /// The name of the token type.
    pub fn name(&self) -> (r: &'static str)
        ensures
            r@ == self.text(),
    {
        match self {
            TokenType::Text => "Text",
            TokenType::Comment => "Comment",
            TokenType::CloseParens => "CloseParens",
            TokenType::OpenParens => "OpenParens",
            TokenType::Eq => "Eq",
            TokenType::Comp => "Comp",
            TokenType::Address => "Address",
            TokenType::Newline => "Newline",
            TokenType::WhiteSpace => "WhiteSpace",
        }
    }
}

/// The names of token types as a list: between square brackets, with a
/// comma and a space between two of them.
pub open spec fn list_text(types: Seq<TokenType>) -> Seq<char> {
    "["@ + joined(types) + "]"@
}

/// The names of token types, with a comma and a space between two of them.
pub open spec fn joined(types: Seq<TokenType>) -> Seq<char>
    decreases types.len(),
{
    if types.len() == 0 {
        Seq::empty()
    } else if types.len() == 1 {
        types[0].text()
    } else {
        joined(types.drop_last()) + ", "@ + types.last().text()
    }
}

/// The message that a token of type `found` gets where `expected` was due.
pub open spec fn mismatch_message(expected: Seq<char>, found: TokenType) -> Seq<char> {
    "token expected "@ + expected + " found "@ + found.text()
}

/// A token: its type and the byte offsets between which it stands.
#[derive(Debug, Clone, Copy, PartialEq, Eq, Structural)]
pub struct Token {
    pub t: TokenType,
    pub start: usize,
    pub end: usize,
}

impl Token {
    pub fn new(t: TokenType, start: usize, end: usize) -> (r: Self)
        ensures
            r == (Token { t, start, end }),
    {
        Self { t, start, end }
    }

    pub fn get_type(&self) -> (r: TokenType)
        ensures
            r == self.t,
    {
        self.t
    }

    /// The token itself where it has type `t`, else the complaint.
    pub fn expect_type(self, t: TokenType) -> (res: Result<Token, String>)
        ensures
            self.t == t ==> res == Ok::<Token, String>(self),
            self.t != t ==> (res matches Err(message) && message@ == mismatch_message(
                t.text(),
                self.t,
            )),
    {
        if self.t == t {
            Ok(self)
        } else {
            let mut message = String::from_str("token expected ");
            message.append(t.name());
            message.append(" found ");
            message.append(self.t.name());
            Err(message)
        }
    }

    /// The token itself where its type is among `ts`, else the complaint.
    pub fn expect_one_of(self, ts: &[TokenType]) -> (res: Result<Token, String>)
        ensures
            ts@.contains(self.t) ==> res == Ok::<Token, String>(self),
            !ts@.contains(self.t) ==> (res matches Err(message) && message@ == mismatch_message(
                list_text(ts@),
                self.t,
            )),
    {
        let n: usize = ts.len();
        let mut list = String::new();
        let mut found = false;
        let mut i: usize = 0;
        while i < n
            invariant
                i <= n == ts@.len(),
                list@ == joined(ts@.take(i as int)),
                found == ts@.take(i as int).contains(self.t),
            decreases n - i,
        {
            if i > 0 {
                list.append(", ");
            }
            list.append(ts[i].name());
            if ts[i] == self.t {
                found = true;
            }
            proof {
                let now = ts@.take(i as int + 1);
                assert(now.drop_last() =~= ts@.take(i as int));
                assert(now.last() == ts@[i as int]);
                if ts@[i as int] == self.t {
                    assert(now[i as int] == self.t);
                } else if now.contains(self.t) {
                    let k = choose|k: int| 0 <= k < now.len() && now[k] == self.t;
                    assert(ts@.take(i as int)[k] == self.t);
                } else if ts@.take(i as int).contains(self.t) {
                    let k = choose|k: int|
                        0 <= k < ts@.take(i as int).len() && ts@.take(i as int)[k] == self.t;
                    assert(now[k] == self.t);
                }
                if i == 0 {
                    assert(list@ =~= ts@[0].text());
                }
            }
            i += 1;
        }
        assert(ts@.take(n as int) =~= ts@);
        if found {
            Ok(self)
        } else {
            let mut message = String::from_str("token expected ");
            message.append("[");
            message.append(list.as_str());
            message.append("]");
            message.append(" found ");
            message.append(self.t.name());
            assert(message@ =~= mismatch_message(list_text(ts@), self.t));
            Err(message)
        }
    }
}

/// The type of the token that a byte is by itself, if it is one.
pub open spec fn simple_type(c: u8) -> Option<TokenType> {
    if is_blank(c) {
        Some(TokenType::WhiteSpace)
    } else if c == NEWLINE {
        Some(TokenType::Newline)
    } else if c == AT_SIGN {
        Some(TokenType::Address)
    } else if c == SEMICOLON {
        Some(TokenType::Comp)
    } else if c == EQUALS_SIGN {
        Some(TokenType::Eq)
    } else if c == OPEN_PAREN {
        Some(TokenType::OpenParens)
    } else if c == CLOSE_PAREN {
        Some(TokenType::CloseParens)
    } else {
        None
    }
}

/// The offset at which the text that holds offset `i` ends: the first one
/// from `i` on that holds a one-byte token, starts a comment, or is the end
/// of the source.
pub open spec fn text_end(bytes: Seq<u8>, i: int) -> int
    decreases bytes.len() - i,
{
    if i < 0 || i >= bytes.len() || simple_type(bytes[i]) is Some || comment_at(bytes, i) {
        i
    } else {
        text_end(bytes, i + 1)
    }
}

/// The type of the token that starts at offset `i`.
pub open spec fn type_at(bytes: Seq<u8>, i: int) -> TokenType {
    match simple_type(bytes[i]) {
        Some(t) => t,
        None => if comment_at(bytes, i) {
            TokenType::Comment
        } else {
            TokenType::Text
        },
    }
}

/// The offset at which the token that starts at offset `i` ends.
pub open spec fn end_at(bytes: Seq<u8>, i: int) -> int {
    match type_at(bytes, i) {
        TokenType::Comment => line_end(bytes, i),
        TokenType::Text => text_end(bytes, i),
        _ => i + 1,
    }
}

/// The token that starts at offset `i` of a source, or none at its end.
pub open spec fn token_at(bytes: Seq<u8>, i: int) -> Option<Token> {
    if 0 <= i < bytes.len() {
        Some(Token { t: type_at(bytes, i), start: i as usize, end: end_at(bytes, i) as usize })
    } else {
        None
    }
}

pub proof fn lemma_text_end(bytes: Seq<u8>, i: int)
    requires
        0 <= i <= bytes.len(),
    ensures
        i <= text_end(bytes, i) <= bytes.len(),
        text_end(bytes, i) < bytes.len() ==> bytes[text_end(bytes, i)] < 0x80,
        forall|k: int|
            i <= k < text_end(bytes, i) ==> simple_type(#[trigger] bytes[k]) is None
                && !comment_at(bytes, k),
    decreases bytes.len() - i,
{
    if !(i >= bytes.len() || simple_type(bytes[i]) is Some || comment_at(bytes, i)) {
        lemma_text_end(bytes, i + 1);
    }
}

/// A text ends where the first one-byte token behind it stands, or the
/// source ends, where no slash stands in between.
pub proof fn lemma_text_end_is(bytes: Seq<u8>, i: int, j: int)
    requires
        0 <= i <= j <= bytes.len(),
        forall|k: int| i <= k < j ==> simple_type(#[trigger] bytes[k]) is None && bytes[k] != SLASH,
        j < bytes.len() ==> simple_type(bytes[j]) is Some,
    ensures
        text_end(bytes, i) == j,
    decreases j - i,
{
    if i < j {
        lemma_text_end_is(bytes, i + 1, j);
    }
}

/// A token is not empty and ends within the source.
pub proof fn lemma_end_at(bytes: Seq<u8>, i: int)
    requires
        0 <= i < bytes.len(),
    ensures
        i < end_at(bytes, i) <= bytes.len(),
{
    lemma_line_end(bytes, i);
    lemma_text_end(bytes, i);
    if comment_at(bytes, i) {
        lemma_line_end(bytes, i + 1);
    } else if simple_type(bytes[i]) is None {
        lemma_text_end(bytes, i + 1);
    }
}

/// In well-formed UTF-8 a token that starts between two characters ends
/// between two characters.
pub proof fn lemma_end_at_boundary(bytes: Seq<u8>, i: int)
    requires
        valid_utf8(bytes),
        0 <= i < bytes.len(),
        is_char_boundary(bytes, i),
    ensures
        sliceable(bytes, i, end_at(bytes, i)),
{
    lemma_end_at(bytes, i);
    lemma_line_end(bytes, i);
    lemma_text_end(bytes, i);
    match type_at(bytes, i) {
        TokenType::Comment => {
            lemma_ascii_boundary(bytes, line_end(bytes, i));
        },
        TokenType::Text => {
            lemma_ascii_boundary(bytes, text_end(bytes, i));
        },
        _ => {
            lemma_ascii_boundary(bytes, i);
        },
    }
}

/// The lexer: a source and the offset of the next token.
pub struct Tokenizer<'a> {
    src: &'a str,
    pos: usize,
}

impl<'a> Tokenizer<'a> {
    #[verifier::type_invariant]
    spec fn inv(self) -> bool {
        &&& self.pos <= self.src.spec_bytes().len() <= usize::MAX
        &&& is_char_boundary(self.src.spec_bytes(), self.pos as int)
    }

    /// The source.
    pub closed spec fn source(&self) -> &'a str {
        self.src
    }

    /// The bytes of the source.
    pub open spec fn bytes(&self) -> Seq<u8> {
        self.source().spec_bytes()
    }

    /// The offset of the next token.
    pub closed spec fn position(&self) -> int {
        self.pos as int
    }

    /// A lexer at the start of `src`.
    pub fn new(src: &'a str) -> (r: Self)
        ensures
            r.source() == src,
            r.position() == 0,
    {
        let _size: usize = src.as_bytes().len();
        proof {
            encode_utf8_valid_utf8(src@);
            is_char_boundary_start_end_of_seq(src.spec_bytes());
        }
        Self { src, pos: 0 }
    }

    /// The whole source.
    pub fn remaining(&self) -> (r: &'a str)
        ensures
            r == self.source(),
    {
        self.src
    }

    /// Whether no token is left.
    pub fn is_empty(&self) -> (r: bool)
        ensures
            r == (self.position() >= self.bytes().len()),
            0 <= self.position() <= self.bytes().len(),
    {
        proof {
            use_type_invariant(self);
        }
        self.pos >= self.src.as_bytes().len()
    }

    /// Goes back to the start of the source.
    pub fn restore(&mut self)
        ensures
            final(self).source() == old(self).source(),
            final(self).position() == 0,
    {
        proof {
            use_type_invariant(&*self);
            encode_utf8_valid_utf8(self.src@);
            is_char_boundary_start_end_of_seq(self.src.spec_bytes());
        }
        self.pos = 0;
    }

    /// The next token, which stays the next one.
    pub fn peek_token(&self) -> (r: Option<Token>)
        ensures
            r == token_at(self.bytes(), self.position()),
            r matches Some(t) ==> sliceable(self.bytes(), t.start as int, t.end as int),
            0 <= self.position() <= self.bytes().len() <= usize::MAX,
    {
        proof {
            use_type_invariant(self);
        }
        let mut tokenizer = Tokenizer { src: self.src, pos: self.pos };
        let token = tokenizer.next_token();
        token
    }

    /// The part of the source between two byte offsets.
    pub fn get_slice(&self, start: usize, end: usize) -> (r: &'a str)
        requires
            sliceable(self.bytes(), start as int, end as int),
        ensures
            r.spec_bytes() == self.bytes().subrange(start as int, end as int),
    {
        str_slice(self.src, start, end)
    }

    /// The text of a token of this source.
    pub fn read_token(&self, token: Token) -> (r: &'a str)
        requires
            sliceable(self.bytes(), token.start as int, token.end as int),
        ensures
            r.spec_bytes() == self.bytes().subrange(token.start as int, token.end as int),
    {
        self.get_slice(token.start, token.end)
    }

    /// Hands out the next token and steps over it.
    pub fn next_token(&mut self) -> (r: Option<Token>)
        ensures
            final(self).source() == old(self).source(),
            r == token_at(old(self).bytes(), old(self).position()),
            r matches Some(t) ==> sliceable(old(self).bytes(), t.start as int, t.end as int),
            0 <= old(self).position() <= old(self).bytes().len() <= usize::MAX,
            final(self).position() == match r {
                Some(t) => t.end as int,
                None => old(self).position(),
            },
    {
        proof {
            use_type_invariant(&*self);
            encode_utf8_valid_utf8(self.src@);
        }
        if self.is_empty() {
            return None;
        }
        let start: usize = self.pos;
        proof {
            lemma_end_at(self.bytes(), start as int);
            lemma_end_at_boundary(self.bytes(), start as int);
            lemma_ascii_boundary(self.bytes(), self.bytes().len() as int);
        }
        if self.is_white_space() {
            self.advance();
            return Some(Token::new(TokenType::WhiteSpace, start, self.pos));
        }
        if self.is_newline() {
            self.advance();
            return Some(Token::new(TokenType::Newline, start, self.pos));
        }
        if self.is_address() {
            self.advance();
            return Some(Token::new(TokenType::Address, start, self.pos));
        }
        if self.is_comp() {
            self.advance();
            return Some(Token::new(TokenType::Comp, start, self.pos));
        }
        if self.is_eq() {
            self.advance();
            return Some(Token::new(TokenType::Eq, start, self.pos));
        }
        if self.is_open_parens() {
            self.advance();
            return Some(Token::new(TokenType::OpenParens, start, self.pos));
        }
        if self.is_close_parens() {
            self.advance();
            return Some(Token::new(TokenType::CloseParens, start, self.pos));
        }
        if self.is_comment() {
            return self.comment_token();
        }
        return self.text_token();
    }

    fn text_token(&mut self) -> (r: Option<Token>)
        requires
            old(self).pos < old(self).bytes().len(),
            sliceable(
                old(self).bytes(),
                old(self).pos as int,
                text_end(old(self).bytes(), old(self).pos as int),
            ),
        ensures
            final(self).src == old(self).src,
            final(self).pos == text_end(old(self).bytes(), old(self).pos as int),
            r == Some(
                Token { t: TokenType::Text, start: old(self).pos, end: final(self).pos },
            ),
    {
        proof {
            use_type_invariant(&*self);
            lemma_text_end(self.bytes(), self.pos as int);
        }
        let start: usize = self.pos;
        let bytes = self.src.as_bytes();
        let mut end: usize = self.pos;
        while end < bytes.len() && !Self::is_simple_byte(bytes[end]) && !Self::starts_comment(
            bytes,
            end,
        )
            invariant
                start <= end <= bytes@.len(),
                bytes@ == self.bytes(),
                text_end(bytes@, end as int) == text_end(bytes@, start as int),
            decreases bytes@.len() - end,
        {
            end += 1;
        }
        self.pos = end;
        Some(Token::new(TokenType::Text, start, end))
    }

    fn comment_token(&mut self) -> (r: Option<Token>)
        requires
            old(self).pos < old(self).bytes().len(),
            sliceable(
                old(self).bytes(),
                old(self).pos as int,
                line_end(old(self).bytes(), old(self).pos as int),
            ),
        ensures
            final(self).src == old(self).src,
            final(self).pos == line_end(old(self).bytes(), old(self).pos as int),
            r == Some(
                Token { t: TokenType::Comment, start: old(self).pos, end: final(self).pos },
            ),
    {
        proof {
            use_type_invariant(&*self);
            lemma_line_end(self.bytes(), self.pos as int);
        }
        let start: usize = self.pos;
        let bytes = self.src.as_bytes();
        let mut end: usize = self.pos;
        while end < bytes.len() && bytes[end] != NEWLINE
            invariant
                start <= end <= bytes@.len(),
                bytes@ == self.bytes(),
                line_end(bytes@, end as int) == line_end(bytes@, start as int),
            decreases bytes@.len() - end,
        {
            end += 1;
        }
        self.pos = end;
        Some(Token::new(TokenType::Comment, start, end))
    }

    /// Whether a byte is a token by itself.
    fn is_simple_byte(c: u8) -> (r: bool)
        ensures
            r == simple_type(c) is Some,
    {
        c == SPACE || c == TAB || c == CARRIAGE_RETURN || c == NEWLINE || c == AT_SIGN || c
            == SEMICOLON || c == EQUALS_SIGN || c == OPEN_PAREN || c == CLOSE_PAREN
    }

    fn starts_comment(bytes: &[u8], i: usize) -> (r: bool)
        requires
            i < bytes@.len(),
        ensures
            r == comment_at(bytes@, i as int),
    {
        bytes.len() - i >= 2 && bytes[i] == SLASH && bytes[i + 1] == SLASH
    }

    /// Whether the next byte is `c`.
    fn next_is(&self, c: u8) -> (r: bool)
        ensures
            r == (self.pos < self.bytes().len() && self.bytes()[self.pos as int] == c),
    {
        let bytes = self.src.as_bytes();
        self.pos < bytes.len() && bytes[self.pos] == c
    }

    fn is_white_space(&self) -> (r: bool)
        ensures
            r == (self.pos < self.bytes().len() && is_blank(self.bytes()[self.pos as int])),
    {
        self.next_is(SPACE) || self.next_is(TAB) || self.next_is(CARRIAGE_RETURN)
    }

    fn is_comment(&self) -> (r: bool)
        ensures
            r == comment_at(self.bytes(), self.pos as int),
    {
        let bytes = self.src.as_bytes();
        self.pos < bytes.len() && Self::starts_comment(bytes, self.pos)
    }

    fn is_newline(&self) -> (r: bool)
        ensures
            r == (self.pos < self.bytes().len() && self.bytes()[self.pos as int] == NEWLINE),
    {
        self.next_is(NEWLINE)
    }

    fn is_address(&self) -> (r: bool)
        ensures
            r == (self.pos < self.bytes().len() && self.bytes()[self.pos as int] == AT_SIGN),
    {
        self.next_is(AT_SIGN)
    }

    fn is_comp(&self) -> (r: bool)
        ensures
            r == (self.pos < self.bytes().len() && self.bytes()[self.pos as int] == SEMICOLON),
    {
        self.next_is(SEMICOLON)
    }

    fn is_eq(&self) -> (r: bool)
        ensures
            r == (self.pos < self.bytes().len() && self.bytes()[self.pos as int] == EQUALS_SIGN),
    {
        self.next_is(EQUALS_SIGN)
    }

    fn is_open_parens(&self) -> (r: bool)
        ensures
            r == (self.pos < self.bytes().len() && self.bytes()[self.pos as int] == OPEN_PAREN),
    {
        self.next_is(OPEN_PAREN)
    }

    fn is_close_parens(&self) -> (r: bool)
        ensures
            r == (self.pos < self.bytes().len() && self.bytes()[self.pos as int] == CLOSE_PAREN),
    {
        self.next_is(CLOSE_PAREN)
    }

    /// Steps over a one-byte token.
    fn advance(&mut self)
        requires
            old(self).pos < old(self).bytes().len(),
            is_char_boundary(old(self).bytes(), old(self).pos + 1),
        ensures
            final(self).src == old(self).src,
            final(self).pos == old(self).pos + 1,
    {
        proof {
            use_type_invariant(&*self);
        }
        self.pos += 1;
    }
}

} // verus!
