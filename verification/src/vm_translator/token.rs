//! The lexer of the VM language: it cuts a source text into comments, texts,
//! newlines and blanks, each with its byte offsets.
use crate::text::{
    comment_at, is_blank, lemma_ascii_boundary, lemma_line_end, line_end, sliceable, str_slice,
    CARRIAGE_RETURN, NEWLINE, SLASH, SPACE, TAB,
};
use vstd::prelude::*;
use vstd::string::*;
use vstd::utf8::*;

verus! {

#[derive(Debug, Clone, Copy, PartialEq, Eq, Structural)]
pub enum TokenType {
    /// Two slashes and what follows them on the line.
    Comment,
    /// A run of characters that holds no blank, newline or comment.
    Text,
    Newline,
    /// One blank: a space, a tab or a carriage return.
    WhiteSpace,
}

/// A token: its type and the byte offsets between which it stands.
#[derive(Debug, Clone, Copy, PartialEq, Eq, Structural)]
pub struct Token {
    pub token_type: TokenType,
    pub start: usize,
    pub end: usize,
}

/// The offset at which the text that holds offset `i` ends: the first one
/// from `i` on that holds a blank or a newline, starts a comment, or is the
/// end of the source.
pub open spec fn text_end(bytes: Seq<u8>, i: int) -> int
    decreases bytes.len() - i,
{
    if i < 0 || i >= bytes.len() || comment_at(bytes, i) || bytes[i] == NEWLINE || is_blank(
        bytes[i],
    ) {
        i
    } else {
        text_end(bytes, i + 1)
    }
}

/// The type of the token that starts at offset `i`.
pub open spec fn type_at(bytes: Seq<u8>, i: int) -> TokenType {
    if comment_at(bytes, i) {
        TokenType::Comment
    } else if bytes[i] == NEWLINE {
        TokenType::Newline
    } else if is_blank(bytes[i]) {
        TokenType::WhiteSpace
    } else {
        TokenType::Text
    }
}

/// The offset at which the token that starts at offset `i` ends.
pub open spec fn end_at(bytes: Seq<u8>, i: int) -> int {
    match type_at(bytes, i) {
        TokenType::Comment => line_end(bytes, i),
        TokenType::Newline => i + 1,
        TokenType::WhiteSpace => i + 1,
        TokenType::Text => text_end(bytes, i),
    }
}

/// The token that starts at offset `i` of a source, for `i` within it.
pub open spec fn token_at(bytes: Seq<u8>, i: int) -> Token {
    Token { token_type: type_at(bytes, i), start: i as usize, end: end_at(bytes, i) as usize }
}

/// The tokens of a source from offset `i` on: they follow one another
/// without gap up to the end of the source.
pub open spec fn tokens_from(bytes: Seq<u8>, i: int) -> Seq<Token>
    decreases bytes.len() - i,
    via tokens_from_decreases
{
    if i < 0 || i >= bytes.len() {
        Seq::empty()
    } else {
        seq![token_at(bytes, i)] + tokens_from(bytes, end_at(bytes, i))
    }
}

#[via_fn]
proof fn tokens_from_decreases(bytes: Seq<u8>, i: int) {
    if 0 <= i < bytes.len() {
        lemma_end_at(bytes, i);
    }
}

pub proof fn lemma_text_end(bytes: Seq<u8>, i: int)
    requires
        0 <= i <= bytes.len(),
    ensures
        i <= text_end(bytes, i) <= bytes.len(),
        text_end(bytes, i) < bytes.len() ==> bytes[text_end(bytes, i)] < 0x80,
    decreases bytes.len() - i,
{
    if !(i >= bytes.len() || comment_at(bytes, i) || bytes[i] == NEWLINE || is_blank(bytes[i])) {
        lemma_text_end(bytes, i + 1);
    }
}

/// A token is not empty and ends within the source.
pub proof fn lemma_end_at(bytes: Seq<u8>, i: int)
    requires
        0 <= i < bytes.len(),
    ensures
        i < end_at(bytes, i) <= bytes.len(),
{
    lemma_line_end(bytes, i);
    lemma_text_end(bytes, i);
    if comment_at(bytes, i) {
        lemma_line_end(bytes, i + 1);
    } else if !(bytes[i] == NEWLINE || is_blank(bytes[i])) {
        lemma_text_end(bytes, i + 1);
    }
}

/// In well-formed UTF-8 a token that starts between two characters ends
/// between two characters.
pub proof fn lemma_end_at_boundary(bytes: Seq<u8>, i: int)
    requires
        valid_utf8(bytes),
        0 <= i < bytes.len(),
        is_char_boundary(bytes, i),
    ensures
        sliceable(bytes, i, end_at(bytes, i)),
{
    lemma_end_at(bytes, i);
    lemma_line_end(bytes, i);
    lemma_text_end(bytes, i);
    match type_at(bytes, i) {
        TokenType::Comment => {
            lemma_ascii_boundary(bytes, line_end(bytes, i));
        },
        TokenType::Text => {
            lemma_ascii_boundary(bytes, text_end(bytes, i));
        },
        _ => {
            lemma_ascii_boundary(bytes, i);
        },
    }
}

/// Every token of a well-formed source can be cut out of it, and none is
/// empty.
pub proof fn lemma_tokens_sliceable(bytes: Seq<u8>, i: int, k: int)
    requires
        valid_utf8(bytes),
        0 <= i <= bytes.len() <= usize::MAX,
        is_char_boundary(bytes, i),
        0 <= k < tokens_from(bytes, i).len(),
    ensures
        sliceable(
            bytes,
            tokens_from(bytes, i)[k].start as int,
            tokens_from(bytes, i)[k].end as int,
        ),
        tokens_from(bytes, i)[k].start < tokens_from(bytes, i)[k].end,
        tokens_from(bytes, i)[k].token_type == type_at(
            bytes,
            tokens_from(bytes, i)[k].start as int,
        ),
        tokens_from(bytes, i)[k].end == end_at(bytes, tokens_from(bytes, i)[k].start as int),
    decreases bytes.len() - i,
{
    lemma_end_at(bytes, i);
    lemma_end_at_boundary(bytes, i);
    if k > 0 {
        lemma_tokens_sliceable(bytes, end_at(bytes, i), k - 1);
    }
}

/// The lexer. `tokens` holds what has been cut so far, `source` the text.
pub struct Tokenizer<'a> {
    pub tokens: Vec<Token>,
    pub source: &'a str,
    pub pos: usize,
}

impl<'a> Tokenizer<'a> {
    /// The bytes of the source.
    pub open spec fn bytes(&self) -> Seq<u8> {
        self.source.spec_bytes()
    }

    /// A lexer that has cut the whole of `source`.
    pub fn new(source: &'a str) -> (r: Self)
        ensures
            r.source == source,
            r.tokens@ == tokens_from(source.spec_bytes(), 0),
            r.pos == source.spec_bytes().len(),
    {
        let mut t = Tokenizer { tokens: Vec::new(), source, pos: 0 };
        t.tokenize();
        let _ = t.is_done();
        assert(t.tokens@ =~= tokens_from(source.spec_bytes(), 0));
        t
    }

    /// Cuts what is left of the source, from the current offset on.
    pub fn tokenize(&mut self)
        ensures
            final(self).source == old(self).source,
            final(self).tokens@ == old(self).tokens@ + tokens_from(
                old(self).bytes(),
                old(self).pos as int,
            ),
            final(self).pos == if old(self).pos < old(self).bytes().len() {
                old(self).bytes().len() as usize
            } else {
                old(self).pos
            },
    {
        while self.pos < self.source.as_bytes().len()
            invariant
                self.source == old(self).source,
                old(self).pos <= self.pos,
                old(self).pos < self.bytes().len() ==> self.pos <= self.bytes().len(),
                old(self).pos >= self.bytes().len() ==> self.pos == old(self).pos,
                old(self).tokens@ + tokens_from(self.bytes(), old(self).pos as int)
                    == self.tokens@ + tokens_from(self.bytes(), self.pos as int),
            decreases self.bytes().len() - self.pos,
        {
            let start: usize = self.pos;
            let ghost before = self.tokens@;
            proof {
                lemma_end_at(self.bytes(), start as int);
            }
            let token_type = self.get_token_type();
            self.tokens.push(Token { token_type, start, end: self.pos });
            assert(self.tokens@ + tokens_from(self.bytes(), self.pos as int) =~= before
                + tokens_from(self.bytes(), start as int));
        }
        assert(self.tokens@ =~= old(self).tokens@ + tokens_from(
            old(self).bytes(),
            old(self).pos as int,
        ));
    }

    pub fn take_tokens(self) -> (r: Vec<Token>)
        ensures
            r == self.tokens,
    {
        self.tokens
    }

    fn is_done(&self) -> (r: bool)
        ensures
            r == (self.pos >= self.bytes().len()),
            self.bytes().len() <= usize::MAX,
    {
        self.pos >= self.source.as_bytes().len()
    }

    /// Steps over the token at the current offset and tells its type.
    fn get_token_type(&mut self) -> (r: TokenType)
        requires
            old(self).pos < old(self).bytes().len(),
        ensures
            final(self).source == old(self).source,
            final(self).tokens == old(self).tokens,
            r == type_at(old(self).bytes(), old(self).pos as int),
            final(self).pos == end_at(old(self).bytes(), old(self).pos as int),
    {
        proof {
            lemma_end_at(self.bytes(), self.pos as int);
        }
        if self.is_comment() {
            self.advance_comment();
            TokenType::Comment
        } else if self.is_newline() {
            self.advance();
            TokenType::Newline
        } else if self.is_whitespace() {
            self.advance();
            TokenType::WhiteSpace
        } else {
            self.advance_text();
            TokenType::Text
        }
    }

    fn is_comment(&self) -> (r: bool)
        ensures
            r == comment_at(self.bytes(), self.pos as int),
    {
        let bytes = self.source.as_bytes();
        self.pos < bytes.len() && bytes.len() - self.pos >= 2 && bytes[self.pos] == SLASH
            && bytes[self.pos + 1] == SLASH
    }

    fn is_newline(&self) -> (r: bool)
        ensures
            r == (self.pos < self.bytes().len() && self.bytes()[self.pos as int] == NEWLINE),
    {
        let bytes = self.source.as_bytes();
        self.pos < bytes.len() && bytes[self.pos] == NEWLINE
    }

    fn is_whitespace(&self) -> (r: bool)
        ensures
            r == (self.pos < self.bytes().len() && is_blank(self.bytes()[self.pos as int])),
    {
        let bytes = self.source.as_bytes();
        if self.pos < bytes.len() {
            let c: u8 = bytes[self.pos];
            c == SPACE || c == TAB || c == CARRIAGE_RETURN
        } else {
            false
        }
    }

    fn advance_comment(&mut self)
        requires
            old(self).pos <= old(self).bytes().len(),
        ensures
            final(self).source == old(self).source,
            final(self).tokens == old(self).tokens,
            final(self).pos == line_end(old(self).bytes(), old(self).pos as int),
    {
        while !self.is_done() && !self.is_newline()
            invariant
                self.source == old(self).source,
                self.tokens == old(self).tokens,
                old(self).pos <= self.pos <= self.bytes().len(),
                line_end(self.bytes(), self.pos as int) == line_end(
                    self.bytes(),
                    old(self).pos as int,
                ),
            decreases self.bytes().len() - self.pos,
        {
            self.advance();
        }
    }

    fn advance_text(&mut self)
        requires
            old(self).pos <= old(self).bytes().len(),
        ensures
            final(self).source == old(self).source,
            final(self).tokens == old(self).tokens,
            final(self).pos == text_end(old(self).bytes(), old(self).pos as int),
    {
        while !self.is_done() && !self.is_comment() && !self.is_newline() && !self.is_whitespace()
            invariant
                self.source == old(self).source,
                self.tokens == old(self).tokens,
                old(self).pos <= self.pos <= self.bytes().len(),
                text_end(self.bytes(), self.pos as int) == text_end(
                    self.bytes(),
                    old(self).pos as int,
                ),
            decreases self.bytes().len() - self.pos,
        {
            self.advance();
        }
    }

    /// The text of a token of this source.
    pub fn get_token_str(&self, token: &Token) -> (r: &'a str)
        requires
            sliceable(self.bytes(), token.start as int, token.end as int),
        ensures
            r.spec_bytes() == self.bytes().subrange(token.start as int, token.end as int),
    {
        str_slice(self.source, token.start, token.end)
    }

    /// Steps over one byte, unless the source has ended.
    fn advance(&mut self)
        ensures
            final(self).source == old(self).source,
            final(self).tokens == old(self).tokens,
            final(self).pos == if old(self).pos < old(self).bytes().len() {
                old(self).pos + 1
            } else {
                old(self).pos as int
            },
    {
        if self.pos < self.source.as_bytes().len() {
            self.pos += 1;
        }
    }
}

} // verus!
