//! Recognition of VM commands in a token stream.
use crate::text::{
    debug_string, debug_text, decimal, parse_number, parse_u16, push_decimal, sliceable, str_eq,
    str_slice, NumberError,
};
use crate::vm_translator::token::{
    lemma_tokens_sliceable, tokens_from, Token, TokenType, Tokenizer,
};
use vstd::prelude::*;
use vstd::string::*;
use vstd::utf8::*;

verus! {

/// The largest index that a memory command can carry.
pub const MAX_ADDRESS: u16 = 32767;

/// One command of the VM language. A memory command names its segment by the
/// text found in the source.
#[derive(Debug, PartialEq)]
pub enum VmCommand<'a> {
    Add,
    Sub,
    Neg,
    Eq,
    Gt,
    Lt,
    And,
    Or,
    Not,
    Push { segment: &'a str, index: u16 },
    Pop { segment: &'a str, index: u16 },
}

/// The mathematical model of a [`VmCommand`]: the same command with its
/// segment as a character sequence.
pub enum VmCommandModel {
    Add,
    Sub,
    Neg,
    Eq,
    Gt,
    Lt,
    And,
    Or,
    Not,
    Push { segment: Seq<char>, index: u16 },
    Pop { segment: Seq<char>, index: u16 },
}

impl<'a> View for VmCommand<'a> {
    type V = VmCommandModel;

    open spec fn view(&self) -> VmCommandModel {
        match *self {
            VmCommand::Add => VmCommandModel::Add,
            VmCommand::Sub => VmCommandModel::Sub,
            VmCommand::Neg => VmCommandModel::Neg,
            VmCommand::Eq => VmCommandModel::Eq,
            VmCommand::Gt => VmCommandModel::Gt,
            VmCommand::Lt => VmCommandModel::Lt,
            VmCommand::And => VmCommandModel::And,
            VmCommand::Or => VmCommandModel::Or,
            VmCommand::Not => VmCommandModel::Not,
            VmCommand::Push { segment, index } => VmCommandModel::Push { segment: segment@, index },
            VmCommand::Pop { segment, index } => VmCommandModel::Pop { segment: segment@, index },
        }
    }
}

/// Why no command could be read.
pub enum VmParseError {
    /// The source ended where a command or an operand was due.
    EndOfFile,
    /// The text is no command.
    InvalidCommand(Seq<char>),
    /// The text is no segment.
    InvalidSegment(Seq<char>),
    /// The index is above [`MAX_ADDRESS`].
    IndexOutOfBounds(u16),
    /// The text is no `u16`.
    InvalidIndex(NumberError),
}

impl VmParseError {
    /// The message that reports the error.
    pub open spec fn message(self) -> Seq<char> {
        match self {
            VmParseError::EndOfFile => "Unexpected end of file"@,
            VmParseError::InvalidCommand(text) => "Invalid command: "@ + text,
            VmParseError::InvalidSegment(text) => "Invalid segment: "@ + debug_text(text),
            VmParseError::IndexOutOfBounds(index) => "Index out of bounds: "@ + decimal(
                index as nat,
            ),
            VmParseError::InvalidIndex(e) => "Invalid index: "@ + e.message(),
        }
    }
}

/// The bytes of a token.
pub open spec fn token_bytes(bytes: Seq<u8>, token: Token) -> Seq<u8> {
    bytes.subrange(token.start as int, token.end as int)
}

/// The text of a token.
pub open spec fn token_text(bytes: Seq<u8>, token: Token) -> Seq<char> {
    decode_utf8(token_bytes(bytes, token))
}

/// Whether tokens of this type are passed over: all blanks where
/// `blanks_only`, else newlines and comments too.
pub open spec fn is_skipped(token_type: TokenType, blanks_only: bool) -> bool {
    token_type == TokenType::WhiteSpace || (!blanks_only && (token_type == TokenType::Comment
        || token_type == TokenType::Newline))
}

/// The index of the first token from `p` on that is not passed over, or the
/// number of tokens where there is none.
pub open spec fn skip_from(tokens: Seq<Token>, p: int, blanks_only: bool) -> int
    decreases tokens.len() - p,
{
    if p < 0 || p >= tokens.len() || !is_skipped(tokens[p].token_type, blanks_only) {
        p
    } else {
        skip_from(tokens, p + 1, blanks_only)
    }
}

pub proof fn lemma_skip_from(tokens: Seq<Token>, p: int, blanks_only: bool)
    requires
        0 <= p <= tokens.len(),
    ensures
        p <= skip_from(tokens, p, blanks_only) <= tokens.len(),
    decreases tokens.len() - p,
{
    if p < tokens.len() && is_skipped(tokens[p].token_type, blanks_only) {
        lemma_skip_from(tokens, p + 1, blanks_only);
    }
}

/// Nothing is passed over twice: passing over from where it stopped stops
/// at once.
pub proof fn lemma_skip_idempotent(tokens: Seq<Token>, p: int, blanks_only: bool)
    requires
        0 <= p <= tokens.len(),
    ensures
        skip_from(tokens, skip_from(tokens, p, blanks_only), blanks_only) == skip_from(
            tokens,
            p,
            blanks_only,
        ),
    decreases tokens.len() - p,
{
    if p < tokens.len() && is_skipped(tokens[p].token_type, blanks_only) {
        lemma_skip_idempotent(tokens, p + 1, blanks_only);
    }
}

/// Whether a text names one of the eight segments.
pub open spec fn is_segment_name(text: Seq<char>) -> bool {
    text == "argument"@ || text == "local"@ || text == "static"@ || text == "constant"@ || text
        == "this"@ || text == "that"@ || text == "pointer"@ || text == "temp"@
}

/// The segment read from token `p` on, after blanks, and the index of the
/// token behind it.
pub open spec fn segment_after(bytes: Seq<u8>, tokens: Seq<Token>, p: int) -> (
    Result<Seq<char>, VmParseError>,
    int,
) {
    let q = skip_from(tokens, p, true);
    if q >= tokens.len() {
        (Err(VmParseError::EndOfFile), q)
    } else if is_segment_name(token_text(bytes, tokens[q])) {
        (Ok(token_text(bytes, tokens[q])), q + 1)
    } else {
        (Err(VmParseError::InvalidSegment(token_text(bytes, tokens[q]))), q + 1)
    }
}

/// The index read from token `p` on, after blanks, and the index of the
/// token behind it.
pub open spec fn index_after(bytes: Seq<u8>, tokens: Seq<Token>, p: int) -> (
    Result<u16, VmParseError>,
    int,
) {
    let q = skip_from(tokens, p, true);
    if q >= tokens.len() {
        (Err(VmParseError::EndOfFile), q)
    } else {
        match parse_number(token_bytes(bytes, tokens[q])) {
            Ok(index) => if index > MAX_ADDRESS {
                (Err(VmParseError::IndexOutOfBounds(index)), q + 1)
            } else {
                (Ok(index), q + 1)
            },
            Err(e) => (Err(VmParseError::InvalidIndex(e)), q + 1),
        }
    }
}

/// The segment and the index of a memory command, read from token `p` on.
pub open spec fn operands_after(bytes: Seq<u8>, tokens: Seq<Token>, p: int) -> (
    Result<(Seq<char>, u16), VmParseError>,
    int,
) {
    match segment_after(bytes, tokens, p) {
        (Err(e), q) => (Err(e), q),
        (Ok(segment), q) => match index_after(bytes, tokens, q) {
            (Err(e), r) => (Err(e), r),
            (Ok(index), r) => (Ok((segment, index)), r),
        },
    }
}

/// The command whose first word is `name`, with its operands read from
/// token `p` on, and the index of the token behind the command.
pub open spec fn command_named(name: Seq<char>, bytes: Seq<u8>, tokens: Seq<Token>, p: int) -> (
    Result<VmCommandModel, VmParseError>,
    int,
) {
    if name == "add"@ {
        (Ok(VmCommandModel::Add), p)
    } else if name == "sub"@ {
        (Ok(VmCommandModel::Sub), p)
    } else if name == "neg"@ {
        (Ok(VmCommandModel::Neg), p)
    } else if name == "eq"@ {
        (Ok(VmCommandModel::Eq), p)
    } else if name == "gt"@ {
        (Ok(VmCommandModel::Gt), p)
    } else if name == "lt"@ {
        (Ok(VmCommandModel::Lt), p)
    } else if name == "and"@ {
        (Ok(VmCommandModel::And), p)
    } else if name == "or"@ {
        (Ok(VmCommandModel::Or), p)
    } else if name == "not"@ {
        (Ok(VmCommandModel::Not), p)
    } else if name == "push"@ {
        match operands_after(bytes, tokens, p) {
            (Ok((segment, index)), q) => (Ok(VmCommandModel::Push { segment, index }), q),
            (Err(e), q) => (Err(e), q),
        }
    } else if name == "pop"@ {
        match operands_after(bytes, tokens, p) {
            (Ok((segment, index)), q) => (Ok(VmCommandModel::Pop { segment, index }), q),
            (Err(e), q) => (Err(e), q),
        }
    } else {
        (Err(VmParseError::InvalidCommand(name)), p)
    }
}

/// The command read from token `p` on, after blanks, newlines and comments,
/// and the index of the token behind it.
pub open spec fn command_after(bytes: Seq<u8>, tokens: Seq<Token>, p: int) -> (
    Result<VmCommandModel, VmParseError>,
    int,
) {
    let q = skip_from(tokens, p, false);
    if q >= tokens.len() {
        (Err(VmParseError::EndOfFile), q)
    } else {
        command_named(token_text(bytes, tokens[q]), bytes, tokens, q + 1)
    }
}

/// Reads VM commands from a source, one at a time.
pub struct VmParser<'a> {
    tokens: Vec<Token>,
    pos: usize,
    source: &'a str,
}

impl<'a> VmParser<'a> {
    #[verifier::type_invariant]
    spec fn inv(self) -> bool {
        &&& self.tokens@ == tokens_from(self.source.spec_bytes(), 0)
        &&& self.pos <= self.tokens.len()
        &&& self.source.spec_bytes().len() <= usize::MAX
    }

    /// The bytes of the source.
    pub closed spec fn bytes(&self) -> Seq<u8> {
        self.source.spec_bytes()
    }

    /// The tokens of the source.
    pub open spec fn stream(&self) -> Seq<Token> {
        tokens_from(self.bytes(), 0)
    }

    /// The index of the next token to read.
    pub closed spec fn position(&self) -> int {
        self.pos as int
    }

    pub fn new(source: &'a str) -> (r: Self)
        ensures
            r.bytes() == source.spec_bytes(),
            r.position() == 0,
    {
        let tokens = Tokenizer::new(source).take_tokens();
        let _ = source.as_bytes().len();
        VmParser { tokens, source, pos: 0 }
    }

    /// Whether every token has been read.
    pub fn is_done(&self) -> (r: bool)
        ensures
            r == (self.position() >= self.stream().len()),
    {
        proof {
            use_type_invariant(self);
        }
        self.pos >= self.tokens.len()
    }

    /// Reads the next command, after blanks, newlines and comments.
    pub fn next_command(&mut self) -> (res: Result<VmCommand<'a>, String>)
        ensures
            final(self).bytes() == old(self).bytes(),
            final(self).position() == command_after(
                old(self).bytes(),
                old(self).stream(),
                old(self).position(),
            ).1,
            match command_after(old(self).bytes(), old(self).stream(), old(self).position()).0 {
                Ok(command) => res matches Ok(c) && c@ == command,
                Err(e) => res matches Err(message) && message@ == e.message(),
            },
    {
        proof {
            use_type_invariant(&*self);
            lemma_skip_from(self.stream(), self.position(), false);
        }
        self.skip_unnecessary_tokens();
        let toke = self.next_token()?;
        proof {
            use_type_invariant(&*self);
            encode_utf8_valid_utf8(self.source@);
            is_char_boundary_start_end_of_seq(self.bytes());
            lemma_tokens_sliceable(self.bytes(), 0, self.pos as int - 1);
        }
        self.match_command(toke)
    }

    /// Reads the command whose first word is the token `command_toke`, which
    /// has been read already.
    pub fn match_command(&mut self, command_toke: Token) -> (res: Result<VmCommand<'a>, String>)
        requires
            sliceable(old(self).bytes(), command_toke.start as int, command_toke.end as int),
        ensures
            final(self).bytes() == old(self).bytes(),
            final(self).position() == command_named(
                token_text(old(self).bytes(), command_toke),
                old(self).bytes(),
                old(self).stream(),
                old(self).position(),
            ).1,
            match command_named(
                token_text(old(self).bytes(), command_toke),
                old(self).bytes(),
                old(self).stream(),
                old(self).position(),
            ).0 {
                Ok(command) => res matches Ok(c) && c@ == command,
                Err(e) => res matches Err(message) && message@ == e.message(),
            },
    {
        let name = str_slice(self.source, command_toke.start, command_toke.end);
        proof {
            encode_utf8_decode_utf8(name@);
        }
        if str_eq(name, "add") {
            Ok(VmCommand::Add)
        } else if str_eq(name, "sub") {
            Ok(VmCommand::Sub)
        } else if str_eq(name, "neg") {
            Ok(VmCommand::Neg)
        } else if str_eq(name, "eq") {
            Ok(VmCommand::Eq)
        } else if str_eq(name, "gt") {
            Ok(VmCommand::Gt)
        } else if str_eq(name, "lt") {
            Ok(VmCommand::Lt)
        } else if str_eq(name, "and") {
            Ok(VmCommand::And)
        } else if str_eq(name, "or") {
            Ok(VmCommand::Or)
        } else if str_eq(name, "not") {
            Ok(VmCommand::Not)
        } else if str_eq(name, "push") {
            self.match_push()
        } else if str_eq(name, "pop") {
            self.match_pop()
        } else {
            let mut message = String::from_str("Invalid command: ");
            message.append(name);
            Err(message)
        }
    }

    fn match_push(&mut self) -> (res: Result<VmCommand<'a>, String>)
        ensures
            final(self).bytes() == old(self).bytes(),
            final(self).position() == operands_after(
                old(self).bytes(),
                old(self).stream(),
                old(self).position(),
            ).1,
            match operands_after(old(self).bytes(), old(self).stream(), old(self).position()).0 {
                Ok((segment, index)) => res matches Ok(c) && c@ == (VmCommandModel::Push {
                    segment,
                    index,
                }),
                Err(e) => res matches Err(message) && message@ == e.message(),
            },
    {
        let segment = self.match_segment()?;
        let index = self.match_index()?;
        Ok(VmCommand::Push { segment, index })
    }

    fn match_pop(&mut self) -> (res: Result<VmCommand<'a>, String>)
        ensures
            final(self).bytes() == old(self).bytes(),
            final(self).position() == operands_after(
                old(self).bytes(),
                old(self).stream(),
                old(self).position(),
            ).1,
            match operands_after(old(self).bytes(), old(self).stream(), old(self).position()).0 {
                Ok((segment, index)) => res matches Ok(c) && c@ == (VmCommandModel::Pop {
                    segment,
                    index,
                }),
                Err(e) => res matches Err(message) && message@ == e.message(),
            },
    {
        let segment = self.match_segment()?;
        let index = self.match_index()?;
        Ok(VmCommand::Pop { segment, index })
    }

    fn match_segment(&mut self) -> (res: Result<&'a str, String>)
        ensures
            final(self).bytes() == old(self).bytes(),
            final(self).position() == segment_after(
                old(self).bytes(),
                old(self).stream(),
                old(self).position(),
            ).1,
            match segment_after(old(self).bytes(), old(self).stream(), old(self).position()).0 {
                Ok(segment) => res matches Ok(s) && s@ == segment,
                Err(e) => res matches Err(message) && message@ == e.message(),
            },
    {
        proof {
            use_type_invariant(&*self);
            lemma_skip_from(self.stream(), self.position(), true);
        }
        self.skip_while(true);
        let segment_toke = self.next_token()?;
        let segment = self.token_str(segment_toke);
        if str_eq(segment, "argument") || str_eq(segment, "local") || str_eq(segment, "static")
            || str_eq(segment, "constant") || str_eq(segment, "this") || str_eq(segment, "that")
            || str_eq(segment, "pointer") || str_eq(segment, "temp") {
            Ok(segment)
        } else {
            let mut message = String::from_str("Invalid segment: ");
            message.append(debug_string(segment).as_str());
            Err(message)
        }
    }

    fn match_index(&mut self) -> (res: Result<u16, String>)
        ensures
            final(self).bytes() == old(self).bytes(),
            final(self).position() == index_after(
                old(self).bytes(),
                old(self).stream(),
                old(self).position(),
            ).1,
            match index_after(old(self).bytes(), old(self).stream(), old(self).position()).0 {
                Ok(index) => res == Ok::<u16, String>(index),
                Err(e) => res matches Err(message) && message@ == e.message(),
            },
    {
        proof {
            use_type_invariant(&*self);
            lemma_skip_from(self.stream(), self.position(), true);
        }
        self.skip_while(true);
        let index_toke = self.next_token()?;
        let index = self.token_str(index_toke);
        match parse_u16(index) {
            Ok(i) => {
                if i > MAX_ADDRESS {
                    let mut message = String::from_str("Index out of bounds: ");
                    push_decimal(&mut message, i);
                    Err(message)
                } else {
                    Ok(i)
                }
            },
            Err(e) => {
                let mut message = String::from_str("Invalid index: ");
                message.append(e.describe());
                Err(message)
            },
        }
    }

    /// The text of the token that was read last.
    fn token_str(&self, token: Token) -> (r: &'a str)
        requires
            0 < self.position() <= self.stream().len(),
            token == self.stream()[self.position() - 1],
        ensures
            r.spec_bytes() == token_bytes(self.bytes(), token),
            r@ == token_text(self.bytes(), token),
    {
        proof {
            use_type_invariant(self);
            encode_utf8_valid_utf8(self.source@);
            is_char_boundary_start_end_of_seq(self.bytes());
            lemma_tokens_sliceable(self.bytes(), 0, self.position() - 1);
        }
        let r = str_slice(self.source, token.start, token.end);
        proof {
            encode_utf8_decode_utf8(r@);
        }
        r
    }

    /// Passes over blanks, and over newlines and comments too unless
    /// `blanks_only`.
    fn skip_while(&mut self, blanks_only: bool)
        ensures
            final(self).bytes() == old(self).bytes(),
            final(self).position() == skip_from(
                old(self).stream(),
                old(self).position(),
                blanks_only,
            ),
    {
        proof {
            use_type_invariant(&*self);
        }
        while !self.is_done() && Self::skips(self.tokens[self.pos].token_type, blanks_only)
            invariant
                self.bytes() == old(self).bytes(),
                self.tokens@ == self.stream(),
                self.pos <= self.tokens.len(),
                self.bytes().len() <= usize::MAX,
                skip_from(self.stream(), self.position(), blanks_only) == skip_from(
                    old(self).stream(),
                    old(self).position(),
                    blanks_only,
                ),
            decreases self.tokens.len() - self.pos,
        {
            self.pos += 1;
        }
    }

    fn skips(token_type: TokenType, blanks_only: bool) -> (r: bool)
        ensures
            r == is_skipped(token_type, blanks_only),
    {
        token_type == TokenType::WhiteSpace || (!blanks_only && (token_type == TokenType::Comment
            || token_type == TokenType::Newline))
    }

    pub(crate) fn skip_unnecessary_tokens(&mut self)
        ensures
            final(self).bytes() == old(self).bytes(),
            final(self).position() == skip_from(old(self).stream(), old(self).position(), false),
    {
        self.skip_while(false);
    }

    fn next_token(&mut self) -> (res: Result<Token, String>)
        ensures
            final(self).bytes() == old(self).bytes(),
            if old(self).position() < old(self).stream().len() {
                &&& res == Ok::<Token, String>(old(self).stream()[old(self).position()])
                &&& final(self).position() == old(self).position() + 1
            } else {
                &&& res matches Err(message)
                &&& message@ == VmParseError::EndOfFile.message()
                &&& final(self).position() == old(self).position()
            },
    {
        proof {
            use_type_invariant(&*self);
        }
        if self.is_done() {
            return Err(String::from_str("Unexpected end of file"));
        }
        let token = self.tokens[self.pos];
        self.pos += 1;
        Ok(token)
    }
}

} // verus!
