//! The whole translation: from the text of a VM file to Hack assembly.
use crate::vm_translator::ir::{
    is_comparison, lower, optimized, AsmIrModel, IrParser, LowerError,
};
use crate::vm_translator::parser::{
    command_after, lemma_skip_from, lemma_skip_idempotent, skip_from, VmCommand, VmParseError,
    VmParser,
};
use crate::vm_translator::token::{tokens_from, Token};
use vstd::prelude::*;
use vstd::string::*;

verus! {

/// Why a source could not be translated.
pub enum TranslateError {
    /// A command could not be read.
    Parse(VmParseError),
    /// A command could not be lowered.
    Lower(LowerError),
    /// The source holds more comparisons than there are label numbers.
    TooManyComparisons,
}

impl TranslateError {
    /// The message that reports the error.
    pub open spec fn message(self) -> Seq<char> {
        match self {
            TranslateError::Parse(e) => e.message(),
            TranslateError::Lower(e) => e.message(),
            TranslateError::TooManyComparisons => "too many comparisons"@,
        }
    }
}

/// The assembly of a program: that of its nodes, one after the other.
pub open spec fn render_all(nodes: Seq<AsmIrModel>) -> Seq<char>
    decreases nodes.len(),
{
    if nodes.len() == 0 {
        Seq::empty()
    } else {
        render_all(nodes.drop_last()) + nodes.last().render()
    }
}

/// A command ends behind the token it starts with.
pub proof fn lemma_command_after(bytes: Seq<u8>, tokens: Seq<Token>, p: int)
    requires
        0 <= p <= tokens.len(),
    ensures
        p <= command_after(bytes, tokens, p).1 <= tokens.len(),
        skip_from(tokens, p, false) < tokens.len() ==> p < command_after(bytes, tokens, p).1,
{
    lemma_skip_from(tokens, p, false);
    let q = skip_from(tokens, p, false);
    if q < tokens.len() {
        lemma_skip_from(tokens, q + 1, true);
        let r = skip_from(tokens, q + 1, true);
        if r < tokens.len() {
            lemma_skip_from(tokens, r + 1, true);
        }
    }
}

/// The program that the commands from token `p` on add to `program`, where
/// `counter` comparisons have been lowered before. The first command that
/// cannot be read or lowered ends the translation with its error.
pub open spec fn lowered_from(
    bytes: Seq<u8>,
    tokens: Seq<Token>,
    p: int,
    file: Seq<char>,
    counter: u16,
    program: Seq<AsmIrModel>,
) -> Result<Seq<AsmIrModel>, TranslateError>
    decreases tokens.len() - p,
    via lowered_from_decreases
{
    if p < 0 || skip_from(tokens, p, false) >= tokens.len() {
        Ok(program)
    } else {
        match command_after(bytes, tokens, p) {
            (Err(e), _) => Err(TranslateError::Parse(e)),
            (Ok(command), next) => if is_comparison(command) && counter == u16::MAX {
                Err(TranslateError::TooManyComparisons)
            } else {
                match lower(command, file, counter).1 {
                    Some(e) => Err(TranslateError::Lower(e)),
                    None => lowered_from(
                        bytes,
                        tokens,
                        next,
                        file,
                        if is_comparison(command) {
                            (counter + 1) as u16
                        } else {
                            counter
                        },
                        program + lower(command, file, counter).0,
                    ),
                }
            },
        }
    }
}

#[via_fn]
proof fn lowered_from_decreases(
    bytes: Seq<u8>,
    tokens: Seq<Token>,
    p: int,
    file: Seq<char>,
    counter: u16,
    program: Seq<AsmIrModel>,
) {
    if 0 <= p <= tokens.len() {
        lemma_command_after(bytes, tokens, p);
    } else if 0 <= p {
        assert(skip_from(tokens, p, false) == p);
    }
}

/// The assembly that a source is translated to: its commands lowered in
/// order, the peephole pass applied, and the nodes written out.
pub open spec fn translation(bytes: Seq<u8>, file: Seq<char>) -> Result<Seq<char>, TranslateError> {
    match lowered_from(bytes, tokens_from(bytes, 0), 0, file, 0, Seq::empty()) {
        Ok(program) => Ok(render_all(optimized(program))),
        Err(e) => Err(e),
    }
}

fn has_fresh_labels(command: &VmCommand) -> (r: bool)
    ensures
        r == is_comparison(command@),
{
    match command {
        VmCommand::Eq => true,
        VmCommand::Gt => true,
        VmCommand::Lt => true,
        _ => false,
    }
}

/// Translates the text of a VM file into Hack assembly. `file_name` makes
/// the labels and static symbols of the file unique to it.
pub fn translate(source: &str, file_name: &str) -> (res: Result<String, String>)
    ensures
        match translation(source.spec_bytes(), file_name@) {
            Ok(text) => res matches Ok(assembly) && assembly@ == text,
            Err(e) => res matches Err(message) && message@ == e.message(),
        },
{
    let mut parser = VmParser::new(source);
    let mut ir_parser = IrParser::new(file_name);
    let ghost bytes = source.spec_bytes();
    let ghost tokens = tokens_from(bytes, 0);
    loop
        invariant
            bytes == source.spec_bytes(),
            parser.bytes() == bytes,
            tokens == tokens_from(bytes, 0),
            0 <= parser.position() <= tokens.len(),
            ir_parser.file() == file_name@,
            lowered_from(bytes, tokens, 0, file_name@, 0, Seq::empty()) == lowered_from(
                bytes,
                tokens,
                parser.position(),
                file_name@,
                ir_parser.counter(),
                ir_parser.program(),
            ),
        ensures
            lowered_from(bytes, tokens, 0, file_name@, 0, Seq::empty()) == Ok::<
                Seq<AsmIrModel>,
                TranslateError,
            >(ir_parser.program()),
        decreases tokens.len() - parser.position(),
    {
        let ghost p = parser.position();
        proof {
            lemma_skip_from(tokens, p, false);
            lemma_skip_idempotent(tokens, p, false);
            lemma_command_after(bytes, tokens, p);
        }
        parser.skip_unnecessary_tokens();
        if parser.is_done() {
            break ;
        }
        assert(lowered_from(
            bytes,
            tokens,
            p,
            file_name@,
            ir_parser.counter(),
            ir_parser.program(),
        ) == lowered_from(
            bytes,
            tokens,
            parser.position(),
            file_name@,
            ir_parser.counter(),
            ir_parser.program(),
        ));
        let command = parser.next_command()?;
        if has_fresh_labels(&command) && ir_parser.conditional_counter == u16::MAX {
            return Err(String::from_str("too many comparisons"));
        }
        ir_parser.parse(command)?;
    }
    ir_parser.optimize();
    let mut assembly = String::new();
    let n: usize = ir_parser.commands.len();
    let mut i: usize = 0;
    while i < n
        invariant
            i <= n,
            n == ir_parser.commands.len(),
            assembly@ == render_all(ir_parser.program().take(i as int)),
        decreases n - i,
    {
        let text = ir_parser.commands[i].duplicate().to_string();
        assembly.append(text.as_str());
        proof {
            let whole = ir_parser.program();
            assert(whole.take(i as int + 1).drop_last() =~= whole.take(i as int));
        }
        i += 1;
    }
    assert(ir_parser.program().take(n as int) =~= ir_parser.program());
    Ok(assembly)
}

} // verus!
