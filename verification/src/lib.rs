//! A compiler front end for SNL, a small block-structured imperative
//! language: a scanner, a recursive-descent parser and an emitter that
//! renders the syntax tree as a host program.
pub mod ast;
pub mod cursor;
pub mod derivation;
pub mod expr;
pub mod lexer;
pub mod stm;
pub mod symbol;
pub mod text;
pub mod token;
pub mod unique;
pub mod utils;

use crate::ast::{fallback_text, is_program, program_misfit, Program};
use crate::symbol::{error_in, source_items, source_tokens, ParseBuffer, ParseError};
use crate::text::byte_len;
use crate::unique::lemma_program_unique;
use vstd::prelude::*;
use vstd::string::*;

verus! {

/// The markers of `errors`, one behind the other.
pub open spec fn markers(errors: Seq<ParseError>) -> Seq<char>
    decreases errors.len(),
{
    if errors.len() == 0 {
        Seq::empty()
    } else {
        markers(errors.drop_last()) + errors.last().marker()
    }
}

/// Compiles the program `input`. A syntax error does not stop the
/// emission: the fallback program is emitted in place of the one that
/// could not be read, and the error for the first token that does not fit
/// is handed back beside it.
pub fn snl_with_erros(input: &str) -> (r: (String, Vec<ParseError>))
    requires
        byte_len(input@) <= u32::MAX,
    ensures
        forall|p: Program|
            p.wf() && #[trigger] p.syntax() == source_items(input@) ==> r.0@ == p.text(),
        is_program(source_items(input@)) ==> r.1@ == Seq::<ParseError>::empty(),
        !is_program(source_items(input@)) ==> r.0@ == fallback_text() && r.1@ == seq![
            error_in(source_tokens(input@), program_misfit(source_items(input@))),
        ],
{
    let buffer = ParseBuffer::from_source(input);
    let mut errors: Vec<ParseError> = Vec::new();
    let mut output = String::new();
    match Program::parse_all(&buffer) {
        Ok(program) => {
            program.to_tokens(&mut output);
            proof {
                assert(output@ =~= program.text());
                assert(errors@ =~= Seq::<ParseError>::empty());
                assert forall|p: Program|
                    p.wf() && #[trigger] p.syntax() == source_items(input@) implies output@
                    == p.text() by {
                    lemma_program_unique(p, program);
                }
            }
        },
        Err(e) => {
            errors.push(e);
            let prog = Program::fallback();
            prog.to_tokens(&mut output);
            proof {
                assert(output@ =~= fallback_text());
                assert(errors@ =~= seq![e]);
            }
        },
    }
    (output, errors)
}

/// Compiles the program `input`. After a syntax error the output is the
/// fallback program followed by the marker of the error, so that the host
/// compiler refuses it.
pub fn snl(input: &str) -> (output: String)
    requires
        byte_len(input@) <= u32::MAX,
    ensures
        forall|p: Program|
            p.wf() && #[trigger] p.syntax() == source_items(input@) ==> output@ == p.text(),
        !is_program(source_items(input@)) ==> output@ == fallback_text() + error_in(
            source_tokens(input@),
            program_misfit(source_items(input@)),
        ).marker(),
{
    let (mut output, errors) = snl_with_erros(input);
    let ghost emitted = output@;
    let mut i: usize = 0;
    while i < errors.len()
        invariant
            i <= errors.len(),
            output@ == emitted + markers(errors@.take(i as int)),
        decreases errors.len() - i,
    {
        let marker = errors[i].to_compile_error();
        output.append(marker.as_str());
        i += 1;
        proof {
            assert(errors@.take(i as int).drop_last() == errors@.take(i - 1));
        }
    }
    proof {
        assert(errors@.take(errors@.len() as int) == errors@);
        assert(markers(Seq::<ParseError>::empty()) == Seq::<char>::empty());
        if errors@.len() == 1 {
            assert(errors@.drop_last() == Seq::<ParseError>::empty());
            assert(markers(errors@) == Seq::<char>::empty() + errors@[0].marker());
            assert(output@ == emitted + errors@[0].marker());
        } else {
            assert(output@ == emitted);
        }
    }
    output
}

} // verus!
