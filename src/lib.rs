//! A two-pass assembler for 6502 source text.
//!
//! The pipeline has three stages: [`tokenize`] splits the source into
//! statements and collects label and constant names, [`encode`] turns each
//! statement into opcode and operand bytes while the program counter runs,
//! and [`render`] resolves label references and writes the byte stream out.
//! Each stage states its result through spec functions of the same module.

pub mod literal;
pub mod opcodes;
pub mod text;
pub mod tokenize;
pub mod encode;
pub mod render;
pub mod laws;

use vstd::prelude::*;
use crate::encode::{encode, tokens_to_machine_code};
use crate::render::{machine_code_to_str, render};
use crate::tokenize::{create_symbols_and_tokenize, tokenize, AsmError, LabelView};

verus! {

/// The addresses of a resolved label table.
pub open spec fn label_addresses(ls: Seq<LabelView>) -> Seq<u16> {
    ls.map_values(|l: LabelView| l.address)
}

/// The listing of a source text, or the first error met on the way.
pub open spec fn assembled(code: Seq<char>, debug: bool) -> Result<Seq<char>, AsmError> {
    match tokenize(code) {
        Err(e) => Err(e),
        Ok((tokens, labels, defines)) => match encode(tokens, labels, defines) {
            Err(e) => Err(e),
            Ok((st, resolved)) => Ok(
                render(st.lines, st.debug, defines, debug, label_addresses(resolved)),
            ),
        },
    }
}

/// Assembles a source text into its hex listing, or, with `debug`, its
/// annotated listing. Any error of any pass ends the run with no output.
pub fn assemble(source: &str, debug: bool) -> (r: Result<String, AsmError>)
    ensures
        match (assembled(source@, debug), r) {
            (Ok(text), Ok(s)) => s@ == text,
            (Err(e), Err(f)) => e == f,
            _ => false,
        },
{
    let (tokens, labels, defines) = match create_symbols_and_tokenize(source) {
        Ok(t) => t,
        Err(e) => {
            return Err(e);
        },
    };
    let (mut machine_code, resolved) = match tokens_to_machine_code(&tokens, &labels, &defines) {
        Ok(m) => m,
        Err(e) => {
            return Err(e);
        },
    };
    machine_code.defines = defines;
    proof {
        crate::encode::lemma_encode_refs(
            crate::tokenize::line_views(tokens@),
            crate::tokenize::label_views(labels@),
            crate::tokenize::define_views(defines@),
            tokens@.len() as nat,
        );
        assert(resolved@.len() == labels@.len()) by {
            assert(crate::tokenize::label_views(resolved@).len() == resolved@.len());
        }
    }
    let text = machine_code_to_str(&machine_code, &resolved, debug);
    proof {
        assert(crate::render::addresses(resolved@) =~= label_addresses(
            crate::tokenize::label_views(resolved@),
        ));
    }
    Ok(text)
}

} // verus!
