//! The `atom!` macro: a chain of pattern matches written as
//! `init => [pattern] names; { code }; ... => { resolve }`, parsed from tokens
//! and expanded into nested `match` expressions.
pub mod data;
pub mod parsing;
pub mod gen;

use vstd::prelude::*;

use crate::data::{Error, ErrorView, Input, Span, TokenTree, join, spec_left_over};
use crate::gen::{gen_atom, newline, spec_gen_atom};
use crate::parsing::{parse_atom, spec_parse_atom};

verus! {

/// What a macro expands to: the text of the code, and, where it is given, the
/// span that every top-level token of that code is to carry.
pub struct Generated {
    pub code: String,
    pub span: Option<Span>,
}

impl View for Generated {
    type V = (Seq<char>, Option<Span>);

    open spec fn view(&self) -> (Seq<char>, Option<Span>) {
        (self.code@, self.span)
    }
}

/// The code that reports `e` as a compile error: its messages, one per line,
/// in a `compile_error!` invocation.
pub open spec fn spec_compile_error(e: ErrorView) -> (Seq<char>, Option<Span>) {
    ("compile_error!(\""@ + join(e.1, newline()) + "\");"@, Some(e.0))
}

/// What `atom!` expands to on `tokens`: the generated code when the whole
/// input parses as an atom; else a compile error, for the parse error or, if
/// tokens are left over, at the last of them.
pub open spec fn spec_atom(tokens: Seq<TokenTree>, call_site: Span) -> (Seq<char>, Option<Span>) {
    match spec_parse_atom((tokens, call_site)) {
        Ok((a, rest)) => if rest.0.len() == 0 {
            (spec_gen_atom(a), None)
        } else {
            spec_compile_error(spec_left_over(rest.0))
        },
        Err(e) => spec_compile_error(e),
    }
}

/// The compile error that reports `error`, at its span.
pub fn gen_compile_error(error: Error) -> (res: Generated)
    ensures
        res@ == spec_compile_error(error@),
{
    let mut code = String::new();
    code.append("compile_error!(\"");
    let message = error.message();
    code.append(message.as_str());
    code.append("\");");
    let span = error.span();
    Generated { code, span: Some(span) }
}

/// Expands `atom!` on `input`, whose span is `call_site`.
pub fn atom(input: &[TokenTree], call_site: Span) -> (res: Generated)
    ensures
        res@ == spec_atom(input@, call_site),
{
    let atom = parse_atom(Input::new(input, call_site));
    match atom {
        Ok((v, input)) => {
            if input.input().len() == 0 {
                Generated { code: gen_atom(v), span: None }
            } else {
                gen_compile_error(input.left_over())
            }
        },
        Err(e) => gen_compile_error(e),
    }
}

} // verus!
