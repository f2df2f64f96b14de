//! Parsing: token stream to AST.

pub mod decl;
pub mod expr;
mod parser_impl;
pub mod stmt;

pub use parser_impl::Parser;
pub use parser_impl::{describe, stream_ok, E_UNEXPECTED};

use crate::diag::{DiagSink, FileId};
use crate::frontend::ast::{Item, Module};
use crate::frontend::lexer::Token;
use vstd::prelude::*;

verus! {

/// Parser entry point: reads items until the end of the stream. A token
/// that starts no item is skipped, so the loop always ends.
pub fn parse(file: FileId, toks: Vec<Token>, sink: &mut DiagSink) -> (m: Module)
    requires
        stream_ok(toks@),
    ensures
        m.span == toks@[Parser::first_non_comment(toks@, 0)].span,
        toks@[Parser::first_non_comment(toks@, 0)].kind is Eof ==> m.items@.len() == 0,
        m.items@.len() < toks@.len(),
        decl::head_at(toks@, Parser::first_non_comment(toks@, 0)) is Some ==> m.items@.len() > 0 && decl::item_head(
            m.items@[0],
        ) == decl::head_at(toks@, Parser::first_non_comment(toks@, 0)),
{
    let ghost all = toks@;
    let mut p = Parser::new(file, toks, sink);
    let span = p.peek_span();
    let mut items: Vec<Item> = Vec::new();
    let ghost mut started = false;
    while !p.at_eof()
        invariant
            p.wf(),
            p.toks@ == all,
            items@.len() + p.rem() <= all.len(),
            all[Parser::first_non_comment(all, 0)].kind is Eof ==> p.pos == Parser::first_non_comment(all, 0)
                && items@.len() == 0,
            !started ==> p.pos == Parser::first_non_comment(all, 0) && items@.len() == 0,
            started && decl::head_at(all, Parser::first_non_comment(all, 0)) is Some ==> items@.len() > 0
                && decl::item_head(items@[0]) == decl::head_at(all, Parser::first_non_comment(all, 0)),
        ensures
            decl::head_at(all, Parser::first_non_comment(all, 0)) is Some ==> items@.len() > 0
                && decl::item_head(items@[0]) == decl::head_at(all, Parser::first_non_comment(all, 0)),
        decreases p.rem(),
    {
        let ghost first = !started;
        proof {
            started = true;
        }
        match decl::parse_item(&mut p) {
            Some(it) => items.push(it),
            None => {
                p.bump();
            },
        }
    }
    Module { items, span }
}

} // verus!
