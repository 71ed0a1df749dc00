//! A verified pipeline that turns a small slide-deck markup language into a
//! typed deck model: a character-level tokenizer, a stack-based tree builder,
//! and a semantic mapper from trees to ordered page blocks.

pub mod laws;
pub mod lexer;
pub mod mapper;
pub mod scale;
pub mod strutil;
pub mod tree;

use vstd::prelude::*;

verus! {

/// One run of the whole pipeline: strip tabs and newlines, tokenize, build
/// the tree, and map it to a deck with its warnings; a structural failure
/// of the tree builder is the only error.
pub fn compile(xml: &str, size_hint: Option<&str>) -> (r: Result<
    (mapper::DeckModel, Vec<mapper::MapWarning>),
    tree::ParseError,
>)
    ensures
        ({
            let toks = lexer::spec_tokenize(strutil::strip_spec(xml@));
            let hint = (match size_hint {
                Some(h) => Some(h@),
                None => None,
            });
            match tree::spec_parse(toks) {
                Ok(t) => {
                    &&& r is Ok
                    &&& r->Ok_0.0@ == mapper::spec_map_deck(t, hint).0
                    &&& mapper::warnings_view(r->Ok_0.1@) == mapper::spec_map_deck(t, hint).1
                },
                Err(e) => r matches Err(pe) && pe@ == e,
            }
        }),
{
    let stripped = strutil::strip_control(xml);
    let tokens = lexer::tokenize(stripped.as_str());
    match tree::parse(tokens.as_slice()) {
        Ok(node) => {
            let (deck, warnings) = mapper::map_deck(&node, size_hint);
            Ok((deck, warnings))
        },
        Err(e) => Err(e),
    }
}

} // verus!
