//! JSON language support. Data, not code: parsed and chunked, with no structural graph.

use vstd::prelude::*;

use super::{parses, GraphStrategy, LanguageSupport};

verus! {

/// `tree_sitter_json::LANGUAGE` as a grammar. Nothing is claimed of the value.
#[verifier::external_body]
fn json_grammar() -> tree_sitter::Language {
    tree_sitter_json::LANGUAGE.into()
}

/// A fresh `tree_sitter::Parser` set to `tree_sitter_json::LANGUAGE`, then `parse(code, None)`.
/// Claimed: it gives a tree exactly when [`parses`] holds of `"json"` and the text (no timeout or
/// cancellation is set, so the outcome depends on the grammar and the text alone).
#[verifier::external_body]
pub(crate) fn parse_code(code: &str) -> (r: Option<tree_sitter::Tree>)
    ensures
        r is Some <==> parses("json"@, code@),
{
    let mut parser = tree_sitter::Parser::new();
    match parser.set_language(&tree_sitter_json::LANGUAGE.into()) {
        Ok(()) => parser.parse(code, None),
        Err(_) => None,
    }
}

pub struct Json;

impl LanguageSupport for Json {
    fn id(&self) -> (r: &'static str)
        ensures
            r@ == "json"@,
    {
        "json"
    }

    fn extensions(&self) -> (r: &'static [&'static str])
        ensures
            r@.len() == 1 && r@[0]@ == "json"@,
    {
        &["json"]
    }

    fn ts_language(&self) -> tree_sitter::Language {
        json_grammar()
    }

    fn graph_strategy(&self) -> (r: Option<GraphStrategy>)
        ensures
            r is None,
    {
        None
    }
}

} // verus!
