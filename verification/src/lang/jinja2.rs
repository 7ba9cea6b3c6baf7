//! Jinja2 language support. A templating language, not a call graph: it is parsed and chunked,
//! with no structural graph.

use vstd::prelude::*;

use super::{parses, GraphStrategy, LanguageSupport};

verus! {

/// `tree_sitter_jinja2::LANGUAGE` as a grammar. Nothing is claimed of the value.
#[verifier::external_body]
fn jinja2_grammar() -> tree_sitter::Language {
    tree_sitter_jinja2::LANGUAGE.into()
}

/// A fresh `tree_sitter::Parser` set to `tree_sitter_jinja2::LANGUAGE`, then `parse(code, None)`.
/// Claimed: it gives a tree exactly when [`parses`] holds of `"jinja2"` and the text (no timeout or
/// cancellation is set, so the outcome depends on the grammar and the text alone).
#[verifier::external_body]
pub(crate) fn parse_code(code: &str) -> (r: Option<tree_sitter::Tree>)
    ensures
        r is Some <==> parses("jinja2"@, code@),
{
    let mut parser = tree_sitter::Parser::new();
    match parser.set_language(&tree_sitter_jinja2::LANGUAGE.into()) {
        Ok(()) => parser.parse(code, None),
        Err(_) => None,
    }
}

pub struct Jinja2;

impl LanguageSupport for Jinja2 {
    fn id(&self) -> (r: &'static str)
        ensures
            r@ == "jinja2"@,
    {
        "jinja2"
    }

    fn extensions(&self) -> (r: &'static [&'static str])
        ensures
            r@.len() == 3 && r@[0]@ == "jinja"@ && r@[1]@ == "jinja2"@ && r@[2]@ == "j2"@,
    {
        &["jinja", "jinja2", "j2"]
    }

    fn ts_language(&self) -> tree_sitter::Language {
        jinja2_grammar()
    }

    fn graph_strategy(&self) -> (r: Option<GraphStrategy>)
        ensures
            r is None,
    {
        None
    }
}

} // verus!
