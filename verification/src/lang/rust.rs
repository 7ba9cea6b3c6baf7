//! Rust language support. Rust keeps its own tree-sitter node-kind extractor rather than a
//! `tags.scm` query, so chunk and graph symbols stay in lock-step.

use vstd::prelude::*;

use super::{parses, GraphStrategy, LanguageSupport};

verus! {

/// `tree_sitter_rust::LANGUAGE` as a grammar. Nothing is claimed of the value.
#[verifier::external_body]
fn rust_grammar() -> tree_sitter::Language {
    tree_sitter_rust::LANGUAGE.into()
}

/// A fresh `tree_sitter::Parser` set to `tree_sitter_rust::LANGUAGE`, then `parse(code, None)`.
/// Claimed: it gives a tree exactly when [`parses`] holds of `"rust"` and the text (no timeout or
/// cancellation is set, so the outcome depends on the grammar and the text alone).
#[verifier::external_body]
pub(crate) fn parse_code(code: &str) -> (r: Option<tree_sitter::Tree>)
    ensures
        r is Some <==> parses("rust"@, code@),
{
    let mut parser = tree_sitter::Parser::new();
    match parser.set_language(&tree_sitter_rust::LANGUAGE.into()) {
        Ok(()) => parser.parse(code, None),
        Err(_) => None,
    }
}

pub struct Rust;

impl LanguageSupport for Rust {
    fn id(&self) -> (r: &'static str)
        ensures
            r@ == "rust"@,
    {
        "rust"
    }

    fn extensions(&self) -> (r: &'static [&'static str])
        ensures
            r@.len() == 1 && r@[0]@ == "rs"@,
    {
        &["rs"]
    }

    fn ts_language(&self) -> tree_sitter::Language {
        rust_grammar()
    }

    fn graph_strategy(&self) -> (r: Option<GraphStrategy>)
        ensures
            r matches Some(GraphStrategy::RustNative),
    {
        Some(GraphStrategy::RustNative)
    }
}

} // verus!
