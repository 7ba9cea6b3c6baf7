//! PostgreSQL language support. The grammar ships no `tags.scm`, so there is no structural graph.
//! Its second grammar, for PL/pgSQL bodies, is not registered: PL/pgSQL lives dollar-quoted inside
//! `CREATE FUNCTION` statements of ordinary `.sql` files, which this grammar already parses.

use vstd::prelude::*;

use super::{parses, GraphStrategy, LanguageSupport};

verus! {

/// `tree_sitter_postgres::LANGUAGE` as a grammar. Nothing is claimed of the value.
#[verifier::external_body]
fn postgres_grammar() -> tree_sitter::Language {
    tree_sitter_postgres::LANGUAGE.into()
}

/// A fresh `tree_sitter::Parser` set to `tree_sitter_postgres::LANGUAGE`, then `parse(code, None)`.
/// Claimed: it gives a tree exactly when [`parses`] holds of `"postgres"` and the text (no timeout or
/// cancellation is set, so the outcome depends on the grammar and the text alone).
#[verifier::external_body]
pub(crate) fn parse_code(code: &str) -> (r: Option<tree_sitter::Tree>)
    ensures
        r is Some <==> parses("postgres"@, code@),
{
    let mut parser = tree_sitter::Parser::new();
    match parser.set_language(&tree_sitter_postgres::LANGUAGE.into()) {
        Ok(()) => parser.parse(code, None),
        Err(_) => None,
    }
}

pub struct Postgres;

impl LanguageSupport for Postgres {
    fn id(&self) -> (r: &'static str)
        ensures
            r@ == "postgres"@,
    {
        "postgres"
    }

    fn extensions(&self) -> (r: &'static [&'static str])
        ensures
            r@.len() == 2 && r@[0]@ == "sql"@ && r@[1]@ == "pgsql"@,
    {
        &["sql", "pgsql"]
    }

    fn ts_language(&self) -> tree_sitter::Language {
        postgres_grammar()
    }

    fn graph_strategy(&self) -> (r: Option<GraphStrategy>)
        ensures
            r is None,
    {
        None
    }
}

} // verus!
