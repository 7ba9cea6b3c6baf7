//! Java language support. Definitions and call references come from the grammar's bundled
//! `tags.scm` query, run by [`crate::tags`].

use vstd::prelude::*;

use super::{parses, query_compiles, GraphStrategy, LanguageSupport, TagsQuery};

verus! {

/// `tree_sitter_java::LANGUAGE` as a grammar. Nothing is claimed of the value.
#[verifier::external_body]
fn java_grammar() -> tree_sitter::Language {
    tree_sitter_java::LANGUAGE.into()
}

/// The text of `tree_sitter_java::TAGS_QUERY`, the grammar crate's `queries/tags.scm`.
pub const BUNDLED_TAGS_QUERY: &'static str = "(class_declaration
  name: (identifier) @name) @definition.class

(method_declaration
  name: (identifier) @name) @definition.method

(method_invocation
  name: (identifier) @name
  arguments: (argument_list) @reference.call)

(interface_declaration
  name: (identifier) @name) @definition.interface

(type_list
  (type_identifier) @name) @reference.implementation

(object_creation_expression
  type: (type_identifier) @name) @reference.class

(superclass (type_identifier) @name) @reference.class
";

/// `tree_sitter_java::TAGS_QUERY`, the grammar's bundled `tags.scm`. Claimed: the text is
/// [`BUNDLED_TAGS_QUERY`] (the crate includes `queries/tags.scm` verbatim).
#[verifier::external_body]
fn java_tags_source() -> (r: &'static str)
    ensures
        r@ == BUNDLED_TAGS_QUERY@,
{
    tree_sitter_java::TAGS_QUERY
}

/// `Query::new` against `tree_sitter_java::LANGUAGE`: compile `source` as a query for this
/// grammar. Claimed: it succeeds exactly when [`query_compiles`] holds of `"java"` and the text;
/// compiling a fixed text for a fixed grammar has the same outcome every time.
#[verifier::external_body]
pub(crate) fn compile_tags(source: &str) -> (r: Option<tree_sitter::Query>)
    ensures
        r is Some <==> query_compiles("java"@, source@),
{
    tree_sitter::Query::new(&tree_sitter_java::LANGUAGE.into(), source).ok()
}

/// A fresh `tree_sitter::Parser` set to `tree_sitter_java::LANGUAGE`, then `parse(code, None)`.
/// Claimed: it gives a tree exactly when [`parses`] holds of `"java"` and the text (no timeout or
/// cancellation is set, so the outcome depends on the grammar and the text alone).
#[verifier::external_body]
pub(crate) fn parse_code(code: &str) -> (r: Option<tree_sitter::Tree>)
    ensures
        r is Some <==> parses("java"@, code@),
{
    let mut parser = tree_sitter::Parser::new();
    match parser.set_language(&tree_sitter_java::LANGUAGE.into()) {
        Ok(()) => parser.parse(code, None),
        Err(_) => None,
    }
}

pub struct Java;

impl LanguageSupport for Java {
    fn id(&self) -> (r: &'static str)
        ensures
            r@ == "java"@,
    {
        "java"
    }

    fn extensions(&self) -> (r: &'static [&'static str])
        ensures
            r@.len() == 1 && r@[0]@ == "java"@,
    {
        &["java"]
    }

    fn ts_language(&self) -> tree_sitter::Language {
        java_grammar()
    }

    fn graph_strategy(&self) -> (r: Option<GraphStrategy>)
        ensures
            r matches Some(GraphStrategy::Tags(q)) && q.source@ == BUNDLED_TAGS_QUERY@,
    {
        Some(GraphStrategy::Tags(TagsQuery { language: java_grammar(), source: String::from_str(java_tags_source()) }))
    }
}

} // verus!
