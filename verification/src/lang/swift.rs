//! Swift language support. Definitions and call references come from the grammar's bundled
//! `tags.scm` query, run by [`crate::tags`].

use vstd::prelude::*;

use super::{parses, query_compiles, GraphStrategy, LanguageSupport, TagsQuery};

verus! {

/// `tree_sitter_swift::LANGUAGE` as a grammar. Nothing is claimed of the value.
#[verifier::external_body]
fn swift_grammar() -> tree_sitter::Language {
    tree_sitter_swift::LANGUAGE.into()
}

/// The text of `tree_sitter_swift::TAGS_QUERY`, the grammar crate's `queries/tags.scm`.
pub const BUNDLED_TAGS_QUERY: &'static str = "(class_declaration
  name: (type_identifier) @name) @definition.class

(protocol_declaration
  name: (type_identifier) @name) @definition.interface

(class_declaration
    (class_body
        [
            (function_declaration
                name: (simple_identifier) @name
            )
            (subscript_declaration
                (parameter (simple_identifier) @name)
            )
            (init_declaration \"init\" @name)
            (deinit_declaration \"deinit\" @name)
        ]
    )
) @definition.method

(protocol_declaration
    (protocol_body
        [
            (protocol_function_declaration
                name: (simple_identifier) @name
            )
            (subscript_declaration
                (parameter (simple_identifier) @name)
            )
            (init_declaration \"init\" @name)
        ]
    )
) @definition.method

(class_declaration
    (class_body
        [
            (property_declaration
                (pattern (simple_identifier) @name)
            )
        ]
    )
) @definition.property

(property_declaration
    (pattern (simple_identifier) @name)
) @definition.property

(function_declaration
    name: (simple_identifier) @name) @definition.function";

/// `tree_sitter_swift::TAGS_QUERY`, the grammar's bundled `tags.scm`. Claimed: the text is
/// [`BUNDLED_TAGS_QUERY`] (the crate includes `queries/tags.scm` verbatim).
#[verifier::external_body]
fn swift_tags_source() -> (r: &'static str)
    ensures
        r@ == BUNDLED_TAGS_QUERY@,
{
    tree_sitter_swift::TAGS_QUERY
}

/// `Query::new` against `tree_sitter_swift::LANGUAGE`: compile `source` as a query for this
/// grammar. Claimed: it succeeds exactly when [`query_compiles`] holds of `"swift"` and the text;
/// compiling a fixed text for a fixed grammar has the same outcome every time.
#[verifier::external_body]
pub(crate) fn compile_tags(source: &str) -> (r: Option<tree_sitter::Query>)
    ensures
        r is Some <==> query_compiles("swift"@, source@),
{
    tree_sitter::Query::new(&tree_sitter_swift::LANGUAGE.into(), source).ok()
}

/// A fresh `tree_sitter::Parser` set to `tree_sitter_swift::LANGUAGE`, then `parse(code, None)`.
/// Claimed: it gives a tree exactly when [`parses`] holds of `"swift"` and the text (no timeout or
/// cancellation is set, so the outcome depends on the grammar and the text alone).
#[verifier::external_body]
pub(crate) fn parse_code(code: &str) -> (r: Option<tree_sitter::Tree>)
    ensures
        r is Some <==> parses("swift"@, code@),
{
    let mut parser = tree_sitter::Parser::new();
    match parser.set_language(&tree_sitter_swift::LANGUAGE.into()) {
        Ok(()) => parser.parse(code, None),
        Err(_) => None,
    }
}

pub struct Swift;

impl LanguageSupport for Swift {
    fn id(&self) -> (r: &'static str)
        ensures
            r@ == "swift"@,
    {
        "swift"
    }

    fn extensions(&self) -> (r: &'static [&'static str])
        ensures
            r@.len() == 1 && r@[0]@ == "swift"@,
    {
        &["swift"]
    }

    fn ts_language(&self) -> tree_sitter::Language {
        swift_grammar()
    }

    fn graph_strategy(&self) -> (r: Option<GraphStrategy>)
        ensures
            r matches Some(GraphStrategy::Tags(q)) && q.source@ == BUNDLED_TAGS_QUERY@,
    {
        Some(GraphStrategy::Tags(TagsQuery { language: swift_grammar(), source: String::from_str(swift_tags_source()) }))
    }
}

} // verus!
