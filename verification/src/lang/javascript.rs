//! JavaScript language support (`.js`/`.jsx`/`.mjs`/`.cjs`); the JavaScript grammar already
//! parses JSX. Definitions and call references come from the grammar's bundled `tags.scm` query,
//! run by [`crate::tags`].

use vstd::prelude::*;

use super::{parses, query_compiles, GraphStrategy, LanguageSupport, TagsQuery};

verus! {

/// `tree_sitter_javascript::LANGUAGE` as a grammar. Nothing is claimed of the value.
#[verifier::external_body]
fn javascript_grammar() -> tree_sitter::Language {
    tree_sitter_javascript::LANGUAGE.into()
}

/// The text of `tree_sitter_javascript::TAGS_QUERY`, the grammar crate's `queries/tags.scm`.
pub const BUNDLED_TAGS_QUERY: &'static str = "(
  (comment)* @doc
  .
  (method_definition
    name: (property_identifier) @name) @definition.method
  (#not-eq? @name \"constructor\")
  (#strip! @doc \"^[\\\\s\\\\*/]+|^[\\\\s\\\\*/]$\")
  (#select-adjacent! @doc @definition.method)
)

(
  (comment)* @doc
  .
  [
    (class
      name: (_) @name)
    (class_declaration
      name: (_) @name)
  ] @definition.class
  (#strip! @doc \"^[\\\\s\\\\*/]+|^[\\\\s\\\\*/]$\")
  (#select-adjacent! @doc @definition.class)
)

(
  (comment)* @doc
  .
  [
    (function_expression
      name: (identifier) @name)
    (function_declaration
      name: (identifier) @name)
    (generator_function
      name: (identifier) @name)
    (generator_function_declaration
      name: (identifier) @name)
  ] @definition.function
  (#strip! @doc \"^[\\\\s\\\\*/]+|^[\\\\s\\\\*/]$\")
  (#select-adjacent! @doc @definition.function)
)

(
  (comment)* @doc
  .
  (lexical_declaration
    (variable_declarator
      name: (identifier) @name
      value: [(arrow_function) (function_expression)]) @definition.function)
  (#strip! @doc \"^[\\\\s\\\\*/]+|^[\\\\s\\\\*/]$\")
  (#select-adjacent! @doc @definition.function)
)

(
  (comment)* @doc
  .
  (variable_declaration
    (variable_declarator
      name: (identifier) @name
      value: [(arrow_function) (function_expression)]) @definition.function)
  (#strip! @doc \"^[\\\\s\\\\*/]+|^[\\\\s\\\\*/]$\")
  (#select-adjacent! @doc @definition.function)
)

(assignment_expression
  left: [
    (identifier) @name
    (member_expression
      property: (property_identifier) @name)
  ]
  right: [(arrow_function) (function_expression)]
) @definition.function

(pair
  key: (property_identifier) @name
  value: [(arrow_function) (function_expression)]) @definition.function

(
  (call_expression
    function: (identifier) @name) @reference.call
  (#not-match? @name \"^(require)$\")
)

(call_expression
  function: (member_expression
    property: (property_identifier) @name)
  arguments: (_) @reference.call)

(new_expression
  constructor: (_) @name) @reference.class

(export_statement value: (assignment_expression left: (identifier) @name right: ([
 (number)
 (string)
 (identifier)
 (undefined)
 (null)
 (new_expression)
 (binary_expression)
 (call_expression)
]))) @definition.constant
";

/// `tree_sitter_javascript::TAGS_QUERY`, the grammar's bundled `tags.scm`. Claimed: the text is
/// [`BUNDLED_TAGS_QUERY`] (the crate includes `queries/tags.scm` verbatim).
#[verifier::external_body]
fn javascript_tags_source() -> (r: &'static str)
    ensures
        r@ == BUNDLED_TAGS_QUERY@,
{
    tree_sitter_javascript::TAGS_QUERY
}

/// `Query::new` against `tree_sitter_javascript::LANGUAGE`: compile `source` as a query for this
/// grammar. Claimed: it succeeds exactly when [`query_compiles`] holds of `"javascript"` and the text;
/// compiling a fixed text for a fixed grammar has the same outcome every time.
#[verifier::external_body]
pub(crate) fn compile_tags(source: &str) -> (r: Option<tree_sitter::Query>)
    ensures
        r is Some <==> query_compiles("javascript"@, source@),
{
    tree_sitter::Query::new(&tree_sitter_javascript::LANGUAGE.into(), source).ok()
}

/// A fresh `tree_sitter::Parser` set to `tree_sitter_javascript::LANGUAGE`, then `parse(code, None)`.
/// Claimed: it gives a tree exactly when [`parses`] holds of `"javascript"` and the text (no timeout or
/// cancellation is set, so the outcome depends on the grammar and the text alone).
#[verifier::external_body]
pub(crate) fn parse_code(code: &str) -> (r: Option<tree_sitter::Tree>)
    ensures
        r is Some <==> parses("javascript"@, code@),
{
    let mut parser = tree_sitter::Parser::new();
    match parser.set_language(&tree_sitter_javascript::LANGUAGE.into()) {
        Ok(()) => parser.parse(code, None),
        Err(_) => None,
    }
}

pub struct JavaScript;

impl LanguageSupport for JavaScript {
    fn id(&self) -> (r: &'static str)
        ensures
            r@ == "javascript"@,
    {
        "javascript"
    }

    fn extensions(&self) -> (r: &'static [&'static str])
        ensures
            r@.len() == 4 && r@[0]@ == "js"@ && r@[1]@ == "jsx"@ && r@[2]@ == "mjs"@ && r@[3]@ == "cjs"@,
    {
        &["js", "jsx", "mjs", "cjs"]
    }

    fn ts_language(&self) -> tree_sitter::Language {
        javascript_grammar()
    }

    fn graph_strategy(&self) -> (r: Option<GraphStrategy>)
        ensures
            r matches Some(GraphStrategy::Tags(q)) && q.source@ == BUNDLED_TAGS_QUERY@,
    {
        Some(GraphStrategy::Tags(TagsQuery { language: javascript_grammar(), source: String::from_str(javascript_tags_source()) }))
    }
}

} // verus!
