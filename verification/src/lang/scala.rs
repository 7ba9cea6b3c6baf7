//! Scala language support. `tree-sitter-scala` ships a `tags.scm` in its repository but does not
//! export it, so its text is kept here as [`TAGS_QUERY`], composed with a local supplement for
//! qualified calls. Scala's singleton `object` has no bucket of its own in the graph's vocabulary;
//! [`crate::tags`] folds it into `"class"`.

use vstd::prelude::*;

use super::{parses, query_compiles, GraphStrategy, LanguageSupport, TagsQuery};

verus! {

/// The `tags.scm` query of the `tree-sitter-scala` grammar.
pub const TAGS_QUERY: &'static str = "; Definitions

(package_clause
  name: (package_identifier) @name) @definition.module

(trait_definition
  name: (identifier) @name) @definition.interface

(enum_definition
  name: (identifier) @name) @definition.enum

(simple_enum_case
  name: (identifier) @name) @definition.class

(full_enum_case
  name: (identifier) @name) @definition.class

(class_definition
  name: (identifier) @name) @definition.class

(object_definition
  name: (identifier) @name) @definition.object

(function_definition
  name: (identifier) @name) @definition.function

(val_definition
  pattern: (identifier) @name) @definition.variable

(given_definition
  name: (identifier) @name) @definition.variable

(var_definition
  pattern: (identifier) @name) @definition.variable

(val_declaration
  name: (identifier) @name) @definition.variable

(var_declaration
  name: (identifier) @name) @definition.variable

(type_definition
  name: (type_identifier) @name) @definition.type

(class_parameter
  name: (identifier) @name) @definition.property

; References

(call_expression
  (identifier) @name) @reference.call

(instance_expression
  (type_identifier) @name) @reference.interface

(instance_expression
  (generic_type
    (type_identifier) @name)) @reference.interface

(extends_clause
  (type_identifier) @name) @reference.class

(extends_clause
  (generic_type
    (type_identifier) @name)) @reference.class
";

/// A supplement to [`TAGS_QUERY`], which has a pattern for a bare call (`helper()`) only: a
/// qualified or member call (`Foo.helper()`, `x.foo()`) names its callee in the `field` of the
/// called `field_expression`.
pub const TAGS_QUERY_SUPPLEMENT: &'static str = "; Qualified and member calls

(call_expression
  function: (field_expression
    field: (identifier) @name)) @reference.call
";

/// The grammar's query followed by the supplement, as one query source.
pub open spec fn composed_tags_spec() -> Seq<char> {
    TAGS_QUERY@ + "\n"@ + TAGS_QUERY_SUPPLEMENT@
}

/// The grammar's query and the supplement, composed into one source.
pub fn composed_tags_source() -> (s: String)
    ensures
        s@ == composed_tags_spec(),
{
    let mut s = String::from_str(TAGS_QUERY);
    s.append("\n");
    s.append(TAGS_QUERY_SUPPLEMENT);
    s
}

/// `tree_sitter_scala::LANGUAGE` as a grammar. Nothing is claimed of the value.
#[verifier::external_body]
fn scala_grammar() -> tree_sitter::Language {
    tree_sitter_scala::LANGUAGE.into()
}

/// `Query::new` against `tree_sitter_scala::LANGUAGE`: compile `source` as a query for this
/// grammar. Claimed: it succeeds exactly when [`query_compiles`] holds of `"scala"` and the text;
/// compiling a fixed text for a fixed grammar has the same outcome every time.
#[verifier::external_body]
pub(crate) fn compile_tags(source: &str) -> (r: Option<tree_sitter::Query>)
    ensures
        r is Some <==> query_compiles("scala"@, source@),
{
    tree_sitter::Query::new(&tree_sitter_scala::LANGUAGE.into(), source).ok()
}

/// A fresh `tree_sitter::Parser` set to `tree_sitter_scala::LANGUAGE`, then `parse(code, None)`.
/// Claimed: it gives a tree exactly when [`parses`] holds of `"scala"` and the text (no timeout or
/// cancellation is set, so the outcome depends on the grammar and the text alone).
#[verifier::external_body]
pub(crate) fn parse_code(code: &str) -> (r: Option<tree_sitter::Tree>)
    ensures
        r is Some <==> parses("scala"@, code@),
{
    let mut parser = tree_sitter::Parser::new();
    match parser.set_language(&tree_sitter_scala::LANGUAGE.into()) {
        Ok(()) => parser.parse(code, None),
        Err(_) => None,
    }
}

pub struct Scala;

impl LanguageSupport for Scala {
    fn id(&self) -> (r: &'static str)
        ensures
            r@ == "scala"@,
    {
        "scala"
    }

    fn extensions(&self) -> (r: &'static [&'static str])
        ensures
            r@.len() == 2 && r@[0]@ == "scala"@ && r@[1]@ == "sc"@,
    {
        &["scala", "sc"]
    }

    fn ts_language(&self) -> tree_sitter::Language {
        scala_grammar()
    }

    fn graph_strategy(&self) -> (r: Option<GraphStrategy>)
        ensures
            r matches Some(GraphStrategy::Tags(q)) && q.source@ == composed_tags_spec(),
    {
        Some(GraphStrategy::Tags(TagsQuery { language: scala_grammar(), source: composed_tags_source() }))
    }
}

} // verus!
