//! CrateStack `.cstack` schema support. Definitions come from the grammar's bundled `tags.scm`
//! query. `.cstack` is declarative: a `procedure` is declared in the schema and implemented
//! elsewhere, so the query emits no call references and these files produce graph nodes and no
//! `calls` edges. The grammar's vocabulary maps onto the graph's: `model`/`type`/`view` to class,
//! `mixin` to interface, `enum` to enum, `procedure` to function.

use vstd::prelude::*;

use super::{parses, query_compiles, GraphStrategy, LanguageSupport, TagsQuery};

verus! {

/// `tree_sitter_cstack::LANGUAGE` as a grammar. Nothing is claimed of the value.
#[verifier::external_body]
fn cstack_grammar() -> tree_sitter::Language {
    tree_sitter_cstack::LANGUAGE.into()
}

/// The text of `tree_sitter_cstack::TAGS_QUERY`, the grammar crate's `queries/tags.scm`.
pub const BUNDLED_TAGS_QUERY: &'static str = "; Tags for `.cstack`, in the tree-sitter tags convention (`@definition.*` /
; `@reference.*` paired with a `@name`). Consumed by code-navigation and
; code-graph tools that classify symbols from the grammar rather than from a
; language-specific extractor.
;
; The mapping to the convention's vocabulary, which is Java/JS-shaped and has no
; term for \"schema declaration\":
;
;   model / type / view -> class      a named record of fields
;   mixin               -> interface  a reusable field set mixed into models
;   enum                -> enum
;   procedure           -> function
;
; **`.cstack` has no call sites.** It is a declarative schema language:
; procedures are *declared* here and implemented in Rust, and nothing in a
; schema invokes anything else in it. So this file emits no `@reference.call`,
; and a consumer building a call graph will correctly find zero call edges for
; these files — that is the language being declarative, not the query being
; incomplete. Anything reporting a 0% resolution rate rather than \"no call
; sites\" is misreporting it.

(model_declaration
  name: (identifier) @name) @definition.class

(type_declaration
  name: (identifier) @name) @definition.class

(view_declaration
  name: (identifier) @name) @definition.class

(mixin_declaration
  name: (identifier) @name) @definition.interface

(enum_declaration
  name: (identifier) @name) @definition.enum

(procedure_declaration
  name: (identifier) @name) @definition.function

; Type references — every mention of a declared name as a field type, procedure
; parameter/return type, view source or `@use(...)` target. Not call references;
; consumers that only build call graphs ignore these by design.

(type
  name: (type_identifier) @name) @reference.type

(view_declaration
  source: (identifier) @name) @reference.type

(use_directive
  mixin: (identifier) @name) @reference.type
";

/// `tree_sitter_cstack::TAGS_QUERY`, the grammar's bundled `tags.scm`. Claimed: the text is
/// [`BUNDLED_TAGS_QUERY`] (the crate includes `queries/tags.scm` verbatim).
#[verifier::external_body]
fn cstack_tags_source() -> (r: &'static str)
    ensures
        r@ == BUNDLED_TAGS_QUERY@,
{
    tree_sitter_cstack::TAGS_QUERY
}

/// `Query::new` against `tree_sitter_cstack::LANGUAGE`: compile `source` as a query for this
/// grammar. Claimed: it succeeds exactly when [`query_compiles`] holds of `"cstack"` and the text;
/// compiling a fixed text for a fixed grammar has the same outcome every time.
#[verifier::external_body]
pub(crate) fn compile_tags(source: &str) -> (r: Option<tree_sitter::Query>)
    ensures
        r is Some <==> query_compiles("cstack"@, source@),
{
    tree_sitter::Query::new(&tree_sitter_cstack::LANGUAGE.into(), source).ok()
}

/// A fresh `tree_sitter::Parser` set to `tree_sitter_cstack::LANGUAGE`, then `parse(code, None)`.
/// Claimed: it gives a tree exactly when [`parses`] holds of `"cstack"` and the text (no timeout or
/// cancellation is set, so the outcome depends on the grammar and the text alone).
#[verifier::external_body]
pub(crate) fn parse_code(code: &str) -> (r: Option<tree_sitter::Tree>)
    ensures
        r is Some <==> parses("cstack"@, code@),
{
    let mut parser = tree_sitter::Parser::new();
    match parser.set_language(&tree_sitter_cstack::LANGUAGE.into()) {
        Ok(()) => parser.parse(code, None),
        Err(_) => None,
    }
}

pub struct Cstack;

impl LanguageSupport for Cstack {
    fn id(&self) -> (r: &'static str)
        ensures
            r@ == "cstack"@,
    {
        "cstack"
    }

    fn extensions(&self) -> (r: &'static [&'static str])
        ensures
            r@.len() == 1 && r@[0]@ == "cstack"@,
    {
        &["cstack"]
    }

    fn ts_language(&self) -> tree_sitter::Language {
        cstack_grammar()
    }

    fn graph_strategy(&self) -> (r: Option<GraphStrategy>)
        ensures
            r matches Some(GraphStrategy::Tags(q)) && q.source@ == BUNDLED_TAGS_QUERY@,
    {
        Some(GraphStrategy::Tags(TagsQuery { language: cstack_grammar(), source: String::from_str(cstack_tags_source()) }))
    }
}

} // verus!
