//! Per-language support: each language this crate parses is one [`LanguageSupport`]
//! implementation naming its id, its file extensions, its tree-sitter grammar and how its
//! structural graph is extracted.

use vstd::prelude::*;

pub mod cstack;
pub mod java;
pub mod javascript;
pub mod jinja2;
pub mod json;
pub mod postgres;
pub mod rust;
pub mod scala;
pub mod swift;

verus! {

/// The tree-sitter grammar type.
#[verifier::external_type_specification]
#[verifier::external_body]
pub struct ExLanguage(tree_sitter::Language);

/// The parse tree type.
#[verifier::external_type_specification]
#[verifier::external_body]
pub struct ExTree(tree_sitter::Tree);

/// How a language's definitions and call references are found.
pub enum GraphStrategy {
    /// Rust keeps its own node-kind extractor.
    RustNative,
    /// The grammar's `tags.scm` query, run by [`crate::tags`].
    Tags(TagsQuery),
}

/// A tags query: the grammar it runs against and its source text.
pub struct TagsQuery {
    pub language: tree_sitter::Language,
    pub source: String,
}

/// One language this crate parses.
pub trait LanguageSupport {
    /// The language's id (`"rust"`, `"java"`, ...).
    fn id(&self) -> &'static str;

    /// The file extensions routed to this language, without the dot.
    fn extensions(&self) -> &'static [&'static str];

    /// The tree-sitter grammar.
    fn ts_language(&self) -> tree_sitter::Language;

    /// How the structural graph is extracted; `None` for a language parsed and chunked but with no
    /// graph.
    fn graph_strategy(&self) -> Option<GraphStrategy>;
}

/// The languages this crate registers.
#[derive(Clone, Copy, Debug, PartialEq, Eq, Structural)]
pub enum Registered {
    Rust,
    Java,
    JavaScript,
    Jinja2,
    Json,
    Postgres,
    Scala,
    Swift,
    Cstack,
}

/// The id of a registered language.
pub open spec fn registered_id(l: Registered) -> Seq<char> {
    match l {
        Registered::Rust => "rust"@,
        Registered::Java => "java"@,
        Registered::JavaScript => "javascript"@,
        Registered::Jinja2 => "jinja2"@,
        Registered::Json => "json"@,
        Registered::Postgres => "postgres"@,
        Registered::Scala => "scala"@,
        Registered::Swift => "swift"@,
        Registered::Cstack => "cstack"@,
    }
}

/// No two registered languages share an id.
pub proof fn lemma_registered_id_injective(a: Registered, b: Registered)
    ensures
        registered_id(a) == registered_id(b) ==> a == b,
{
    reveal_strlit("rust");
    reveal_strlit("java");
    reveal_strlit("javascript");
    reveal_strlit("jinja2");
    reveal_strlit("json");
    reveal_strlit("postgres");
    reveal_strlit("scala");
    reveal_strlit("swift");
    reveal_strlit("cstack");
    if registered_id(a) == registered_id(b) && a != b {
        let x = registered_id(a);
        let y = registered_id(b);
        assert(x.len() == y.len());
        assert(x[0] == y[0]);
        assert(x[1] == y[1]);
    }
}

/// The file extensions (without the dot) routed to a registered language, in order.
pub open spec fn registered_extensions(l: Registered) -> Seq<Seq<char>> {
    match l {
        Registered::Rust => seq!["rs"@],
        Registered::Java => seq!["java"@],
        Registered::JavaScript => seq!["js"@, "jsx"@, "mjs"@, "cjs"@],
        Registered::Jinja2 => seq!["jinja"@, "jinja2"@, "j2"@],
        Registered::Json => seq!["json"@],
        Registered::Postgres => seq!["sql"@, "pgsql"@],
        Registered::Scala => seq!["scala"@, "sc"@],
        Registered::Swift => seq!["swift"@],
        Registered::Cstack => seq!["cstack"@],
    }
}

/// Whether a parser set to the grammar of the language with id `grammar` parses `code` to a tree.
pub uninterp spec fn parses(grammar: Seq<char>, code: Seq<char>) -> bool;

/// Whether compiling the query text `source` for the grammar of the language with id `grammar`
/// succeeds (`tree_sitter::Query::new` returns `Ok`).
pub uninterp spec fn query_compiles(grammar: Seq<char>, source: Seq<char>) -> bool;

/// The tags query text a tags language runs: the grammar crate's bundled query, or, for Scala,
/// the composed one.
pub open spec fn tags_source_of(l: Registered) -> Seq<char> {
    match l {
        Registered::Java => java::BUNDLED_TAGS_QUERY@,
        Registered::JavaScript => javascript::BUNDLED_TAGS_QUERY@,
        Registered::Swift => swift::BUNDLED_TAGS_QUERY@,
        Registered::Cstack => cstack::BUNDLED_TAGS_QUERY@,
        _ => scala::composed_tags_spec(),
    }
}

/// Whether a registered language's graph comes from a `tags.scm` query.
pub open spec fn uses_tags(l: Registered) -> bool {
    l == Registered::Java || l == Registered::JavaScript || l == Registered::Scala || l
        == Registered::Swift || l == Registered::Cstack
}

/// The registered language with id `id`, if any.
pub fn by_id(id: &str) -> (r: Option<Registered>)
    ensures
        match r {
            Some(l) => registered_id(l) == id@,
            None => forall|l: Registered| registered_id(l) != id@,
        },
{
    if crate::text::str_eq(id, "rust") {
        Some(Registered::Rust)
    } else if crate::text::str_eq(id, "java") {
        Some(Registered::Java)
    } else if crate::text::str_eq(id, "javascript") {
        Some(Registered::JavaScript)
    } else if crate::text::str_eq(id, "jinja2") {
        Some(Registered::Jinja2)
    } else if crate::text::str_eq(id, "json") {
        Some(Registered::Json)
    } else if crate::text::str_eq(id, "postgres") {
        Some(Registered::Postgres)
    } else if crate::text::str_eq(id, "scala") {
        Some(Registered::Scala)
    } else if crate::text::str_eq(id, "swift") {
        Some(Registered::Swift)
    } else if crate::text::str_eq(id, "cstack") {
        Some(Registered::Cstack)
    } else {
        None
    }
}

impl LanguageSupport for Registered {
    fn id(&self) -> (r: &'static str)
        ensures
            r@ == registered_id(*self),
    {
        match self {
            Registered::Rust => rust::Rust.id(),
            Registered::Java => java::Java.id(),
            Registered::JavaScript => javascript::JavaScript.id(),
            Registered::Jinja2 => jinja2::Jinja2.id(),
            Registered::Json => json::Json.id(),
            Registered::Postgres => postgres::Postgres.id(),
            Registered::Scala => scala::Scala.id(),
            Registered::Swift => swift::Swift.id(),
            Registered::Cstack => cstack::Cstack.id(),
        }
    }

    fn extensions(&self) -> (r: &'static [&'static str])
        ensures
            r@.len() == registered_extensions(*self).len(),
            forall|i: int| 0 <= i < r@.len() ==> #[trigger] r@[i]@ == registered_extensions(*self)[i],
    {
        match self {
            Registered::Rust => rust::Rust.extensions(),
            Registered::Java => java::Java.extensions(),
            Registered::JavaScript => javascript::JavaScript.extensions(),
            Registered::Jinja2 => jinja2::Jinja2.extensions(),
            Registered::Json => json::Json.extensions(),
            Registered::Postgres => postgres::Postgres.extensions(),
            Registered::Scala => scala::Scala.extensions(),
            Registered::Swift => swift::Swift.extensions(),
            Registered::Cstack => cstack::Cstack.extensions(),
        }
    }

    fn ts_language(&self) -> tree_sitter::Language {
        match self {
            Registered::Rust => rust::Rust.ts_language(),
            Registered::Java => java::Java.ts_language(),
            Registered::JavaScript => javascript::JavaScript.ts_language(),
            Registered::Jinja2 => jinja2::Jinja2.ts_language(),
            Registered::Json => json::Json.ts_language(),
            Registered::Postgres => postgres::Postgres.ts_language(),
            Registered::Scala => scala::Scala.ts_language(),
            Registered::Swift => swift::Swift.ts_language(),
            Registered::Cstack => cstack::Cstack.ts_language(),
        }
    }

    fn graph_strategy(&self) -> (r: Option<GraphStrategy>)
        ensures
            uses_tags(*self) ==> (r matches Some(GraphStrategy::Tags(q)) && q.source@ == tags_source_of(*self)),
            *self == Registered::Rust ==> r matches Some(GraphStrategy::RustNative),
            !uses_tags(*self) && *self != Registered::Rust ==> r is None,
    {
        match self {
            Registered::Rust => rust::Rust.graph_strategy(),
            Registered::Java => java::Java.graph_strategy(),
            Registered::JavaScript => javascript::JavaScript.graph_strategy(),
            Registered::Jinja2 => jinja2::Jinja2.graph_strategy(),
            Registered::Json => json::Json.graph_strategy(),
            Registered::Postgres => postgres::Postgres.graph_strategy(),
            Registered::Scala => scala::Scala.graph_strategy(),
            Registered::Swift => swift::Swift.graph_strategy(),
            Registered::Cstack => cstack::Cstack.graph_strategy(),
        }
    }
}

/// A parse tree together with what it was parsed from: the language id of its grammar and the
/// code. Only [`parse`] makes one.
pub struct ParsedTree {
    pub(crate) tree: tree_sitter::Tree,
    pub(crate) grammar: Ghost<Seq<char>>,
    pub(crate) code: Ghost<Seq<char>>,
}

/// What a [`ParsedTree`] was parsed from.
pub struct ParsedTreeView {
    pub grammar: Seq<char>,
    pub code: Seq<char>,
}

impl View for ParsedTree {
    type V = ParsedTreeView;

    closed spec fn view(&self) -> ParsedTreeView {
        ParsedTreeView { grammar: self.grammar@, code: self.code@ }
    }
}

impl ParsedTree {
    /// The tree-sitter tree.
    pub fn tree(&self) -> &tree_sitter::Tree {
        &self.tree
    }
}

/// A compiled tags query together with what it was compiled from: the language id of its grammar
/// and the query text. Only [`compile_tags`] makes one.
pub struct CompiledTags {
    pub(crate) query: tree_sitter::Query,
    pub(crate) grammar: Ghost<Seq<char>>,
    pub(crate) source: Ghost<Seq<char>>,
}

/// What a [`CompiledTags`] was compiled from.
pub struct CompiledTagsView {
    pub grammar: Seq<char>,
    pub source: Seq<char>,
}

impl View for CompiledTags {
    type V = CompiledTagsView;

    closed spec fn view(&self) -> CompiledTagsView {
        CompiledTagsView { grammar: self.grammar@, source: self.source@ }
    }
}

/// Compile `source` as a query for the grammar of the tags language `l`.
pub fn compile_tags(l: Registered, source: &str) -> (r: Option<CompiledTags>)
    requires
        uses_tags(l),
    ensures
        r is Some <==> query_compiles(registered_id(l), source@),
        r matches Some(q) ==> q@ == (CompiledTagsView { grammar: registered_id(l), source: source@ }),
{
    let compiled = match l {
        Registered::Java => java::compile_tags(source),
        Registered::JavaScript => javascript::compile_tags(source),
        Registered::Scala => scala::compile_tags(source),
        Registered::Swift => swift::compile_tags(source),
        Registered::Cstack => cstack::compile_tags(source),
        _ => None,
    };
    match compiled {
        Some(query) => Some(CompiledTags { query, grammar: Ghost(registered_id(l)), source: Ghost(source@) }),
        None => None,
    }
}

/// Parse `code` as the registered language with id `language`; `None` for an unknown id.
pub fn parse(code: &str, language: &str) -> (r: Option<ParsedTree>)
    ensures
        (forall|l: Registered| registered_id(l) != language@) ==> r is None,
        forall|l: Registered| registered_id(l) == language@ ==> (r is Some <==> parses(language@, code@)),
        r matches Some(p) ==> p@ == (ParsedTreeView { grammar: language@, code: code@ }),
{
    let l = match by_id(language) {
        Some(l) => l,
        None => {
            return None;
        },
    };
    proof {
        assert forall|k: Registered| registered_id(k) == language@ implies k == l by {
            lemma_registered_id_injective(k, l);
        }
    }
    let tree = match l {
        Registered::Rust => rust::parse_code(code),
        Registered::Java => java::parse_code(code),
        Registered::JavaScript => javascript::parse_code(code),
        Registered::Jinja2 => jinja2::parse_code(code),
        Registered::Json => json::parse_code(code),
        Registered::Postgres => postgres::parse_code(code),
        Registered::Scala => scala::parse_code(code),
        Registered::Swift => swift::parse_code(code),
        Registered::Cstack => cstack::parse_code(code),
    };
    match tree {
        Some(tree) => Some(ParsedTree { tree, grammar: Ghost(language@), code: Ghost(code@) }),
        None => None,
    }
}

} // verus!
