//! Callee-reference extraction: given a syntax node identified as a call site, recover its bare
//! callee name plus, when the call is qualified by a receiver or path (`A::new`, `Foo.bar`), the
//! qualifier used only to break ties in [`super::resolve::pick`]. Two sources feed the same
//! [`CalleeRef`] shape: the Rust `call_expression` navigation ([`callee_ref_of`]), and the
//! tags-captured callee name node of every other language ([`qualifier_from_parent`]: tags say
//! *that* a node is a callee but drop the qualifier, so it is recovered from the node's parent).
//!
//! The navigation reads a [`SyntaxNode`]: a node's kind, its text, and the named-field children the
//! rules look at, taken from a tree-sitter node by [`syntax_of`].

use vstd::prelude::*;

use crate::text::str_eq;

verus! {

/// The syntax node type of a parse tree.
#[verifier::external_type_specification]
#[verifier::external_body]
pub struct ExNode<'a>(tree_sitter::Node<'a>);

/// A syntax node as the callee rules read it: its kind, its source text (`None` when not UTF-8),
/// and its children under the fields `function`, `name`, `path`, `field`, `type` and `object`.
pub struct SyntaxNode {
    pub kind: String,
    pub text: Option<String>,
    pub function: Option<Box<SyntaxNode>>,
    pub name: Option<Box<SyntaxNode>>,
    pub path: Option<Box<SyntaxNode>>,
    pub field: Option<Box<SyntaxNode>>,
    pub ty: Option<Box<SyntaxNode>>,
    pub object: Option<Box<SyntaxNode>>,
}

/// A callee: its bare name and, for a qualified path, the qualifier segment.
pub struct CalleeRef {
    pub name: String,
    pub qualifier: Option<String>,
}

/// The text of a node, when it has one.
pub open spec fn text_of(n: SyntaxNode) -> Option<Seq<char>> {
    crate::graph::opt_view(n.text)
}

/// The text of an optional child.
pub open spec fn child_text(c: Option<Box<SyntaxNode>>) -> Option<Seq<char>> {
    match c {
        Some(b) => text_of(*b),
        None => None,
    }
}

/// The last segment of a path: `A` in `A`, `b` in `a::b`.
pub open spec fn path_tail_spec(p: SyntaxNode) -> Option<Seq<char>> {
    if p.kind@ == "scoped_identifier"@ {
        child_text(p.name)
    } else {
        text_of(p)
    }
}

/// The callee a callable expression names: an identifier is its own name; `a::b::foo` is `foo`
/// qualified by `b`; `x.foo` is `foo` with no qualifier (the receiver's type is not known);
/// `foo::<T>` is what its `function` names; anything else names no callee.
pub open spec fn callee_ref_spec(n: SyntaxNode) -> Option<(Seq<char>, Option<Seq<char>>)>
    decreases n,
{
    let k = n.kind@;
    if k == "identifier"@ || k == "field_identifier"@ || k == "type_identifier"@ {
        match text_of(n) {
            Some(t) => Some((t, None)),
            None => None,
        }
    } else if k == "scoped_identifier"@ {
        match child_text(n.name) {
            Some(name) => Some(
                (
                    name,
                    match n.path {
                        Some(p) => path_tail_spec(*p),
                        None => None,
                    },
                ),
            ),
            None => None,
        }
    } else if k == "field_expression"@ {
        match n.field {
            Some(f) => callee_ref_spec(*f),
            None => None,
        }
    } else if k == "generic_function"@ {
        match n.function {
            Some(f) => callee_ref_spec(*f),
            None => None,
        }
    } else {
        None
    }
}

/// The view of an optional callee.
pub open spec fn callee_view(r: Option<CalleeRef>) -> Option<(Seq<char>, Option<Seq<char>>)> {
    match r {
        Some(c) => Some((c.name@, crate::graph::opt_view(c.qualifier))),
        None => None,
    }
}

fn child_text_of(c: &Option<Box<SyntaxNode>>) -> (r: Option<String>)
    ensures
        crate::graph::opt_view(r) == child_text(*c),
{
    match c {
        Some(b) => crate::graph::copy_opt(&b.text),
        None => None,
    }
}

/// The last segment of a path node (see [`path_tail_spec`]).
fn path_tail(p: &SyntaxNode) -> (r: Option<String>)
    ensures
        crate::graph::opt_view(r) == path_tail_spec(*p),
{
    if str_eq(p.kind.as_str(), "scoped_identifier") {
        child_text_of(&p.name)
    } else {
        crate::graph::copy_opt(&p.text)
    }
}

/// The callee a callable expression names (see [`callee_ref_spec`]).
pub fn callee_ref(n: &SyntaxNode) -> (r: Option<CalleeRef>)
    ensures
        callee_view(r) == callee_ref_spec(*n),
    decreases n,
{
    let k = n.kind.as_str();
    if str_eq(k, "identifier") || str_eq(k, "field_identifier") || str_eq(k, "type_identifier") {
        match crate::graph::copy_opt(&n.text) {
            Some(t) => Some(CalleeRef { name: t, qualifier: None }),
            None => None,
        }
    } else if str_eq(k, "scoped_identifier") {
        match child_text_of(&n.name) {
            Some(name) => {
                let qualifier = match &n.path {
                    Some(p) => path_tail(p),
                    None => None,
                };
                Some(CalleeRef { name, qualifier })
            },
            None => None,
        }
    } else if str_eq(k, "field_expression") {
        match &n.field {
            Some(f) => callee_ref(f),
            None => None,
        }
    } else if str_eq(k, "generic_function") {
        match &n.function {
            Some(f) => callee_ref(f),
            None => None,
        }
    } else {
        None
    }
}

/// The callee of a Rust `call_expression`: what its `function` field names.
pub open spec fn callee_ref_of_spec(call: SyntaxNode) -> Option<(Seq<char>, Option<Seq<char>>)> {
    match call.function {
        Some(f) => callee_ref_spec(*f),
        None => None,
    }
}

/// The callee of a Rust `call_expression` read as a [`SyntaxNode`] (see [`callee_ref_of_spec`]).
pub fn callee_of_call(call: &SyntaxNode) -> (r: Option<CalleeRef>)
    ensures
        callee_view(r) == callee_ref_of_spec(*call),
{
    match &call.function {
        Some(f) => callee_ref(f),
        None => None,
    }
}

/// The head name of a type: `S`, `Vec` of `Vec<T>`, `C` of `a::C`.
pub open spec fn type_head_spec(n: SyntaxNode) -> Option<Seq<char>>
    decreases n,
{
    let k = n.kind@;
    if k == "type_identifier"@ {
        text_of(n)
    } else if k == "generic_type"@ {
        match n.ty {
            Some(t) => type_head_spec(*t),
            None => None,
        }
    } else if k == "scoped_type_identifier"@ {
        child_text(n.name)
    } else {
        None
    }
}

fn type_head_name(n: &SyntaxNode) -> (r: Option<String>)
    ensures
        crate::graph::opt_view(r) == type_head_spec(*n),
    decreases n,
{
    let k = n.kind.as_str();
    if str_eq(k, "type_identifier") {
        crate::graph::copy_opt(&n.text)
    } else if str_eq(k, "generic_type") {
        match &n.ty {
            Some(t) => type_head_name(t),
            None => None,
        }
    } else if str_eq(k, "scoped_type_identifier") {
        child_text_of(&n.name)
    } else {
        None
    }
}

/// The implementing type of an `impl_item` read as a [`SyntaxNode`]: the head of its `type`.
pub fn impl_type_of(node: &SyntaxNode) -> (r: Option<String>)
    ensures
        crate::graph::opt_view(r) == match node.ty {
            Some(t) => type_head_spec(*t),
            None => None,
        },
{
    match &node.ty {
        Some(t) => type_head_name(t),
        None => None,
    }
}

/// A receiver as a qualifier: only a plain identifier that could name a type; the implicit
/// receivers `self`, `cls`, `this` and `super` carry no type and give none.
pub open spec fn receiver_qualifier_spec(object: SyntaxNode) -> Option<Seq<char>> {
    if object.kind@ != "identifier"@ {
        None
    } else {
        match text_of(object) {
            Some(t) => if t == "self"@ || t == "cls"@ || t == "this"@ || t == "super"@ {
                None
            } else {
                Some(t)
            },
            None => None,
        }
    }
}

fn receiver_qualifier(object: &SyntaxNode) -> (r: Option<String>)
    ensures
        crate::graph::opt_view(r) == receiver_qualifier_spec(*object),
{
    if !str_eq(object.kind.as_str(), "identifier") {
        return None;
    }
    match &object.text {
        Some(t) => {
            let s = t.as_str();
            if str_eq(s, "self") || str_eq(s, "cls") || str_eq(s, "this") || str_eq(s, "super") {
                None
            } else {
                Some(t.clone())
            }
        },
        None => None,
    }
}

/// The qualifier of a tags-captured callee name node, from its parent: the receiver when the name
/// is the property of a member access (JS/TS `member_expression`, Python `attribute`, Java
/// `method_invocation`); nothing for a bare call.
pub open spec fn qualifier_from_parent_spec(parent: SyntaxNode) -> Option<Seq<char>> {
    let k = parent.kind@;
    if k == "member_expression"@ || k == "attribute"@ || k == "method_invocation"@ {
        match parent.object {
            Some(o) => receiver_qualifier_spec(*o),
            None => None,
        }
    } else {
        None
    }
}

/// Whether `k` is the kind of a member access whose `object` field is the receiver.
pub open spec fn is_member_access(k: Seq<char>) -> bool {
    k == "member_expression"@ || k == "attribute"@ || k == "method_invocation"@
}

/// The receiver rule: when a callee name's parent is a member access (`member_expression`,
/// `attribute`, `method_invocation`) whose object is a plain identifier other than `self`, `cls`,
/// `this` and `super`, the qualifier is exactly that identifier's text, whatever its case; an
/// implicit receiver, a receiver that is not an identifier, and any other parent give none.
pub proof fn lemma_receiver_is_the_qualifier(parent: SyntaxNode)
    ensures
        is_member_access(parent.kind@) && parent.object is Some && (*parent.object->0).kind@ == "identifier"@
            && (*parent.object->0).text is Some ==> ({
            let t = (*parent.object->0).text->0@;
            qualifier_from_parent_spec(parent) == if t == "self"@ || t == "cls"@ || t == "this"@ || t
                == "super"@ {
                None::<Seq<char>>
            } else {
                Some(t)
            }
        }),
        !is_member_access(parent.kind@) ==> qualifier_from_parent_spec(parent) is None,
        parent.object is Some && (*parent.object->0).kind@ != "identifier"@ ==> qualifier_from_parent_spec(
            parent,
        ) is None,
{
}

/// The qualifier of a callee name node whose parent is `parent` (see
/// [`qualifier_from_parent_spec`]).
pub fn qualifier_from_parent(parent: &SyntaxNode) -> (r: Option<String>)
    ensures
        crate::graph::opt_view(r) == qualifier_from_parent_spec(*parent),
{
    let k = parent.kind.as_str();
    if str_eq(k, "member_expression") || str_eq(k, "attribute") || str_eq(k, "method_invocation") {
        match &parent.object {
            Some(o) => receiver_qualifier(o),
            None => None,
        }
    } else {
        None
    }
}

/// A tree-sitter node as a [`SyntaxNode`]: its `kind()`, its text (the UTF-8 decoding of its byte
/// range of `bytes`, `None` where that range is not valid UTF-8 or lies outside `bytes`), and, converted the same way, its `child_by_field_name` children under the
/// six fields the rules read. Nothing is claimed of the result.
#[verifier::external_body]
fn syntax_of(node: &tree_sitter::Node, bytes: &[u8]) -> SyntaxNode {
    let field = |f: &str| node.child_by_field_name(f).map(|c| Box::new(syntax_of(&c, bytes)));
    SyntaxNode {
        kind: node.kind().to_string(),
        text: bytes.get(node.byte_range()).and_then(|b| std::str::from_utf8(b).ok()).map(str::to_string),
        function: field("function"),
        name: field("name"),
        path: field("path"),
        field: field("field"),
        ty: field("type"),
        object: field("object"),
    }
}

/// `node.parent()`, as a [`SyntaxNode`] (see [`syntax_of`]). Nothing is claimed of the result.
#[verifier::external_body]
fn parent_syntax(node: &tree_sitter::Node, bytes: &[u8]) -> Option<SyntaxNode> {
    node.parent().map(|p| syntax_of(&p, bytes))
}

/// The callee of a Rust `call_expression` node: `A::new()` is `new` qualified by `A`;
/// `a::b::foo()` is `foo` qualified by `b`; `foo()` and `x.foo()` have no qualifier.
pub fn callee_ref_of(call: &tree_sitter::Node, bytes: &[u8]) -> (r: Option<CalleeRef>)
    ensures
        exists|s: SyntaxNode| callee_view(r) == callee_ref_of_spec(s),
{
    let s = syntax_of(call, bytes);
    callee_of_call(&s)
}

/// The implementing type of an `impl_item` node (`impl S`, `impl T for S`, `impl Vec<T>` give `S`,
/// `S`, `Vec`), which scopes the methods it contains.
pub fn impl_type_name(node: &tree_sitter::Node, bytes: &[u8]) -> (r: Option<String>)
    ensures
        exists|s: SyntaxNode|
            crate::graph::opt_view(r) == match s.ty {
                Some(t) => type_head_spec(*t),
                None => None,
            },
{
    let s = syntax_of(node, bytes);
    impl_type_of(&s)
}

/// The qualifier of a tags-captured callee name node: its receiver, when the name is the property
/// of a member access; nothing for a bare call or an implicit-`self` receiver.
pub fn qualifier_from_callee_node(name_node: &tree_sitter::Node, bytes: &[u8]) -> (r: Option<String>)
    ensures
        r is Some ==> exists|p: SyntaxNode| crate::graph::opt_view(r) == qualifier_from_parent_spec(p),
{
    match parent_syntax(name_node, bytes) {
        Some(p) => qualifier_from_parent(&p),
        None => None,
    }
}

} // verus!
