use lci_codegraph::graph::callee::{
    callee_of_call, callee_ref_of, impl_type_name, qualifier_from_callee_node,
    qualifier_from_parent, SyntaxNode,
};
use lci_codegraph::lang::parse;
use tree_sitter::Node;

fn find_first<'a>(node: &Node<'a>, kind: &str) -> Option<Node<'a>> {
    if node.kind() == kind {
        return Some(*node);
    }
    let mut cursor = node.walk();
    for child in node.children(&mut cursor) {
        if let Some(found) = find_first(&child, kind) {
            return Some(found);
        }
    }
    None
}

fn with_node<R>(src: &str, language: &str, kind: &str, f: impl FnOnce(&Node<'_>, &[u8]) -> R) -> R {
    let tree = parse(src, language).expect("source parses");
    let node = find_first(&tree.tree().root_node(), kind)
        .unwrap_or_else(|| panic!("no {kind:?} node in {src:?}"));
    f(&node, src.as_bytes())
}

fn leaf(kind: &str, text: &str) -> SyntaxNode {
    SyntaxNode {
        kind: kind.to_string(),
        text: Some(text.to_string()),
        function: None,
        name: None,
        path: None,
        field: None,
        ty: None,
        object: None,
    }
}

#[test]
fn bare_call_has_name_and_no_qualifier() {
    with_node("fn go() { foo(); }", "rust", "call_expression", |call, bytes| {
        let r = callee_ref_of(call, bytes).expect("bare call has a callee ref");
        assert_eq!(r.name, "foo");
        assert_eq!(r.qualifier, None);
    });
}

#[test]
fn scoped_call_captures_name_and_its_qualifier() {
    with_node("fn go() { A::new(); }", "rust", "call_expression", |call, bytes| {
        let r = callee_ref_of(call, bytes).expect("scoped call has a callee ref");
        assert_eq!(r.name, "new");
        assert_eq!(r.qualifier.as_deref(), Some("A"));
    });
}

#[test]
fn nested_scoped_call_qualifier_is_the_segment_before_the_name() {
    with_node("fn go() { a::b::foo(); }", "rust", "call_expression", |call, bytes| {
        let r = callee_ref_of(call, bytes).expect("nested scoped call has a callee ref");
        assert_eq!(r.name, "foo");
        assert_eq!(r.qualifier.as_deref(), Some("b"));
    });
}

#[test]
fn method_call_field_expression_has_no_qualifier() {
    with_node("fn go(x: X) { x.foo(); }", "rust", "call_expression", |call, bytes| {
        let r = callee_ref_of(call, bytes).expect("method call has a callee ref");
        assert_eq!(r.name, "foo");
        assert_eq!(r.qualifier, None);
    });
}

#[test]
fn chained_method_call_resolves_to_the_final_segment() {
    with_node("fn go(a: A) { a.b().c(); }", "rust", "call_expression", |call, bytes| {
        let r = callee_ref_of(call, bytes).expect("outer call has a callee ref");
        assert_eq!(r.name, "c");
        assert_eq!(r.qualifier, None);
    });
}

#[test]
fn generic_function_call_unwraps_to_the_inner_callee() {
    with_node("fn go() { foo::<T>(); }", "rust", "call_expression", |call, bytes| {
        let r = callee_ref_of(call, bytes).expect("turbofish call has a callee ref");
        assert_eq!(r.name, "foo");
        assert_eq!(r.qualifier, None);
    });
}

#[test]
fn non_call_node_yields_no_callee_ref() {
    with_node("fn go(arr: [i32; 3]) { let _ = arr[0]; }", "rust", "index_expression", |node, bytes| {
        assert!(callee_ref_of(node, bytes).is_none());
    });
}

#[test]
fn impl_type_name_for_a_plain_inherent_impl() {
    with_node("impl S { fn f() {} }", "rust", "impl_item", |node, bytes| {
        assert_eq!(impl_type_name(node, bytes).as_deref(), Some("S"));
    });
}

#[test]
fn impl_type_name_for_a_trait_impl_is_the_implementing_type_not_the_trait() {
    with_node("impl T for S { fn f() {} }", "rust", "impl_item", |node, bytes| {
        assert_eq!(impl_type_name(node, bytes).as_deref(), Some("S"));
    });
}

#[test]
fn impl_type_name_for_a_generic_impl_uses_the_head_type() {
    with_node("impl Vec<i32> { fn f() {} }", "rust", "impl_item", |node, bytes| {
        assert_eq!(impl_type_name(node, bytes).as_deref(), Some("Vec"));
    });
}

#[test]
fn js_member_expression_receiver_is_the_qualifier() {
    with_node("Foo.bar();", "javascript", "member_expression", |member, bytes| {
        let name_node = member.child_by_field_name("property").unwrap();
        assert_eq!(qualifier_from_callee_node(&name_node, bytes).as_deref(), Some("Foo"));
    });
}

#[test]
fn java_method_invocation_receiver_is_the_qualifier() {
    with_node("class C { void go() { obj.m(); } }", "java", "method_invocation", |call, bytes| {
        let name_node = call.child_by_field_name("name").unwrap();
        assert_eq!(qualifier_from_callee_node(&name_node, bytes).as_deref(), Some("obj"));
    });
}

#[test]
fn implicit_self_family_receivers_yield_no_qualifier() {
    for receiver in ["self", "cls", "this", "super"] {
        let src = format!("{receiver}.m();");
        with_node(&src, "javascript", "member_expression", |member, bytes| {
            let name_node = member.child_by_field_name("property").unwrap();
            assert_eq!(qualifier_from_callee_node(&name_node, bytes), None, "{receiver}");
        });
    }
}

#[test]
fn non_identifier_receiver_yields_no_qualifier() {
    with_node("getObj().bar();", "javascript", "member_expression", |member, bytes| {
        let name_node = member.child_by_field_name("property").unwrap();
        assert_eq!(qualifier_from_callee_node(&name_node, bytes), None);
    });
}

#[test]
fn bare_call_name_node_yields_no_qualifier() {
    with_node("foo();", "javascript", "call_expression", |call, bytes| {
        let name_node = call.child_by_field_name("function").unwrap();
        assert_eq!(qualifier_from_callee_node(&name_node, bytes), None);
    });
}

#[test]
fn model_rules_on_hand_built_nodes() {
    let mut call = leaf("call_expression", "A::new()");
    let mut scoped = leaf("scoped_identifier", "A::new");
    scoped.name = Some(Box::new(leaf("identifier", "new")));
    scoped.path = Some(Box::new(leaf("identifier", "A")));
    call.function = Some(Box::new(scoped));
    let r = callee_of_call(&call).unwrap();
    assert_eq!((r.name.as_str(), r.qualifier.as_deref()), ("new", Some("A")));

    let mut attr = leaf("attribute", "obj.m");
    attr.object = Some(Box::new(leaf("identifier", "obj")));
    assert_eq!(qualifier_from_parent(&attr).as_deref(), Some("obj"));
    attr.object = Some(Box::new(leaf("identifier", "cls")));
    assert_eq!(qualifier_from_parent(&attr), None);
}

#[test]
fn python_attribute_receiver_is_the_qualifier() {
    let mut attr = leaf("attribute", "obj.m");
    attr.object = Some(Box::new(leaf("identifier", "obj")));
    assert_eq!(qualifier_from_parent(&attr).as_deref(), Some("obj"));
}

#[test]
fn bytes_shorter_than_the_tree_do_not_panic() {
    with_node("fn go() { A::new(); }", "rust", "call_expression", |call, _| {
        let _ = callee_ref_of(call, b"fn");
        let _ = impl_type_name(call, b"");
    });
}
