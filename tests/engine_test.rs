use sauron::html::merge_attributes;
use sauron::{
    class, diff, element, element_ns, html_element, html_element_ns, id, key, on, text, view_if,
    with_multiple_values, AttrValue, Attribute, Node, Patch, Value,
};

fn el(tag: &str, attrs: Vec<Attribute>, children: Vec<Node>) -> Node {
    html_element(tag, attrs, children)
}

fn sample() -> Node {
    el(
        "div",
        vec![id("root"), class("a"), class("b"), key(7)],
        vec![
            el("span", vec![on("click", 3)], vec![text("hello")]),
            text("plain"),
            el("ul", vec![], vec![el("li", vec![], vec![]), el("li", vec![id("x")], vec![])]),
        ],
    )
}

#[test]
fn identical_tree_yields_no_patch() {
    let t = sample();
    assert_eq!(diff(&t, &t), vec![]);
    let u = sample();
    assert_eq!(diff(&t, &u), vec![]);
}

#[test]
fn declaration_order_of_merged_attributes_is_irrelevant() {
    let old = el("div", vec![id("x"), class("a"), class("b")], vec![]);
    let new = el("div", vec![class("a"), id("x"), class("b")], vec![]);
    assert_eq!(diff(&old, &new), vec![]);
}

#[test]
fn order_within_merged_values_matters() {
    let old = el("div", vec![class("a"), class("b")], vec![]);
    let new = el("div", vec![class("b"), class("a")], vec![]);
    let div = "div".to_string();
    let expected = with_multiple_values(
        None,
        "class",
        vec![AttrValue::Simple(Value::Str("b".to_string())), AttrValue::Simple(Value::Str("a".to_string()))],
    );
    assert_eq!(diff(&old, &new), vec![Patch::AddAttributes(&div, 0, vec![&expected])]);
}

#[test]
fn indices_follow_preorder_of_old_tree() {
    let old = el(
        "div",
        vec![],
        vec![el("span", vec![], vec![text("a")]), el("b", vec![], vec![el("i", vec![], vec![])]), text("t")],
    );
    let new = el(
        "div",
        vec![],
        vec![el("span", vec![], vec![text("z")]), el("strong", vec![], vec![]), text("u")],
    );
    let b = "b".to_string();
    let z = "z".to_string();
    let u = "u".to_string();
    assert_eq!(
        diff(&old, &new),
        vec![
            Patch::ChangeText(2, &z),
            Patch::Replace(Some(&b), 3, &el("strong", vec![], vec![])),
            Patch::ChangeText(5, &u),
        ]
    );
}

#[test]
fn indices_skip_truncated_and_replaced_subtrees() {
    let old = el(
        "div",
        vec![],
        vec![el("p", vec![], vec![text("1"), text("2")]), el("q", vec![], vec![text("3")])],
    );
    let new = el("div", vec![], vec![el("h1", vec![], vec![]), el("q", vec![], vec![text("4")])]);
    let p = "p".to_string();
    let four = "4".to_string();
    assert_eq!(
        diff(&old, &new),
        vec![Patch::Replace(Some(&p), 1, &el("h1", vec![], vec![])), Patch::ChangeText(5, &four)]
    );
}

#[test]
fn different_listeners_at_same_name_yield_no_patch() {
    let old = el("input", vec![id("x"), value_attr("End Text"), on("input", 1)], vec![]);
    let new = el("input", vec![id("x"), value_attr("End Text"), on("input", 2)], vec![]);
    assert_eq!(diff(&old, &new), vec![]);
}

fn value_attr(v: &str) -> Attribute {
    sauron::value(v)
}

#[test]
fn equal_keys_still_diff_attributes() {
    let old = el("div", vec![key(1), id("a")], vec![]);
    let new = el("div", vec![key(1), id("b")], vec![]);
    let div = "div".to_string();
    let expected = id("b");
    assert_eq!(diff(&old, &new), vec![Patch::AddAttributes(&div, 0, vec![&expected])]);
}

#[test]
fn key_on_one_side_only_is_no_mismatch() {
    let old = el("div", vec![key(1)], vec![]);
    let new = el("div", vec![], vec![]);
    assert_eq!(diff(&old, &new), vec![]);
}

#[test]
fn text_to_element_is_replace_without_tag() {
    let old = text("t");
    let new = el("div", vec![], vec![]);
    assert_eq!(diff(&old, &new), vec![Patch::Replace(None, 0, &el("div", vec![], vec![]))]);
}

#[test]
fn element_to_text_is_replace_with_tag() {
    let old = el("div", vec![id("a")], vec![el("b", vec![], vec![])]);
    let new = text("t");
    let div = "div".to_string();
    assert_eq!(diff(&old, &new), vec![Patch::Replace(Some(&div), 0, &text("t"))]);
}

#[test]
fn equal_texts_yield_no_patch() {
    assert_eq!(diff(&text("same"), &text("same")), vec![]);
}

#[test]
fn add_then_remove_then_children() {
    let old = el("div", vec![id("a")], vec![el("i", vec![], vec![])]);
    let new = el("div", vec![class("c")], vec![el("i", vec![id("n")], vec![]), text("x")]);
    let div = "div".to_string();
    let i = "i".to_string();
    let (c, a, n) = (class("c"), id("a"), id("n"));
    assert_eq!(
        diff(&old, &new),
        vec![
            Patch::AddAttributes(&div, 0, vec![&c]),
            Patch::RemoveAttributes(&div, 0, vec![&a]),
            Patch::AppendChildren(&div, 0, vec![&text("x")]),
            Patch::AddAttributes(&i, 1, vec![&n]),
        ]
    );
}

#[test]
fn merging_concatenates_values_of_same_name() {
    let node = element("div", vec![class("a"), id("x"), class("b")], vec![]);
    match node {
        Node::Element { attrs, .. } => {
            assert_eq!(attrs.len(), 2);
            assert_eq!(attrs[0].name, "class");
            assert_eq!(
                attrs[0].values,
                vec![AttrValue::Simple(Value::Str("a".to_string())), AttrValue::Simple(Value::Str("b".to_string()))]
            );
            assert_eq!(attrs[1].name, "id");
        }
        Node::Text(_) => panic!("expected an element"),
    }
}

#[test]
fn merging_keeps_namespaces_apart() {
    let a = with_multiple_values(Some("xlink"), "href", vec![AttrValue::Simple(Value::Str("a".to_string()))]);
    let b = with_multiple_values(None, "href", vec![AttrValue::Simple(Value::Str("b".to_string()))]);
    let merged = merge_attributes(vec![a, b]);
    assert_eq!(merged.len(), 2);
    assert_eq!(merged[0].namespace, Some("xlink".to_string()));
    assert_eq!(merged[1].namespace, None);
}

#[test]
fn merging_nothing_gives_nothing() {
    assert_eq!(merge_attributes(vec![]), vec![]);
}

#[test]
fn view_if_picks_node_or_empty_text() {
    assert_eq!(view_if(true, el("b", vec![], vec![])), el("b", vec![], vec![]));
    assert_eq!(view_if(false, el("b", vec![], vec![])), text(""));
}

#[test]
fn namespaced_element_keeps_namespace() {
    let svg = html_element_ns("svg", "http://www.w3.org/2000/svg", vec![], vec![]);
    match svg {
        Node::Element { namespace, tag, .. } => {
            assert_eq!(namespace, Some("http://www.w3.org/2000/svg".to_string()));
            assert_eq!(tag, "svg");
        }
        Node::Text(_) => panic!("expected an element"),
    }
    let plain = element_ns(None, "g", vec![], vec![]);
    assert_eq!(plain, element("g", vec![], vec![]));
}

#[test]
fn listeners_on_both_sides_yield_no_patch_whatever_their_number() {
    let old = el("input", vec![on("input", 1)], vec![]);
    let new = el("input", vec![on("input", 2), on("input", 3)], vec![]);
    assert_eq!(diff(&old, &new), vec![]);
    assert_eq!(diff(&new, &old), vec![]);
}

#[test]
fn listener_against_simple_value_is_patched() {
    let old = el("div", vec![on("title", 1)], vec![]);
    let new = el("div", vec![sauron::str_attr("title", "t")], vec![]);
    let div = "div".to_string();
    let expected = sauron::str_attr("title", "t");
    assert_eq!(diff(&old, &new), vec![Patch::AddAttributes(&div, 0, vec![&expected])]);
}

#[test]
fn resplit_declarations_yield_no_patch() {
    let old = el("div", vec![class("a"), id("x"), class("b")], vec![]);
    let new = el("div", vec![id("x"), sauron::classes(&["a", "b"])], vec![]);
    assert_eq!(diff(&old, &new), vec![]);
}
