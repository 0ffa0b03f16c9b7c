use sauron::{
    class, classes, diff, html_element, id, key, on, style, styles, text, value, with_multiple_values,
    AttrValue, Attribute, Node, Patch, Value,
};

fn el(tag: &str, attrs: Vec<Attribute>, children: Vec<Node>) -> Node {
    html_element(tag, attrs, children)
}

fn tag(t: &str) -> String {
    t.to_string()
}

fn str_value(s: &str) -> AttrValue {
    AttrValue::Simple(Value::Str(s.to_string()))
}

#[test]
fn event_remove() {
    let elem_id = "input-remove-event-test";
    let old = el("input", vec![id(elem_id), value("End Text"), on("input", 1)], vec![]);
    let new = el("input", vec![id(elem_id), value("End Text")], vec![]);
    let input = tag("input");
    let listener = on("input", 2);
    assert_eq!(diff(&old, &new), vec![Patch::RemoveAttributes(&input, 0, vec![&listener])]);
}

#[test]
fn change_class_attribute() {
    let old = el("div", vec![classes(&["class1", "class2"])], vec![]);
    let new = el("div", vec![classes(&["class1", "difference_class"])], vec![]);
    let div = tag("div");
    let expected = with_multiple_values(None, "class", vec![str_value("class1"), str_value("difference_class")]);
    assert_eq!(
        diff(&old, &new),
        vec![Patch::AddAttributes(&div, 0, vec![&expected])],
        "Should add the new attributes"
    );
}

fn seven_classes() -> Node {
    el(
        "div",
        vec![],
        vec![
            el("div", vec![class("class1")], vec![]),
            el("div", vec![class("class2")], vec![]),
            el("div", vec![class("class3")], vec![]),
            el("div", vec![class("class4")], vec![]),
            el("div", vec![class("class5")], vec![]),
            el("div", vec![class("class6")], vec![]),
            el("div", vec![class("class7")], vec![]),
        ],
    )
}

#[test]
fn truncate_children() {
    let old = seven_classes();
    let new = el(
        "div",
        vec![],
        vec![
            el("div", vec![class("class1")], vec![]),
            el("div", vec![class("class2")], vec![]),
            el("div", vec![class("class3")], vec![]),
        ],
    );
    let div = tag("div");
    assert_eq!(diff(&old, &new), vec![Patch::TruncateChildren(&div, 0, 3)], "Should truncate children");
}

#[test]
fn truncate_children_different_attributes() {
    let old = seven_classes();
    let new = el(
        "div",
        vec![],
        vec![
            el("div", vec![class("class5")], vec![]),
            el("div", vec![class("class6")], vec![]),
            el("div", vec![class("class7")], vec![]),
        ],
    );
    let div = tag("div");
    let (c5, c6, c7) = (class("class5"), class("class6"), class("class7"));
    assert_eq!(
        diff(&old, &new),
        vec![
            Patch::TruncateChildren(&div, 0, 3),
            Patch::AddAttributes(&div, 1, vec![&c5]),
            Patch::AddAttributes(&div, 2, vec![&c6]),
            Patch::AddAttributes(&div, 3, vec![&c7]),
        ],
        "Should truncate children"
    );
}

#[test]
fn replace_node() {
    let old = el("div", vec![], vec![]);
    let new = el("span", vec![], vec![]);
    let div = tag("div");
    assert_eq!(
        diff(&old, &new),
        vec![Patch::Replace(Some(&div), 0, &el("span", vec![], vec![]))],
        "Replace the root if the tag changed"
    );

    let old = el("div", vec![], vec![el("b", vec![], vec![])]);
    let new = el("div", vec![], vec![el("strong", vec![], vec![])]);
    let b = tag("b");
    assert_eq!(
        diff(&old, &new),
        vec![Patch::Replace(Some(&b), 1, &el("strong", vec![], vec![]))],
        "Replace a child node"
    );

    let old = el("div", vec![], vec![el("b", vec![], vec![text("1")]), el("b", vec![], vec![])]);
    let new = el("div", vec![], vec![el("i", vec![], vec![text("1")]), el("i", vec![], vec![])]);
    assert_eq!(
        diff(&old, &new),
        vec![
            Patch::Replace(Some(&b), 1, &el("i", vec![], vec![text("1")])),
            Patch::Replace(Some(&b), 3, &el("i", vec![], vec![])),
        ],
        "Replace node with a child",
    )
}

#[test]
fn add_children() {
    let old = el("div", vec![], vec![el("b", vec![], vec![])]);
    let new = el("div", vec![], vec![el("b", vec![], vec![]), html_element("new", vec![], vec![])]);
    let div = tag("div");
    assert_eq!(
        diff(&old, &new),
        vec![Patch::AppendChildren(&div, 0, vec![&html_element("new", vec![], vec![])])],
        "Added a new node to the root node",
    )
}

#[test]
fn remove_nodes() {
    let old = el("div", vec![], vec![el("b", vec![], vec![]), el("span", vec![], vec![])]);
    let new = el("div", vec![], vec![]);
    let div = tag("div");
    assert_eq!(
        diff(&old, &new),
        vec![Patch::TruncateChildren(&div, 0, 0)],
        "Remove all child nodes at and after child sibling index 1",
    );

    let old = el(
        "div",
        vec![],
        vec![
            el("span", vec![], vec![el("b", vec![], vec![]), el("i", vec![], vec![])]),
            el("strong", vec![], vec![]),
        ],
    );
    let new = el("div", vec![], vec![el("span", vec![], vec![el("b", vec![], vec![])])]);
    let span = tag("span");
    assert_eq!(
        diff(&old, &new),
        vec![Patch::TruncateChildren(&div, 0, 1), Patch::TruncateChildren(&span, 1, 1)],
        "Remove a child and a grandchild node",
    );

    let old = el(
        "div",
        vec![],
        vec![
            el("b", vec![], vec![el("i", vec![], vec![]), el("i", vec![], vec![])]),
            el("b", vec![], vec![]),
        ],
    );
    let new = el("div", vec![], vec![el("b", vec![], vec![el("i", vec![], vec![])]), el("i", vec![], vec![])]);
    let b = tag("b");
    assert_eq!(
        diff(&old, &new),
        vec![Patch::TruncateChildren(&b, 1, 1), Patch::Replace(Some(&b), 4, &el("i", vec![], vec![]))],
        "Removing child and change next node after parent",
    )
}

#[test]
fn add_attributes() {
    let div = tag("div");
    let hello = id("hello");
    let old = el("div", vec![], vec![]);
    let new = el("div", vec![id("hello")], vec![]);
    assert_eq!(diff(&old, &new), vec![Patch::AddAttributes(&div, 0, vec![&hello])], "Add attributes");

    let old = el("div", vec![id("foobar")], vec![]);
    let new = el("div", vec![id("hello")], vec![]);
    assert_eq!(diff(&old, &new), vec![Patch::AddAttributes(&div, 0, vec![&hello])], "Change attribute");
}

#[test]
fn add_style_attributes() {
    let old = el("div", vec![style("display", "block")], vec![]);
    let new = el("div", vec![style("display", "none")], vec![]);
    let div = tag("div");
    let expected = style("display", "none");
    assert_eq!(diff(&old, &new), vec![Patch::AddAttributes(&div, 0, vec![&expected])], "Add attributes");
}

#[test]
fn add_style_attributes_1_change() {
    let old = el("div", vec![styles(&[("display", "block"), ("position", "absolute")])], vec![]);
    let new = el("div", vec![styles(&[("display", "none"), ("position", "absolute")])], vec![]);
    let div = tag("div");
    let expected = styles(&[("display", "none"), ("position", "absolute")]);
    assert_eq!(diff(&old, &new), vec![Patch::AddAttributes(&div, 0, vec![&expected])]);
}

#[test]
fn add_style_attributes_no_changes() {
    let old = el("div", vec![styles(&[("display", "block"), ("position", "absolute")])], vec![]);
    let new = el("div", vec![styles(&[("display", "block"), ("position", "absolute")])], vec![]);
    assert_eq!(diff(&old, &new), vec![]);
}

#[test]
fn remove_style_attributes() {
    let old = el("div", vec![style("display", "block")], vec![]);
    let new = el("div", vec![], vec![]);
    let div = tag("div");
    let expected = style("display", "block");
    assert_eq!(diff(&old, &new), vec![Patch::RemoveAttributes(&div, 0, vec![&expected])], "Add attributes");
}

#[test]
fn remove_attributes() {
    let old = el("div", vec![id("hey-there")], vec![]);
    let new = el("div", vec![], vec![]);
    let div = tag("div");
    let expected = id("hey-there");
    assert_eq!(diff(&old, &new), vec![Patch::RemoveAttributes(&div, 0, vec![&expected])], "Remove attributes");
}

#[test]
fn remove_events() {
    let old = el("div", vec![on("click", 1)], vec![]);
    let new = el("div", vec![], vec![]);
    let div = tag("div");
    let expected = on("click", 2);
    assert_eq!(diff(&old, &new), vec![Patch::RemoveAttributes(&div, 0, vec![&expected])], "Remove events");
}

#[test]
fn change_attribute() {
    let old = el("div", vec![id("hey-there")], vec![]);
    let new = el("div", vec![id("changed")], vec![]);
    let div = tag("div");
    let expected = id("changed");
    assert_eq!(diff(&old, &new), vec![Patch::AddAttributes(&div, 0, vec![&expected])], "Add attributes");
}

#[test]
fn replace_text_node() {
    let old = text("Old");
    let new = text("New");
    let expected = tag("New");
    assert_eq!(diff(&old, &new), vec![Patch::ChangeText(0, &expected)], "Replace text node");
}

#[test]
fn replace_if_different_keys() {
    let old = el("div", vec![key(1)], vec![]);
    let new = el("div", vec![key(2)], vec![]);
    let div = tag("div");
    assert_eq!(
        diff(&old, &new),
        vec![Patch::Replace(Some(&div), 0, &el("div", vec![key(2)], vec![]))],
        "If two nodes have different keys always generate a full replace.",
    );
}
