use std::collections::BTreeMap;

use sauron::{class, diff, html_element, id, key, style, text, Attribute, Node, Patch};

#[derive(Debug, Clone, PartialEq)]
enum Shown {
    Element { tag: String, attrs: BTreeMap<String, String>, children: Vec<Shown> },
    Text(String),
}

fn el(tag: &str, attrs: Vec<Attribute>, children: Vec<Node>) -> Node {
    html_element(tag, attrs, children)
}

fn attr_map<'a>(attrs: impl IntoIterator<Item = &'a Attribute>) -> BTreeMap<String, String> {
    attrs
        .into_iter()
        .filter(|a| a.name != "key")
        .map(|a| (a.name.clone(), format!("{:?}", a.values)))
        .collect()
}

fn show(n: &Node) -> Shown {
    match n {
        Node::Text(t) => Shown::Text(t.clone()),
        Node::Element { tag, attrs, children, .. } => Shown::Element {
            tag: tag.clone(),
            attrs: attr_map(attrs.iter()),
            children: children.iter().map(show).collect(),
        },
    }
}

fn size(n: &Node) -> usize {
    match n {
        Node::Text(_) => 1,
        Node::Element { children, .. } => 1 + children.iter().map(size).sum::<usize>(),
    }
}

fn index(p: &Patch) -> usize {
    match p {
        Patch::AddAttributes(_, i, _)
        | Patch::RemoveAttributes(_, i, _)
        | Patch::ChangeText(i, _)
        | Patch::TruncateChildren(_, i, _)
        | Patch::AppendChildren(_, i, _)
        | Patch::Replace(_, i, _) => *i,
    }
}

fn apply(orig: &Node, mut cur: Shown, idx: usize, ps: &[Patch], pos: &mut usize) -> Shown {
    while *pos < ps.len() && index(&ps[*pos]) == idx {
        let p = &ps[*pos];
        *pos += 1;
        match (p, &mut cur) {
            (Patch::Replace(_, _, n), _) => return show(n),
            (Patch::ChangeText(_, s), Shown::Text(t)) => *t = (*s).clone(),
            (Patch::AddAttributes(_, _, a), Shown::Element { attrs, .. }) => attrs.extend(attr_map(a.iter().copied())),
            (Patch::RemoveAttributes(_, _, a), Shown::Element { attrs, .. }) => {
                for x in a {
                    attrs.remove(&x.name);
                }
            }
            (Patch::TruncateChildren(_, _, k), Shown::Element { children, .. }) => children.truncate(*k),
            (Patch::AppendChildren(_, _, ns), Shown::Element { children, .. }) => {
                children.extend(ns.iter().map(|n| show(n)))
            }
            _ => panic!("patch does not fit the node"),
        }
    }
    if let (Node::Element { children: olds, .. }, Shown::Element { children, .. }) = (orig, &mut cur) {
        let mut rank = idx + 1;
        for (k, o) in olds.iter().enumerate() {
            if k < children.len() {
                children[k] = apply(o, children[k].clone(), rank, ps, pos);
            }
            rank += size(o);
        }
    }
    cur
}

fn round_trip(old: &Node, new: &Node) {
    let ps = diff(old, new);
    let mut pos = 0;
    let result = apply(old, show(old), 0, &ps, &mut pos);
    assert_eq!(pos, ps.len());
    assert_eq!(result, show(new));
}

#[test]
fn applying_patches_reaches_new_tree() {
    let old = el(
        "div",
        vec![id("a"), class("x")],
        vec![
            el("span", vec![style("color", "red")], vec![text("one"), text("two")]),
            el("b", vec![], vec![el("i", vec![], vec![])]),
            text("tail"),
        ],
    );
    let new = el(
        "div",
        vec![class("y"), id("a")],
        vec![
            el("span", vec![], vec![text("uno")]),
            el("strong", vec![], vec![]),
            text("end"),
            el("p", vec![id("p")], vec![text("new")]),
        ],
    );
    round_trip(&old, &new);
    round_trip(&new, &old);
}

#[test]
fn applying_patches_handles_keys_and_kinds() {
    let old = el("ul", vec![], vec![el("li", vec![key(1)], vec![text("a")]), text("t"), el("li", vec![], vec![])]);
    let new = el("ul", vec![], vec![el("li", vec![key(2)], vec![text("b")]), el("em", vec![], vec![]), text("u")]);
    round_trip(&old, &new);
    round_trip(&new, &old);
    round_trip(&old, &old);
}
