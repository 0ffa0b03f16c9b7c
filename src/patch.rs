//! The edit operations that the differ emits, and their mathematical model.
use vstd::prelude::*;
use crate::node::{Attribute, Node};

verus! {

/// One edit of a live rendering of the old tree. Every index is the pre-order
/// rank of the addressed node in the old tree. Tags, attributes and nodes are
/// borrowed from the two trees that were compared.
#[derive(Debug, PartialEq)]
pub enum Patch<'a> {
    /// Set or overwrite these attributes on the node.
    AddAttributes(&'a String, usize, Vec<&'a Attribute>),
    /// Remove these attributes, matched by name, from the node.
    RemoveAttributes(&'a String, usize, Vec<&'a Attribute>),
    /// Replace the content of the text node.
    ChangeText(usize, &'a String),
    /// Keep only the first children of the node, this many.
    TruncateChildren(&'a String, usize, usize),
    /// Append these subtrees as new children of the node.
    AppendChildren(&'a String, usize, Vec<&'a Node>),
    /// Replace the node and its subtree; the tag is that of the old node, or
    /// `None` where the old node is a text.
    Replace(Option<&'a String>, usize, &'a Node),
}

/// What a patch says, as plain values.
pub enum PatchModel {
    AddAttributes(Seq<char>, nat, Seq<Attribute>),
    RemoveAttributes(Seq<char>, nat, Seq<Attribute>),
    ChangeText(nat, Seq<char>),
    TruncateChildren(Seq<char>, nat, nat),
    AppendChildren(Seq<char>, nat, Seq<Node>),
    Replace(Option<Seq<char>>, nat, Node),
}

pub open spec fn deref_attrs<'a>(s: Seq<&'a Attribute>) -> Seq<Attribute> {
    s.map_values(|a: &'a Attribute| *a)
}

pub open spec fn deref_nodes<'a>(s: Seq<&'a Node>) -> Seq<Node> {
    s.map_values(|n: &'a Node| *n)
}

impl<'a> View for Patch<'a> {
    type V = PatchModel;

    open spec fn view(&self) -> PatchModel {
        match *self {
            Patch::AddAttributes(t, i, a) => PatchModel::AddAttributes(t@, i as nat, deref_attrs(a@)),
            Patch::RemoveAttributes(t, i, a) => PatchModel::RemoveAttributes(
                t@,
                i as nat,
                deref_attrs(a@),
            ),
            Patch::ChangeText(i, s) => PatchModel::ChangeText(i as nat, s@),
            Patch::TruncateChildren(t, i, k) => PatchModel::TruncateChildren(
                t@,
                i as nat,
                k as nat,
            ),
            Patch::AppendChildren(t, i, c) => PatchModel::AppendChildren(
                t@,
                i as nat,
                deref_nodes(c@),
            ),
            Patch::Replace(t, i, n) => PatchModel::Replace(
                match t {
                    Some(t) => Some(t@),
                    None => None,
                },
                i as nat,
                *n,
            ),
        }
    }
}

/// The models of a sequence of patches, in order.
pub open spec fn models<'a>(ps: Seq<Patch<'a>>) -> Seq<PatchModel> {
    ps.map_values(|p: Patch<'a>| p@)
}

} // verus!
