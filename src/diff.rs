//! The positional differ: attribute diff, children length adjustment and the
//! recursive walk that addresses old nodes by pre-order rank.
use vstd::prelude::*;
use crate::node::{AttrValue, Attribute, Node, values_eq, values_equal, values_match, values_match_exec};
use crate::patch::{Patch, PatchModel, deref_attrs, deref_nodes, models};

verus! {

/// Number of nodes in a tree, the root included.
pub open spec fn tree_size(n: Node) -> nat
    decreases n, 0int,
{
    match n {
        Node::Text(_) => 1,
        Node::Element { children, .. } => 1 + forest_size(children@, 0),
    }
}

/// Number of nodes in the trees `ns[i..]`.
pub open spec fn forest_size(ns: Seq<Node>, i: nat) -> nat
    decreases ns, ns.len() - i,
{
    if i < ns.len() {
        tree_size(ns[i as int]) + forest_size(ns, i + 1)
    } else {
        0
    }
}

/// Counts the nodes of a tree.
pub fn node_count(n: &Node) -> (r: usize)
    requires
        tree_size(*n) <= usize::MAX,
    ensures
        r == tree_size(*n),
    decreases n,
{
    match n {
        Node::Text(_) => 1,
        Node::Element { children, .. } => {
            let ghost cs = children@;
            let mut total: usize = 1;
            let mut i: usize = 0;
            while i < children.len()
                invariant
                    n is Element,
                    n->children == *children,
                    cs == children@,
                    i <= cs.len(),
                    tree_size(*n) == 1 + forest_size(cs, 0),
                    total + forest_size(cs, i as nat) == tree_size(*n),
                    tree_size(*n) <= usize::MAX,
                decreases cs.len() - i,
            {
                proof {
                    assert(decreases_to!(*n => n->children));
                    assert(decreases_to!(*n => children@[i as int]));
                }
                let c = node_count(&children[i]);
                total = total + c;
                i = i + 1;
            }
            total
        },
    }
}

/// The reserved attribute name that carries a node's identity token.
pub open spec fn is_key(a: Attribute) -> bool {
    a.name@ == "key"@
}

/// Index of the first key attribute in `attrs[i..]`.
pub open spec fn first_key(attrs: Seq<Attribute>, i: nat) -> Option<int>
    decreases attrs.len() - i,
{
    if i < attrs.len() {
        if is_key(attrs[i as int]) {
            Some(i as int)
        } else {
            first_key(attrs, i + 1)
        }
    } else {
        None
    }
}

/// Both nodes carry a key, and the two keys' values differ.
pub open spec fn keys_differ(a: Seq<Attribute>, b: Seq<Attribute>) -> bool {
    match (first_key(a, 0), first_key(b, 0)) {
        (Some(i), Some(j)) => !values_eq(a[i].values@, b[j].values@),
        _ => false,
    }
}

/// `attrs` holds an attribute of this name whose values match `values`.
pub open spec fn has_match(attrs: Seq<Attribute>, name: Seq<char>, values: Seq<AttrValue>) -> bool {
    exists|j: int| 0 <= j < attrs.len() && #[trigger] attrs[j].name@ == name && values_match(attrs[j].values@, values)
}

/// `attrs` holds an attribute of this name.
pub open spec fn has_name(attrs: Seq<Attribute>, name: Seq<char>) -> bool {
    exists|j: int| 0 <= j < attrs.len() && #[trigger] attrs[j].name@ == name
}

/// A new attribute is added when it is no key and the old node has no
/// attribute of its name with matching values.
pub open spec fn added_by(old: Seq<Attribute>) -> spec_fn(Attribute) -> bool {
    |a: Attribute| !is_key(a) && !has_match(old, a.name@, a.values@)
}

/// An old attribute is removed when it is no key and the new node has no
/// attribute of its name.
pub open spec fn removed_by(new: Seq<Attribute>) -> spec_fn(Attribute) -> bool {
    |a: Attribute| !is_key(a) && !has_name(new, a.name@)
}

/// The attributes that `AddAttributes` carries, in the new node's order.
pub open spec fn attrs_to_add(old: Seq<Attribute>, new: Seq<Attribute>) -> Seq<Attribute> {
    new.filter(added_by(old))
}

/// The attributes that `RemoveAttributes` carries, in the old node's order.
pub open spec fn attrs_to_remove(old: Seq<Attribute>, new: Seq<Attribute>) -> Seq<Attribute> {
    old.filter(removed_by(new))
}

/// At most one `AddAttributes` then at most one `RemoveAttributes`, each only
/// when it has something to carry.
pub open spec fn attr_patches(tag: Seq<char>, idx: nat, old: Seq<Attribute>, new: Seq<Attribute>) -> Seq<PatchModel> {
    let add = attrs_to_add(old, new);
    let rem = attrs_to_remove(old, new);
    (if add.len() > 0 {
        seq![PatchModel::AddAttributes(tag, idx, add)]
    } else {
        Seq::empty()
    }) + (if rem.len() > 0 {
        seq![PatchModel::RemoveAttributes(tag, idx, rem)]
    } else {
        Seq::empty()
    })
}

fn is_key_attr(a: &Attribute) -> (r: bool)
    ensures
        r == is_key(*a),
{
    let k = "key".to_owned();
    a.name == k
}

fn find_key(attrs: &Vec<Attribute>) -> (r: Option<usize>)
    ensures
        match r {
            Some(i) => i < attrs.len() && first_key(attrs@, 0) == Some(i as int),
            None => first_key(attrs@, 0) is None,
        },
{
    let mut i: usize = 0;
    while i < attrs.len()
        invariant
            i <= attrs.len(),
            first_key(attrs@, 0) == first_key(attrs@, i as nat),
        decreases attrs.len() - i,
    {
        if is_key_attr(&attrs[i]) {
            return Some(i);
        }
        i = i + 1;
    }
    None
}

/// Decides whether two attribute lists carry different keys.
pub fn keys_differ_exec(a: &Vec<Attribute>, b: &Vec<Attribute>) -> (r: bool)
    ensures
        r == keys_differ(a@, b@),
{
    match (find_key(a), find_key(b)) {
        (Some(i), Some(j)) => !values_equal(&a[i].values, &b[j].values),
        _ => false,
    }
}

fn has_match_exec(attrs: &Vec<Attribute>, a: &Attribute) -> (r: bool)
    ensures
        r == has_match(attrs@, a.name@, a.values@),
{
    let mut j: usize = 0;
    while j < attrs.len()
        invariant
            j <= attrs.len(),
            forall|k: int| 0 <= k < j ==> !(#[trigger] attrs@[k].name@ == a.name@ && values_match(attrs@[k].values@, a.values@)),
        decreases attrs.len() - j,
    {
        if attrs[j].name == a.name && values_match_exec(&attrs[j].values, &a.values) {
            return true;
        }
        j = j + 1;
    }
    false
}

fn has_name_exec(attrs: &Vec<Attribute>, name: &String) -> (r: bool)
    ensures
        r == has_name(attrs@, name@),
{
    let mut j: usize = 0;
    while j < attrs.len()
        invariant
            j <= attrs.len(),
            forall|k: int| 0 <= k < j ==> #[trigger] attrs@[k].name@ != name@,
        decreases attrs.len() - j,
    {
        if attrs[j].name == *name {
            return true;
        }
        j = j + 1;
    }
    false
}

/// The attributes of `new` that must be set on the node, in their order.
pub fn attributes_to_add<'a>(old: &'a Vec<Attribute>, new: &'a Vec<Attribute>) -> (r: Vec<&'a Attribute>)
    ensures
        deref_attrs(r@) == attrs_to_add(old@, new@),
{
    let mut r: Vec<&'a Attribute> = Vec::new();
    let mut i: usize = 0;
    while i < new.len()
        invariant
            i <= new.len(),
            deref_attrs(r@) == new@.subrange(0, i as int).filter(added_by(old@)),
        decreases new.len() - i,
    {
        proof {
            assert(new@.subrange(0, i + 1).drop_last() =~= new@.subrange(0, i as int));
            reveal_with_fuel(Seq::filter, 1);
        }
        let a = &new[i];
        if !is_key_attr(a) && !has_match_exec(old, a) {
            r.push(a);
            assert(deref_attrs(r@) =~= new@.subrange(0, i + 1).filter(added_by(old@)));
        } else {
            assert(deref_attrs(r@) =~= new@.subrange(0, i + 1).filter(added_by(old@)));
        }
        i = i + 1;
    }
    assert(new@.subrange(0, new.len() as int) =~= new@);
    r
}

/// The attributes of `old` that must be taken off the node, in their order.
pub fn attributes_to_remove<'a>(old: &'a Vec<Attribute>, new: &'a Vec<Attribute>) -> (r: Vec<&'a Attribute>)
    ensures
        deref_attrs(r@) == attrs_to_remove(old@, new@),
{
    let mut r: Vec<&'a Attribute> = Vec::new();
    let mut i: usize = 0;
    while i < old.len()
        invariant
            i <= old.len(),
            deref_attrs(r@) == old@.subrange(0, i as int).filter(removed_by(new@)),
        decreases old.len() - i,
    {
        proof {
            assert(old@.subrange(0, i + 1).drop_last() =~= old@.subrange(0, i as int));
            reveal_with_fuel(Seq::filter, 1);
        }
        let a = &old[i];
        if !is_key_attr(a) && !has_name_exec(new, &a.name) {
            r.push(a);
            assert(deref_attrs(r@) =~= old@.subrange(0, i + 1).filter(removed_by(new@)));
        } else {
            assert(deref_attrs(r@) =~= old@.subrange(0, i + 1).filter(removed_by(new@)));
        }
        i = i + 1;
    }
    assert(old@.subrange(0, old.len() as int) =~= old@);
    r
}


/// `TruncateChildren` when the new node has fewer children, `AppendChildren`
/// with the extra new subtrees when it has more, nothing when the counts agree.
pub open spec fn length_patches(tag: Seq<char>, idx: nat, olds: Seq<Node>, news: Seq<Node>) -> Seq<PatchModel> {
    if news.len() < olds.len() {
        seq![PatchModel::TruncateChildren(tag, idx, news.len())]
    } else if news.len() > olds.len() {
        seq![PatchModel::AppendChildren(tag, idx, news.subrange(olds.len() as int, news.len() as int))]
    } else {
        Seq::empty()
    }
}

/// The patches that turn `old`, whose pre-order rank in the old tree is
/// `idx`, into `new`.
pub open spec fn diff_spec(old: Node, new: Node, idx: nat) -> Seq<PatchModel>
    decreases old, 0int,
{
    match old {
        Node::Text(a) => match new {
            Node::Text(b) => if a@ == b@ {
                Seq::empty()
            } else {
                seq![PatchModel::ChangeText(idx, b@)]
            },
            _ => seq![PatchModel::Replace(None, idx, new)],
        },
        Node::Element { tag: t1, attrs: a1, children: c1, .. } => match new {
            Node::Element { tag: t2, attrs: a2, children: c2, .. } => if t1@ != t2@ || keys_differ(a1@, a2@) {
                seq![PatchModel::Replace(Some(t1@), idx, new)]
            } else {
                attr_patches(t1@, idx, a1@, a2@) + length_patches(t1@, idx, c1@, c2@)
                    + diff_children_spec(c1@, c2@, 0, idx + 1)
            },
            _ => seq![PatchModel::Replace(Some(t1@), idx, new)],
        },
    }
}

/// The patches of the position-wise pairs `(olds[k], news[k])` for `k >= i`
/// while both sides have a child, where `olds[i]` has pre-order rank `idx`.
pub open spec fn diff_children_spec(olds: Seq<Node>, news: Seq<Node>, i: nat, idx: nat) -> Seq<PatchModel>
    decreases olds, olds.len() - i,
{
    if i < olds.len() && i < news.len() {
        diff_spec(olds[i as int], news[i as int], idx) + diff_children_spec(
            olds,
            news,
            i + 1,
            idx + tree_size(olds[i as int]),
        )
    } else {
        Seq::empty()
    }
}

fn push_attr_patches<'a>(
    tag: &'a String,
    idx: usize,
    old_attrs: &'a Vec<Attribute>,
    new_attrs: &'a Vec<Attribute>,
    out: &mut Vec<Patch<'a>>,
)
    ensures
        models(final(out)@) == models(old(out)@) + attr_patches(tag@, idx as nat, old_attrs@, new_attrs@),
{
    let add = attributes_to_add(old_attrs, new_attrs);
    let rem = attributes_to_remove(old_attrs, new_attrs);
    let ghost out0 = models(out@);
    let ghost addm = deref_attrs(add@);
    let ghost remm = deref_attrs(rem@);
    if add.len() > 0 {
        out.push(Patch::AddAttributes(tag, idx, add));
        assert(models(out@) =~= out0 + seq![PatchModel::AddAttributes(tag@, idx as nat, addm)]);
    } else {
        assert(models(out@) =~= out0 + Seq::<PatchModel>::empty());
    }
    let ghost out1 = models(out@);
    if rem.len() > 0 {
        out.push(Patch::RemoveAttributes(tag, idx, rem));
        assert(models(out@) =~= out1 + seq![PatchModel::RemoveAttributes(tag@, idx as nat, remm)]);
    } else {
        assert(models(out@) =~= out1 + Seq::<PatchModel>::empty());
    }
    assert(models(out@) =~= out0 + attr_patches(tag@, idx as nat, old_attrs@, new_attrs@));
}

fn push_length_patch<'a>(
    tag: &'a String,
    idx: usize,
    olds: &'a Vec<Node>,
    news: &'a Vec<Node>,
    out: &mut Vec<Patch<'a>>,
)
    ensures
        models(final(out)@) == models(old(out)@) + length_patches(tag@, idx as nat, olds@, news@),
{
    let ghost out0 = models(out@);
    if news.len() < olds.len() {
        out.push(Patch::TruncateChildren(tag, idx, news.len()));
        assert(models(out@) =~= out0 + length_patches(tag@, idx as nat, olds@, news@));
    } else if news.len() > olds.len() {
        let mut extra: Vec<&'a Node> = Vec::new();
        let mut k: usize = olds.len();
        while k < news.len()
            invariant
                olds.len() <= k <= news.len(),
                deref_nodes(extra@) =~= news@.subrange(olds.len() as int, k as int),
            decreases news.len() - k,
        {
            let ghost prev = extra@;
            extra.push(&news[k]);
            assert(extra@ == prev.push(&news@[k as int]));
            assert(deref_nodes(extra@) =~= deref_nodes(prev).push(news@[k as int]));
            assert(deref_nodes(extra@) =~= news@.subrange(olds.len() as int, k + 1));
            k = k + 1;
        }
        out.push(Patch::AppendChildren(tag, idx, extra));
        assert(models(out@) =~= out0 + length_patches(tag@, idx as nat, olds@, news@));
    } else {
        assert(models(out@) =~= out0 + length_patches(tag@, idx as nat, olds@, news@));
    }
}

/// Appends to `out` the patches that turn `old_node`, of pre-order rank
/// `idx`, into `new_node`.
fn diff_node<'a>(old_node: &'a Node, new_node: &'a Node, idx: usize, out: &mut Vec<Patch<'a>>)
    requires
        idx + tree_size(*old_node) <= usize::MAX,
    ensures
        models(final(out)@) == models(old(out)@) + diff_spec(*old_node, *new_node, idx as nat),
    decreases old_node,
{
    let ghost out0 = models(out@);
    match old_node {
        Node::Text(a) => {
            match new_node {
                Node::Text(b) => {
                    if *a != *b {
                        out.push(Patch::ChangeText(idx, b));
                        assert(models(out@) =~= out0 + diff_spec(*old_node, *new_node, idx as nat));
                    } else {
                        assert(models(out@) =~= out0 + diff_spec(*old_node, *new_node, idx as nat));
                    }
                },
                _ => {
                    out.push(Patch::Replace(None, idx, new_node));
                    assert(models(out@) =~= out0 + diff_spec(*old_node, *new_node, idx as nat));
                },
            }
        },
        Node::Element { tag: t1, attrs: a1, children: c1, .. } => {
            match new_node {
                Node::Element { tag: t2, attrs: a2, children: c2, .. } => {
                    if *t1 != *t2 || keys_differ_exec(a1, a2) {
                        out.push(Patch::Replace(Some(t1), idx, new_node));
                        assert(models(out@) =~= out0 + diff_spec(*old_node, *new_node, idx as nat));
                    } else {
                        push_attr_patches(t1, idx, a1, a2, out);
                        push_length_patch(t1, idx, c1, c2, out);
                        let ghost out1 = models(out@);
                        let mut i: usize = 0;
                        let mut cur: usize = idx + 1;
                        while i < c1.len() && i < c2.len()
                            invariant
                                old_node is Element,
                                old_node->children == *c1,
                                i <= c1.len(),
                                tree_size(*old_node) == 1 + forest_size(c1@, 0),
                                cur + forest_size(c1@, i as nat) == idx + tree_size(*old_node),
                                idx + tree_size(*old_node) <= usize::MAX,
                                models(out@) + diff_children_spec(c1@, c2@, i as nat, cur as nat)
                                    == out1 + diff_children_spec(c1@, c2@, 0, (idx + 1) as nat),
                            decreases c1.len() - i,
                        {
                            proof {
                                assert(decreases_to!(*old_node => old_node->children));
                            }
                            let ghost before = models(out@);
                            let ghost rest = diff_children_spec(c1@, c2@, (i + 1) as nat, (cur + tree_size(c1@[i as int])) as nat);
                            diff_node(&c1[i], &c2[i], cur, out);
                            proof {
                                assert(before + diff_children_spec(c1@, c2@, i as nat, cur as nat)
                                    =~= models(out@) + rest);
                            }
                            let c = node_count(&c1[i]);
                            cur = cur + c;
                            i = i + 1;
                        }
                        assert(models(out@) =~= models(out@) + diff_children_spec(c1@, c2@, i as nat, cur as nat));
                        assert(models(out@) =~= out0 + diff_spec(*old_node, *new_node, idx as nat));
                    }
                },
                _ => {
                    out.push(Patch::Replace(Some(t1), idx, new_node));
                    assert(models(out@) =~= out0 + diff_spec(*old_node, *new_node, idx as nat));
                },
            }
        },
    }
}

/// Compares two trees and returns the patches that turn a rendering of `old`
/// into one of `new`, in the order in which they are to be applied.
pub fn diff<'a>(old: &'a Node, new: &'a Node) -> (r: Vec<Patch<'a>>)
    requires
        tree_size(*old) <= usize::MAX,
    ensures
        models(r@) == diff_spec(*old, *new, 0),
{
    let mut out: Vec<Patch<'a>> = Vec::new();
    assert(models(out@) =~= Seq::<PatchModel>::empty());
    diff_node(old, new, 0, &mut out);
    assert(models(out@) =~= diff_spec(*old, *new, 0));
    out
}

} // verus!
