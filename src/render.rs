//! A model of a live rendering and of the walk that applies patches to it:
//! the walk visits the rendering of the old tree in pre-order, counting every
//! node, and applies each patch at the node whose rank it carries.
use vstd::prelude::*;
use crate::node::{AttrValue, Node, values_match};
use crate::diff::{attr_patches, diff_children_spec, diff_spec, forest_size, keys_differ, length_patches, tree_size};
use crate::html::opt_view;
use crate::laws::{
    all_fit, apply_attr_patch, apply_attr_patches, attr_state, lemma_attribute_patches_reach_new,
    lemma_diff_children_addresses, lemma_values_eq_refl, names_unique, patch_index,
};
use crate::patch::PatchModel;

verus! {

/// What a rendering shows of a node: namespace, tag, attributes by name and
/// children, or a text.
pub enum Rendered {
    Element {
        namespace: Option<Seq<char>>,
        tag: Seq<char>,
        attrs: Map<Seq<char>, Seq<AttrValue>>,
        children: Seq<Rendered>,
    },
    Text(Seq<char>),
}

/// A fresh rendering of a tree.
pub open spec fn render(n: Node) -> Rendered
    decreases n, 0int,
{
    match n {
        Node::Text(t) => Rendered::Text(t@),
        Node::Element { namespace, tag, attrs, children } => Rendered::Element {
            namespace: opt_view(namespace),
            tag: tag@,
            attrs: attr_state(attrs@),
            children: render_forest(children@, 0),
        },
    }
}

/// Fresh renderings of the trees `ns[i..]`.
pub open spec fn render_forest(ns: Seq<Node>, i: nat) -> Seq<Rendered>
    decreases ns, ns.len() - i,
{
    if i < ns.len() {
        seq![render(ns[i as int])] + render_forest(ns, i + 1)
    } else {
        Seq::empty()
    }
}

/// Number of nodes of a rendering.
pub open spec fn rsize(r: Rendered) -> nat
    decreases r, 0int,
{
    match r {
        Rendered::Text(_) => 1,
        Rendered::Element { children, .. } => 1 + rsize_forest(children, 0),
    }
}

pub open spec fn rsize_forest(rs: Seq<Rendered>, i: nat) -> nat
    decreases rs, rs.len() - i,
{
    if i < rs.len() {
        rsize(rs[i as int]) + rsize_forest(rs, i + 1)
    } else {
        0
    }
}

/// Two renderings look the same: equal namespaces, tags and texts, the same
/// attribute names but the key, with values that match, and children that
/// look the same position by position.
pub open spec fn obs_eq(a: Rendered, b: Rendered) -> bool
    decreases a,
{
    match a {
        Rendered::Text(x) => b is Text && b->Text_0 == x,
        Rendered::Element { namespace, tag, attrs, children } => {
            &&& b is Element
            &&& b->namespace == namespace
            &&& b->tag == tag
            &&& forall|x: Seq<char>|
                x != "key"@ ==> (#[trigger] attrs.contains_key(x) == b->attrs.contains_key(x) && (attrs.contains_key(
                    x,
                ) ==> values_match(attrs[x], b->attrs[x])))
            &&& children.len() == b->children.len()
            &&& forall|i: int| 0 <= i < children.len() ==> obs_eq(#[trigger] children[i], b->children[i])
        },
    }
}

/// Applies one patch to the node it addresses.
pub open spec fn apply_one(cur: Rendered, p: PatchModel) -> Rendered {
    match p {
        PatchModel::Replace(_, _, n) => render(n),
        PatchModel::ChangeText(_, s) => match cur {
            Rendered::Text(_) => Rendered::Text(s),
            _ => cur,
        },
        _ => match cur {
            Rendered::Element { namespace, tag, attrs, children } => Rendered::Element {
                namespace,
                tag,
                attrs: apply_attr_patch(attrs, p),
                children: match p {
                    PatchModel::TruncateChildren(_, _, k) => if k <= children.len() {
                        children.take(k as int)
                    } else {
                        children
                    },
                    PatchModel::AppendChildren(_, _, ns) => children + render_forest(ns, 0),
                    _ => children,
                },
            },
            _ => cur,
        },
    }
}

/// Walks the node `orig` of the old rendering, whose rank is `idx` and whose
/// current state is `cur`: applies the leading patches that carry `idx`, then,
/// unless the node was replaced, walks the old children that are left. Returns
/// the new state and the patches not consumed.
pub open spec fn walk(orig: Rendered, cur: Rendered, idx: nat, ps: Seq<PatchModel>) -> (Rendered, Seq<PatchModel>)
    decreases orig, ps.len() as int,
{
    if ps.len() > 0 && patch_index(ps[0]) == idx {
        if ps[0] is Replace {
            (apply_one(cur, ps[0]), ps.drop_first())
        } else {
            walk(orig, apply_one(cur, ps[0]), idx, ps.drop_first())
        }
    } else {
        match orig {
            Rendered::Element { children: oc, .. } => match cur {
                Rendered::Element { namespace, tag, attrs, children: cc } => {
                    let (kids, rest) = walk_children(oc, cc, 0, idx + 1, ps);
                    (Rendered::Element { namespace, tag, attrs, children: kids }, rest)
                },
                _ => (cur, ps),
            },
            _ => (cur, ps),
        }
    }
}

/// Walks the old children `origs[k..]`, the first of rank `idx`, paired with
/// the current children; current children past the old ones are kept as
/// they are.
pub open spec fn walk_children(
    origs: Seq<Rendered>,
    curs: Seq<Rendered>,
    k: nat,
    idx: nat,
    ps: Seq<PatchModel>,
) -> (Seq<Rendered>, Seq<PatchModel>)
    decreases origs, origs.len() - k,
{
    if k < origs.len() && k < curs.len() {
        let (c, rest) = walk(origs[k as int], curs[k as int], idx, ps);
        let (cs, rest2) = walk_children(origs, curs, k + 1, idx + rsize(origs[k as int]), rest);
        (seq![c] + cs, rest2)
    } else if k <= curs.len() {
        (curs.subrange(k as int, curs.len() as int), ps)
    } else {
        (Seq::empty(), ps)
    }
}

/// Attributes of each element are merged: no name twice.
pub open spec fn wf(n: Node) -> bool
    decreases n,
{
    match n {
        Node::Text(_) => true,
        Node::Element { attrs, children, .. } => names_unique(attrs@) && forall|k: int|
            0 <= k < children@.len() ==> wf(#[trigger] children@[k]),
    }
}

/// Wherever the differ pairs two elements and keeps the old one, they have
/// the same namespace.
pub open spec fn ns_agree(old: Node, new: Node) -> bool
    decreases old,
{
    match old {
        Node::Element { namespace: n1, tag: t1, attrs: a1, children: c1 } => match new {
            Node::Element { namespace: n2, tag: t2, attrs: a2, children: c2 } => (t1@ == t2@ && !keys_differ(a1@, a2@))
                ==> (opt_view(n1) == opt_view(n2) && forall|k: int|
                0 <= k < c1@.len() && k < c2@.len() ==> ns_agree(#[trigger] c1@[k], c2@[k])),
            _ => true,
        },
        _ => true,
    }
}


/// Applies patches to one node, first to last.
pub open spec fn apply_seq(cur: Rendered, ps: Seq<PatchModel>) -> Rendered
    decreases ps.len(),
{
    if ps.len() == 0 {
        cur
    } else {
        apply_seq(apply_one(cur, ps[0]), ps.drop_first())
    }
}

proof fn lemma_render_forest(ns: Seq<Node>, i: nat)
    requires
        i <= ns.len(),
    ensures
        render_forest(ns, i).len() == ns.len() - i,
        forall|j: int| 0 <= j < ns.len() - i ==> #[trigger] render_forest(ns, i)[j] == render(ns[i + j]),
    decreases ns.len() - i,
{
    if i < ns.len() {
        lemma_render_forest(ns, i + 1);
        let r = render_forest(ns, i);
        assert forall|j: int| 0 <= j < ns.len() - i implies #[trigger] r[j] == render(ns[i + j]) by {
            if j > 0 {
                assert(r[j] == render_forest(ns, i + 1)[j - 1]);
            }
        }
    }
}

proof fn lemma_rsize_render(n: Node)
    ensures
        rsize(render(n)) == tree_size(n),
    decreases n, 0int,
{
    match n {
        Node::Text(_) => {},
        Node::Element { children, .. } => {
            lemma_render_forest(children@, 0);
            lemma_rsize_forest(children@, 0);
        },
    }
}

proof fn lemma_rsize_forest(ns: Seq<Node>, j: nat)
    requires
        j <= ns.len(),
    ensures
        rsize_forest(render_forest(ns, 0), j) == forest_size(ns, j),
    decreases ns, ns.len() - j,
{
    lemma_render_forest(ns, 0);
    if j < ns.len() {
        assert(render_forest(ns, 0)[j as int] == render(ns[0 + j as int]));
        lemma_rsize_render(ns[j as int]);
        lemma_rsize_forest(ns, j + 1);
    }
}

proof fn lemma_obs_refl(r: Rendered)
    ensures
        obs_eq(r, r),
    decreases r,
{
    match r {
        Rendered::Text(_) => {},
        Rendered::Element { attrs, children, .. } => {
            assert forall|x: Seq<char>| x != "key"@ && #[trigger] attrs.contains_key(x) implies values_match(
                attrs[x],
                attrs[x],
            ) by {
                lemma_values_eq_refl(attrs[x]);
            }
            assert forall|i: int| 0 <= i < children.len() implies obs_eq(#[trigger] children[i], children[i]) by {
                lemma_obs_refl(children[i]);
            }
        },
    }
}

proof fn lemma_walk_prefix(orig: Rendered, cur: Rendered, idx: nat, pre: Seq<PatchModel>, rest: Seq<PatchModel>)
    requires
        forall|k: int| 0 <= k < pre.len() ==> patch_index(#[trigger] pre[k]) == idx && !(pre[k] is Replace),
    ensures
        walk(orig, cur, idx, pre + rest) == walk(orig, apply_seq(cur, pre), idx, rest),
    decreases pre.len(),
{
    if pre.len() > 0 {
        assert((pre + rest)[0] == pre[0]);
        assert((pre + rest).drop_first() =~= pre.drop_first() + rest);
        lemma_walk_prefix(orig, apply_one(cur, pre[0]), idx, pre.drop_first(), rest);
    } else {
        assert(pre + rest =~= rest);
    }
}

proof fn lemma_apply_attr_seq(
    namespace: Option<Seq<char>>,
    tag: Seq<char>,
    attrs: Map<Seq<char>, Seq<AttrValue>>,
    children: Seq<Rendered>,
    ps: Seq<PatchModel>,
)
    requires
        forall|k: int| 0 <= k < ps.len() ==> (#[trigger] ps[k] is AddAttributes || ps[k] is RemoveAttributes),
    ensures
        apply_seq(Rendered::Element { namespace, tag, attrs, children }, ps) == (Rendered::Element {
            namespace,
            tag,
            attrs: apply_attr_patches(attrs, ps),
            children,
        }),
    decreases ps.len(),
{
    if ps.len() > 0 {
        assert(ps[0] is AddAttributes || ps[0] is RemoveAttributes);
        lemma_apply_attr_seq(namespace, tag, apply_attr_patch(attrs, ps[0]), children, ps.drop_first());
    }
}

proof fn lemma_walk_diff(old: Node, new: Node, idx: nat, tail: Seq<PatchModel>)
    requires
        wf(old),
        wf(new),
        ns_agree(old, new),
        tail.len() > 0 ==> patch_index(tail[0]) >= idx + tree_size(old),
    ensures
        walk(render(old), render(old), idx, diff_spec(old, new, idx) + tail).1 == tail,
        obs_eq(walk(render(old), render(old), idx, diff_spec(old, new, idx) + tail).0, render(new)),
    decreases old, 1int,
{
    let orig = render(old);
    let ds = diff_spec(old, new, idx);
    let ps = ds + tail;
    lemma_rsize_render(old);
    match old {
        Node::Text(a) => {
            match new {
                Node::Text(b) => {
                    if a@ == b@ {
                        assert(ps =~= tail);
                        assert(walk(orig, orig, idx, ps) == (orig, tail));
                    } else {
                        assert(ps[0] == PatchModel::ChangeText(idx, b@));
                        assert(ps.drop_first() =~= tail);
                        assert(apply_one(orig, ps[0]) == Rendered::Text(b@));
                        assert(walk(orig, Rendered::Text(b@), idx, tail) == (Rendered::Text(b@), tail));
                    }
                },
                _ => {
                    assert(ps[0] == PatchModel::Replace(None, idx, new));
                    assert(ps.drop_first() =~= tail);
                    lemma_obs_refl(render(new));
                },
            }
        },
        Node::Element { namespace: n1, tag: t1, attrs: a1, children: c1 } => {
            match new {
                Node::Element { namespace: n2, tag: t2, attrs: a2, children: c2 } => {
                    if t1@ != t2@ || keys_differ(a1@, a2@) {
                        assert(ps[0] == PatchModel::Replace(Some(t1@), idx, new));
                        assert(ps.drop_first() =~= tail);
                        lemma_obs_refl(render(new));
                    } else {
                        lemma_walk_element(old, new, idx, tail);
                    }
                },
                _ => {
                    assert(ps[0] == PatchModel::Replace(Some(t1@), idx, new));
                    assert(ps.drop_first() =~= tail);
                    lemma_obs_refl(render(new));
                },
            }
        },
    }
}

proof fn lemma_walk_element(old: Node, new: Node, idx: nat, tail: Seq<PatchModel>)
    requires
        old is Element,
        new is Element,
        old->tag@ == new->tag@,
        !keys_differ(old->attrs@, new->attrs@),
        wf(old),
        wf(new),
        ns_agree(old, new),
        tail.len() > 0 ==> patch_index(tail[0]) >= idx + tree_size(old),
    ensures
        walk(render(old), render(old), idx, diff_spec(old, new, idx) + tail).1 == tail,
        obs_eq(walk(render(old), render(old), idx, diff_spec(old, new, idx) + tail).0, render(new)),
    decreases old, 0int,
{
    let tag = old->tag@;
    let a1 = old->attrs@;
    let a2 = new->attrs@;
    let c1 = old->children@;
    let c2 = new->children@;
    let ns = opt_view(old->namespace);
    let orig = render(old);
    let attrp = attr_patches(tag, idx, a1, a2);
    let lenp = length_patches(tag, idx, c1, c2);
    let childp = diff_children_spec(c1, c2, 0, idx + 1);
    let ps = diff_spec(old, new, idx) + tail;
    assert(diff_spec(old, new, idx) == attrp + lenp + childp);
    assert(ps =~= attrp + (lenp + (childp + tail)));
    lemma_render_forest(c1, 0);
    lemma_render_forest(c2, 0);
    let oc = render_forest(c1, 0);
    // The node's own attribute patches.
    assert forall|k: int| 0 <= k < attrp.len() implies patch_index(#[trigger] attrp[k]) == idx && !(attrp[k] is Replace)
        && (attrp[k] is AddAttributes || attrp[k] is RemoveAttributes) by {}
    lemma_walk_prefix(orig, orig, idx, attrp, lenp + (childp + tail));
    lemma_apply_attr_seq(ns, tag, attr_state(a1), oc, attrp);
    let attrs = apply_attr_patches(attr_state(a1), attrp);
    let cur1 = Rendered::Element { namespace: ns, tag, attrs, children: oc };
    // Its length patch.
    assert forall|k: int| 0 <= k < lenp.len() implies patch_index(#[trigger] lenp[k]) == idx && !(lenp[k] is Replace) by {}
    lemma_walk_prefix(orig, cur1, idx, lenp, childp + tail);
    let kids0 = if c2.len() < c1.len() {
        oc.take(c2.len() as int)
    } else if c2.len() > c1.len() {
        oc + render_forest(c2.subrange(c1.len() as int, c2.len() as int), 0)
    } else {
        oc
    };
    let cur2 = Rendered::Element { namespace: ns, tag, attrs, children: kids0 };
    if lenp.len() > 0 {
        assert(lenp.drop_first() =~= Seq::<PatchModel>::empty());
        assert(apply_seq(cur1, lenp) == apply_seq(apply_one(cur1, lenp[0]), Seq::<PatchModel>::empty()));
    }
    assert(apply_seq(cur1, lenp) == cur2);
    lemma_render_forest(c2.subrange(c1.len() as int, c2.len() as int), 0);
    assert(kids0.len() == c2.len());
    assert forall|k: int| 0 <= k < c1.len() && k < c2.len() implies #[trigger] kids0[k] == render(c1[k]) by {
        assert(oc[k] == render(c1[0 + k]));
    }
    assert forall|k: int| c1.len() <= k < c2.len() implies #[trigger] kids0[k] == render(c2[k]) by {
        let sub = c2.subrange(c1.len() as int, c2.len() as int);
        assert(render_forest(sub, 0)[k - c1.len()] == render(sub[0 + (k - c1.len())]));
    }
    // The children's patches, then what follows.
    lemma_diff_children_addresses(c1, c2, 0, idx + 1);
    let rest = childp + tail;
    if rest.len() > 0 {
        if childp.len() > 0 {
            assert(rest[0] == childp[0]);
            assert(all_fit(childp, idx + 1, crate::laws::preorder_forest(c1, 0)));
            assert(patch_index(childp[0]) >= idx + 1);
        } else {
            assert(rest =~= tail);
        }
    }
    assert(walk(orig, cur2, idx, rest) == ({
        let (kids, r) = walk_children(oc, kids0, 0, idx + 1, rest);
        (Rendered::Element { namespace: ns, tag, attrs, children: kids }, r)
    }));
    assert(forall|k: int| 0 <= k < c1.len() ==> wf(#[trigger] c1[k]));
    assert(forall|k: int| 0 <= k < c2.len() ==> wf(#[trigger] c2[k]));
    lemma_walk_children_diff(c1, c2, kids0, 0, idx + 1, tail);
    let kids = walk_children(oc, kids0, 0, idx + 1, rest).0;
    // The result looks like the new node.
    assert forall|x: Seq<char>| x != "key"@ implies (#[trigger] attrs.contains_key(x) == attr_state(a2).contains_key(x)
        && (attrs.contains_key(x) ==> values_match(attrs[x], attr_state(a2)[x]))) by {
        lemma_attribute_patches_reach_new(tag, idx, a1, a2, x);
    }
    let rn = render(new);
    assert forall|i: int| 0 <= i < kids.len() implies obs_eq(#[trigger] kids[i], rn->children[i]) by {
        assert(render_forest(c2, 0)[i] == render(c2[0 + i]));
        assert(kids[i] == walk_children(oc, kids0, 0, idx + 1, rest).0[i]);
    }
}

proof fn lemma_walk_children_diff(
    c1: Seq<Node>,
    c2: Seq<Node>,
    curs: Seq<Rendered>,
    i: nat,
    idx: nat,
    tail: Seq<PatchModel>,
)
    requires
        i <= c1.len() || i <= c2.len(),
        forall|k: int| 0 <= k < c1.len() ==> wf(#[trigger] c1[k]),
        forall|k: int| 0 <= k < c2.len() ==> wf(#[trigger] c2[k]),
        forall|k: int| 0 <= k < c1.len() && k < c2.len() ==> ns_agree(#[trigger] c1[k], c2[k]),
        curs.len() == c2.len(),
        forall|k: int| 0 <= k < c1.len() && k < c2.len() ==> #[trigger] curs[k] == render(c1[k]),
        forall|k: int| c1.len() <= k < c2.len() ==> #[trigger] curs[k] == render(c2[k]),
        tail.len() > 0 ==> patch_index(tail[0]) >= idx + forest_size(c1, i),
    ensures
        walk_children(render_forest(c1, 0), curs, i, idx, diff_children_spec(c1, c2, i, idx) + tail).1 == tail,
        i <= c2.len() ==> walk_children(render_forest(c1, 0), curs, i, idx, diff_children_spec(c1, c2, i, idx) + tail).0.len()
            == c2.len() - i,
        forall|j: int|
            0 <= j < c2.len() - i ==> obs_eq(
                #[trigger] walk_children(render_forest(c1, 0), curs, i, idx, diff_children_spec(c1, c2, i, idx) + tail).0[j],
                render(c2[i + j]),
            ),
    decreases c1, c1.len() - i,
{
    let origs = render_forest(c1, 0);
    lemma_render_forest(c1, 0);
    let ps = diff_children_spec(c1, c2, i, idx) + tail;
    if i < c1.len() && i < c2.len() {
        let first = c1[i as int];
        let size = tree_size(first);
        let ds = diff_spec(first, c2[i as int], idx);
        let rest_c = diff_children_spec(c1, c2, i + 1, idx + size);
        let tail2 = rest_c + tail;
        assert(ps =~= ds + tail2);
        lemma_diff_children_addresses(c1, c2, i + 1, idx + size);
        if tail2.len() > 0 {
            if rest_c.len() > 0 {
                assert(tail2[0] == rest_c[0]);
            } else {
                assert(tail2 =~= tail);
            }
        }
        assert(origs[i as int] == render(c1[0 + i as int]));
        lemma_walk_diff(first, c2[i as int], idx, tail2);
        lemma_rsize_render(first);
        lemma_walk_children_diff(c1, c2, curs, i + 1, idx + size, tail);
        let r = walk(origs[i as int], curs[i as int], idx, ps);
        let rc = walk_children(origs, curs, i + 1, idx + size, tail2);
        assert(walk_children(origs, curs, i, idx, ps) == (seq![r.0] + rc.0, rc.1));
        assert forall|j: int| 0 <= j < c2.len() - i implies obs_eq(
            #[trigger] walk_children(origs, curs, i, idx, ps).0[j],
            render(c2[i + j]),
        ) by {
            if j > 0 {
                assert((seq![r.0] + rc.0)[j] == rc.0[j - 1]);
                assert(i + 1 + (j - 1) == i + j);
            }
        }
    } else {
        assert(ps =~= tail);
        if i <= c2.len() {
            assert forall|j: int| 0 <= j < c2.len() - i implies obs_eq(
                #[trigger] walk_children(origs, curs, i, idx, ps).0[j],
                render(c2[i + j]),
            ) by {
                assert(walk_children(origs, curs, i, idx, ps).0[j] == curs[i + j]);
                lemma_obs_refl(render(c2[i + j]));
            }
        }
    }
}

/// Applying the patches of `diff(old, new)` to a rendering of `old`, by a
/// walk that visits every node of that rendering in pre-order and applies
/// each patch at the node whose rank it carries, consumes every patch and
/// yields a rendering that looks like a fresh rendering of `new`. This holds
/// for trees with merged attributes, where the elements that the differ keeps
/// have the same namespace on both sides.
pub proof fn lemma_round_trip(old: Node, new: Node)
    requires
        wf(old),
        wf(new),
        ns_agree(old, new),
    ensures
        walk(render(old), render(old), 0, diff_spec(old, new, 0)).1 == Seq::<PatchModel>::empty(),
        obs_eq(walk(render(old), render(old), 0, diff_spec(old, new, 0)).0, render(new)),
{
    let ds = diff_spec(old, new, 0);
    assert(ds + Seq::<PatchModel>::empty() =~= ds);
    lemma_walk_diff(old, new, 0, Seq::empty());
}

} // verus!
