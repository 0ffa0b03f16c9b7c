//! Properties of the differ, proved over its specification.
use vstd::prelude::*;
use crate::node::{AttrValue, Attribute, Node, attr_value_eq, style_eq, value_eq, values_eq, values_match};
use crate::diff::{
    added_by, attr_patches, attrs_to_add, attrs_to_remove, diff_children_spec, diff_spec, first_key,
    forest_size, has_match, has_name, is_key, keys_differ, length_patches, removed_by, tree_size,
};
use crate::patch::PatchModel;
use crate::html::{attr_models, merged};

verus! {

pub(crate) proof fn lemma_values_eq_refl(a: Seq<AttrValue>)
    ensures
        values_eq(a, a),
{
    assert forall|i: int| 0 <= i < a.len() implies attr_value_eq(#[trigger] a[i], a[i]) by {
        match a[i] {
            AttrValue::Style(s) => {
                assert forall|k: int| 0 <= k < s@.len() implies style_eq(#[trigger] s@[k], s@[k]) by {
                    assert(value_eq(s@[k].value, s@[k].value));
                }
            },
            _ => {},
        }
    }
}

proof fn lemma_filter_none<A>(s: Seq<A>, p: spec_fn(A) -> bool)
    requires
        forall|i: int| 0 <= i < s.len() ==> !p(#[trigger] s[i]),
    ensures
        s.filter(p) == Seq::<A>::empty(),
    decreases s.len(),
{
    reveal_with_fuel(Seq::filter, 1);
    if s.len() > 0 {
        let t = s.drop_last();
        assert forall|i: int| 0 <= i < t.len() implies !p(#[trigger] t[i]) by {
            assert(t[i] == s[i]);
        }
        lemma_filter_none(t, p);
        assert(s.filter(p) =~= Seq::<A>::empty());
    } else {
        assert(s.filter(p) =~= Seq::<A>::empty());
    }
}

proof fn lemma_attr_patches_refl(tag: Seq<char>, idx: nat, a: Seq<Attribute>)
    ensures
        attr_patches(tag, idx, a, a) == Seq::<PatchModel>::empty(),
{
    assert forall|i: int| 0 <= i < a.len() implies !added_by(a)(#[trigger] a[i]) by {
        lemma_values_eq_refl(a[i].values@);
        assert(a[i].name@ == a[i].name@ && values_eq(a[i].values@, a[i].values@));
        assert(has_match(a, a[i].name@, a[i].values@));
    }
    lemma_filter_none(a, added_by(a));
    assert forall|i: int| 0 <= i < a.len() implies !removed_by(a)(#[trigger] a[i]) by {
        assert(a[i].name@ == a[i].name@);
        assert(has_name(a, a[i].name@));
    }
    lemma_filter_none(a, removed_by(a));
    assert(attr_patches(tag, idx, a, a) =~= Seq::<PatchModel>::empty());
}

/// Diffing a tree against itself yields no patch.
pub proof fn lemma_diff_identity(t: Node, idx: nat)
    ensures
        diff_spec(t, t, idx) == Seq::<PatchModel>::empty(),
    decreases t, 0int,
{
    match t {
        Node::Text(_) => {},
        Node::Element { tag, attrs, children, .. } => {
            match first_key(attrs@, 0) {
                Some(k) => lemma_values_eq_refl(attrs@[k].values@),
                None => {},
            }
            assert(!keys_differ(attrs@, attrs@));
            lemma_attr_patches_refl(tag@, idx, attrs@);
            lemma_diff_children_identity(children@, 0, idx + 1);
            assert(diff_spec(t, t, idx) =~= Seq::<PatchModel>::empty());
        },
    }
}

/// Diffing a list of children against itself yields no patch.
pub proof fn lemma_diff_children_identity(ns: Seq<Node>, i: nat, idx: nat)
    ensures
        diff_children_spec(ns, ns, i, idx) == Seq::<PatchModel>::empty(),
    decreases ns, ns.len() - i,
{
    if i < ns.len() {
        lemma_diff_identity(ns[i as int], idx);
        lemma_diff_children_identity(ns, i + 1, idx + tree_size(ns[i as int]));
        assert(diff_children_spec(ns, ns, i, idx) =~= Seq::<PatchModel>::empty());
    }
}


/// The nodes of a tree in pre-order: the node itself, then the subtrees of its
/// children from left to right.
pub open spec fn preorder(n: Node) -> Seq<Node>
    decreases n, 0int,
{
    match n {
        Node::Text(_) => seq![n],
        Node::Element { children, .. } => seq![n] + preorder_forest(children@, 0),
    }
}

/// The pre-order walks of the trees `ns[i..]`, one after another.
pub open spec fn preorder_forest(ns: Seq<Node>, i: nat) -> Seq<Node>
    decreases ns, ns.len() - i,
{
    if i < ns.len() {
        preorder(ns[i as int]) + preorder_forest(ns, i + 1)
    } else {
        Seq::empty()
    }
}

/// The index that a patch addresses.
pub open spec fn patch_index(p: PatchModel) -> nat {
    match p {
        PatchModel::AddAttributes(_, i, _) => i,
        PatchModel::RemoveAttributes(_, i, _) => i,
        PatchModel::ChangeText(i, _) => i,
        PatchModel::TruncateChildren(_, i, _) => i,
        PatchModel::AppendChildren(_, i, _) => i,
        PatchModel::Replace(_, i, _) => i,
    }
}

/// The patch can apply to this node: an element of the tag that it names, or a
/// text where it changes or replaces a text.
pub open spec fn fits(p: PatchModel, n: Node) -> bool {
    match p {
        PatchModel::AddAttributes(t, _, _) => n is Element && n->tag@ == t,
        PatchModel::RemoveAttributes(t, _, _) => n is Element && n->tag@ == t,
        PatchModel::ChangeText(_, _) => n is Text,
        PatchModel::TruncateChildren(t, _, _) => n is Element && n->tag@ == t,
        PatchModel::AppendChildren(t, _, _) => n is Element && n->tag@ == t,
        PatchModel::Replace(Some(t), _, _) => n is Element && n->tag@ == t,
        PatchModel::Replace(None, _, _) => n is Text,
    }
}

/// Each patch addresses, by `base` plus its position in `nodes`, a node of
/// `nodes` that it fits.
pub open spec fn all_fit(ps: Seq<PatchModel>, base: nat, nodes: Seq<Node>) -> bool {
    forall|k: int|
        0 <= k < ps.len() ==> base <= patch_index(#[trigger] ps[k]) < base + nodes.len() && fits(
            ps[k],
            nodes[patch_index(ps[k]) - base],
        )
}

proof fn lemma_fit_concat(a: Seq<PatchModel>, b: Seq<PatchModel>, base: nat, nodes: Seq<Node>)
    requires
        all_fit(a, base, nodes),
        all_fit(b, base, nodes),
    ensures
        all_fit(a + b, base, nodes),
{
    assert forall|k: int| 0 <= k < (a + b).len() implies base <= patch_index(#[trigger] (a + b)[k]) < base
        + nodes.len() && fits((a + b)[k], nodes[patch_index((a + b)[k]) - base]) by {
        if k < a.len() {
            assert((a + b)[k] == a[k]);
        } else {
            assert((a + b)[k] == b[k - a.len()]);
        }
    }
}

proof fn lemma_fit_widen(ps: Seq<PatchModel>, base: nat, nodes: Seq<Node>, pre: Seq<Node>, post: Seq<Node>)
    requires
        all_fit(ps, base, nodes),
        base >= pre.len(),
    ensures
        all_fit(ps, (base - pre.len()) as nat, pre + nodes + post),
{
    let all = pre + nodes + post;
    assert forall|k: int| 0 <= k < ps.len() implies (base - pre.len()) as nat <= patch_index(#[trigger] ps[k])
        < (base - pre.len()) as nat + all.len() && fits(ps[k], all[patch_index(ps[k]) - (base - pre.len()) as nat]) by {
        let j = patch_index(ps[k]) - base;
        assert(all[j + pre.len()] == nodes[j]);
    }
}

proof fn lemma_preorder_len(n: Node)
    ensures
        preorder(n).len() == tree_size(n),
    decreases n, 0int,
{
    match n {
        Node::Text(_) => {},
        Node::Element { children, .. } => lemma_preorder_forest_len(children@, 0),
    }
}

proof fn lemma_preorder_forest_len(ns: Seq<Node>, i: nat)
    ensures
        preorder_forest(ns, i).len() == forest_size(ns, i),
    decreases ns, ns.len() - i,
{
    if i < ns.len() {
        lemma_preorder_len(ns[i as int]);
        lemma_preorder_forest_len(ns, i + 1);
    }
}

/// Every patch of `diff_spec(old, new, idx)` addresses, at `idx` plus a
/// node's position in the pre-order walk of `old`, a node that it fits. The
/// addresses depend on the shape of the old tree alone.
pub proof fn lemma_diff_addresses(old: Node, new: Node, idx: nat)
    ensures
        all_fit(diff_spec(old, new, idx), idx, preorder(old)),
    decreases old, 0int,
{
    lemma_preorder_len(old);
    let ps = diff_spec(old, new, idx);
    match old {
        Node::Text(_) => {
            assert(preorder(old)[0] == old);
        },
        Node::Element { tag: t1, attrs: a1, children: c1, .. } => {
            assert(preorder(old)[0] == old);
            match new {
                Node::Element { tag: t2, attrs: a2, children: c2, .. } => {
                    if t1@ != t2@ || keys_differ(a1@, a2@) {
                    } else {
                        let own = attr_patches(t1@, idx, a1@, a2@) + length_patches(t1@, idx, c1@, c2@);
                        assert(all_fit(own, idx, preorder(old)));
                        let below = diff_children_spec(c1@, c2@, 0, idx + 1);
                        lemma_diff_children_addresses(c1@, c2@, 0, idx + 1);
                        lemma_fit_widen(below, idx + 1, preorder_forest(c1@, 0), seq![old], Seq::empty());
                        assert(seq![old] + preorder_forest(c1@, 0) + Seq::<Node>::empty() =~= preorder(old));
                        lemma_fit_concat(own, below, idx, preorder(old));
                    }
                },
                _ => {},
            }
        },
    }
}

/// Every patch of the children's diff addresses, at `idx` plus a node's
/// position in the pre-order walk of `olds[i..]`, a node that it fits.
pub proof fn lemma_diff_children_addresses(olds: Seq<Node>, news: Seq<Node>, i: nat, idx: nat)
    ensures
        all_fit(diff_children_spec(olds, news, i, idx), idx, preorder_forest(olds, i)),
    decreases olds, olds.len() - i,
{
    if i < olds.len() && i < news.len() {
        let first = olds[i as int];
        let size = tree_size(first);
        lemma_preorder_len(first);
        lemma_diff_addresses(first, news[i as int], idx);
        lemma_diff_children_addresses(olds, news, i + 1, idx + size);
        let here = diff_spec(first, news[i as int], idx);
        let rest = diff_children_spec(olds, news, i + 1, idx + size);
        lemma_fit_widen(here, idx, preorder(first), Seq::empty(), preorder_forest(olds, i + 1));
        assert(Seq::<Node>::empty() + preorder(first) + preorder_forest(olds, i + 1) =~= preorder_forest(olds, i));
        lemma_fit_widen(rest, idx + size, preorder_forest(olds, i + 1), preorder(first), Seq::empty());
        assert(preorder(first) + preorder_forest(olds, i + 1) + Seq::<Node>::empty() =~= preorder_forest(olds, i));
        lemma_fit_concat(here, rest, idx, preorder_forest(olds, i));
    }
}

/// Every patch that `diff` emits addresses a node of the old tree by its
/// pre-order rank, and fits that node.
pub proof fn lemma_index_stability(old: Node, new: Node)
    ensures
        forall|k: int|
            0 <= k < diff_spec(old, new, 0).len() ==> patch_index(#[trigger] diff_spec(old, new, 0)[k]) < tree_size(old)
                && fits(diff_spec(old, new, 0)[k], preorder(old)[patch_index(diff_spec(old, new, 0)[k]) as int]),
{
    lemma_diff_addresses(old, new, 0);
    lemma_preorder_len(old);
}


/// No two attributes of the list share a name, as merging guarantees.
pub open spec fn names_unique(a: Seq<Attribute>) -> bool {
    forall|i: int, j: int|
        0 <= i < a.len() && 0 <= j < a.len() && #[trigger] a[i].name@ == #[trigger] a[j].name@ ==> i == j
}

/// Every attribute of each list stands in the other one.
pub open spec fn same_attributes(a: Seq<Attribute>, b: Seq<Attribute>) -> bool {
    (forall|i: int| 0 <= i < b.len() ==> exists|j: int| 0 <= j < a.len() && a[j] == #[trigger] b[i])
        && (forall|i: int| 0 <= i < a.len() ==> exists|j: int| 0 <= j < b.len() && b[j] == #[trigger] a[i])
}

proof fn lemma_first_key(attrs: Seq<Attribute>, i: nat)
    ensures
        match first_key(attrs, i) {
            Some(k) => i <= k < attrs.len() && is_key(attrs[k]),
            None => forall|j: int| i <= j < attrs.len() ==> !is_key(#[trigger] attrs[j]),
        },
    decreases attrs.len() - i,
{
    if i < attrs.len() {
        lemma_first_key(attrs, i + 1);
    }
}

/// Two elements with the same tag and children, whose merged attributes are
/// the same but declared in another order, yield no patch.
pub proof fn lemma_attribute_order_irrelevant(old: Node, new: Node, idx: nat)
    requires
        old is Element,
        new is Element,
        old->tag@ == new->tag@,
        old->children == new->children,
        names_unique(old->attrs@),
        names_unique(new->attrs@),
        same_attributes(old->attrs@, new->attrs@),
    ensures
        diff_spec(old, new, idx) == Seq::<PatchModel>::empty(),
{
    let a1 = old->attrs@;
    let a2 = new->attrs@;
    lemma_first_key(a1, 0);
    lemma_first_key(a2, 0);
    match first_key(a1, 0) {
        Some(k) => {
            let j = choose|j: int| 0 <= j < a2.len() && a2[j] == a1[k];
            assert(a2[j] == a1[k]);
            assert(is_key(a2[j]));
            let m = first_key(a2, 0)->0;
            assert(a2[m].name@ == a2[j].name@);
            lemma_values_eq_refl(a1[k].values@);
        },
        None => {},
    }
    assert(!keys_differ(a1, a2));
    assert forall|i: int| 0 <= i < a2.len() implies !added_by(a1)(#[trigger] a2[i]) by {
        let j = choose|j: int| 0 <= j < a1.len() && a1[j] == a2[i];
        lemma_values_eq_refl(a2[i].values@);
        assert(a1[j].name@ == a2[i].name@ && values_eq(a1[j].values@, a2[i].values@));
    }
    lemma_filter_none(a2, added_by(a1));
    assert forall|i: int| 0 <= i < a1.len() implies !removed_by(a2)(#[trigger] a1[i]) by {
        let j = choose|j: int| 0 <= j < a2.len() && a2[j] == a1[i];
        assert(a2[j].name@ == a1[i].name@);
    }
    lemma_filter_none(a1, removed_by(a2));
    assert(attr_patches(old->tag@, idx, a1, a2) =~= Seq::<PatchModel>::empty());
    lemma_diff_children_identity(old->children@, 0, idx + 1);
    assert(diff_spec(old, new, idx) =~= Seq::<PatchModel>::empty());
}


/// The attributes a rendered element holds: each name with the values of the
/// last declaration of that name.
pub open spec fn attr_state(s: Seq<Attribute>) -> Map<Seq<char>, Seq<AttrValue>>
    decreases s.len(),
{
    if s.len() == 0 {
        Map::empty()
    } else {
        attr_state(s.drop_last()).insert(s.last().name@, s.last().values@)
    }
}

/// The names of the attributes, in order.
pub open spec fn attr_names(s: Seq<Attribute>) -> Seq<Seq<char>> {
    s.map_values(|x: Attribute| x.name@)
}

/// Applies one patch to the attributes of an element: `AddAttributes` sets
/// or overwrites by name, `RemoveAttributes` deletes by name; other patches
/// leave attributes alone.
pub open spec fn apply_attr_patch(state: Map<Seq<char>, Seq<AttrValue>>, p: PatchModel) -> Map<
    Seq<char>,
    Seq<AttrValue>,
> {
    match p {
        PatchModel::AddAttributes(_, _, a) => state.union_prefer_right(attr_state(a)),
        PatchModel::RemoveAttributes(_, _, a) => state.remove_keys(attr_names(a).to_set()),
        _ => state,
    }
}

/// Applies the attribute patches of a sequence, first to last.
pub open spec fn apply_attr_patches(state: Map<Seq<char>, Seq<AttrValue>>, ps: Seq<PatchModel>) -> Map<
    Seq<char>,
    Seq<AttrValue>,
>
    decreases ps.len(),
{
    if ps.len() == 0 {
        state
    } else {
        apply_attr_patches(apply_attr_patch(state, ps[0]), ps.drop_first())
    }
}

proof fn lemma_attr_state(s: Seq<Attribute>, x: Seq<char>)
    ensures
        attr_state(s).contains_key(x) == has_name(s, x),
        attr_state(s).contains_key(x) ==> exists|j: int|
            0 <= j < s.len() && #[trigger] s[j].name@ == x && attr_state(s)[x] == s[j].values@,
    decreases s.len(),
{
    if s.len() > 0 {
        let t = s.drop_last();
        lemma_attr_state(t, x);
        if has_name(t, x) {
            let j = choose|j: int| 0 <= j < t.len() && #[trigger] t[j].name@ == x;
            assert(s[j].name@ == x);
        }
        if has_name(s, x) && s.last().name@ != x {
            let j = choose|j: int| 0 <= j < s.len() && #[trigger] s[j].name@ == x;
            assert(t[j].name@ == x);
        }
        if attr_state(s).contains_key(x) {
            if s.last().name@ == x {
                assert(s[s.len() - 1].name@ == x);
            } else {
                let j = choose|j: int| 0 <= j < t.len() && #[trigger] t[j].name@ == x && attr_state(t)[x] == t[j].values@;
                assert(s[j].name@ == x);
            }
        }
    }
}

/// Applying the attribute patches of one node to the attributes of the old
/// node gives the attributes of the new node, for every name but the key:
/// the same names, with values that match as the differ compares them.
pub proof fn lemma_attribute_patches_reach_new(
    tag: Seq<char>,
    idx: nat,
    old: Seq<Attribute>,
    new: Seq<Attribute>,
    x: Seq<char>,
)
    requires
        names_unique(old),
        names_unique(new),
        x != "key"@,
    ensures
        apply_attr_patches(attr_state(old), attr_patches(tag, idx, old, new)).contains_key(x)
            == attr_state(new).contains_key(x),
        apply_attr_patches(attr_state(old), attr_patches(tag, idx, old, new)).contains_key(x) ==> values_match(
            apply_attr_patches(attr_state(old), attr_patches(tag, idx, old, new))[x],
            attr_state(new)[x],
        ),
{
    let add = attrs_to_add(old, new);
    let rem = attrs_to_remove(old, new);
    let names = attr_names(rem).to_set();
    let after = attr_state(old).union_prefer_right(attr_state(add)).remove_keys(names);
    // The patches apply as one union then one removal.
    let ps = attr_patches(tag, idx, old, new);
    let p_add = if add.len() > 0 {
        seq![PatchModel::AddAttributes(tag, idx, add)]
    } else {
        Seq::<PatchModel>::empty()
    };
    let p_rem = if rem.len() > 0 {
        seq![PatchModel::RemoveAttributes(tag, idx, rem)]
    } else {
        Seq::<PatchModel>::empty()
    };
    assert(ps == p_add + p_rem);
    assert(attr_state(Seq::<Attribute>::empty()) == Map::<Seq<char>, Seq<AttrValue>>::empty());
    let mid = attr_state(old).union_prefer_right(attr_state(add));
    if rem.len() > 0 {
        assert(p_rem.drop_first() =~= Seq::<PatchModel>::empty());
        assert(p_rem[0] == PatchModel::RemoveAttributes(tag, idx, rem));
        assert(apply_attr_patch(mid, p_rem[0]) == after);
        assert(apply_attr_patches(after, Seq::<PatchModel>::empty()) == after);
        assert(apply_attr_patches(mid, p_rem) == after);
    } else {
        assert(rem =~= Seq::<Attribute>::empty());
        assert(names =~= Set::<Seq<char>>::empty());
        assert(after =~= mid);
        assert(apply_attr_patches(mid, p_rem) == after);
    }
    if add.len() > 0 {
        assert((p_add + p_rem)[0] == p_add[0]);
        assert((p_add + p_rem).drop_first() =~= p_rem);
        assert(apply_attr_patches(attr_state(old), ps) == after);
    } else {
        assert(add =~= Seq::<Attribute>::empty());
        assert(mid =~= attr_state(old));
        assert(p_add + p_rem =~= p_rem);
        assert(apply_attr_patches(attr_state(old), ps) == after);
    }
    lemma_attr_state(old, x);
    lemma_attr_state(new, x);
    lemma_attr_state(add, x);
    let in_rem = names.contains(x);
    if in_rem {
        let k = choose|k: int| 0 <= k < rem.len() && #[trigger] attr_names(rem)[k] == x;
        old.lemma_filter_pred(removed_by(new), k);
        assert(removed_by(new)(rem[k]));
        assert(!has_name(new, x));
        assert(rem.contains(rem[k]));
        old.lemma_filter_contains_rev(removed_by(new), rem[k]);
        let j = choose|j: int| 0 <= j < old.len() && old[j] == rem[k];
        assert(old[j].name@ == x);
    }
    if has_name(new, x) {
        let e = choose|j: int| 0 <= j < new.len() && #[trigger] new[j].name@ == x;
        assert(!in_rem);
        let jn = choose|j: int| 0 <= j < new.len() && #[trigger] new[j].name@ == x && attr_state(new)[x] == new[j].values@;
        assert(jn == e);
        if has_match(old, x, new[e].values@) {
            assert(!added_by(old)(new[e]));
            if has_name(add, x) {
                let ja = choose|j: int| 0 <= j < add.len() && #[trigger] add[j].name@ == x;
                assert(add.contains(add[ja]));
                new.lemma_filter_contains_rev(added_by(old), add[ja]);
                let i2 = choose|i: int| 0 <= i < new.len() && new[i] == add[ja];
                assert(new[i2].name@ == x);
                new.lemma_filter_pred(added_by(old), ja);
                assert(added_by(old)(add[ja]));
                assert(false);
            }
            let jm = choose|j: int| 0 <= j < old.len() && #[trigger] old[j].name@ == x && values_match(old[j].values@, new[e].values@);
            let jo = choose|j: int| 0 <= j < old.len() && #[trigger] old[j].name@ == x && attr_state(old)[x] == old[j].values@;
            assert(jo == jm);
            assert(after[x] == attr_state(old)[x]);
        } else {
            assert(added_by(old)(new[e]));
            new.lemma_filter_contains(added_by(old), e);
            assert(add.contains(new[e]));
            let ja = choose|j: int| 0 <= j < add.len() && add[j] == new[e];
            assert(add[ja].name@ == x);
            let jv = choose|j: int| 0 <= j < add.len() && #[trigger] add[j].name@ == x && attr_state(add)[x] == add[j].values@;
            assert(add.contains(add[jv]));
            new.lemma_filter_contains_rev(added_by(old), add[jv]);
            let i2 = choose|i: int| 0 <= i < new.len() && new[i] == add[jv];
            assert(new[i2].name@ == x);
            assert(i2 == e);
            lemma_values_eq_refl(new[e].values@);
            assert(after[x] == attr_state(add)[x]);
        }
    } else {
        if has_name(add, x) {
            let ja = choose|j: int| 0 <= j < add.len() && #[trigger] add[j].name@ == x;
            assert(add.contains(add[ja]));
            new.lemma_filter_contains_rev(added_by(old), add[ja]);
            let i2 = choose|i: int| 0 <= i < new.len() && new[i] == add[ja];
            assert(new[i2].name@ == x);
        }
        if has_name(old, x) {
            let jo = choose|j: int| 0 <= j < old.len() && #[trigger] old[j].name@ == x;
            assert(removed_by(new)(old[jo]));
            old.lemma_filter_contains(removed_by(new), jo);
            assert(rem.contains(old[jo]));
            let k = choose|k: int| 0 <= k < rem.len() && rem[k] == old[jo];
            assert(attr_names(rem)[k] == x);
            assert(names.contains(x));
        }
        assert(!after.contains_key(x));
    }
}


/// Each merged attribute of `m2` has one in `m1` of the same namespace and
/// name whose values match it, and the other way round.
pub open spec fn same_merged_values(
    m1: Seq<(Option<Seq<char>>, Seq<char>, Seq<AttrValue>)>,
    m2: Seq<(Option<Seq<char>>, Seq<char>, Seq<AttrValue>)>,
) -> bool {
    &&& forall|i: int|
        0 <= i < m2.len() ==> exists|j: int|
            0 <= j < m1.len() && m1[j].0 == m2[i].0 && m1[j].1 == (#[trigger] m2[i]).1 && values_eq(m1[j].2, m2[i].2)
    &&& forall|j: int|
        0 <= j < m1.len() ==> exists|i: int|
            0 <= i < m2.len() && m1[j].0 == m2[i].0 && (#[trigger] m1[j]).1 == m2[i].1 && values_eq(m1[j].2, m2[i].2)
}

/// At most one merged attribute is named `key`.
pub open spec fn one_key(m: Seq<(Option<Seq<char>>, Seq<char>, Seq<AttrValue>)>) -> bool {
    forall|i: int, j: int|
        0 <= i < m.len() && 0 <= j < m.len() && (#[trigger] m[i]).1 == "key"@ && (#[trigger] m[j]).1 == "key"@
            ==> i == j
}

/// Two elements with the same tag and children, built from attribute
/// declarations that merge to the same values for every namespace and name,
/// yield no patch: neither the order of the declarations nor how values of
/// one name are split among declarations is observed.
pub proof fn lemma_declarations_merge_to_no_patch(
    old: Node,
    new: Node,
    d1: Seq<Attribute>,
    d2: Seq<Attribute>,
    idx: nat,
)
    requires
        old is Element,
        new is Element,
        old->tag@ == new->tag@,
        old->children == new->children,
        attr_models(old->attrs@) == merged(attr_models(d1)),
        attr_models(new->attrs@) == merged(attr_models(d2)),
        same_merged_values(merged(attr_models(d1)), merged(attr_models(d2))),
        one_key(merged(attr_models(d2))),
    ensures
        diff_spec(old, new, idx) == Seq::<PatchModel>::empty(),
{
    let a1 = old->attrs@;
    let a2 = new->attrs@;
    let m1 = attr_models(a1);
    let m2 = attr_models(a2);
    lemma_first_key(a1, 0);
    lemma_first_key(a2, 0);
    match (first_key(a1, 0), first_key(a2, 0)) {
        (Some(k), Some(k2)) => {
            assert(m1[k].1 == "key"@);
            let i = choose|i: int|
                0 <= i < m2.len() && m1[k].0 == m2[i].0 && m1[k].1 == m2[i].1 && values_eq(m1[k].2, m2[i].2);
            assert(m2[k2].1 == "key"@);
            assert(i == k2);
        },
        _ => {},
    }
    assert(!keys_differ(a1, a2));
    assert forall|i: int| 0 <= i < a2.len() implies !added_by(a1)(#[trigger] a2[i]) by {
        assert(m2[i].1 == a2[i].name@);
        let j = choose|j: int|
            0 <= j < m1.len() && m1[j].0 == m2[i].0 && m1[j].1 == m2[i].1 && values_eq(m1[j].2, m2[i].2);
        assert(a1[j].name@ == a2[i].name@ && values_match(a1[j].values@, a2[i].values@));
    }
    lemma_filter_none(a2, added_by(a1));
    assert forall|j: int| 0 <= j < a1.len() implies !removed_by(a2)(#[trigger] a1[j]) by {
        assert(m1[j].1 == a1[j].name@);
        let i = choose|i: int|
            0 <= i < m2.len() && m1[j].0 == m2[i].0 && m1[j].1 == m2[i].1 && values_eq(m1[j].2, m2[i].2);
        assert(a2[i].name@ == a1[j].name@);
    }
    lemma_filter_none(a1, removed_by(a2));
    assert(attr_patches(old->tag@, idx, a1, a2) =~= Seq::<PatchModel>::empty());
    lemma_diff_children_identity(old->children@, 0, idx + 1);
    assert(diff_spec(old, new, idx) =~= Seq::<PatchModel>::empty());
}

} // verus!
