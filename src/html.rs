//! Building trees: elements whose attributes of one name are merged, text
//! nodes, and the common attributes.
use vstd::prelude::*;
use crate::node::{AttrValue, Attribute, Node, Style, Value};

verus! {

pub open spec fn opt_view(o: Option<String>) -> Option<Seq<char>> {
    match o {
        Some(s) => Some(s@),
        None => None,
    }
}

/// An attribute as plain values: namespace, name and values.
pub open spec fn attr_model(a: Attribute) -> (Option<Seq<char>>, Seq<char>, Seq<AttrValue>) {
    (opt_view(a.namespace), a.name@, a.values@)
}

pub open spec fn attr_models(s: Seq<Attribute>) -> Seq<(Option<Seq<char>>, Seq<char>, Seq<AttrValue>)> {
    s.map_values(|a: Attribute| attr_model(a))
}

/// Position of the first attribute in `r[i..]` with this namespace and name.
pub open spec fn find_same(
    r: Seq<(Option<Seq<char>>, Seq<char>, Seq<AttrValue>)>,
    ns: Option<Seq<char>>,
    name: Seq<char>,
    i: nat,
) -> Option<int>
    decreases r.len() - i,
{
    if i < r.len() {
        if r[i as int].0 == ns && r[i as int].1 == name {
            Some(i as int)
        } else {
            find_same(r, ns, name, i + 1)
        }
    } else {
        None
    }
}

/// Adds one declaration to merged attributes: its values go to the end of
/// the attribute of the same namespace and name, or it is appended.
pub open spec fn merge_step(
    r: Seq<(Option<Seq<char>>, Seq<char>, Seq<AttrValue>)>,
    a: (Option<Seq<char>>, Seq<char>, Seq<AttrValue>),
) -> Seq<(Option<Seq<char>>, Seq<char>, Seq<AttrValue>)> {
    match find_same(r, a.0, a.1, 0) {
        Some(k) => r.update(k, (r[k].0, r[k].1, r[k].2 + a.2)),
        None => r.push(a),
    }
}

/// Declarations merged in order: one attribute per namespace and name, in the
/// order of first declaration, with the values of all its declarations
/// concatenated.
pub open spec fn merged(
    s: Seq<(Option<Seq<char>>, Seq<char>, Seq<AttrValue>)>,
) -> Seq<(Option<Seq<char>>, Seq<char>, Seq<AttrValue>)>
    decreases s.len(),
{
    if s.len() == 0 {
        Seq::empty()
    } else {
        merge_step(merged(s.drop_last()), s.last())
    }
}

fn same_namespace(a: &Option<String>, b: &Option<String>) -> (r: bool)
    ensures
        r == (opt_view(*a) == opt_view(*b)),
{
    match (a, b) {
        (Some(x), Some(y)) => *x == *y,
        (None, None) => true,
        _ => false,
    }
}

fn find_same_exec(r: &Vec<Attribute>, a: &Attribute) -> (k: Option<usize>)
    ensures
        match k {
            Some(k) => k < r.len() && find_same(attr_models(r@), opt_view(a.namespace), a.name@, 0)
                == Some(k as int),
            None => find_same(attr_models(r@), opt_view(a.namespace), a.name@, 0) is None,
        },
{
    let ghost m = attr_models(r@);
    let mut i: usize = 0;
    while i < r.len()
        invariant
            i <= r.len(),
            m == attr_models(r@),
            find_same(m, opt_view(a.namespace), a.name@, 0) == find_same(m, opt_view(a.namespace), a.name@, i as nat),
        decreases r.len() - i,
    {
        if same_namespace(&r[i].namespace, &a.namespace) && r[i].name == a.name {
            return Some(i);
        }
        i = i + 1;
    }
    None
}

/// Merges attribute declarations that share a namespace and a name into one
/// attribute that carries all their values, in declaration order.
pub fn merge_attributes(attrs: Vec<Attribute>) -> (r: Vec<Attribute>)
    ensures
        attr_models(r@) == merged(attr_models(attrs@)),
{
    let ghost input = attr_models(attrs@);
    let ghost n = attrs.len();
    let mut rest = attrs;
    let mut r: Vec<Attribute> = Vec::new();
    let mut i: usize = 0;
    assert(input.subrange(0, 0) =~= Seq::<(Option<Seq<char>>, Seq<char>, Seq<AttrValue>)>::empty());
    assert(attr_models(r@) =~= Seq::<(Option<Seq<char>>, Seq<char>, Seq<AttrValue>)>::empty());
    assert(attr_models(rest@) =~= input.subrange(0, n as int));
    while rest.len() > 0
        invariant
            i + rest.len() == n,
            n == input.len(),
            attr_models(r@) == merged(input.subrange(0, i as int)),
            attr_models(rest@) == input.subrange(i as int, n as int),
        decreases rest.len(),
    {
        let ghost before = attr_models(r@);
        let ghost rest0 = rest@;
        let mut a = rest.remove(0);
        assert(attr_models(rest0)[0] == input[i as int]);
        assert(attr_model(a) == input[i as int]);
        assert(attr_models(rest@) =~= input.subrange(i + 1, n as int)) by {
            assert(rest@ =~= rest0.subrange(1, rest0.len() as int));
            assert forall|j: int| 0 <= j < rest@.len() implies #[trigger] attr_models(rest@)[j] == input[i + 1 + j] by {
                assert(attr_models(rest0)[j + 1] == input[i + 1 + j]);
            }
        }
        assert(input.subrange(0, i + 1).drop_last() =~= input.subrange(0, i as int));
        match find_same_exec(&r, &a) {
            Some(k) => {
                let ghost am = attr_model(a);
                let ghost r0 = r@;
                let mut e = r.remove(k);
                let ghost em = attr_model(e);
                e.values.append(&mut a.values);
                assert(attr_model(e) == (em.0, em.1, em.2 + am.2));
                r.insert(k, e);
                assert(r@ =~= r0.update(k as int, e));
                assert(attr_models(r@) =~= before.update(k as int, (em.0, em.1, em.2 + am.2)));
            },
            None => {
                let ghost am = attr_model(a);
                r.push(a);
                assert(attr_models(r@) =~= before.push(am));
            },
        }
        i = i + 1;
    }
    assert(input.subrange(0, n as int) =~= input);
    r
}


/// Creates a text node.
pub fn text(s: &str) -> (r: Node)
    ensures
        r matches Node::Text(t) && t@ == s@,
{
    Node::Text(s.to_owned())
}

/// Creates an element in a namespace (or none), merging its attribute
/// declarations.
pub fn element_ns(namespace: Option<&str>, tag: &str, attrs: Vec<Attribute>, children: Vec<Node>) -> (r: Node)
    ensures
        r is Element,
        opt_view(r->namespace) == match namespace {
            Some(n) => Some(n@),
            None => None::<Seq<char>>,
        },
        r->tag@ == tag@,
        attr_models(r->attrs@) == merged(attr_models(attrs@)),
        r->children == children,
{
    let ns = match namespace {
        Some(n) => Some(n.to_owned()),
        None => None,
    };
    Node::Element { namespace: ns, tag: tag.to_owned(), attrs: merge_attributes(attrs), children }
}

/// Creates an element without a namespace, merging its attribute
/// declarations.
pub fn element(tag: &str, attrs: Vec<Attribute>, children: Vec<Node>) -> (r: Node)
    ensures
        r is Element,
        r->namespace is None,
        r->tag@ == tag@,
        attr_models(r->attrs@) == merged(attr_models(attrs@)),
        r->children == children,
{
    element_ns(None, tag, attrs, children)
}

/// Creates an html element of the given tag.
pub fn html_element(tag: &str, attrs: Vec<Attribute>, children: Vec<Node>) -> (r: Node)
    ensures
        r is Element,
        r->namespace is None,
        r->tag@ == tag@,
        attr_models(r->attrs@) == merged(attr_models(attrs@)),
        r->children == children,
{
    element(tag, attrs, children)
}

/// Creates an element of the given tag in a namespace, as svg elements need.
pub fn html_element_ns(tag: &str, namespace: &str, attrs: Vec<Attribute>, children: Vec<Node>) -> (r: Node)
    ensures
        r is Element,
        opt_view(r->namespace) == Some(namespace@),
        r->tag@ == tag@,
        attr_models(r->attrs@) == merged(attr_models(attrs@)),
        r->children == children,
{
    element_ns(Some(namespace), tag, attrs, children)
}

/// The node when the flag is set, an empty text otherwise.
pub fn view_if(flag: bool, node: Node) -> (r: Node)
    ensures
        flag ==> r == node,
        !flag ==> (r matches Node::Text(t) && t@ == Seq::<char>::empty()),
{
    if flag {
        node
    } else {
        proof {
            reveal_strlit("");
        }
        text("")
    }
}

/// An attribute with one simple value.
pub fn attr(name: &str, value: Value) -> (r: Attribute)
    ensures
        r.namespace is None,
        r.name@ == name@,
        r.values@ == seq![AttrValue::Simple(value)],
{
    let values = vec![AttrValue::Simple(value)];
    Attribute { namespace: None, name: name.to_owned(), values }
}

/// An attribute with several values.
pub fn with_multiple_values(namespace: Option<&str>, name: &str, values: Vec<AttrValue>) -> (r: Attribute)
    ensures
        opt_view(r.namespace) == match namespace {
            Some(n) => Some(n@),
            None => None::<Seq<char>>,
        },
        r.name@ == name@,
        r.values == values,
{
    let ns = match namespace {
        Some(n) => Some(n.to_owned()),
        None => None,
    };
    Attribute { namespace: ns, name: name.to_owned(), values }
}

/// A string attribute.
pub fn str_attr(name: &str, value: &str) -> (r: Attribute)
    ensures
        r.namespace is None,
        r.name@ == name@,
        r.values@.len() == 1,
        r.values@[0] matches AttrValue::Simple(Value::Str(v)) && v@ == value@,
{
    attr(name, Value::Str(value.to_owned()))
}

/// The `id` attribute.
pub fn id(v: &str) -> (r: Attribute)
    ensures
        r.namespace is None,
        r.name@ == "id"@,
        r.values@.len() == 1,
        r.values@[0] matches AttrValue::Simple(Value::Str(s)) && s@ == v@,
{
    str_attr("id", v)
}

/// The `class` attribute with one class.
pub fn class(v: &str) -> (r: Attribute)
    ensures
        r.namespace is None,
        r.name@ == "class"@,
        r.values@.len() == 1,
        r.values@[0] matches AttrValue::Simple(Value::Str(s)) && s@ == v@,
{
    str_attr("class", v)
}

/// The `value` attribute.
pub fn value(v: &str) -> (r: Attribute)
    ensures
        r.namespace is None,
        r.name@ == "value"@,
        r.values@.len() == 1,
        r.values@[0] matches AttrValue::Simple(Value::Str(s)) && s@ == v@,
{
    str_attr("value", v)
}

/// The `class` attribute with one value per class, in order.
pub fn classes(names: &[&str]) -> (r: Attribute)
    ensures
        r.namespace is None,
        r.name@ == "class"@,
        r.values@.len() == names@.len(),
        forall|i: int|
            0 <= i < names@.len() ==> (#[trigger] r.values@[i] matches AttrValue::Simple(Value::Str(s)) && s@
                == names@[i]@),
{
    let mut values: Vec<AttrValue> = Vec::new();
    let mut i: usize = 0;
    while i < names.len()
        invariant
            i <= names@.len(),
            values@.len() == i,
            forall|j: int|
                0 <= j < i ==> (#[trigger] values@[j] matches AttrValue::Simple(Value::Str(s)) && s@ == names@[j]@),
        decreases names@.len() - i,
    {
        values.push(AttrValue::Simple(Value::Str(names[i].to_owned())));
        i = i + 1;
    }
    Attribute { namespace: None, name: "class".to_owned(), values }
}

/// The identity key of a node.
pub fn key(k: i64) -> (r: Attribute)
    ensures
        r.namespace is None,
        r.name@ == "key"@,
        r.values@ == seq![AttrValue::Simple(Value::Int(k))],
{
    attr("key", Value::Int(k))
}

/// The `style` attribute with a list of `(property, value)` entries, in order.
pub fn styles(pairs: &[(&str, &str)]) -> (r: Attribute)
    ensures
        r.namespace is None,
        r.name@ == "style"@,
        r.values@.len() == 1,
        r.values@[0] matches AttrValue::Style(list) && list@.len() == pairs@.len() && forall|i: int|
            0 <= i < pairs@.len() ==> (#[trigger] list@[i]).name@ == pairs@[i].0@ && (list@[i].value matches Value::Str(
                s,
            ) && s@ == pairs@[i].1@),
{
    let mut list: Vec<Style> = Vec::new();
    let mut i: usize = 0;
    while i < pairs.len()
        invariant
            i <= pairs@.len(),
            list@.len() == i,
            forall|j: int|
                0 <= j < i ==> (#[trigger] list@[j]).name@ == pairs@[j].0@ && (list@[j].value matches Value::Str(s)
                    && s@ == pairs@[j].1@),
        decreases pairs@.len() - i,
    {
        let (n, v) = pairs[i];
        list.push(Style { name: n.to_owned(), value: Value::Str(v.to_owned()) });
        i = i + 1;
    }
    let values = vec![AttrValue::Style(list)];
    Attribute { namespace: None, name: "style".to_owned(), values }
}

/// The `style` attribute with a single entry.
pub fn style(name: &str, v: &str) -> (r: Attribute)
    ensures
        r.namespace is None,
        r.name@ == "style"@,
        r.values@.len() == 1,
        r.values@[0] matches AttrValue::Style(list) && list@.len() == 1 && list@[0].name@ == name@
            && (list@[0].value matches Value::Str(s) && s@ == v@),
{
    let list = vec![Style { name: name.to_owned(), value: Value::Str(v.to_owned()) }];
    let values = vec![AttrValue::Style(list)];
    Attribute { namespace: None, name: "style".to_owned(), values }
}

/// A listener for the named event, known by its handler handle.
pub fn on(event: &str, handler: u64) -> (r: Attribute)
    ensures
        r.namespace is None,
        r.name@ == event@,
        r.values@ == seq![AttrValue::Listener(handler)],
{
    let values = vec![AttrValue::Listener(handler)];
    Attribute { namespace: None, name: event.to_owned(), values }
}

} // verus!
