//! Nodes, attributes and attribute values, with the comparison rules that the
//! differ applies to them.
use vstd::prelude::*;

verus! {

/// A primitive attribute value.
#[derive(Debug, PartialEq)]
pub enum Value {
    Str(String),
    Int(i64),
    Bool(bool),
}

/// One `(property, value)` entry of a style list.
#[derive(Debug, PartialEq)]
pub struct Style {
    pub name: String,
    pub value: Value,
}

/// A single value carried by an attribute.
#[derive(Debug)]
pub enum AttrValue {
    Simple(Value),
    Style(Vec<Style>),
    /// An event handler, known to the tree only by an opaque handle. Handlers
    /// are never compared by content.
    Listener(u64),
}

/// A named attribute with the merged sequence of its values.
#[derive(Debug, PartialEq)]
pub struct Attribute {
    pub namespace: Option<String>,
    pub name: String,
    pub values: Vec<AttrValue>,
}

/// A node of a virtual tree: an element or a text.
#[derive(Debug, PartialEq)]
pub enum Node {
    Element {
        namespace: Option<String>,
        tag: String,
        attrs: Vec<Attribute>,
        children: Vec<Node>,
    },
    Text(String),
}

/// Primitive values are equal when they are the same kind and hold the same
/// content.
pub open spec fn value_eq(a: Value, b: Value) -> bool {
    match (a, b) {
        (Value::Str(x), Value::Str(y)) => x@ == y@,
        (Value::Int(x), Value::Int(y)) => x == y,
        (Value::Bool(x), Value::Bool(y)) => x == y,
        _ => false,
    }
}

pub open spec fn style_eq(a: Style, b: Style) -> bool {
    a.name@ == b.name@ && value_eq(a.value, b.value)
}

pub open spec fn styles_eq(a: Seq<Style>, b: Seq<Style>) -> bool {
    a.len() == b.len() && forall|i: int| 0 <= i < a.len() ==> style_eq(#[trigger] a[i], b[i])
}

/// Two attribute values match when they are equal simple values, equal style
/// lists (order included), or both listeners: a listener's handler is never
/// looked at.
pub open spec fn attr_value_eq(a: AttrValue, b: AttrValue) -> bool {
    match (a, b) {
        (AttrValue::Simple(x), AttrValue::Simple(y)) => value_eq(x, y),
        (AttrValue::Style(x), AttrValue::Style(y)) => styles_eq(x@, y@),
        (AttrValue::Listener(_), AttrValue::Listener(_)) => true,
        _ => false,
    }
}

/// Two value sequences match position by position.
pub open spec fn values_eq(a: Seq<AttrValue>, b: Seq<AttrValue>) -> bool {
    a.len() == b.len() && forall|i: int| 0 <= i < a.len() ==> attr_value_eq(#[trigger] a[i], b[i])
}

/// The values are all listeners, and there is at least one.
pub open spec fn listeners_only(a: Seq<AttrValue>) -> bool {
    a.len() > 0 && forall|i: int| 0 <= i < a.len() ==> #[trigger] a[i] is Listener
}

/// Two merged value sequences of one attribute name match when they are
/// equal position by position, or when both hold listeners only: handlers
/// are never compared, whatever their number.
pub open spec fn values_match(a: Seq<AttrValue>, b: Seq<AttrValue>) -> bool {
    values_eq(a, b) || (listeners_only(a) && listeners_only(b))
}

fn value_equal(a: &Value, b: &Value) -> (r: bool)
    ensures
        r == value_eq(*a, *b),
{
    match (a, b) {
        (Value::Str(x), Value::Str(y)) => *x == *y,
        (Value::Int(x), Value::Int(y)) => *x == *y,
        (Value::Bool(x), Value::Bool(y)) => *x == *y,
        _ => false,
    }
}

fn styles_equal(a: &Vec<Style>, b: &Vec<Style>) -> (r: bool)
    ensures
        r == styles_eq(a@, b@),
{
    if a.len() != b.len() {
        return false;
    }
    let mut i: usize = 0;
    while i < a.len()
        invariant
            a.len() == b.len(),
            i <= a.len(),
            forall|j: int| 0 <= j < i ==> style_eq(#[trigger] a@[j], b@[j]),
        decreases a.len() - i,
    {
        if !(a[i].name == b[i].name && value_equal(&a[i].value, &b[i].value)) {
            return false;
        }
        i = i + 1;
    }
    true
}

fn attr_value_equal(a: &AttrValue, b: &AttrValue) -> (r: bool)
    ensures
        r == attr_value_eq(*a, *b),
{
    match (a, b) {
        (AttrValue::Simple(x), AttrValue::Simple(y)) => value_equal(x, y),
        (AttrValue::Style(x), AttrValue::Style(y)) => styles_equal(x, y),
        (AttrValue::Listener(_), AttrValue::Listener(_)) => true,
        _ => false,
    }
}

/// Compares two merged value sequences, order included.
pub fn values_equal(a: &Vec<AttrValue>, b: &Vec<AttrValue>) -> (r: bool)
    ensures
        r == values_eq(a@, b@),
{
    if a.len() != b.len() {
        return false;
    }
    let mut i: usize = 0;
    while i < a.len()
        invariant
            a.len() == b.len(),
            i <= a.len(),
            forall|j: int| 0 <= j < i ==> attr_value_eq(#[trigger] a@[j], b@[j]),
        decreases a.len() - i,
    {
        if !attr_value_equal(&a[i], &b[i]) {
            return false;
        }
        i = i + 1;
    }
    true
}


fn listeners_only_exec(a: &Vec<AttrValue>) -> (r: bool)
    ensures
        r == listeners_only(a@),
{
    if a.len() == 0 {
        return false;
    }
    let mut i: usize = 0;
    while i < a.len()
        invariant
            i <= a.len(),
            forall|j: int| 0 <= j < i ==> #[trigger] a@[j] is Listener,
        decreases a.len() - i,
    {
        match &a[i] {
            AttrValue::Listener(_) => {},
            _ => return false,
        }
        i = i + 1;
    }
    true
}

/// Decides whether two merged value sequences match.
pub fn values_match_exec(a: &Vec<AttrValue>, b: &Vec<AttrValue>) -> (r: bool)
    ensures
        r == values_match(a@, b@),
{
    values_equal(a, b) || (listeners_only_exec(a) && listeners_only_exec(b))
}

/// Attribute values compare as the differ compares them: listeners are equal
/// whatever their handlers.
impl PartialEq for AttrValue {
    fn eq(&self, other: &AttrValue) -> (r: bool) {
        attr_value_equal(self, other)
    }
}

impl vstd::std_specs::cmp::PartialEqSpecImpl for AttrValue {
    open spec fn obeys_eq_spec() -> bool {
        true
    }

    open spec fn eq_spec(&self, other: &AttrValue) -> bool {
        attr_value_eq(*self, *other)
    }
}

} // verus!
