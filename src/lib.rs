//! A virtual DOM tree model and a positional diff engine that turns two tree
//! snapshots into an ordered list of patches addressed by pre-order index.
pub mod node;
pub mod patch;
pub mod diff;
pub mod laws;
pub mod html;
pub mod render;

pub use node::{AttrValue, Attribute, Node, Style, Value};
pub use patch::{Patch, PatchModel};
pub use diff::diff;
pub use html::{
    attr, class, classes, element, element_ns, html_element, html_element_ns, id, key, on, str_attr,
    style, styles, text, value, view_if, with_multiple_values,
};
