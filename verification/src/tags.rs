//! Semantic labels that the external tagging collaborators attach to tracked
//! entities: a tag has a name and a set of named parameter values.

use vstd::prelude::*;

verus! {

/// One parameter value of a tag.
#[derive(Clone, Debug, PartialEq)]
pub enum TagValue {
    Byte(u8),
    Text(String),
    Boolean(bool),
}

/// One named parameter of a tag.
#[derive(Clone, Debug, PartialEq)]
pub struct TagParameter {
    pub name: String,
    pub value: TagValue,
}

/// One semantic label: a tag name with its parameters.
#[derive(Clone, Debug, PartialEq)]
pub struct Tag {
    pub name: String,
    pub parameters: Vec<TagParameter>,
}

} // verus!
