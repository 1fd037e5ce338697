//! Message descriptors: a name and an opaque payload-type token.

use vstd::prelude::*;
use crate::role::{clone_opt_string, opt_string_eq, opt_text};

verus! {

/// A message of the protocol's alphabet. The payload and type annotation are
/// opaque tokens, kept and compared by their text only.
#[derive(Debug)]
pub struct MessageType {
    pub name: String,
    pub type_annotation: Option<String>,
    pub payload: Option<String>,
}

impl MessageType {
    /// The name that identifies the message type in generated code.
    pub fn to_ident(&self) -> (r: String)
        ensures
            r == self.name,
    {
        self.name.clone()
    }

    /// A copy of the descriptor with every field kept.
    pub fn copy(&self) -> (r: MessageType)
        ensures
            r == *self,
    {
        MessageType {
            name: self.name.clone(),
            type_annotation: clone_opt_string(&self.type_annotation),
            payload: clone_opt_string(&self.payload),
        }
    }

    /// Descriptor identity: equal names and equal payload text.
    pub fn same_as(&self, other: &MessageType) -> (r: bool)
        ensures
            r == (self.name@ == other.name@ && opt_text(self.payload) == opt_text(other.payload)),
    {
        self.name == other.name && opt_string_eq(&self.payload, &other.payload)
    }
}

impl Clone for MessageType {
    fn clone(&self) -> (r: MessageType)
        ensures
            r == *self,
    {
        self.copy()
    }
}

impl PartialEq for MessageType {
    fn eq(&self, other: &MessageType) -> (r: bool) {
        self.same_as(other)
    }
}

impl vstd::std_specs::cmp::PartialEqSpecImpl for MessageType {
    open spec fn obeys_eq_spec() -> bool {
        true
    }

    open spec fn eq_spec(&self, other: &MessageType) -> bool {
        self.name@ == other.name@ && opt_text(self.payload) == opt_text(other.payload)
    }
}

impl Eq for MessageType {}

} // verus!
