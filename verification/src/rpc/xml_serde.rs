//! The capability of a record to write itself into the document model.

use vstd::prelude::*;

use crate::types::{version_children, Version};
use crate::xml::{Node, XNode};

verus! {

/// A record that renders its fields as child elements of a given node,
/// without opening a tag of its own.
pub trait SerializeInto {
    /// The child elements this record appends, in order.
    spec fn serialized_children(&self) -> Seq<XNode>;

    fn serialize_into(&self, node: Node) -> (r: Node)
        ensures
            r@.tag == node@.tag,
            r@.content == node@.content,
            r@.children == node@.children + self.serialized_children(),
    ;
}

impl SerializeInto for Version {
    open spec fn serialized_children(&self) -> Seq<XNode> {
        version_children(*self)
    }

    fn serialize_into(&self, node: Node) -> (r: Node) {
        let mut node = node;
        let ghost orig = node@;
        node.add_new_content_child("major", self.major);
        node.add_new_content_child("minor", self.minor);
        node.add_new_content_child("release", self.release);
        proof {
            assert(node@.children =~= orig.children + version_children(*self));
        }
        node
    }
}

} // verus!
