//! What the relay knows of each node: the services it announced.
use vstd::prelude::*;
use crate::keyed::KeyedList;
use crate::message::Service;

verus! {

/// The services a node announced.
#[derive(Debug)]
pub struct NodeShadow {
    pub services: Vec<Service>,
}

/// Node shadows by node id.
pub type NodeShadows = KeyedList<NodeShadow>;

/// The shadows of the built-in example: one node, `example-node`, with the
/// given services.
pub fn example_nodes(services: Vec<Service>) -> (res: NodeShadows)
    ensures
        res@.dom() == set!["example-node"@],
        res@["example-node"@].services@ == services@,
{
    let mut shadows: NodeShadows = KeyedList::new();
    let mut name = String::new();
    crate::text::push_str(&mut name, "example-node");
    shadows.insert(name, NodeShadow { services });
    assert(shadows@.dom() =~= set!["example-node"@]);
    shadows
}

} // verus!
