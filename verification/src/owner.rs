//! The ownership index: a user-supplied list of owned nodes, loaded once at
//! the start of a run and read-only thereafter. It answers whether an
//! identity is owned and hands out the owned node for an identity, and so
//! supplies the perspective that directions are computed against.

use vstd::prelude::*;

use crate::identify::{Identify, ID};
use crate::node::{node_id, Node};

verus! {

/// A named owner and the nodes it owns.
#[derive(Debug, Clone, PartialEq, Eq)]
pub struct Owner {
    pub name: String,
    pub owns: Vec<Node>,
}

/// Some owned node carries the identity value `v`.
pub open spec fn owns_id(owns: Seq<Node>, v: u64) -> bool {
    exists|i: int| 0 <= i < owns.len() && node_id(#[trigger] owns[i]@) == v
}

impl Owner {
    /// The first owned node whose identity equals `id`, if any. Owners are
    /// expected not to list duplicate identities, but this is not enforced.
    pub fn view(&self, id: &ID<Node>) -> (r: Option<&Node>)
        ensures
            r is Some <==> owns_id(self.owns@, id.value),
            match r {
                Option::Some(n) => exists|i: int|
                    0 <= i < self.owns@.len() && n == &self.owns@[i] && node_id(
                        #[trigger] self.owns@[i]@,
                    ) == id.value && forall|j: int|
                        0 <= j < i ==> node_id(#[trigger] self.owns@[j]@) != id.value,
                Option::None => true,
            },
    {
        let mut i: usize = 0;
        while i < self.owns.len()
            invariant
                i <= self.owns@.len(),
                forall|j: int| 0 <= j < i ==> node_id(#[trigger] self.owns@[j]@) != id.value,
            decreases self.owns@.len() - i,
        {
            let node = &self.owns[i];
            if node.id().value == id.value {
                return Some(node);
            }
            i += 1;
        }
        proof {
            if owns_id(self.owns@, id.value) {
                let k = choose|k: int|
                    0 <= k < self.owns@.len() && node_id(#[trigger] self.owns@[k]@) == id.value;
                assert(node_id(self.owns@[k]@) != id.value);
            }
        }
        None
    }

    /// Whether some owned node carries this identity.
    pub fn owns(&self, id: &ID<Node>) -> (r: bool)
        ensures
            r == owns_id(self.owns@, id.value),
    {
        self.view(id).is_some()
    }
}

} // verus!
