//! What a set of roots can reach.

use vstd::prelude::*;

use super::HeapModel;
use crate::handle::ObjectId;

verus! {

/// The handles in a list.
pub open spec fn handles(list: Seq<ObjectId>) -> Set<ObjectId> {
    Set::new(|id: ObjectId| list.contains(id))
}

impl HeapModel {
    /// Every handle with an object under it.
    pub open spec fn ids(self) -> Set<ObjectId> {
        Set::new(|id: ObjectId| self.has(id))
    }

    /// A chain of references through the objects in `among`, each of them
    /// referring to the next, that starts at a root.
    pub open spec fn chain(
        self,
        among: Set<ObjectId>,
        roots: Set<ObjectId>,
        chain: Seq<ObjectId>,
    ) -> bool {
        &&& chain.len() > 0
        &&& roots.contains(chain[0])
        &&& forall|i: int| 0 <= i < chain.len() ==> among.contains(#[trigger] chain[i])
        &&& forall|i: int|
            0 < i < chain.len() ==> self.refs(chain[i - 1]).contains(#[trigger] chain[i])
    }

    /// Whether the roots reach an object without leaving `among`.
    pub open spec fn reaches(
        self,
        among: Set<ObjectId>,
        roots: Set<ObjectId>,
        id: ObjectId,
    ) -> bool {
        exists|chain: Seq<ObjectId>| #[trigger]
            self.chain(among, roots, chain) && chain.last() == id
    }

    /// Whether the roots reach an object.
    pub open spec fn reachable(self, roots: Set<ObjectId>, id: ObjectId) -> bool {
        self.reaches(self.ids(), roots, id)
    }

    /// A root is reached.
    pub proof fn lemma_root_reached(self, among: Set<ObjectId>, roots: Set<ObjectId>, id: ObjectId)
        requires
            roots.contains(id),
            among.contains(id),
        ensures
            self.reaches(among, roots, id),
    {
        let chain = seq![id];
        assert(self.chain(among, roots, chain));
        assert(chain.last() == id);
    }

    /// What a reached object refers to is reached.
    pub proof fn lemma_step_reached(
        self,
        among: Set<ObjectId>,
        roots: Set<ObjectId>,
        from: ObjectId,
        to: ObjectId,
    )
        requires
            self.reaches(among, roots, from),
            self.refs(from).contains(to),
            among.contains(to),
        ensures
            self.reaches(among, roots, to),
    {
        let chain = choose|chain: Seq<ObjectId>| #[trigger]
            self.chain(among, roots, chain) && chain.last() == from;
        let longer = chain.push(to);
        assert forall|i: int| 0 <= i < longer.len() implies among.contains(#[trigger] longer[i]) by {
            if i < chain.len() {
                assert(longer[i] == chain[i]);
            }
        }
        assert forall|i: int| 0 < i < longer.len() implies self.refs(longer[i - 1]).contains(
            #[trigger] longer[i],
        ) by {
            assert(longer[i - 1] == chain[i - 1]);
            if i < chain.len() {
                assert(longer[i] == chain[i]);
            }
        }
        assert(longer[0] == chain[0]);
        assert(self.chain(among, roots, longer));
        assert(longer.last() == to);
    }

    /// A set that holds the roots, and whatever its members refer to, holds
    /// everything that is reached.
    pub proof fn lemma_closed_holds(
        self,
        among: Set<ObjectId>,
        roots: Set<ObjectId>,
        closed: Set<ObjectId>,
        id: ObjectId,
    )
        requires
            forall|r: ObjectId| #[trigger]
                roots.contains(r) && among.contains(r) ==> closed.contains(r),
            forall|a: ObjectId, b: ObjectId|
                closed.contains(a) && #[trigger] self.refs(a).contains(b) && among.contains(b)
                    ==> closed.contains(b),
            self.reaches(among, roots, id),
        ensures
            closed.contains(id),
    {
        let chain = choose|chain: Seq<ObjectId>| #[trigger]
            self.chain(among, roots, chain) && chain.last() == id;
        self.lemma_chain_held(among, roots, closed, chain, chain.len() - 1);
    }

    /// Every link of a chain is in a set that holds the roots and whatever its
    /// members refer to.
    proof fn lemma_chain_held(
        self,
        among: Set<ObjectId>,
        roots: Set<ObjectId>,
        closed: Set<ObjectId>,
        chain: Seq<ObjectId>,
        at: int,
    )
        requires
            self.chain(among, roots, chain),
            0 <= at < chain.len(),
            forall|r: ObjectId| #[trigger]
                roots.contains(r) && among.contains(r) ==> closed.contains(r),
            forall|a: ObjectId, b: ObjectId|
                closed.contains(a) && #[trigger] self.refs(a).contains(b) && among.contains(b)
                    ==> closed.contains(b),
        ensures
            closed.contains(chain[at]),
        decreases at,
    {
        assert(among.contains(chain[at]));
        if at == 0 {
            assert(roots.contains(chain[0]));
        } else {
            self.lemma_chain_held(among, roots, closed, chain, at - 1);
            assert(self.refs(chain[at - 1]).contains(chain[at]));
        }
    }
}

} // verus!
