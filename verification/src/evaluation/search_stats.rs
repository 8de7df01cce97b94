use vstd::prelude::*;

verus! {

/// What a search counted: nodes, evaluations and quiescence nodes.
pub struct SearchStats {
    pub nodes: u64,
    pub evals: u64,
    pub quiessence_nodes: u64,
}

impl SearchStats {
    /// Nothing counted yet.
    pub fn new() -> (r: SearchStats)
        ensures
            r.nodes == 0,
            r.evals == 0,
            r.quiessence_nodes == 0,
    {
        SearchStats { nodes: 0, evals: 0, quiessence_nodes: 0 }
    }

    /// Adds the counts of another search.
    pub fn add(&mut self, other: &SearchStats)
        requires
            old(self).nodes + other.nodes <= u64::MAX,
            old(self).evals + other.evals <= u64::MAX,
            old(self).quiessence_nodes + other.quiessence_nodes <= u64::MAX,
        ensures
            final(self).nodes == old(self).nodes + other.nodes,
            final(self).evals == old(self).evals + other.evals,
            final(self).quiessence_nodes == old(self).quiessence_nodes + other.quiessence_nodes,
    {
        self.nodes = self.nodes + other.nodes;
        self.evals = self.evals + other.evals;
        self.quiessence_nodes = self.quiessence_nodes + other.quiessence_nodes;
    }
}

} // verus!
