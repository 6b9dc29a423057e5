use vstd::prelude::*;

verus! {

/// The crossing a gate saw in its last step.
#[derive(Clone, Copy, Debug, PartialEq, Eq, Structural)]
pub enum Edge {
    Positive,
    Negative,
    Steady,
}

/// The edge from the previous level to the current one.
pub open spec fn edge_between(prev_high: bool, curr_high: bool) -> Edge {
    if curr_high && !prev_high {
        Edge::Positive
    } else if !curr_high && prev_high {
        Edge::Negative
    } else {
        Edge::Steady
    }
}

/// A gate input: a signal compared with a threshold, that reports its level
/// and the edge of its last step. When nothing is connected the level is the
/// `default` flag.
///
/// The comparison of samples with the threshold is made by the caller: a step
/// is given whether the current sample is at or above the threshold (`None`
/// when no sample arrived) and whether the previous level was.
pub struct GateInput {
    default: bool,
    edge: Edge,
}

impl GateInput {
    pub closed spec fn default_high(&self) -> bool {
        self.default
    }

    pub closed spec fn last_edge(&self) -> Edge {
        self.edge
    }

    /// A gate that is low when disconnected and has seen no edge.
    pub fn new() -> (res: Self)
        ensures
            !res.default_high(),
            res.last_edge() == Edge::Steady,
    {
        GateInput { default: false, edge: Edge::Steady }
    }

    /// The level used when no sample arrives.
    pub fn default_level(&self) -> (res: bool)
        ensures
            res == self.default_high(),
    {
        self.default
    }

    pub fn set_default_level(&mut self, high: bool)
        ensures
            final(self).default_high() == high,
            final(self).last_edge() == old(self).last_edge(),
    {
        self.default = high;
    }

    /// Whether the last step rose through the threshold.
    pub fn positive_edge(&self) -> (res: bool)
        ensures
            res == (self.last_edge() == Edge::Positive),
    {
        match self.edge {
            Edge::Positive => true,
            _ => false,
        }
    }

    /// Whether the last step fell through the threshold.
    pub fn negative_edge(&self) -> (res: bool)
        ensures
            res == (self.last_edge() == Edge::Negative),
    {
        match self.edge {
            Edge::Negative => true,
            _ => false,
        }
    }

    /// One step: returns the current level and records the edge from
    /// `prev_high` to it.
    pub fn gate(&mut self, curr_high: Option<bool>, prev_high: bool) -> (res: bool)
        ensures
            res == match curr_high {
                Some(h) => h,
                None => old(self).default_high(),
            },
            final(self).last_edge() == edge_between(prev_high, res),
            final(self).default_high() == old(self).default_high(),
    {
        let curr = match curr_high {
            Some(h) => h,
            None => self.default,
        };
        let edge = if curr && !prev_high {
            Edge::Positive
        } else if !curr && prev_high {
            Edge::Negative
        } else {
            Edge::Steady
        };
        self.edge = edge;
        curr
    }
}

/// Fed its own last level, a gate never reports two rising edges in a row,
/// nor two falling ones.
pub proof fn law_edges_alternate(prev: bool, first: bool, second: bool)
    ensures
        edge_between(prev, first) == Edge::Positive ==> edge_between(first, second) != Edge::Positive,
        edge_between(prev, first) == Edge::Negative ==> edge_between(first, second) != Edge::Negative,
{
}

} // verus!
