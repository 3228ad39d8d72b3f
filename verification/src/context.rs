//! The flow-graph context the evaluator queries. The analysis engine that
//! computes markers, reachability and call sites is an external collaborator;
//! what the evaluator consumes is a read-only snapshot of its answers, held
//! here as plain values, so every query below is an ordinary lookup with an
//! exact contract. Candidate order for quantifiers is the snapshot's order.

use vstd::prelude::*;

verus! {

/// A handle to one node of the flow graph, as the analysis engine numbers
/// them.
pub type Node = u64;

/// The two edge kinds a reachability query can follow.
#[derive(Debug, PartialEq, Eq, Clone, Copy, Structural)]
pub enum EdgeKind {
    Data,
    Control,
}

/// A snapshot of one analysis unit: which nodes carry which markers, which
/// nodes reach which along each edge kind, and each node's associated call
/// site. It is treated as read-only for the whole of one evaluation.
#[derive(Debug, PartialEq, Eq)]
pub struct Context {
    /// Marker tags: the node `p.1` carries the marker `p.0`.
    pub marks: Vec<(String, Node)>,
    /// Data-flow reachability: `p.0` reaches `p.1` along data edges.
    pub data_flows: Vec<(Node, Node)>,
    /// Control-flow reachability: `p.0` reaches `p.1` along control edges.
    pub control_flows: Vec<(Node, Node)>,
    /// Associated call sites: queries about control-flow influence on a
    /// node without one are fatal errors, not verdicts.
    pub call_sites: Vec<(Node, Node)>,
}

/// The mathematical shape of a snapshot.
pub struct CtxView {
    pub marks: Seq<(Seq<char>, Node)>,
    pub data_flows: Seq<(Node, Node)>,
    pub control_flows: Seq<(Node, Node)>,
    pub call_sites: Seq<(Node, Node)>,
}

impl View for Context {
    type V = CtxView;

    open spec fn view(&self) -> CtxView {
        CtxView {
            marks: self.marks@.map_values(|p: (String, Node)| (p.0@, p.1)),
            data_flows: self.data_flows@,
            control_flows: self.control_flows@,
            call_sites: self.call_sites@,
        }
    }
}

/// The candidate nodes for a marker, in order of appearance.
pub open spec fn marked_of(marks: Seq<(Seq<char>, Node)>, m: Seq<char>) -> Seq<Node>
    decreases marks.len(),
{
    if marks.len() == 0 {
        Seq::empty()
    } else if marks.first().0 == m {
        seq![marks.first().1] + marked_of(marks.drop_first(), m)
    } else {
        marked_of(marks.drop_first(), m)
    }
}

/// The candidate nodes a context gives for a marker.
pub open spec fn spec_marked(ctx: CtxView, m: Seq<char>) -> Seq<Node> {
    marked_of(ctx.marks, m)
}

/// Whether the snapshot answers that `a` reaches `b` along `kind` edges.
pub open spec fn edge(ctx: CtxView, kind: EdgeKind, a: Node, b: Node) -> bool {
    match kind {
        EdgeKind::Data => ctx.data_flows.contains((a, b)),
        EdgeKind::Control => ctx.control_flows.contains((a, b)),
    }
}

/// The call site associated with `n`, if any; the first entry wins.
pub open spec fn call_site_of(sites: Seq<(Node, Node)>, n: Node) -> Option<Node>
    decreases sites.len(),
{
    if sites.len() == 0 {
        None
    } else if sites.first().0 == n {
        Some(sites.first().1)
    } else {
        call_site_of(sites.drop_first(), n)
    }
}

/// Whether `a` exerts control-flow influence on the call site `tcs`: it
/// reaches `tcs` along control edges, or some data influencee of it does.
pub open spec fn cf_influence_at(ctx: CtxView, a: Node, tcs: Node) -> bool {
    edge(ctx, EdgeKind::Control, a, tcs) || exists|m: Node|
        edge(ctx, EdgeKind::Data, a, m) && edge(ctx, EdgeKind::Control, m, tcs)
}

/// The nodes `a` reaches along `kind` edges, in snapshot order.
pub open spec fn influencees_of(edges: Seq<(Node, Node)>, a: Node) -> Seq<Node>
    decreases edges.len(),
{
    if edges.len() == 0 {
        Seq::empty()
    } else if edges.first().0 == a {
        seq![edges.first().1] + influencees_of(edges.drop_first(), a)
    } else {
        influencees_of(edges.drop_first(), a)
    }
}

fn contains_pair(v: &Vec<(Node, Node)>, a: Node, b: Node) -> (r: bool)
    ensures
        r == v@.contains((a, b)),
{
    let mut i: usize = 0;
    while i < v.len()
        invariant
            i <= v@.len(),
            forall|j: int| 0 <= j < i ==> v@[j] != (a, b),
        decreases v@.len() - i,
    {
        let p = v[i];
        if p.0 == a && p.1 == b {
            assert(v@[i as int] == (a, b));
            return true;
        }
        i += 1;
    }
    false
}

impl Context {
    /// All nodes carrying `marker`, in the snapshot's order; the candidate
    /// set a quantified clause ranges over.
    pub fn marked_nodes(&self, marker: &String) -> (r: Vec<Node>)
        ensures
            r@ == spec_marked(self@, marker@),
    {
        let ghost all = self@.marks;
        let mut r: Vec<Node> = Vec::new();
        let mut i: usize = 0;
        proof {
            assert(all.skip(0) =~= all);
            assert(r@ + marked_of(all, marker@) =~= marked_of(all, marker@));
        }
        while i < self.marks.len()
            invariant
                i <= self.marks@.len(),
                all == self@.marks,
                all.len() == self.marks@.len(),
                marked_of(all, marker@) == r@ + marked_of(all.skip(i as int), marker@),
            decreases self.marks@.len() - i,
        {
            let ghost rest = all.skip(i as int);
            proof {
                assert(rest.first() == all[i as int]);
                assert(rest.drop_first() =~= all.skip(i as int + 1));
                assert(all[i as int] == (self.marks@[i as int].0@, self.marks@[i as int].1));
            }
            let p = &self.marks[i];
            if p.0 == *marker {
                r.push(p.1);
                proof {
                    assert(marked_of(rest, marker@) == seq![rest.first().1] + marked_of(
                        rest.drop_first(),
                        marker@,
                    ));
                    assert(r@ + marked_of(all.skip(i as int + 1), marker@) =~= marked_of(
                        all,
                        marker@,
                    ));
                }
            } else {
                proof {
                    assert(marked_of(rest, marker@) == marked_of(rest.drop_first(), marker@));
                }
            }
            i += 1;
        }
        proof {
            assert(all.skip(all.len() as int) =~= Seq::<(Seq<char>, Node)>::empty());
            assert(r@ =~= r@ + marked_of(all.skip(all.len() as int), marker@));
        }
        r
    }

    /// Answers the reachability query along the given edge kind.
    pub fn flows_to(&self, a: Node, b: Node, kind: EdgeKind) -> (r: bool)
        ensures
            r == edge(self@, kind, a, b),
    {
        match kind {
            EdgeKind::Data => contains_pair(&self.data_flows, a, b),
            EdgeKind::Control => contains_pair(&self.control_flows, a, b),
        }
    }

    /// The nodes `a` reaches along `kind` edges, in snapshot order.
    pub fn influencees(&self, a: Node, kind: EdgeKind) -> (r: Vec<Node>)
        ensures
            kind matches EdgeKind::Data ==> r@ == influencees_of(self@.data_flows, a),
            kind matches EdgeKind::Control ==> r@ == influencees_of(self@.control_flows, a),
    {
        let v: &Vec<(Node, Node)> = match kind {
            EdgeKind::Data => &self.data_flows,
            EdgeKind::Control => &self.control_flows,
        };
        let ghost all = v@;
        let mut r: Vec<Node> = Vec::new();
        let mut i: usize = 0;
        proof {
            assert(all.skip(0) =~= all);
            assert(r@ + influencees_of(all, a) =~= influencees_of(all, a));
        }
        while i < v.len()
            invariant
                i <= all.len(),
                all == v@,
                influencees_of(all, a) == r@ + influencees_of(all.skip(i as int), a),
            decreases all.len() - i,
        {
            let ghost rest = all.skip(i as int);
            proof {
                assert(rest.first() == all[i as int]);
                assert(rest.drop_first() =~= all.skip(i as int + 1));
            }
            let p = v[i];
            if p.0 == a {
                r.push(p.1);
                proof {
                    assert(r@ + influencees_of(all.skip(i as int + 1), a) =~= influencees_of(
                        all,
                        a,
                    ));
                }
            }
            i += 1;
        }
        proof {
            assert(all.skip(all.len() as int) =~= Seq::<(Node, Node)>::empty());
            assert(r@ =~= r@ + influencees_of(all.skip(all.len() as int), a));
        }
        r
    }

    /// The call site associated with `target`, if any.
    fn lookup_call_site(&self, target: Node) -> (r: Option<Node>)
        ensures
            r == call_site_of(self@.call_sites, target),
    {
        let ghost all = self@.call_sites;
        let mut i: usize = 0;
        proof {
            assert(all.skip(0) =~= all);
        }
        while i < self.call_sites.len()
            invariant
                i <= all.len(),
                all == self@.call_sites,
                call_site_of(all, target) == call_site_of(all.skip(i as int), target),
            decreases all.len() - i,
        {
            let ghost rest = all.skip(i as int);
            proof {
                assert(rest.first() == all[i as int]);
                assert(rest.drop_first() =~= all.skip(i as int + 1));
            }
            let p = self.call_sites[i];
            if p.0 == target {
                return Some(p.1);
            }
            i += 1;
        }
        proof {
            assert(all.skip(all.len() as int) =~= Seq::<(Node, Node)>::empty());
        }
        None
    }

    /// Whether `influencer` conditions the execution of `target`: it
    /// reaches `target`'s associated call site along control edges, or one
    /// of its data influencees does. `None` when `target` has no associated
    /// call site; that case is the caller's fatal error, never a verdict.
    pub fn has_control_flow_influence(&self, influencer: Node, target: Node) -> (r: Option<bool>)
        ensures
            match call_site_of(self@.call_sites, target) {
                Some(tcs) => r == Some(cf_influence_at(self@, influencer, tcs)),
                None => r is None,
            },
    {
        let tcs = match self.lookup_call_site(target) {
            Some(t) => t,
            None => {
                return None;
            },
        };
        if contains_pair(&self.control_flows, influencer, tcs) {
            return Some(true);
        }
        let mut i: usize = 0;
        while i < self.data_flows.len()
            invariant
                i <= self.data_flows@.len(),
                call_site_of(self@.call_sites, target) == Some(tcs),
                !edge(self@, EdgeKind::Control, influencer, tcs),
                forall|j: int|
                    0 <= j < i ==> !(self.data_flows@[j].0 == influencer
                        && self@.control_flows.contains((self.data_flows@[j].1, tcs))),
            decreases self.data_flows@.len() - i,
        {
            let p = self.data_flows[i];
            if p.0 == influencer {
                if contains_pair(&self.control_flows, p.1, tcs) {
                    proof {
                        assert(self@.data_flows[i as int] == (influencer, p.1));
                        assert(edge(self@, EdgeKind::Data, influencer, p.1));
                    }
                    return Some(true);
                }
            }
            i += 1;
        }
        proof {
            if cf_influence_at(self@, influencer, tcs) {
                let m = choose|m: Node|
                    edge(self@, EdgeKind::Data, influencer, m) && edge(
                        self@,
                        EdgeKind::Control,
                        m,
                        tcs,
                    );
                let j = choose|j: int|
                    0 <= j < self@.data_flows.len() && self@.data_flows[j] == (influencer, m);
                assert(false);
            }
        }
        Some(false)
    }
}

} // verus!
