use std::collections::HashMap;
use vstd::prelude::*;

use crate::model::{Balancer, Node, Record, RouteConfig};

verus! {

broadcast use vstd::std_specs::hash::group_hash_axioms;

/// The mathematical content of the mirror: three tables keyed by remote id.
pub struct MirrorView {
    pub balancers: Map<u64, Balancer>,
    pub configs: Map<u64, RouteConfig>,
    pub nodes: Map<u64, Node>,
}

impl MirrorView {
    pub open spec fn empty() -> MirrorView {
        MirrorView { balancers: Map::empty(), configs: Map::empty(), nodes: Map::empty() }
    }

    /// The effect of one upsert: the row keyed by the record's id now holds it.
    pub open spec fn upsert(self, r: Record) -> MirrorView {
        match r {
            Record::Balancer(b) => MirrorView { balancers: self.balancers.insert(b.id, b), ..self },
            Record::Config(c) => MirrorView { configs: self.configs.insert(c.id, c), ..self },
            Record::Node(n) => MirrorView { nodes: self.nodes.insert(n.id, n), ..self },
        }
    }

    /// The effect of upserting the records of `rs` in order.
    pub open spec fn upsert_all(self, rs: Seq<Record>) -> MirrorView
        decreases rs.len(),
    {
        if rs.len() == 0 {
            self
        } else {
            self.upsert_all(rs.drop_last()).upsert(rs.last())
        }
    }

    /// Rows of `self` overwritten, table by table, by the rows of `top`.
    pub open spec fn overlay(self, top: MirrorView) -> MirrorView {
        MirrorView {
            balancers: self.balancers.union_prefer_right(top.balancers),
            configs: self.configs.union_prefer_right(top.configs),
            nodes: self.nodes.union_prefer_right(top.nodes),
        }
    }
}

/// Upserting a sequence overwrites exactly the rows that the same sequence
/// writes into an empty mirror, and leaves every other row as it was.
pub proof fn lemma_upsert_all_overlay(m: MirrorView, rs: Seq<Record>)
    ensures
        m.upsert_all(rs) == m.overlay(MirrorView::empty().upsert_all(rs)),
    decreases rs.len(),
{
    if rs.len() == 0 {
        assert(m.balancers.union_prefer_right(Map::empty()) =~= m.balancers);
        assert(m.configs.union_prefer_right(Map::empty()) =~= m.configs);
        assert(m.nodes.union_prefer_right(Map::empty()) =~= m.nodes);
    } else {
        lemma_upsert_all_overlay(m, rs.drop_last());
        let a = m.upsert_all(rs);
        let b = m.overlay(MirrorView::empty().upsert_all(rs));
        assert(a.balancers =~= b.balancers);
        assert(a.configs =~= b.configs);
        assert(a.nodes =~= b.nodes);
    }
}

/// Idempotence: upserting the same records a second time leaves the mirror
/// exactly as the first pass left it.
pub proof fn lemma_upsert_twice(m: MirrorView, rs: Seq<Record>)
    ensures
        m.upsert_all(rs).upsert_all(rs) == m.upsert_all(rs),
{
    lemma_upsert_all_overlay(m, rs);
    lemma_upsert_all_overlay(m.upsert_all(rs), rs);
    let a = m.upsert_all(rs).upsert_all(rs);
    let b = m.upsert_all(rs);
    assert(a.balancers =~= b.balancers);
    assert(a.configs =~= b.configs);
    assert(a.nodes =~= b.nodes);
}

/// The local store: one table per tier, each keyed by remote id.
pub struct Mirror {
    pub balancers: HashMap<u64, Balancer>,
    pub configs: HashMap<u64, RouteConfig>,
    pub nodes: HashMap<u64, Node>,
}

impl View for Mirror {
    type V = MirrorView;

    open spec fn view(&self) -> MirrorView {
        MirrorView { balancers: self.balancers@, configs: self.configs@, nodes: self.nodes@ }
    }
}

impl Mirror {
    /// A mirror with no rows.
    pub fn new() -> (r: Mirror)
        ensures
            r@ == MirrorView::empty(),
    {
        let r = Mirror { balancers: HashMap::new(), configs: HashMap::new(), nodes: HashMap::new() };
        assert(r@.balancers =~= Map::empty());
        assert(r@.configs =~= Map::empty());
        assert(r@.nodes =~= Map::empty());
        r
    }

    /// Inserts the record, or overwrites every field of the row with its id.
    pub fn upsert(&mut self, r: Record)
        ensures
            final(self)@ == old(self)@.upsert(r),
    {
        match r {
            Record::Balancer(b) => {
                self.balancers.insert(b.id, b);
            },
            Record::Config(c) => {
                self.configs.insert(c.id, c);
            },
            Record::Node(n) => {
                self.nodes.insert(n.id, n);
            },
        }
    }

    /// Upserts each record of `rs`, in order.
    pub fn upsert_all(&mut self, rs: Vec<Record>)
        ensures
            final(self)@ == old(self)@.upsert_all(rs@),
    {
        let ghost start = self@;
        let ghost all = rs@;
        let mut rest = rs;
        let total: usize = rest.len();
        let mut k: usize = 0;
        while rest.len() > 0
            invariant
                k + rest@.len() == all.len(),
                all.len() == total,
                rest@ == all.skip(k as int),
                self@ == start.upsert_all(all.take(k as int)),
            decreases rest@.len(),
        {
            let r = rest.remove(0);
            proof {
                assert(all.take(k + 1).drop_last() =~= all.take(k as int));
                assert(all[k as int] == r);
                assert(rest@ =~= all.skip(k + 1));
            }
            self.upsert(r);
            k = k + 1;
        }
        assert(all.take(k as int) =~= all);
    }

    /// Number of mirrored rows in each table.
    pub fn counts(&self) -> (r: (usize, usize, usize))
        ensures
            r.0 == self@.balancers.len(),
            r.1 == self@.configs.len(),
            r.2 == self@.nodes.len(),
    {
        (self.balancers.len(), self.configs.len(), self.nodes.len())
    }
}

} // verus!
