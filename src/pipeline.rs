use vstd::prelude::*;

use crate::mirror::{lemma_upsert_twice, MirrorView};
use crate::model::{Balancer, Listing, Node, Record, RemoteError, RouteConfig, Tier};
use crate::paging::{following_page, known_pages, lemma_pages_requested, requested_pages, PageCursor};

verus! {

/// The stage of a synchronisation run.
#[derive(Debug, Clone, Copy, PartialEq, Eq, Structural)]
pub enum Stage {
    /// Listing the balancers of the configured region.
    Balancers,
    /// Listing the route configurations of each balancer found.
    Configs,
    /// Listing the nodes of each route configuration found.
    Nodes,
    /// A run-once pipeline has gone through the three stages.
    Finished,
}

/// One listing request: a page of a tier, under the given parents (ids that
/// the tier does not use are 0).
#[derive(Debug, Clone, Copy, PartialEq, Eq, Structural)]
pub struct Request {
    pub tier: Tier,
    pub balancer_id: u64,
    pub config_id: u64,
    pub page: u64,
}

/// A decoded listing page of one tier.
#[derive(Debug, Clone)]
pub enum Response {
    Balancers(Listing<Balancer>),
    Configs(Listing<RouteConfig>),
    Nodes(Listing<Node>),
}

/// The entities that a response hands to the mirror writer.
#[derive(Debug, Clone)]
pub enum Batch {
    Balancers(Vec<Balancer>),
    Configs(Vec<RouteConfig>),
    Nodes(Vec<Node>),
    Nothing,
}

/// The items of `s` that satisfy `p`, in order.
pub open spec fn keep<T>(s: Seq<T>, p: spec_fn(T) -> bool) -> Seq<T>
    decreases s.len(),
{
    if s.len() == 0 {
        Seq::empty()
    } else if p(s.last()) {
        keep(s.drop_last(), p).push(s.last())
    } else {
        keep(s.drop_last(), p)
    }
}

/// Every item that `keep` retains satisfies the predicate.
pub proof fn lemma_keep_satisfies<T>(s: Seq<T>, p: spec_fn(T) -> bool)
    ensures
        forall|i: int| 0 <= i < keep(s, p).len() ==> p(#[trigger] keep(s, p)[i]),
    decreases s.len(),
{
    if s.len() > 0 {
        lemma_keep_satisfies(s.drop_last(), p);
        let k = keep(s.drop_last(), p);
        if p(s.last()) {
            assert forall|i: int| 0 <= i < keep(s, p).len() implies p(#[trigger] keep(s, p)[i]) by {
                if i < k.len() {
                    assert(keep(s, p)[i] == k[i]);
                }
            }
        }
    }
}

/// The balancers of the listing that lie in `region`.
pub open spec fn balancers_in(bs: Seq<Balancer>, region: Seq<char>) -> Seq<Balancer> {
    keep(bs, |b: Balancer| b.region@ == region)
}

/// The configurations of the listing that belong to balancer `owner`.
pub open spec fn configs_of(cs: Seq<RouteConfig>, owner: u64) -> Seq<RouteConfig> {
    keep(cs, |c: RouteConfig| c.balancer_id == owner)
}

/// The nodes of the listing that belong to configuration `owner`.
pub open spec fn nodes_of(ns: Seq<Node>, owner: u64) -> Seq<Node> {
    keep(ns, |n: Node| n.config_id == owner)
}

/// The mathematical state of a pipeline.
pub struct PipelineState {
    pub stage: Stage,
    pub continuous: bool,
    pub region: Seq<char>,
    /// Ids of the balancers found by the most recent balancer listing.
    pub balancer_ids: Seq<u64>,
    /// (configuration id, balancer id) of the configurations found by the
    /// most recent configuration stage.
    pub config_ids: Seq<(u64, u64)>,
    /// Index of the parent whose children are being listed.
    pub parent: int,
    pub page: int,
    pub pages: int,
}

/// The page count that a response reports; 0 for a failed request.
pub open spec fn reported(resp: Result<Response, RemoteError>) -> int {
    match resp {
        Ok(Response::Balancers(l)) => l.pages as int,
        Ok(Response::Configs(l)) => l.pages as int,
        Ok(Response::Nodes(l)) => l.pages as int,
        Err(_) => 0,
    }
}

/// The same listing request, for page `p`.
pub open spec fn at_page(req: Request, p: int) -> Request {
    Request { page: p as u64, ..req }
}

/// The records that a batch hands to the mirror writer, in order.
pub open spec fn batch_records(b: Batch) -> Seq<Record> {
    match b {
        Batch::Balancers(v) => v@.map_values(|x: Balancer| Record::Balancer(x)),
        Batch::Configs(v) => v@.map_values(|x: RouteConfig| Record::Config(x)),
        Batch::Nodes(v) => v@.map_values(|x: Node| Record::Node(x)),
        Batch::Nothing => Seq::empty(),
    }
}

impl PipelineState {
    /// The state of a new pipeline.
    pub open spec fn fresh(region: Seq<char>, continuous: bool) -> PipelineState {
        PipelineState {
            stage: Stage::Balancers,
            continuous,
            region,
            balancer_ids: Seq::empty(),
            config_ids: Seq::empty(),
            parent: 0,
            page: 1,
            pages: 0,
        }
    }

    /// The records handed out for a response.
    pub open spec fn records(self, resp: Result<Response, RemoteError>) -> Seq<Record> {
        if !self.accepts(resp) {
            Seq::empty()
        } else {
            match resp {
                Ok(Response::Balancers(l)) => balancers_in(l.data@, self.region).map_values(
                    |x: Balancer| Record::Balancer(x),
                ),
                Ok(Response::Configs(l)) => configs_of(l.data@, self.balancer_ids[self.parent]).map_values(
                    |x: RouteConfig| Record::Config(x),
                ),
                Ok(Response::Nodes(l)) => nodes_of(l.data@, self.config_ids[self.parent].0).map_values(
                    |x: Node| Record::Node(x),
                ),
                Err(_) => Seq::empty(),
            }
        }
    }

    /// The requests made, in order, over at most `steps` requests answered
    /// by `remote`.
    pub open spec fn requests(
        self,
        remote: spec_fn(Request) -> Result<Response, RemoteError>,
        steps: nat,
    ) -> Seq<Request>
        decreases steps,
    {
        match self.request() {
            Some(req) => if steps == 0 {
                Seq::empty()
            } else {
                seq![req] + self.after(remote(req)).requests(remote, (steps - 1) as nat)
            },
            None => Seq::empty(),
        }
    }

    /// The state reached and the records handed out, in order, over at most
    /// `steps` requests answered by `remote`.
    pub open spec fn run(
        self,
        remote: spec_fn(Request) -> Result<Response, RemoteError>,
        steps: nat,
    ) -> (PipelineState, Seq<Record>)
        decreases steps,
    {
        match self.request() {
            Some(req) => if steps == 0 {
                (self, Seq::empty())
            } else {
                let resp = remote(req);
                let (last, rest) = self.after(resp).run(remote, (steps - 1) as nat);
                (last, self.records(resp) + rest)
            },
            None => (self, Seq::empty()),
        }
    }
    /// How many listings the current stage makes: one per parent.
    pub open spec fn parent_count(self) -> int {
        match self.stage {
            Stage::Balancers => 1,
            Stage::Configs => self.balancer_ids.len() as int,
            Stage::Nodes => self.config_ids.len() as int,
            Stage::Finished => 0,
        }
    }

    pub open spec fn wf(self) -> bool {
        &&& 1 <= self.page <= u64::MAX
        &&& 0 <= self.pages <= u64::MAX
        &&& (self.page > 1 ==> self.page <= self.pages)
        &&& (self.stage != Stage::Finished ==> 0 <= self.parent < self.parent_count())
    }

    /// The request the pipeline makes next; none once finished.
    pub open spec fn request(self) -> Option<Request> {
        match self.stage {
            Stage::Balancers => Some(
                Request { tier: Tier::Balancers, balancer_id: 0, config_id: 0, page: self.page as u64 },
            ),
            Stage::Configs => Some(
                Request {
                    tier: Tier::Configs,
                    balancer_id: self.balancer_ids[self.parent],
                    config_id: 0,
                    page: self.page as u64,
                },
            ),
            Stage::Nodes => Some(
                Request {
                    tier: Tier::Nodes,
                    balancer_id: self.config_ids[self.parent].1,
                    config_id: self.config_ids[self.parent].0,
                    page: self.page as u64,
                },
            ),
            Stage::Finished => None,
        }
    }

    /// A new cycle: list the balancers afresh.
    pub open spec fn start_cycle(self) -> PipelineState {
        PipelineState {
            stage: Stage::Balancers,
            balancer_ids: Seq::empty(),
            parent: 0,
            page: 1,
            pages: 0,
            ..self
        }
    }

    /// After the node stage: poll again, or finish.
    pub open spec fn end_cycle(self) -> PipelineState {
        if self.continuous {
            self.start_cycle()
        } else {
            PipelineState { stage: Stage::Finished, parent: 0, page: 1, pages: 0, ..self }
        }
    }

    /// Enter the node stage; with no configuration to list, end the cycle.
    pub open spec fn enter_nodes(self) -> PipelineState {
        if self.config_ids.len() == 0 {
            self.end_cycle()
        } else {
            PipelineState { stage: Stage::Nodes, parent: 0, page: 1, pages: 0, ..self }
        }
    }

    /// Enter the configuration stage, forgetting the configurations found
    /// before; with no balancer to list, go on to the node stage.
    pub open spec fn enter_configs(self) -> PipelineState {
        let cleared = PipelineState { config_ids: Seq::empty(), ..self };
        if self.balancer_ids.len() == 0 {
            cleared.enter_nodes()
        } else {
            PipelineState { stage: Stage::Configs, parent: 0, page: 1, pages: 0, ..cleared }
        }
    }

    /// The current parent's listing is over: take the next parent, or the
    /// next stage.
    pub open spec fn next_parent(self) -> PipelineState {
        if self.parent + 1 < self.parent_count() {
            PipelineState { parent: self.parent + 1, page: 1, pages: 0, ..self }
        } else {
            match self.stage {
                Stage::Balancers => self.enter_configs(),
                Stage::Configs => self.enter_nodes(),
                Stage::Nodes => self.end_cycle(),
                Stage::Finished => self,
            }
        }
    }

    /// A page came back reporting `reported` pages in all.
    pub open spec fn turn_page(self, reported: int) -> PipelineState {
        match following_page(self.page, self.pages, reported) {
            Some(p) => PipelineState {
                page: p,
                pages: known_pages(self.page, self.pages, reported),
                ..self
            },
            None => self.next_parent(),
        }
    }

    /// Whether a response is a page of the tier that the current stage lists.
    pub open spec fn accepts(self, resp: Result<Response, RemoteError>) -> bool {
        match resp {
            Ok(Response::Balancers(_)) => self.stage == Stage::Balancers,
            Ok(Response::Configs(_)) => self.stage == Stage::Configs,
            Ok(Response::Nodes(_)) => self.stage == Stage::Nodes,
            Err(_) => false,
        }
    }

    /// The entities handed to the mirror writer for a response.
    pub open spec fn emits(self, resp: Result<Response, RemoteError>, out: Batch) -> bool {
        if !self.accepts(resp) {
            out is Nothing
        } else {
            match (resp, out) {
                (Ok(Response::Balancers(l)), Batch::Balancers(v)) => v@ == balancers_in(l.data@, self.region),
                (Ok(Response::Configs(l)), Batch::Configs(v)) => v@ == configs_of(
                    l.data@,
                    self.balancer_ids[self.parent],
                ),
                (Ok(Response::Nodes(l)), Batch::Nodes(v)) => v@ == nodes_of(
                    l.data@,
                    self.config_ids[self.parent].0,
                ),
                _ => false,
            }
        }
    }

    /// The state after a response. A failed request, or a page of another
    /// tier, ends the current parent's listing: its subtree is skipped and
    /// the run goes on.
    pub open spec fn after(self, resp: Result<Response, RemoteError>) -> PipelineState {
        if !self.accepts(resp) {
            self.next_parent()
        } else {
            match resp {
                Ok(Response::Balancers(l)) => PipelineState {
                    balancer_ids: self.balancer_ids + balancers_in(l.data@, self.region).map_values(
                        |b: Balancer| b.id,
                    ),
                    ..self
                }.turn_page(l.pages as int),
                Ok(Response::Configs(l)) => {
                    let owner = self.balancer_ids[self.parent];
                    PipelineState {
                        config_ids: self.config_ids + configs_of(l.data@, owner).map_values(
                            |c: RouteConfig| (c.id, owner),
                        ),
                        ..self
                    }.turn_page(l.pages as int)
                },
                Ok(Response::Nodes(l)) => self.turn_page(l.pages as int),
                Err(_) => self,
            }
        }
    }
}

/// A batch holds exactly the records that the state gives for the response.
pub proof fn lemma_batch_records(s: PipelineState, resp: Result<Response, RemoteError>, out: Batch)
    requires
        s.emits(resp, out),
    ensures
        batch_records(out) == s.records(resp),
{
    if s.accepts(resp) {
        match (resp, out) {
            (Ok(Response::Balancers(l)), Batch::Balancers(v)) => {},
            (Ok(Response::Configs(l)), Batch::Configs(v)) => {},
            (Ok(Response::Nodes(l)), Batch::Nodes(v)) => {},
            _ => {},
        }
    } else {
        assert(batch_records(out) =~= Seq::<Record>::empty());
    }
}

proof fn lemma_run_same_remote(
    s: PipelineState,
    r1: spec_fn(Request) -> Result<Response, RemoteError>,
    r2: spec_fn(Request) -> Result<Response, RemoteError>,
    steps: nat,
)
    requires
        forall|q: Request| #[trigger] r1(q) == r2(q),
    ensures
        s.run(r1, steps) == s.run(r2, steps),
    decreases steps,
{
    match s.request() {
        Some(req) => if steps > 0 {
            lemma_run_same_remote(s.after(r1(req)), r1, r2, (steps - 1) as nat);
        },
        None => {},
    }
}

/// Idempotence of the whole pipeline: a second run of a new pipeline over an
/// unchanged remote hands out the same records as the first, and upserting
/// them leaves the mirror exactly as the first run left it.
pub proof fn lemma_second_run_idempotent(
    m: MirrorView,
    region: Seq<char>,
    continuous: bool,
    first_remote: spec_fn(Request) -> Result<Response, RemoteError>,
    second_remote: spec_fn(Request) -> Result<Response, RemoteError>,
    steps: nat,
)
    requires
        forall|q: Request| #[trigger] first_remote(q) == second_remote(q),
    ensures
        ({
            let first = PipelineState::fresh(region, continuous).run(first_remote, steps).1;
            let second = PipelineState::fresh(region, continuous).run(second_remote, steps).1;
            &&& second == first
            &&& m.upsert_all(first).upsert_all(second) == m.upsert_all(first)
        }),
{
    let s = PipelineState::fresh(region, continuous);
    lemma_run_same_remote(s, first_remote, second_remote, steps);
    lemma_upsert_twice(m, s.run(first_remote, steps).1);
}

proof fn lemma_listing_requests(
    s: PipelineState,
    remote: spec_fn(Request) -> Result<Response, RemoteError>,
    steps: nat,
    first: Request,
    reports: Seq<int>,
)
    requires
        s.wf(),
        s.stage != Stage::Finished,
        s.request() == Some(at_page(first, s.page)),
        forall|j: int|
            0 <= j < reports.len() ==> s.accepts(#[trigger] remote(at_page(first, s.page + j)))
                && reports[j] == reported(remote(at_page(first, s.page + j))),
        steps > reports.len(),
    ensures
        requested_pages(s.page, s.pages, reports).len() <= s.requests(remote, steps).len(),
        forall|i: int|
            0 <= i < requested_pages(s.page, s.pages, reports).len() ==> s.requests(remote, steps)[i]
                == at_page(first, #[trigger] requested_pages(s.page, s.pages, reports)[i]),
    decreases reports.len(),
{
    let req = at_page(first, s.page);
    let pages = requested_pages(s.page, s.pages, reports);
    let reqs = s.requests(remote, steps);
    if reports.len() > 0 {
        let resp = remote(at_page(first, s.page + 0));
        assert(s.page + 0 == s.page);
        match following_page(s.page, s.pages, reports[0]) {
            Some(next) => {
                let t = s.after(resp);
                assert(t.page == s.page + 1);
                assert(t.stage == s.stage);
                assert(t.request() == Some(at_page(first, t.page)));
                let rest = reports.drop_first();
                assert forall|j: int| 0 <= j < rest.len() implies t.accepts(
                    #[trigger] remote(at_page(first, t.page + j)),
                ) && rest[j] == reported(remote(at_page(first, t.page + j))) by {
                    assert(t.page + j == s.page + (j + 1));
                }
                lemma_listing_requests(t, remote, (steps - 1) as nat, first, rest);
                let tp = requested_pages(t.page, t.pages, rest);
                assert(pages == seq![s.page] + tp);
                assert(reqs == seq![req] + t.requests(remote, (steps - 1) as nat));
                assert forall|i: int| 0 <= i < pages.len() implies reqs[i] == at_page(
                    first,
                    #[trigger] pages[i],
                ) by {
                    if i > 0 {
                        assert(pages[i] == tp[i - 1]);
                    }
                }
            },
            None => {},
        }
    }
}

/// Ordering, for the pipeline's own requests: from the first request of a
/// listing, while the answers are pages of the listed tier whose first one
/// reports `p` pages, the pipeline requests pages `1, 2, ..., p` of that same
/// listing in increasing order, and a single request when `p` is 0 or 1.
pub proof fn lemma_listing_walks_pages(
    s: PipelineState,
    remote: spec_fn(Request) -> Result<Response, RemoteError>,
    steps: nat,
    reports: Seq<int>,
)
    requires
        s.wf(),
        s.stage != Stage::Finished,
        s.page == 1,
        s.pages == 0,
        forall|j: int|
            0 <= j < reports.len() ==> s.accepts(#[trigger] remote(at_page(s.request()->0, 1 + j)))
                && reports[j] == reported(remote(at_page(s.request()->0, 1 + j))),
        reports.len() >= 1,
        reports.len() >= reports[0],
        steps > reports.len(),
    ensures
        ({
            let p = reports[0];
            let n = if p >= 1 { p } else { 1 };
            &&& n <= s.requests(remote, steps).len()
            &&& forall|i: int| 0 <= i < n ==> #[trigger] s.requests(remote, steps)[i] == at_page(s.request()->0, i + 1)
        }),
{
    let first = s.request()->0;
    assert(at_page(first, s.page) == first);
    lemma_listing_requests(s, remote, steps, first, reports);
    lemma_pages_requested(reports[0], reports);
    let pages = requested_pages(1, 0, reports);
    let p = reports[0];
    let n = if p >= 1 { p } else { 1 };
    assert forall|i: int| 0 <= i < n implies #[trigger] s.requests(remote, steps)[i] == at_page(first, i + 1) by {
        assert(pages[i] == i + 1);
    }
}

/// The discovery pipeline as a state machine. The caller performs each
/// request that `next_request` names, hands the outcome to `on_response`,
/// and upserts the entities of the batch that comes back.
pub struct Pipeline {
    pub stage: Stage,
    pub continuous: bool,
    pub region: String,
    pub balancer_ids: Vec<u64>,
    pub config_ids: Vec<(u64, u64)>,
    pub parent: usize,
    pub cursor: PageCursor,
}

impl View for Pipeline {
    type V = PipelineState;

    open spec fn view(&self) -> PipelineState {
        PipelineState {
            stage: self.stage,
            continuous: self.continuous,
            region: self.region@,
            balancer_ids: self.balancer_ids@,
            config_ids: self.config_ids@,
            parent: self.parent as int,
            page: self.cursor.page as int,
            pages: self.cursor.pages as int,
        }
    }
}

impl Pipeline {
    /// A pipeline about to list the balancers of `region`; `continuous`
    /// selects polling forever over running the three stages once.
    pub fn new(region: String, continuous: bool) -> (r: Pipeline)
        ensures
            r@.wf(),
            r@ == PipelineState::fresh(region@, continuous),
    {
        Pipeline {
            stage: Stage::Balancers,
            continuous,
            region,
            balancer_ids: Vec::new(),
            config_ids: Vec::new(),
            parent: 0,
            cursor: PageCursor::new(),
        }
    }

    /// Whether a run-once pipeline has completed its stages.
    pub fn is_finished(&self) -> (r: bool)
        ensures
            r == (self@.stage == Stage::Finished),
    {
        self.stage == Stage::Finished
    }

    /// The request to perform next, if any.
    pub fn next_request(&self) -> (r: Option<Request>)
        requires
            self@.wf(),
        ensures
            r == self@.request(),
    {
        match self.stage {
            Stage::Balancers => Some(
                Request { tier: Tier::Balancers, balancer_id: 0, config_id: 0, page: self.cursor.page },
            ),
            Stage::Configs => Some(
                Request {
                    tier: Tier::Configs,
                    balancer_id: self.balancer_ids[self.parent],
                    config_id: 0,
                    page: self.cursor.page,
                },
            ),
            Stage::Nodes => {
                let (config_id, balancer_id) = self.config_ids[self.parent];
                Some(Request { tier: Tier::Nodes, balancer_id, config_id, page: self.cursor.page })
            },
            Stage::Finished => None,
        }
    }

    fn restart_listing(&mut self, stage: Stage)
        ensures
            final(self)@ == (PipelineState { stage, parent: 0, page: 1, pages: 0, ..old(self)@ }),
    {
        self.stage = stage;
        self.parent = 0;
        self.cursor = PageCursor::new();
    }

    fn end_cycle(&mut self)
        ensures
            final(self)@ == old(self)@.end_cycle(),
    {
        if self.continuous {
            self.balancer_ids = Vec::new();
            self.restart_listing(Stage::Balancers);
        } else {
            self.restart_listing(Stage::Finished);
        }
    }

    fn enter_nodes(&mut self)
        ensures
            final(self)@ == old(self)@.enter_nodes(),
    {
        if self.config_ids.len() == 0 {
            self.end_cycle();
        } else {
            self.restart_listing(Stage::Nodes);
        }
    }

    fn enter_configs(&mut self)
        ensures
            final(self)@ == old(self)@.enter_configs(),
    {
        self.config_ids = Vec::new();
        if self.balancer_ids.len() == 0 {
            self.enter_nodes();
        } else {
            self.restart_listing(Stage::Configs);
        }
    }

    fn parent_count(&self) -> (r: usize)
        ensures
            r == self@.parent_count(),
    {
        match self.stage {
            Stage::Balancers => 1,
            Stage::Configs => self.balancer_ids.len(),
            Stage::Nodes => self.config_ids.len(),
            Stage::Finished => 0,
        }
    }

    fn next_parent(&mut self)
        requires
            old(self)@.wf(),
            old(self)@.stage != Stage::Finished,
        ensures
            final(self)@ == old(self)@.next_parent(),
    {
        let count = self.parent_count();
        if self.parent + 1 < count {
            self.parent = self.parent + 1;
            self.cursor = PageCursor::new();
        } else {
            match self.stage {
                Stage::Balancers => self.enter_configs(),
                Stage::Configs => self.enter_nodes(),
                Stage::Nodes => self.end_cycle(),
                Stage::Finished => {},
            }
        }
    }

    fn turn_page(&mut self, reported: u64)
        requires
            old(self)@.wf(),
            old(self)@.stage != Stage::Finished,
        ensures
            final(self)@ == old(self)@.turn_page(reported as int),
    {
        let mut cursor = self.cursor;
        let more = cursor.advance(reported);
        if more {
            self.cursor = cursor;
        } else {
            self.next_parent();
        }
    }

    /// Keeps the balancers of the page that lie in the configured region and
    /// records their ids as parents for the configuration stage.
    fn take_balancers(&mut self, data: Vec<Balancer>) -> (kept: Vec<Balancer>)
        ensures
            kept@ == balancers_in(data@, old(self)@.region),
            final(self)@ == (PipelineState {
                balancer_ids: old(self)@.balancer_ids + kept@.map_values(|b: Balancer| b.id),
                ..old(self)@
            }),
    {
        let ghost all = data@;
        let ghost ids0 = self.balancer_ids@;
        let mut rest = data;
        let total: usize = rest.len();
        let mut k: usize = 0;
        let mut kept: Vec<Balancer> = Vec::new();
        while rest.len() > 0
            invariant
                k + rest@.len() == all.len(),
                all.len() == total,
                rest@ == all.skip(k as int),
                kept@ == balancers_in(all.take(k as int), self.region@),
                self.balancer_ids@ == ids0 + kept@.map_values(|b: Balancer| b.id),
                self@ == (PipelineState { balancer_ids: self.balancer_ids@, ..old(self)@ }),
            decreases rest@.len(),
        {
            let b = rest.remove(0);
            proof {
                assert(all.take(k + 1).drop_last() =~= all.take(k as int));
                assert(all[k as int] == b);
                assert(rest@ =~= all.skip(k + 1));
            }
            if b.region == self.region {
                self.balancer_ids.push(b.id);
                kept.push(b);
                assert(self.balancer_ids@ =~= ids0 + kept@.map_values(|b: Balancer| b.id));
            }
            k = k + 1;
        }
        assert(all.take(k as int) =~= all);
        kept
    }

    /// Keeps the configurations of the page that belong to balancer `owner`
    /// and records them as parents for the node stage.
    fn take_configs(&mut self, data: Vec<RouteConfig>, owner: u64) -> (kept: Vec<RouteConfig>)
        ensures
            kept@ == configs_of(data@, owner),
            final(self)@ == (PipelineState {
                config_ids: old(self)@.config_ids + kept@.map_values(|c: RouteConfig| (c.id, owner)),
                ..old(self)@
            }),
    {
        let ghost all = data@;
        let ghost ids0 = self.config_ids@;
        let mut rest = data;
        let total: usize = rest.len();
        let mut k: usize = 0;
        let mut kept: Vec<RouteConfig> = Vec::new();
        while rest.len() > 0
            invariant
                k + rest@.len() == all.len(),
                all.len() == total,
                rest@ == all.skip(k as int),
                kept@ == configs_of(all.take(k as int), owner),
                self.config_ids@ == ids0 + kept@.map_values(|c: RouteConfig| (c.id, owner)),
                self@ == (PipelineState { config_ids: self.config_ids@, ..old(self)@ }),
            decreases rest@.len(),
        {
            let c = rest.remove(0);
            proof {
                assert(all.take(k + 1).drop_last() =~= all.take(k as int));
                assert(all[k as int] == c);
                assert(rest@ =~= all.skip(k + 1));
            }
            if c.balancer_id == owner {
                self.config_ids.push((c.id, owner));
                kept.push(c);
                assert(self.config_ids@ =~= ids0 + kept@.map_values(|c: RouteConfig| (c.id, owner)));
            }
            k = k + 1;
        }
        assert(all.take(k as int) =~= all);
        kept
    }

    /// Keeps the nodes of the page that belong to configuration `owner`.
    fn take_nodes(data: Vec<Node>, owner: u64) -> (kept: Vec<Node>)
        ensures
            kept@ == nodes_of(data@, owner),
    {
        let ghost all = data@;
        let mut rest = data;
        let total: usize = rest.len();
        let mut k: usize = 0;
        let mut kept: Vec<Node> = Vec::new();
        while rest.len() > 0
            invariant
                k + rest@.len() == all.len(),
                all.len() == total,
                rest@ == all.skip(k as int),
                kept@ == nodes_of(all.take(k as int), owner),
            decreases rest@.len(),
        {
            let n = rest.remove(0);
            proof {
                assert(all.take(k + 1).drop_last() =~= all.take(k as int));
                assert(all[k as int] == n);
                assert(rest@ =~= all.skip(k + 1));
            }
            if n.config_id == owner {
                kept.push(n);
            }
            k = k + 1;
        }
        assert(all.take(k as int) =~= all);
        kept
    }

    /// Takes in the outcome of the request that `next_request` named and
    /// returns the entities to upsert. Balancers outside the region, and
    /// children that name another parent than the one listed, are dropped.
    /// A failed request, or a page of another tier, skips the rest of the
    /// current parent's listing and hands back nothing.
    pub fn on_response(&mut self, resp: Result<Response, RemoteError>) -> (out: Batch)
        requires
            old(self)@.wf(),
            old(self)@.stage != Stage::Finished,
        ensures
            final(self)@.wf(),
            final(self)@ == old(self)@.after(resp),
            old(self)@.emits(resp, out),
            batch_records(out) == old(self)@.records(resp),
            out matches Batch::Configs(v) ==> forall|i: int|
                0 <= i < v@.len() ==> old(self)@.balancer_ids.contains(#[trigger] v@[i].balancer_id),
            out matches Batch::Nodes(v) ==> forall|i: int|
                0 <= i < v@.len() ==> exists|j: int|
                    0 <= j < old(self)@.config_ids.len() && #[trigger] old(self)@.config_ids[j].0
                        == #[trigger] v@[i].config_id,
    {
        let ghost s0 = self@;
        let ghost r0 = resp;
        let out = match resp {
            Ok(Response::Balancers(l)) => {
                if self.stage == Stage::Balancers {
                    let kept = self.take_balancers(l.data);
                    self.turn_page(l.pages);
                    Batch::Balancers(kept)
                } else {
                    self.next_parent();
                    Batch::Nothing
                }
            },
            Ok(Response::Configs(l)) => {
                if self.stage == Stage::Configs {
                    let owner = self.balancer_ids[self.parent];
                    let kept = self.take_configs(l.data, owner);
                    self.turn_page(l.pages);
                    proof {
                        lemma_keep_satisfies(l.data@, |c: RouteConfig| c.balancer_id == owner);
                        assert(s0.balancer_ids[s0.parent] == owner);
                    }
                    Batch::Configs(kept)
                } else {
                    self.next_parent();
                    Batch::Nothing
                }
            },
            Ok(Response::Nodes(l)) => {
                if self.stage == Stage::Nodes {
                    let owner = self.config_ids[self.parent].0;
                    let kept = Self::take_nodes(l.data, owner);
                    self.turn_page(l.pages);
                    proof {
                        lemma_keep_satisfies(l.data@, |n: Node| n.config_id == owner);
                        assert forall|i: int| 0 <= i < kept@.len() implies exists|j: int|
                            0 <= j < s0.config_ids.len() && #[trigger] s0.config_ids[j].0
                                == #[trigger] kept@[i].config_id by {
                            assert(s0.config_ids[s0.parent].0 == kept@[i].config_id);
                        }
                    }
                    Batch::Nodes(kept)
                } else {
                    self.next_parent();
                    Batch::Nothing
                }
            },
            Err(_) => {
                self.next_parent();
                Batch::Nothing
            },
        };
        proof {
            lemma_batch_records(s0, r0, out);
        }
        out
    }
}

} // verus!
