use nbmirror::limiter::{pool_for, PermitPool, NODE_PERMITS};
use nbmirror::mirror::Mirror;
use nbmirror::model::{Balancer, Listing, Node, Record, RemoteError, RouteConfig, Tier};
use nbmirror::pipeline::{Batch, Pipeline, Request, Response, Stage};

fn balancer(id: u64, region: &str) -> Balancer {
    Balancer { id, ipv4: format!("10.0.0.{}", id), region: region.to_string(), cluster_id: 7 }
}

fn config(id: u64, balancer_id: u64) -> RouteConfig {
    RouteConfig { id, balancer_id, algorithm: "roundrobin".to_string(), port: 80, check_up: 2, check_down: 3 }
}

fn node(id: u64, config_id: u64) -> Node {
    Node { id, config_id, address: format!("192.168.1.{}:80", id % 250), status: "UP".to_string() }
}

fn listing<T>(data: Vec<T>, page: u64, pages: u64, results: u64) -> Listing<T> {
    Listing { data, page, pages, results }
}

/// A remote with three balancers in `us-east`, one configuration each, and
/// 250 nodes per configuration split 150 + 100 over two pages.
struct Remote {
    requests: Vec<Request>,
    /// Nodes on the first and on the second page of each configuration.
    split: fn(u64) -> (u64, u64),
}

/// 250 nodes per configuration: 150 on page 1, 100 on page 2.
fn per_config(_config: u64) -> (u64, u64) {
    (150, 100)
}

/// 250 nodes in all: 150 over the first pages, 100 over the second pages.
fn overall(config: u64) -> (u64, u64) {
    match config {
        10 => (50, 34),
        _ => (50, 33),
    }
}

impl Remote {
    fn answer(&mut self, req: Request) -> Result<Response, RemoteError> {
        self.requests.push(req);
        match req.tier {
            Tier::Balancers => Ok(Response::Balancers(listing(
                vec![balancer(1, "us-east"), balancer(2, "us-east"), balancer(3, "us-east")],
                1,
                1,
                3,
            ))),
            Tier::Configs => {
                Ok(Response::Configs(listing(vec![config(req.balancer_id * 10, req.balancer_id)], 1, 1, 1)))
            }
            Tier::Nodes => {
                let base = req.config_id * 1000;
                let (first, second) = (self.split)(req.config_id);
                let (from, to) = if req.page == 1 { (0, first) } else { (first, first + second) };
                let nodes = (from..to).map(|i| node(base + i, req.config_id)).collect();
                Ok(Response::Nodes(listing(nodes, req.page, 2, first + second)))
            }
        }
    }
}

fn batch_records(batch: Batch) -> Vec<Record> {
    match batch {
        Batch::Balancers(v) => v.into_iter().map(Record::Balancer).collect(),
        Batch::Configs(v) => v.into_iter().map(Record::Config).collect(),
        Batch::Nodes(v) => v.into_iter().map(Record::Node).collect(),
        Batch::Nothing => Vec::new(),
    }
}

/// Runs a run-once pipeline to the end and returns the requests made and the
/// records handed out.
fn run_once(remote: &mut Remote) -> Vec<Record> {
    let mut p = Pipeline::new("us-east".to_string(), false);
    let mut out = Vec::new();
    while let Some(req) = p.next_request() {
        let resp = remote.answer(req);
        out.extend(batch_records(p.on_response(resp)));
    }
    out
}

#[test]
fn scenario_three_balancers_two_node_pages() {
    let mut remote = Remote { requests: Vec::new(), split: overall };
    let records = run_once(&mut remote);
    let count = |t: Tier| remote.requests.iter().filter(|r| r.tier == t).count();
    assert_eq!(count(Tier::Balancers), 1);
    assert_eq!(count(Tier::Configs), 3);
    assert_eq!(count(Tier::Nodes), 6);
    assert_eq!(records.len(), 3 + 3 + 250);
    let node_pages: Vec<u64> = remote.requests.iter().filter(|r| r.tier == Tier::Nodes).map(|r| r.page).collect();
    assert_eq!(node_pages, vec![1, 2, 1, 2, 1, 2]);
}

#[test]
fn scenario_250_nodes_per_configuration() {
    let mut remote = Remote { requests: Vec::new(), split: per_config };
    let records = run_once(&mut remote);
    let count = |t: Tier| remote.requests.iter().filter(|r| r.tier == t).count();
    assert_eq!(count(Tier::Nodes), 6);
    assert_eq!(records.len(), 3 + 3 + 750);
    let nodes: Vec<Node> = records
        .into_iter()
        .filter_map(|r| if let Record::Node(n) = r { Some(n) } else { None })
        .collect();
    assert_eq!(nodes.len(), 250 * 3);
}

#[test]
fn scenario_dispatch_counts_and_node_tier_bound() {
    let mut remote = Remote { requests: Vec::new(), split: per_config };
    let records = run_once(&mut remote);
    let mut balancers = 0;
    let mut configs = 0;
    let mut pool = pool_for(Tier::Nodes);
    let mut most = 0;
    let mut dispatched = 0;
    for r in &records {
        match r {
            Record::Balancer(_) => balancers += 1,
            Record::Config(_) => configs += 1,
            Record::Node(_) => {
                // a full pool makes the dispatcher wait for one task to finish
                if !pool.try_acquire() {
                    pool.release();
                    assert!(pool.try_acquire());
                }
                dispatched += 1;
                most = most.max(pool.held());
            }
        }
    }
    assert_eq!(balancers, 3);
    assert_eq!(configs, 3);
    assert_eq!(dispatched, 750);
    assert_eq!(most, NODE_PERMITS);
    assert!(pool.held() <= pool.capacity());
}

#[test]
fn second_run_leaves_mirror_identical() {
    let mut remote = Remote { requests: Vec::new(), split: per_config };
    let mut mirror = Mirror::new();
    mirror.upsert_all(run_once(&mut remote));
    let b1 = mirror.balancers.clone();
    let c1 = mirror.configs.clone();
    let n1 = mirror.nodes.clone();
    mirror.upsert_all(run_once(&mut remote));
    assert_eq!(mirror.balancers, b1);
    assert_eq!(mirror.configs, c1);
    assert_eq!(mirror.nodes, n1);
    assert_eq!(mirror.counts(), (3, 3, 750));
}

#[test]
fn single_page_listing_makes_one_request() {
    let mut p = Pipeline::new("us-east".to_string(), false);
    let req = p.next_request().unwrap();
    assert_eq!(req, Request { tier: Tier::Balancers, balancer_id: 0, config_id: 0, page: 1 });
    p.on_response(Ok(Response::Balancers(listing(vec![balancer(5, "us-east")], 1, 1, 1))));
    let next = p.next_request().unwrap();
    assert_eq!(next, Request { tier: Tier::Configs, balancer_id: 5, config_id: 0, page: 1 });
}

#[test]
fn multi_page_listing_walks_pages_in_order() {
    let mut p = Pipeline::new("eu-west".to_string(), false);
    let mut pages = Vec::new();
    let mut seen = 0;
    while p.stage == Stage::Balancers {
        let req = p.next_request().unwrap();
        pages.push(req.page);
        let data = vec![balancer(req.page * 100, "eu-west"), balancer(req.page * 100 + 1, "eu-west")];
        // later pages claim another total: the first response decides
        let reported = if req.page == 1 { 4 } else { 9 };
        if let Batch::Balancers(v) = p.on_response(Ok(Response::Balancers(listing(data, req.page, reported, 8)))) {
            seen += v.len();
        }
    }
    assert_eq!(pages, vec![1, 2, 3, 4]);
    assert_eq!(seen, 8);
    assert_eq!(p.balancer_ids.len(), 8);
}

#[test]
fn balancers_outside_region_are_dropped() {
    let mut p = Pipeline::new("us-east".to_string(), false);
    let out = p.on_response(Ok(Response::Balancers(listing(
        vec![balancer(1, "us-east"), balancer(2, "ap-south"), balancer(3, "us-east")],
        1,
        1,
        3,
    ))));
    match out {
        Batch::Balancers(v) => assert_eq!(v.iter().map(|b| b.id).collect::<Vec<_>>(), vec![1, 3]),
        other => panic!("unexpected batch {:?}", other),
    }
    assert_eq!(p.balancer_ids, vec![1, 3]);
    assert_eq!(p.stage, Stage::Configs);
}

#[test]
fn children_of_another_parent_are_dropped() {
    let mut p = Pipeline::new("us-east".to_string(), false);
    p.on_response(Ok(Response::Balancers(listing(vec![balancer(1, "us-east")], 1, 1, 1))));
    let out = p.on_response(Ok(Response::Configs(listing(vec![config(11, 1), config(12, 99)], 1, 1, 2))));
    match out {
        Batch::Configs(v) => assert_eq!(v, vec![config(11, 1)]),
        other => panic!("unexpected batch {:?}", other),
    }
    assert_eq!(p.config_ids, vec![(11, 1)]);
    assert_eq!(p.next_request().unwrap(), Request { tier: Tier::Nodes, balancer_id: 1, config_id: 11, page: 1 });
    let out = p.on_response(Ok(Response::Nodes(listing(vec![node(5, 11), node(6, 12)], 1, 1, 2))));
    match out {
        Batch::Nodes(v) => assert_eq!(v, vec![node(5, 11)]),
        other => panic!("unexpected batch {:?}", other),
    }
    assert!(p.is_finished());
    assert_eq!(p.next_request(), None);
}

#[test]
fn failed_listing_skips_only_that_parent() {
    let mut p = Pipeline::new("us-east".to_string(), false);
    p.on_response(Ok(Response::Balancers(listing(vec![balancer(1, "us-east"), balancer(2, "us-east")], 1, 1, 2))));
    let out = p.on_response(Err(RemoteError::Status(500)));
    assert!(matches!(out, Batch::Nothing));
    assert_eq!(p.next_request().unwrap(), Request { tier: Tier::Configs, balancer_id: 2, config_id: 0, page: 1 });
    let out = p.on_response(Err(RemoteError::Malformed));
    assert!(matches!(out, Batch::Nothing));
    // no configuration was found, so there is no node to list
    assert!(p.is_finished());
}

#[test]
fn page_of_wrong_tier_is_skipped() {
    let mut p = Pipeline::new("us-east".to_string(), false);
    let out = p.on_response(Ok(Response::Nodes(listing(vec![node(1, 1)], 1, 1, 1))));
    assert!(matches!(out, Batch::Nothing));
    assert!(p.balancer_ids.is_empty());
    assert!(p.is_finished());
}

#[test]
fn zero_pages_and_empty_data_move_on() {
    let mut p = Pipeline::new("us-east".to_string(), true);
    let out = p.on_response(Ok(Response::Balancers(listing(Vec::new(), 1, 0, 0))));
    assert!(matches!(out, Batch::Balancers(ref v) if v.is_empty()));
    // continuous: an empty cycle starts over at the balancer listing
    assert_eq!(p.stage, Stage::Balancers);
    assert_eq!(p.next_request().unwrap().page, 1);
}

#[test]
fn continuous_pipeline_starts_a_new_cycle() {
    let mut p = Pipeline::new("us-east".to_string(), true);
    p.on_response(Ok(Response::Balancers(listing(vec![balancer(1, "us-east")], 1, 1, 1))));
    p.on_response(Ok(Response::Configs(listing(vec![config(11, 1)], 1, 1, 1))));
    p.on_response(Ok(Response::Nodes(listing(vec![node(5, 11)], 1, 1, 1))));
    assert_eq!(p.stage, Stage::Balancers);
    assert!(p.balancer_ids.is_empty());
    assert!(!p.is_finished());
}

#[test]
fn permit_pool_refuses_past_capacity() {
    let mut pool = PermitPool::new(2);
    assert!(pool.try_acquire());
    assert!(pool.try_acquire());
    assert!(!pool.try_acquire());
    assert_eq!(pool.held(), 2);
    assert_eq!(pool.available(), 0);
    pool.release();
    assert_eq!(pool.available(), 1);
    assert!(pool.try_acquire());
}

#[test]
fn tier_pools_have_their_sizes() {
    assert_eq!(pool_for(Tier::Balancers).capacity(), 100);
    assert_eq!(pool_for(Tier::Configs).capacity(), 100);
    assert_eq!(pool_for(Tier::Nodes).capacity(), 200);
    assert_eq!(pool_for(Tier::Nodes).held(), 0);
}

#[test]
fn upsert_overwrites_row_with_same_id() {
    let mut m = Mirror::new();
    m.upsert(Record::Balancer(balancer(1, "us-east")));
    let mut moved = balancer(1, "us-west");
    moved.ipv4 = "10.9.9.9".to_string();
    m.upsert(Record::Balancer(moved.clone()));
    m.upsert(Record::Config(config(4, 1)));
    m.upsert(Record::Node(node(8, 4)));
    assert_eq!(m.counts(), (1, 1, 1));
    assert_eq!(m.balancers.get(&1), Some(&moved));
}
