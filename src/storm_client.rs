use vstd::prelude::*;
use vstd::string::*;

use crate::text::{trim_end_slashes, trim_slashes};

verus! {

/// The address of a Storm UI server, without trailing slashes.
#[derive(Debug, Clone)]
pub struct StormRestClient {
    url: String,
}

/// One entry of the topology summary listing.
#[derive(Debug)]
pub struct TopologySummary {
    pub name: String,
    pub id: String,
    pub status: String,
    pub uptime_seconds: i64,
    pub task_total: i64,
    pub worker_total: i64,
    pub executor_total: i64,
    pub replication_total: i64,
}

/// The body of the topology summary listing.
#[derive(Debug)]
pub struct TopologySummaries {
    pub topologies: Vec<TopologySummary>,
}

/// One worker endpoint.
#[derive(Debug, Clone)]
pub struct HostPort {
    pub host: String,
    pub port: u16,
}

/// The workers of one topology.
#[derive(Debug, Clone)]
pub struct TopologyWorkers {
    pub id: String,
    pub host_port_list: Vec<HostPort>,
    pub logviewer_port: u16,
}

/// The status that marks a running topology.
pub open spec fn active_status() -> Seq<char> {
    seq!['A', 'C', 'T', 'I', 'V', 'E']
}

/// The identifiers of the entries of `s` whose status is exactly `ACTIVE`, in order.
pub open spec fn active_ids_of(s: Seq<TopologySummary>) -> Seq<Seq<char>>
    decreases s.len(),
{
    if s.len() == 0 {
        Seq::empty()
    } else if s.last().status@ == active_status() {
        active_ids_of(s.drop_last()).push(s.last().id@)
    } else {
        active_ids_of(s.drop_last())
    }
}

/// The identifier given to a worker listing whose response carries none.
pub fn default_id() -> (r: String)
    ensures
        r@ == Seq::<char>::empty(),
{
    String::new()
}

impl StormRestClient {
    /// The base address, trailing slashes removed.
    pub closed spec fn base(&self) -> Seq<char> {
        self.url@
    }

    pub fn new(storm_ui_server: &str) -> (r: Self)
        ensures
            r.base() == trim_slashes(storm_ui_server@),
    {
        StormRestClient { url: trim_end_slashes(storm_ui_server) }
    }

    /// The address of the topology summary listing.
    pub fn topology_summary_endpoint(&self) -> (r: String)
        ensures
            r@ == self.base() + "/api/v1/topology/summary"@,
    {
        self.url.clone().concat("/api/v1/topology/summary")
    }

    /// The address of the worker listing of `topology_id`.
    pub fn topology_workers_endpoint(&self, topology_id: &str) -> (r: String)
        ensures
            r@ == self.base() + "/api/v1/topology-workers/"@ + topology_id@,
    {
        self.url.clone().concat("/api/v1/topology-workers/").concat(topology_id)
    }
}

impl TopologySummaries {
    /// The identifiers of the active topologies, in listing order.
    pub fn active_ids(&self) -> (r: Vec<String>)
        ensures
            r@.map_values(|s: String| s@) == active_ids_of(self.topologies@),
    {
        let active = String::from_str("ACTIVE");
        proof {
            reveal_strlit("ACTIVE");
        }
        let mut r: Vec<String> = Vec::new();
        let mut i: usize = 0;
        while i < self.topologies.len()
            invariant
                i <= self.topologies@.len(),
                active@ == active_status(),
                r@.map_values(|s: String| s@) == active_ids_of(self.topologies@.subrange(0, i as int)),
            decreases self.topologies@.len() - i,
        {
            let t = &self.topologies[i];
            let ghost pre = self.topologies@.subrange(0, i as int);
            let ghost next = self.topologies@.subrange(0, i + 1);
            assert(next.drop_last() =~= pre);
            if t.status == active {
                r.push(t.id.clone());
            }
            assert(r@.map_values(|s: String| s@) =~= active_ids_of(next));
            i = i + 1;
        }
        assert(self.topologies@.subrange(0, i as int) =~= self.topologies@);
        r
    }
}

impl TopologyWorkers {
    /// The same listing, its identifier replaced by `topology_id`.
    pub fn for_topology(self, topology_id: &str) -> (r: Self)
        ensures
            r.id@ == topology_id@,
            r.host_port_list@ == self.host_port_list@,
            r.logviewer_port == self.logviewer_port,
    {
        TopologyWorkers { id: String::from_str(topology_id), ..self }
    }
}

} // verus!
