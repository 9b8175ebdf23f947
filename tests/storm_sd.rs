use storm_sd::error::Error;
use storm_sd::file_sd::FileSD;
use storm_sd::publisher::{build_target, build_targets, same_groups, Publisher};
use storm_sd::storm_client::{
    default_id, HostPort, StormRestClient, TopologySummaries, TopologySummary, TopologyWorkers,
};
use storm_sd::text::{push_decimal, trim_end_slashes};

fn summary_from_json(v: &serde_json::Value) -> TopologySummary {
    TopologySummary {
        name: v["name"].as_str().unwrap().to_string(),
        id: v["id"].as_str().unwrap().to_string(),
        status: v["status"].as_str().unwrap().to_string(),
        uptime_seconds: v["uptimeSeconds"].as_i64().unwrap(),
        task_total: v["tasksTotal"].as_i64().unwrap(),
        worker_total: v["workersTotal"].as_i64().unwrap(),
        executor_total: v["executorsTotal"].as_i64().unwrap(),
        replication_total: v["replicationCount"].as_i64().unwrap(),
    }
}

fn workers_from_json(v: &serde_json::Value) -> TopologyWorkers {
    let mut host_port_list = Vec::new();
    for hp in v["hostPortList"].as_array().unwrap() {
        host_port_list.push(HostPort {
            host: hp["host"].as_str().unwrap().to_string(),
            port: hp["port"].as_u64().unwrap() as u16,
        });
    }
    TopologyWorkers {
        id: match v.get("id") {
            Some(id) => id.as_str().unwrap().to_string(),
            None => default_id(),
        },
        host_port_list,
        logviewer_port: v["logviewerPort"].as_u64().unwrap() as u16,
    }
}

fn summary(id: &str, status: &str) -> TopologySummary {
    TopologySummary {
        name: id.to_string(),
        id: id.to_string(),
        status: status.to_string(),
        uptime_seconds: 0,
        task_total: 0,
        worker_total: 0,
        executor_total: 0,
        replication_total: 0,
    }
}

fn hp(host: &str, port: u16) -> HostPort {
    HostPort { host: host.to_string(), port }
}

fn workers(id: &str, hps: Vec<HostPort>) -> TopologyWorkers {
    TopologyWorkers { id: id.to_string(), host_port_list: hps, logviewer_port: 8000 }
}

fn sorted_targets(d: &FileSD) -> Vec<String> {
    let mut t = d.to_parts().0;
    t.sort();
    t
}

fn sorted_labels(d: &FileSD) -> Vec<(String, String)> {
    let mut l = d.to_parts().1;
    l.sort();
    l
}

fn pair(k: &str, v: &str) -> (String, String) {
    (k.to_string(), v.to_string())
}

#[test]
fn test_topology_summary_serde() {
    let s = "{
        \"topologies\": [{
            \"id\": \"WordCount3-1-1402960825\",
            \"name\": \"WordCount3\",
            \"status\": \"ACTIVE\",
            \"uptime\": \"6m 5s\",
            \"uptimeSeconds\": 365,
            \"tasksTotal\": 28,
            \"workersTotal\": 3,
            \"executorsTotal\": 28,
            \"replicationCount\": 1,
            \"requestedMemOnHeap\": 640,
            \"requestedMemOffHeap\": 128,
            \"requestedTotalMem\": 768,
            \"requestedCpu\": 80,
            \"assignedMemOnHeap\": 640,
            \"assignedMemOffHeap\": 128,
            \"assignedTotalMem\": 768,
            \"assignedCpu\": 80
        }],
        \"schedulerDisplayResource\": true
    }";

    let v: serde_json::Value = serde_json::from_str(s).unwrap();
    let topologies = TopologySummaries {
        topologies: v["topologies"].as_array().unwrap().iter().map(summary_from_json).collect(),
    };
    assert_eq!(topologies.topologies.len(), 1);

    let topology = &topologies.topologies[0];
    assert_eq!(topology.name, "WordCount3");
    assert_eq!(topology.id, "WordCount3-1-1402960825");
    assert_eq!(topology.status, "ACTIVE");
    assert_eq!(topology.uptime_seconds, 365);
    assert_eq!(topology.task_total, 28);
    assert_eq!(topology.worker_total, 3);
    assert_eq!(topology.executor_total, 28);
    assert_eq!(topology.replication_total, 1);
    assert_eq!(topologies.active_ids(), vec!["WordCount3-1-1402960825".to_string()]);
}

#[test]
fn test_host_port_list_serde() {
    let s = "{
        \"hostPortList\": [\
            {\"host\":\"192.168.202.2\", \"port\":6701},\
            {\"host\":\"192.168.202.2\", \"port\":6702},\
            {\"host\":\"192.168.202.3\", \"port\":6700}],\
        \"logviewerPort\": 8000}";
    let v: serde_json::Value = serde_json::from_str(s).unwrap();
    let workers = workers_from_json(&v);

    assert_eq!(workers.host_port_list[0].host, "192.168.202.2");
    assert_eq!(workers.host_port_list[0].port, 6701u16);
    assert_eq!(workers.logviewer_port, 8000u16);
    assert_eq!(workers.id, "");
}

#[test]
fn active_ids_keep_only_active_in_order() {
    let s = TopologySummaries {
        topologies: vec![summary("a", "ACTIVE"), summary("b", "KILLED"), summary("c", "ACTIVE")],
    };
    assert_eq!(s.active_ids(), vec!["a".to_string(), "c".to_string()]);
}

#[test]
fn active_ids_match_status_exactly() {
    let s = TopologySummaries {
        topologies: vec![
            summary("a", "active"),
            summary("b", "INACTIVE"),
            summary("c", "REBALANCING"),
            summary("d", "ACTIVE "),
        ],
    };
    assert!(s.active_ids().is_empty());
    let empty = TopologySummaries { topologies: vec![] };
    assert!(empty.active_ids().is_empty());
}

#[test]
fn duplicate_endpoints_collapse_into_one_target() {
    let tw = workers(
        "J1",
        vec![hp("192.168.202.2", 6701), hp("192.168.202.2", 6701), hp("192.168.202.3", 6700)],
    );
    let d = build_target(&tw, "demo");
    assert_eq!(
        sorted_targets(&d),
        vec!["192.168.202.2:6701".to_string(), "192.168.202.3:6700".to_string()]
    );
    assert_eq!(sorted_labels(&d), vec![pair("cluster", "demo"), pair("topology_id", "J1")]);
}

#[test]
fn from_workers_labels_only_the_topology() {
    let tw = workers("T-7", vec![hp("h", 0), hp("h", 65535), hp("h", 10)]);
    let d = FileSD::from_workers(&tw);
    assert_eq!(
        sorted_targets(&d),
        vec!["h:0".to_string(), "h:10".to_string(), "h:65535".to_string()]
    );
    assert_eq!(sorted_labels(&d), vec![pair("topology_id", "T-7")]);
}

#[test]
fn add_label_replaces_an_earlier_value() {
    let mut d = FileSD::from_workers(&workers("T", vec![hp("h", 1)]));
    d.add_label("cluster", "one");
    d.add_label("cluster", "two");
    d.add_label("topology_id", "U");
    assert_eq!(sorted_labels(&d), vec![pair("cluster", "two"), pair("topology_id", "U")]);
    assert_eq!(sorted_targets(&d), vec!["h:1".to_string()]);
}

#[test]
fn groups_compare_by_value() {
    let a = build_target(&workers("T", vec![hp("a", 1), hp("b", 2)]), "c");
    let b = build_target(&workers("T", vec![hp("b", 2), hp("a", 1), hp("a", 1)]), "c");
    let c = build_target(&workers("T", vec![hp("a", 1)]), "c");
    let d = build_target(&workers("T", vec![hp("a", 1), hp("b", 2)]), "other");
    assert!(a == b);
    assert!(a != c);
    assert!(a != d);
}

#[test]
fn publishing_twice_writes_once() {
    let ws = vec![workers("T1", vec![hp("a", 1)]), workers("T2", vec![hp("b", 2)])];
    let mut p = Publisher::new();
    let first = p.plan(Some(ws.clone()), "demo");
    assert!(first.is_some());
    p.record(first.unwrap(), true);
    assert!(p.plan(Some(ws), "demo").is_none());
}

#[test]
fn first_cycle_writes_even_an_empty_set() {
    let mut p = Publisher::new();
    let first = p.plan(Some(vec![]), "demo");
    assert_eq!(first.as_ref().map(|v| v.len()), Some(0));
    p.record(first.unwrap(), true);
    assert!(p.plan(Some(vec![]), "demo").is_none());
    let q = Publisher::new();
    assert!(q.plan(Some(vec![workers("T", vec![])]), "demo").is_some());
}

#[test]
fn discovery_order_does_not_trigger_a_write() {
    let ws = vec![
        workers("T1", vec![hp("a", 1), hp("b", 2)]),
        workers("T2", vec![hp("c", 3)]),
    ];
    let permuted = vec![
        workers("T2", vec![hp("c", 3)]),
        workers("T1", vec![hp("b", 2), hp("a", 1)]),
    ];
    let mut p = Publisher::new();
    let first = p.plan(Some(ws.clone()), "demo").unwrap();
    assert!(same_groups(&first, &build_targets(&permuted, "demo")));
    p.record(first, true);
    assert!(p.plan(Some(permuted), "demo").is_none());
}

#[test]
fn changed_workers_trigger_a_write() {
    let mut p = Publisher::new();
    let first = p.plan(Some(vec![workers("T1", vec![hp("a", 1)])]), "demo").unwrap();
    p.record(first, true);
    let next = p.plan(Some(vec![workers("T1", vec![hp("a", 2)])]), "demo");
    assert_eq!(next.map(|v| v.len()), Some(1));
}

#[test]
fn failed_poll_writes_nothing() {
    let ws = vec![workers("T1", vec![hp("a", 1)])];
    let mut p = Publisher::new();
    let first = p.plan(Some(ws.clone()), "demo").unwrap();
    p.record(first, true);
    assert!(p.plan(None, "demo").is_none());
    assert!(p.plan(Some(ws), "demo").is_none());
}

#[test]
fn failed_write_is_retried() {
    let ws = vec![workers("T1", vec![hp("a", 1)])];
    let mut p = Publisher::new();
    let first = p.plan(Some(ws.clone()), "demo").unwrap();
    p.record(first, false);
    let again = p.plan(Some(ws.clone()), "demo");
    assert!(again.is_some());
    p.record(again.unwrap(), true);
    assert!(p.plan(Some(ws), "demo").is_none());
}

#[test]
fn groups_survive_a_json_round_trip() {
    let mut d = build_target(
        &workers("T\"1", vec![hp("192.168.202.2", 6701), hp("host-ä", 80)]),
        "demo",
    );
    d.add_label("zone", "a\nb");
    let text = serde_json::to_string_pretty(&d.to_parts()).unwrap();
    let (targets, labels): (Vec<String>, Vec<(String, String)>) =
        serde_json::from_str(&text).unwrap();
    let back = FileSD::from_parts(targets, labels);
    assert!(back == d);
}

#[test]
fn from_parts_drops_repeats() {
    let d = FileSD::from_parts(
        vec!["a:1".to_string(), "a:1".to_string()],
        vec![pair("k", "1"), pair("k", "2")],
    );
    assert_eq!(sorted_targets(&d), vec!["a:1".to_string()]);
    assert_eq!(sorted_labels(&d), vec![pair("k", "2")]);
}

#[test]
fn client_endpoints() {
    let c = StormRestClient::new("http://stormui.com//");
    assert_eq!(c.topology_summary_endpoint(), "http://stormui.com/api/v1/topology/summary");
    assert_eq!(
        c.topology_workers_endpoint("WordCount3-1-1402960825"),
        "http://stormui.com/api/v1/topology-workers/WordCount3-1-1402960825"
    );
    let plain = StormRestClient::new("http://ui:8080");
    assert_eq!(plain.topology_summary_endpoint(), "http://ui:8080/api/v1/topology/summary");
}

#[test]
fn trailing_slashes_are_trimmed() {
    assert_eq!(trim_end_slashes("a/b///"), "a/b");
    assert_eq!(trim_end_slashes("///"), "");
    assert_eq!(trim_end_slashes(""), "");
    assert_eq!(trim_end_slashes("/a"), "/a");
}

#[test]
fn decimal_text_of_ports() {
    for (n, t) in [(0u16, "0"), (7, "7"), (10, "10"), (6701, "6701"), (65535, "65535")] {
        let mut s = String::from("p");
        push_decimal(&mut s, n);
        assert_eq!(s, format!("p{}", t));
    }
}

#[test]
fn worker_listing_takes_the_requested_id() {
    let tw = workers("from-body", vec![hp("a", 1)]).for_topology("requested");
    assert_eq!(tw.id, "requested");
    assert_eq!(tw.host_port_list.len(), 1);
    assert_eq!(tw.logviewer_port, 8000);
    assert_eq!(default_id(), "");
}

#[test]
fn error_kinds() {
    let e = Error::HttpError { url: "u".to_string(), cause: "c".to_string() };
    assert!(e.is_upstream());
    let p = Error::ParseError { url: "u".to_string(), cause: "c".to_string() };
    assert!(p.is_upstream());
    let w = Error::WriteResult { path: "p".to_string(), cause: "c".to_string() };
    assert!(!w.is_upstream());
}
