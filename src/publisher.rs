use vstd::prelude::*;

use crate::file_sd::{lemma_targets_of, parts_view, target_of, targets_of, topology_key, FileSD};
use crate::storm_client::{HostPort, TopologyWorkers};

verus! {

broadcast use vstd::seq_lib::group_to_multiset_ensures;

/// What a target group is to a reader of the discovery file: its targets and its labels.
pub type GroupView = (Set<Seq<char>>, Map<Seq<char>, Seq<char>>);

/// The label that names the cluster of a target group.
pub open spec fn cluster_key() -> Seq<char> {
    "cluster"@
}

/// The target group of one topology's workers in cluster `cluster`.
pub open spec fn descriptor_view(tw: TopologyWorkers, cluster: Seq<char>) -> GroupView {
    (
        targets_of(tw.host_port_list@),
        map![topology_key() => tw.id@, cluster_key() => cluster],
    )
}

/// The set of target groups of a poll that found the workers `ws`.
pub open spec fn descriptors_of(ws: Seq<TopologyWorkers>, cluster: Seq<char>) -> Set<GroupView> {
    Set::new(|v: GroupView| exists|i: int| 0 <= i < ws.len() && descriptor_view(ws[i], cluster) == v)
}

/// The set of groups of a list, as equality of the discovery file sees it.
pub open spec fn view_set(c: Seq<FileSD>) -> Set<GroupView> {
    Set::new(|v: GroupView| exists|i: int| 0 <= i < c.len() && c[i]@ == v)
}

/// Whether a cycle whose poll gave `polled` (nothing when the poll failed) must
/// write the file, given the groups `last` that were last written (nothing
/// before the first write).
pub open spec fn write_due(
    last: Option<Set<GroupView>>,
    polled: Option<Seq<TopologyWorkers>>,
    cluster: Seq<char>,
) -> bool {
    match polled {
        Some(ws) => last != Some(descriptors_of(ws, cluster)),
        None => false,
    }
}

/// The workers of a poll, nothing when the poll failed.
pub open spec fn polled_view(polled: Option<Vec<TopologyWorkers>>) -> Option<Seq<TopologyWorkers>> {
    match polled {
        Some(ws) => Some(ws@),
        None => None,
    }
}

/// The groups known as written after an attempt to write `written`.
pub open spec fn published_after(
    last: Option<Set<GroupView>>,
    written: Set<GroupView>,
    ok: bool,
) -> Option<Set<GroupView>> {
    if ok {
        Some(written)
    } else {
        last
    }
}

/// The workers of `x` and `y` are those of one topology, the endpoints perhaps in another order.
pub open spec fn same_workers(x: TopologyWorkers, y: TopologyWorkers) -> bool {
    x.id@ == y.id@ && x.host_port_list@.to_multiset() == y.host_port_list@.to_multiset()
}

/// The target group of one topology's workers in cluster `cluster`.
pub fn build_target(tw: &TopologyWorkers, cluster: &str) -> (r: FileSD)
    ensures
        r@ == descriptor_view(*tw, cluster@),
{
    let mut r = FileSD::from_workers(tw);
    r.add_label("cluster", cluster);
    proof {
        reveal_strlit("cluster");
        reveal_strlit("topology_id");
        assert(r.label_map() =~= map![topology_key() => tw.id@, cluster_key() => cluster@]);
    }
    r
}

/// The target groups of the workers of each topology, one per topology, in order.
pub fn build_targets(workers: &Vec<TopologyWorkers>, cluster: &str) -> (r: Vec<FileSD>)
    ensures
        r@.len() == workers@.len(),
        forall|i: int| 0 <= i < r@.len() ==> #[trigger] r@[i]@ == descriptor_view(workers@[i], cluster@),
        view_set(r@) == descriptors_of(workers@, cluster@),
{
    let mut r: Vec<FileSD> = Vec::new();
    let mut i: usize = 0;
    while i < workers.len()
        invariant
            i <= workers@.len(),
            r@.len() == i,
            forall|j: int| 0 <= j < i ==> #[trigger] r@[j]@ == descriptor_view(workers@[j], cluster@),
        decreases workers@.len() - i,
    {
        r.push(build_target(&workers[i], cluster));
        i = i + 1;
    }
    assert forall|v: GroupView| #[trigger]
        view_set(r@).contains(v) == descriptors_of(workers@, cluster@).contains(v) by {
        if view_set(r@).contains(v) {
            let j = choose|j: int| 0 <= j < r@.len() && r@[j]@ == v;
            assert(descriptor_view(workers@[j], cluster@) == v);
        }
        if descriptors_of(workers@, cluster@).contains(v) {
            let j = choose|j: int|
                0 <= j < workers@.len() && descriptor_view(workers@[j], cluster@) == v;
            assert(r@[j]@ == v);
        }
    }
    assert(view_set(r@) =~= descriptors_of(workers@, cluster@));
    r
}

/// Whether the two lists hold the same groups, whatever their order and repetitions.
pub fn same_groups(a: &Vec<FileSD>, b: &Vec<FileSD>) -> (r: bool)
    ensures
        r == (view_set(a@) == view_set(b@)),
{
    let r = groups_within(a, b) && groups_within(b, a);
    proof {
        if r {
            assert(view_set(a@) =~= view_set(b@));
        }
    }
    r
}

/// Whether every group of `a` occurs in `b`.
fn groups_within(a: &Vec<FileSD>, b: &Vec<FileSD>) -> (r: bool)
    ensures
        r == view_set(a@).subset_of(view_set(b@)),
{
    let mut i: usize = 0;
    while i < a.len()
        invariant
            i <= a@.len(),
            forall|j: int| 0 <= j < i ==> view_set(b@).contains(#[trigger] a@[j]@),
        decreases a@.len() - i,
    {
        let mut found = false;
        let mut k: usize = 0;
        while k < b.len()
            invariant
                i < a@.len(),
                k <= b@.len(),
                found ==> view_set(b@).contains(a@[i as int]@),
                !found ==> forall|m: int| 0 <= m < k ==> b@[m]@ != a@[i as int]@,
            decreases b@.len() - k,
        {
            if !found && b[k].same_as(&a[i]) {
                found = true;
            }
            k = k + 1;
        }
        if !found {
            assert(view_set(a@).contains(a@[i as int]@));
            return false;
        }
        i = i + 1;
    }
    true
}

/// The state of publication: the target groups last written to the discovery
/// file by this process, nothing before its first write.
pub struct Publisher {
    last: Option<Vec<FileSD>>,
}

impl View for Publisher {
    type V = Option<Set<GroupView>>;

    closed spec fn view(&self) -> Option<Set<GroupView>> {
        match self.last {
            Some(v) => Some(view_set(v@)),
            None => None,
        }
    }
}

impl Publisher {
    /// A publisher that has written nothing yet.
    pub fn new() -> (r: Publisher)
        ensures
            r@ == None::<Set<GroupView>>,
    {
        Publisher { last: None }
    }

    /// Whether `current` differs from what was last written; always so before
    /// the first write.
    pub fn needs_write(&self, current: &Vec<FileSD>) -> (r: bool)
        ensures
            r == (self@ != Some(view_set(current@))),
    {
        match &self.last {
            Some(last) => !same_groups(current, last),
            None => true,
        }
    }

    /// The groups to write after a poll that gave `polled` (nothing when the
    /// listing or a worker fetch failed): nothing when the poll failed or found
    /// what was last written.
    pub fn plan(
        &self,
        polled: Option<Vec<TopologyWorkers>>,
        cluster: &str,
    ) -> (r: Option<Vec<FileSD>>)
        ensures
            r is Some == write_due(self@, polled_view(polled), cluster@),
            r is Some ==> view_set(r->0@) == descriptors_of(polled->0@, cluster@),
    {
        match polled {
            None => None,
            Some(ws) => {
                let current = build_targets(&ws, cluster);
                if self.needs_write(&current) {
                    Some(current)
                } else {
                    None
                }
            },
        }
    }

    /// Records the outcome of writing `written`: on success it becomes what was
    /// last written, on failure nothing changes, so that the next cycle tries again.
    pub fn record(&mut self, written: Vec<FileSD>, ok: bool)
        ensures
            final(self)@ == published_after(old(self)@, view_set(written@), ok),
    {
        if ok {
            self.last = Some(written);
        }
    }
}

/// Publishing is idempotent: once the groups of a poll have been written, the
/// same poll calls for no write.
pub proof fn lemma_publish_idempotent(
    last: Option<Set<GroupView>>,
    ws: Seq<TopologyWorkers>,
    cluster: Seq<char>,
)
    ensures
        !write_due(
            published_after(last, descriptors_of(ws, cluster), true),
            Some(ws),
            cluster,
        ),
{
}

/// Endpoints in another order give the same targets.
pub proof fn lemma_targets_order_independent(a: Seq<HostPort>, b: Seq<HostPort>)
    requires
        a.to_multiset() == b.to_multiset(),
    ensures
        targets_of(a) == targets_of(b),
{
    lemma_targets_of(a);
    lemma_targets_of(b);
    assert forall|x: Seq<char>| targets_of(a).contains(x) implies targets_of(b).contains(x) by {
        let i = choose|i: int| 0 <= i < a.len() && target_of(a[i].host@, a[i].port) == x;
        assert(a.contains(a[i]));
        assert(a.to_multiset().count(a[i]) > 0);
        assert(b.to_multiset().count(a[i]) > 0);
        assert(b.contains(a[i]));
        let j = choose|j: int| 0 <= j < b.len() && b[j] == a[i];
        assert(targets_of(b).contains(target_of(b[j].host@, b[j].port)));
    }
    assert forall|x: Seq<char>| targets_of(b).contains(x) implies targets_of(a).contains(x) by {
        let i = choose|i: int| 0 <= i < b.len() && target_of(b[i].host@, b[i].port) == x;
        assert(b.contains(b[i]));
        assert(b.to_multiset().count(b[i]) > 0);
        assert(a.to_multiset().count(b[i]) > 0);
        assert(a.contains(b[i]));
        let j = choose|j: int| 0 <= j < a.len() && a[j] == b[i];
        assert(targets_of(a).contains(target_of(a[j].host@, a[j].port)));
    }
    assert(targets_of(a) =~= targets_of(b));
}

/// Discovery order does not matter: two polls that found the same topologies,
/// in any order and each with its endpoints in any order, give the same groups,
/// and so the same decision to write.
pub proof fn lemma_order_independent(
    a: Seq<TopologyWorkers>,
    b: Seq<TopologyWorkers>,
    cluster: Seq<char>,
    last: Option<Set<GroupView>>,
)
    requires
        forall|i: int|
            #![trigger a[i]]
            0 <= i < a.len() ==> exists|j: int|
                0 <= j < b.len() && #[trigger] same_workers(a[i], b[j]),
        forall|j: int|
            #![trigger b[j]]
            0 <= j < b.len() ==> exists|i: int|
                0 <= i < a.len() && #[trigger] same_workers(a[i], b[j]),
    ensures
        descriptors_of(a, cluster) == descriptors_of(b, cluster),
        write_due(last, Some(a), cluster) == write_due(last, Some(b), cluster),
{
    assert forall|v: GroupView| descriptors_of(a, cluster).contains(v) implies descriptors_of(
        b,
        cluster,
    ).contains(v) by {
        let i = choose|i: int| 0 <= i < a.len() && descriptor_view(a[i], cluster) == v;
        let j = choose|j: int| 0 <= j < b.len() && same_workers(a[i], b[j]);
        lemma_targets_order_independent(a[i].host_port_list@, b[j].host_port_list@);
        assert(descriptor_view(b[j], cluster) == v);
    }
    assert forall|v: GroupView| descriptors_of(b, cluster).contains(v) implies descriptors_of(
        a,
        cluster,
    ).contains(v) by {
        let j = choose|j: int| 0 <= j < b.len() && descriptor_view(b[j], cluster) == v;
        let i = choose|i: int| 0 <= i < a.len() && same_workers(a[i], b[j]);
        lemma_targets_order_independent(a[i].host_port_list@, b[j].host_port_list@);
        assert(descriptor_view(a[i], cluster) == v);
    }
    assert(descriptors_of(a, cluster) =~= descriptors_of(b, cluster));
}

/// A failed poll writes nothing, so the file stays as it was, and leaves the
/// record of what was written as it was.
pub proof fn lemma_failed_poll_writes_nothing(last: Option<Set<GroupView>>, cluster: Seq<char>)
    ensures
        !write_due(last, None, cluster),
{
}

/// A failed write does not count as published: the next cycle that polls the
/// same workers writes again.
pub proof fn lemma_failed_write_retried(
    last: Option<Set<GroupView>>,
    ws: Seq<TopologyWorkers>,
    cluster: Seq<char>,
)
    requires
        write_due(last, Some(ws), cluster),
    ensures
        published_after(last, descriptors_of(ws, cluster), false) == last,
        write_due(published_after(last, descriptors_of(ws, cluster), false), Some(ws), cluster),
{
}

/// Writing groups out as lists and reading the lists back gives the same set of groups.
pub proof fn lemma_parts_round_trip(
    c: Seq<FileSD>,
    docs: Seq<(Seq<String>, Seq<(String, String)>)>,
)
    requires
        docs.len() == c.len(),
        forall|i: int| 0 <= i < c.len() ==> parts_view(#[trigger] docs[i].0, docs[i].1) == c[i]@,
    ensures
        Set::new(
            |v: GroupView|
                exists|i: int| 0 <= i < docs.len() && parts_view(docs[i].0, docs[i].1) == v,
        ) == view_set(c),
{
    let s = Set::new(
        |v: GroupView| exists|i: int| 0 <= i < docs.len() && parts_view(docs[i].0, docs[i].1) == v,
    );
    assert forall|v: GroupView| s.contains(v) == view_set(c).contains(v) by {
        if s.contains(v) {
            let i = choose|i: int| 0 <= i < docs.len() && parts_view(docs[i].0, docs[i].1) == v;
            assert(c[i]@ == v);
        }
        if view_set(c).contains(v) {
            let i = choose|i: int| 0 <= i < c.len() && c[i]@ == v;
            assert(parts_view(docs[i].0, docs[i].1) == v);
        }
    }
    assert(s =~= view_set(c));
}

} // verus!
