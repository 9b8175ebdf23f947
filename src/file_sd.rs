use vstd::prelude::*;
use vstd::string::*;

use crate::storm_client::{HostPort, TopologyWorkers};
use crate::text::{decimal, push_decimal};

verus! {

/// The target text `host:port` of one worker endpoint.
pub open spec fn target_of(host: Seq<char>, port: u16) -> Seq<char> {
    host + seq![':'] + decimal(port as nat)
}

/// The set of target texts of a list of endpoints.
pub open spec fn targets_of(hps: Seq<HostPort>) -> Set<Seq<char>>
    decreases hps.len(),
{
    if hps.len() == 0 {
        Set::empty()
    } else {
        targets_of(hps.drop_last()).insert(target_of(hps.last().host@, hps.last().port))
    }
}

/// The set of texts held by a list of strings.
pub open spec fn strings_set(ts: Seq<String>) -> Set<Seq<char>>
    decreases ts.len(),
{
    if ts.len() == 0 {
        Set::empty()
    } else {
        strings_set(ts.drop_last()).insert(ts.last()@)
    }
}

/// The mapping that a list of key/value pairs gives, a later pair overriding an earlier one.
pub open spec fn pairs_map(ps: Seq<(String, String)>) -> Map<Seq<char>, Seq<char>>
    decreases ps.len(),
{
    if ps.len() == 0 {
        Map::empty()
    } else {
        pairs_map(ps.drop_last()).insert(ps.last().0@, ps.last().1@)
    }
}

/// No text occurs twice in `ts`.
pub open spec fn texts_unique(ts: Seq<String>) -> bool {
    forall|i: int, j: int| 0 <= i < ts.len() && 0 <= j < ts.len() && i != j ==> ts[i]@ != ts[j]@
}

/// No key occurs twice in `ps`.
pub open spec fn keys_unique(ps: Seq<(String, String)>) -> bool {
    forall|i: int, j: int|
        0 <= i < ps.len() && 0 <= j < ps.len() && i != j ==> ps[i].0@ != ps[j].0@
}

/// The label that names the topology of a target group.
pub open spec fn topology_key() -> Seq<char> {
    "topology_id"@
}

/// The group that a list of targets and a list of labels describe.
pub open spec fn parts_view(targets: Seq<String>, labels: Seq<(String, String)>) -> (
    Set<Seq<char>>,
    Map<Seq<char>, Seq<char>>,
) {
    (strings_set(targets), pairs_map(labels))
}

/// A target group of file-based service discovery: a set of `host:port`
/// targets and a set of labels.
#[derive(Debug)]
pub struct FileSD {
    targets: Vec<String>,
    labels: Vec<(String, String)>,
}

impl View for FileSD {
    type V = (Set<Seq<char>>, Map<Seq<char>, Seq<char>>);

    open spec fn view(&self) -> Self::V {
        (self.target_set(), self.label_map())
    }
}

pub proof fn lemma_strings_set(ts: Seq<String>)
    ensures
        forall|i: int| 0 <= i < ts.len() ==> strings_set(ts).contains(#[trigger] ts[i]@),
        forall|x: Seq<char>|
            strings_set(ts).contains(x) ==> exists|i: int| 0 <= i < ts.len() && ts[i]@ == x,
    decreases ts.len(),
{
    if ts.len() > 0 {
        let d = ts.drop_last();
        lemma_strings_set(d);
        assert(strings_set(ts) == strings_set(d).insert(ts.last()@));
        assert forall|i: int| 0 <= i < ts.len() implies strings_set(ts).contains(
            #[trigger] ts[i]@,
        ) by {
            if i < d.len() {
                assert(d[i] == ts[i]);
            }
        }
        assert forall|x: Seq<char>| strings_set(ts).contains(x) implies exists|i: int|
            0 <= i < ts.len() && ts[i]@ == x by {
            if x == ts.last()@ {
                assert(ts[ts.len() - 1]@ == x);
            } else {
                assert(strings_set(d).contains(x));
                let i = choose|i: int| 0 <= i < d.len() && d[i]@ == x;
                assert(ts[i] == d[i]);
            }
        }
    }
}

pub proof fn lemma_targets_of(hps: Seq<HostPort>)
    ensures
        forall|i: int|
            0 <= i < hps.len() ==> targets_of(hps).contains(
                #[trigger] target_of(hps[i].host@, hps[i].port),
            ),
        forall|x: Seq<char>|
            targets_of(hps).contains(x) ==> exists|i: int|
                0 <= i < hps.len() && target_of(hps[i].host@, hps[i].port) == x,
    decreases hps.len(),
{
    if hps.len() > 0 {
        let d = hps.drop_last();
        let l = hps.last();
        lemma_targets_of(d);
        assert(targets_of(hps) == targets_of(d).insert(target_of(l.host@, l.port)));
        assert forall|i: int| 0 <= i < hps.len() implies targets_of(hps).contains(
            #[trigger] target_of(hps[i].host@, hps[i].port),
        ) by {
            if i < d.len() {
                assert(d[i] == hps[i]);
                assert(targets_of(d).contains(target_of(d[i].host@, d[i].port)));
            }
        }
        assert forall|x: Seq<char>| targets_of(hps).contains(x) implies exists|i: int|
            0 <= i < hps.len() && target_of(hps[i].host@, hps[i].port) == x by {
            if x == target_of(l.host@, l.port) {
                assert(hps[hps.len() - 1] == l);
            } else {
                assert(targets_of(d).contains(x));
                let i = choose|i: int|
                    0 <= i < d.len() && target_of(d[i].host@, d[i].port) == x;
                assert(hps[i] == d[i]);
            }
        }
    }
}

pub proof fn lemma_pairs_map(ps: Seq<(String, String)>)
    requires
        keys_unique(ps),
    ensures
        forall|i: int|
            0 <= i < ps.len() ==> pairs_map(ps).contains_key(#[trigger] ps[i].0@) && pairs_map(
                ps,
            )[ps[i].0@] == ps[i].1@,
        forall|k: Seq<char>|
            pairs_map(ps).contains_key(k) ==> exists|i: int| 0 <= i < ps.len() && ps[i].0@ == k,
    decreases ps.len(),
{
    if ps.len() > 0 {
        let d = ps.drop_last();
        assert(keys_unique(d));
        lemma_pairs_map(d);
        assert(pairs_map(ps) == pairs_map(d).insert(ps.last().0@, ps.last().1@));
        assert forall|i: int| 0 <= i < ps.len() implies pairs_map(ps).contains_key(
            #[trigger] ps[i].0@,
        ) && pairs_map(ps)[ps[i].0@] == ps[i].1@ by {
            if i < ps.len() - 1 {
                assert(d[i] == ps[i]);
                assert(ps[i].0@ != ps[ps.len() - 1].0@);
            }
        }
        assert forall|k: Seq<char>| pairs_map(ps).contains_key(k) implies exists|i: int|
            0 <= i < ps.len() && ps[i].0@ == k by {
            if k == ps.last().0@ {
                assert(ps[ps.len() - 1].0@ == k);
            } else {
                assert(pairs_map(d).contains_key(k));
                let i = choose|i: int| 0 <= i < d.len() && d[i].0@ == k;
                assert(ps[i] == d[i]);
            }
        }
    }
}

pub proof fn lemma_pairs_map_update(ps: Seq<(String, String)>, j: int, p: (String, String))
    requires
        keys_unique(ps),
        0 <= j < ps.len(),
        ps[j].0@ == p.0@,
    ensures
        pairs_map(ps.update(j, p)) == pairs_map(ps).insert(p.0@, p.1@),
    decreases ps.len(),
{
    let u = ps.update(j, p);
    let d = ps.drop_last();
    assert(u.drop_last() =~= if j == ps.len() - 1 {
        d
    } else {
        d.update(j, p)
    });
    if j == ps.len() - 1 {
        assert(pairs_map(u) =~= pairs_map(ps).insert(p.0@, p.1@));
    } else {
        assert(keys_unique(d));
        lemma_pairs_map_update(d, j, p);
        assert(ps.last().0@ != p.0@);
        assert(pairs_map(u) =~= pairs_map(ps).insert(p.0@, p.1@));
    }
}

/// Whether some element of `v` holds the text of `s`.
fn contains_text(v: &Vec<String>, s: &String) -> (r: bool)
    ensures
        r == exists|i: int| 0 <= i < v@.len() && v@[i]@ == s@,
{
    let mut i: usize = 0;
    while i < v.len()
        invariant
            i <= v@.len(),
            forall|j: int| 0 <= j < i ==> v@[j]@ != s@,
        decreases v@.len() - i,
    {
        if v[i] == *s {
            return true;
        }
        i = i + 1;
    }
    false
}

/// The position of the pair of `ps` whose key is the text of `k`, if any.
fn find_key(ps: &Vec<(String, String)>, k: &String) -> (r: Option<usize>)
    ensures
        match r {
            Some(j) => j < ps@.len() && ps@[j as int].0@ == k@,
            None => forall|i: int| 0 <= i < ps@.len() ==> ps@[i].0@ != k@,
        },
{
    let mut i: usize = 0;
    while i < ps.len()
        invariant
            i <= ps@.len(),
            forall|j: int| 0 <= j < i ==> ps@[j].0@ != k@,
        decreases ps@.len() - i,
    {
        if ps[i].0 == *k {
            return Some(i);
        }
        i = i + 1;
    }
    None
}

/// Whether every text of `a` occurs in `b`.
fn texts_within(a: &Vec<String>, b: &Vec<String>) -> (r: bool)
    ensures
        r == strings_set(a@).subset_of(strings_set(b@)),
{
    proof {
        lemma_strings_set(a@);
        lemma_strings_set(b@);
    }
    let mut i: usize = 0;
    while i < a.len()
        invariant
            i <= a@.len(),
            forall|j: int| 0 <= j < i ==> strings_set(b@).contains(#[trigger] a@[j]@),
            forall|x: Seq<char>|
                strings_set(a@).contains(x) <==> exists|i: int| 0 <= i < a@.len() && a@[i]@ == x,
            forall|x: Seq<char>|
                strings_set(b@).contains(x) <==> exists|i: int| 0 <= i < b@.len() && b@[i]@ == x,
        decreases a@.len() - i,
    {
        if !contains_text(b, &a[i]) {
            assert(strings_set(a@).contains(a@[i as int]@));
            return false;
        }
        i = i + 1;
    }
    true
}

/// Whether every pair of `a` occurs in `b` with the same value.
fn pairs_within(a: &Vec<(String, String)>, b: &Vec<(String, String)>) -> (r: bool)
    requires
        keys_unique(a@),
        keys_unique(b@),
    ensures
        r == pairs_map(a@).submap_of(pairs_map(b@)),
{
    proof {
        lemma_pairs_map(a@);
        lemma_pairs_map(b@);
    }
    let mut i: usize = 0;
    while i < a.len()
        invariant
            i <= a@.len(),
            keys_unique(a@),
            keys_unique(b@),
            forall|j: int|
                0 <= j < i ==> pairs_map(b@).contains_key(#[trigger] a@[j].0@) && pairs_map(
                    b@,
                )[a@[j].0@] == a@[j].1@,
        decreases a@.len() - i,
    {
        proof {
            lemma_pairs_map(a@);
            lemma_pairs_map(b@);
        }
        match find_key(b, &a[i].0) {
            Some(j) => {
                if b[j].1 != a[i].1 {
                    assert(pairs_map(a@)[a@[i as int].0@] != pairs_map(b@)[a@[i as int].0@]);
                    return false;
                }
            },
            None => {
                assert(pairs_map(a@).contains_key(a@[i as int].0@));
                assert(!pairs_map(b@).contains_key(a@[i as int].0@));
                return false;
            },
        }
        i = i + 1;
    }
    assert forall|k: Seq<char>| #[trigger] pairs_map(a@).contains_key(k) implies pairs_map(
        b@,
    ).contains_key(k) && pairs_map(a@)[k] == pairs_map(b@)[k] by {
        let j = choose|j: int| 0 <= j < a@.len() && a@[j].0@ == k;
    }
    true
}

impl FileSD {
    #[verifier::type_invariant]
    spec fn wf(&self) -> bool {
        texts_unique(self.targets@) && keys_unique(self.labels@)
    }

    /// The targets of the group.
    pub closed spec fn target_set(&self) -> Set<Seq<char>> {
        strings_set(self.targets@)
    }

    /// The labels of the group.
    pub closed spec fn label_map(&self) -> Map<Seq<char>, Seq<char>> {
        pairs_map(self.labels@)
    }

    /// The group of one topology's workers: one target per distinct endpoint,
    /// labelled with the topology's identifier.
    pub fn from_workers(tw: &TopologyWorkers) -> (r: FileSD)
        ensures
            r.target_set() == targets_of(tw.host_port_list@),
            r.label_map() == map![topology_key() => tw.id@],
    {
        let hps = &tw.host_port_list;
        let mut targets: Vec<String> = Vec::new();
        let mut i: usize = 0;
        while i < hps.len()
            invariant
                i <= hps@.len(),
                texts_unique(targets@),
                strings_set(targets@) == targets_of(hps@.subrange(0, i as int)),
            decreases hps@.len() - i,
        {
            let hp = &hps[i];
            let mut t = hp.host.clone();
            t.append(":");
            push_decimal(&mut t, hp.port);
            proof {
                reveal_strlit(":");
                assert(t@ == target_of(hp.host@, hp.port));
                assert(hps@.subrange(0, i + 1).drop_last() =~= hps@.subrange(0, i as int));
                lemma_strings_set(targets@);
            }
            if !contains_text(&targets, &t) {
                let ghost before = targets@;
                targets.push(t);
                proof {
                    assert(targets@.drop_last() =~= before);
                }
            } else {
                proof {
                    assert(strings_set(targets@).contains(t@));
                    assert(strings_set(targets@).insert(t@) =~= strings_set(targets@));
                }
            }
            i = i + 1;
        }
        assert(hps@.subrange(0, i as int) =~= hps@);
        let mut labels: Vec<(String, String)> = Vec::new();
        let p = (String::from_str("topology_id"), tw.id.clone());
        labels.push(p);
        proof {
            assert(labels@.drop_last() =~= Seq::<(String, String)>::empty());
            assert(labels@.last() == p);
            assert(pairs_map(labels@) == pairs_map(Seq::<(String, String)>::empty()).insert(
                p.0@,
                p.1@,
            ));
            assert(pairs_map(labels@) =~= map![topology_key() => tw.id@]);
        }
        FileSD { targets, labels }
    }

    /// Sets label `k` to `v`, replacing an earlier value of `k`.
    pub fn add_label(&mut self, k: &str, v: &str)
        ensures
            final(self).target_set() == old(self).target_set(),
            final(self).label_map() == old(self).label_map().insert(k@, v@),
    {
        proof {
            use_type_invariant(&*self);
        }
        let mut labels: Vec<(String, String)> = Vec::new();
        std::mem::swap(&mut labels, &mut self.labels);
        let ghost before = labels@;
        let key = String::from_str(k);
        let value = String::from_str(v);
        match find_key(&labels, &key) {
            Some(j) => {
                labels.set(j, (key, value));
                proof {
                    lemma_pairs_map_update(before, j as int, labels@[j as int]);
                    assert(labels@ == before.update(j as int, labels@[j as int]));
                }
            },
            None => {
                labels.push((key, value));
                proof {
                    assert(labels@.drop_last() =~= before);
                }
            },
        }
        self.labels = labels;
    }

    /// The targets and the labels as lists, each target and each key once: the
    /// form in which a group is written out.
    pub fn to_parts(&self) -> (r: (Vec<String>, Vec<(String, String)>))
        ensures
            parts_view(r.0@, r.1@) == self@,
            texts_unique(r.0@),
            keys_unique(r.1@),
    {
        proof {
            use_type_invariant(self);
        }
        let mut targets: Vec<String> = Vec::new();
        let mut i: usize = 0;
        while i < self.targets.len()
            invariant
                i <= self.targets@.len(),
                targets@ == self.targets@.subrange(0, i as int),
            decreases self.targets@.len() - i,
        {
            targets.push(self.targets[i].clone());
            i = i + 1;
        }
        let mut labels: Vec<(String, String)> = Vec::new();
        let mut j: usize = 0;
        while j < self.labels.len()
            invariant
                j <= self.labels@.len(),
                labels@ == self.labels@.subrange(0, j as int),
            decreases self.labels@.len() - j,
        {
            let p = &self.labels[j];
            labels.push((p.0.clone(), p.1.clone()));
            j = j + 1;
        }
        assert(targets@ =~= self.targets@);
        assert(labels@ =~= self.labels@);
        (targets, labels)
    }

    /// The group with the given targets and labels; a repeated target counts
    /// once, and of a repeated key the last value holds.
    pub fn from_parts(targets: Vec<String>, labels: Vec<(String, String)>) -> (r: FileSD)
        ensures
            r@ == parts_view(targets@, labels@),
    {
        let mut ts: Vec<String> = Vec::new();
        let mut i: usize = 0;
        while i < targets.len()
            invariant
                i <= targets@.len(),
                texts_unique(ts@),
                strings_set(ts@) == strings_set(targets@.subrange(0, i as int)),
            decreases targets@.len() - i,
        {
            let t = targets[i].clone();
            proof {
                assert(targets@.subrange(0, i + 1).drop_last() =~= targets@.subrange(0, i as int));
                lemma_strings_set(ts@);
            }
            if !contains_text(&ts, &t) {
                let ghost before = ts@;
                ts.push(t);
                proof {
                    assert(ts@.drop_last() =~= before);
                }
            } else {
                proof {
                    assert(strings_set(ts@).insert(t@) =~= strings_set(ts@));
                }
            }
            i = i + 1;
        }
        assert(targets@.subrange(0, i as int) =~= targets@);
        let mut r = FileSD { targets: ts, labels: Vec::new() };
        assert(pairs_map(r.labels@) =~= pairs_map(labels@.subrange(0, 0)));
        let mut j: usize = 0;
        while j < labels.len()
            invariant
                j <= labels@.len(),
                r.target_set() == strings_set(targets@),
                r.label_map() == pairs_map(labels@.subrange(0, j as int)),
            decreases labels@.len() - j,
        {
            let p = &labels[j];
            r.add_label(p.0.as_str(), p.1.as_str());
            proof {
                assert(labels@.subrange(0, j + 1).drop_last() =~= labels@.subrange(0, j as int));
            }
            j = j + 1;
        }
        assert(labels@.subrange(0, j as int) =~= labels@);
        r
    }

    /// Whether the two groups hold the same targets and the same labels.
    pub fn same_as(&self, other: &FileSD) -> (r: bool)
        ensures
            r == (self@ == other@),
    {
        proof {
            use_type_invariant(self);
            use_type_invariant(other);
        }
        let r = texts_within(&self.targets, &other.targets) && texts_within(
            &other.targets,
            &self.targets,
        ) && pairs_within(&self.labels, &other.labels) && pairs_within(
            &other.labels,
            &self.labels,
        );
        proof {
            if r {
                assert(self.target_set() =~= other.target_set());
                assert forall|k: Seq<char>| #[trigger]
                    self.label_map().contains_key(k) == other.label_map().contains_key(k) by {
                    if self.label_map().contains_key(k) {
                        assert(other.label_map().contains_key(k));
                    }
                    if other.label_map().contains_key(k) {
                        assert(self.label_map().contains_key(k));
                    }
                }
                assert(self.label_map() =~= other.label_map());
            }
        }
        r
    }
}

impl PartialEq for FileSD {
    fn eq(&self, other: &FileSD) -> (r: bool) {
        self.same_as(other)
    }
}

impl vstd::std_specs::cmp::PartialEqSpecImpl for FileSD {
    open spec fn obeys_eq_spec() -> bool {
        true
    }

    open spec fn eq_spec(&self, other: &FileSD) -> bool {
        self@ == other@
    }
}

} // verus!
