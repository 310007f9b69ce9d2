//! The upstream endpoints that a proxy knows, grouped by locality.
//!
//! A cluster is only ever replaced as a whole, so whoever reads it sees
//! one consistent set of endpoints.

use crate::assoc::{
    distinct_keys, has_key, lemma_absent, lemma_empty, lemma_found, lemma_push, lemma_update,
    to_map,
};
use crate::bindings::json_eq;
use crate::net::EndpointAddress;
use std::sync::Arc;
use vstd::prelude::*;

verus! {

/// One upstream game server: its address and whatever metadata came with it.
#[derive(Clone, Debug, Eq, PartialEq)]
pub struct Endpoint {
    pub address: EndpointAddress,
    pub metadata: Option<serde_json::Value>,
}

impl Endpoint {
    /// An endpoint without metadata.
    pub fn new(address: EndpointAddress) -> (endpoint: Endpoint)
        ensures
            endpoint == (Endpoint { address, metadata: None }),
    {
        Endpoint { address, metadata: None }
    }

    /// Whether two endpoints have the same address and the same metadata.
    pub fn same(&self, other: &Endpoint) -> (same: bool)
        ensures
            same == (*self == *other),
    {
        if self.address != other.address {
            return false;
        }
        match (&self.metadata, &other.metadata) {
            (Some(a), Some(b)) => json_eq(a, b),
            (None, None) => true,
            _ => false,
        }
    }
}

/// Where a group of endpoints runs.
#[derive(Clone, Debug, Hash, Eq, PartialEq)]
pub struct Locality {
    pub region: String,
    pub zone: String,
    pub sub_zone: String,
}

/// A [`Locality`] as plain values.
pub struct LocalityView {
    pub region: Seq<char>,
    pub zone: Seq<char>,
    pub sub_zone: Seq<char>,
}

impl View for Locality {
    type V = LocalityView;

    open spec fn view(&self) -> LocalityView {
        LocalityView { region: self.region@, zone: self.zone@, sub_zone: self.sub_zone@ }
    }
}

/// The key under which a group is filed: its locality, or none.
pub open spec fn locality_key(locality: Option<Locality>) -> Option<LocalityView> {
    match locality {
        Some(l) => Some(l@),
        None => None,
    }
}

/// Whether two groups are filed under the same key.
fn same_locality(a: &Option<Locality>, b: &Option<Locality>) -> (same: bool)
    ensures
        same == (locality_key(*a) == locality_key(*b)),
{
    match (a, b) {
        (Some(x), Some(y)) => x.region == y.region && x.zone == y.zone && x.sub_zone == y.sub_zone,
        (None, None) => true,
        _ => false,
    }
}

/// The endpoints of one locality. No endpoint occurs twice.
#[derive(Clone, Debug, Eq, PartialEq)]
pub struct LocalityEndpoints {
    endpoints: Vec<Endpoint>,
}

impl View for LocalityEndpoints {
    type V = Seq<Endpoint>;

    closed spec fn view(&self) -> Seq<Endpoint> {
        self.endpoints@
    }
}

impl LocalityEndpoints {
    /// No endpoint occurs twice.
    pub open spec fn wf(&self) -> bool {
        self@.no_duplicates()
    }

    /// The group of `endpoints`, unless one of them occurs twice.
    pub fn new(endpoints: Vec<Endpoint>) -> (group: Option<LocalityEndpoints>)
        ensures
            match group {
                Some(g) => g.wf() && g@ == endpoints@,
                None => !endpoints@.no_duplicates(),
            },
    {
        let mut i: usize = 0;
        while i < endpoints.len()
            invariant
                i <= endpoints@.len(),
                endpoints@.take(i as int).no_duplicates(),
            decreases endpoints@.len() - i,
        {
            let mut k: usize = 0;
            while k < i
                invariant
                    k <= i < endpoints@.len(),
                    forall|m: int| 0 <= m < k ==> #[trigger] endpoints@[m] != endpoints@[i as int],
                decreases i - k,
            {
                if endpoints[k].same(&endpoints[i]) {
                    return None;
                }
                k = k + 1;
            }
            proof {
                let longer = endpoints@.take(i + 1);
                assert forall|a: int, b: int|
                    0 <= a < longer.len() && 0 <= b < longer.len() && a != b implies longer[a]
                    != longer[b] by {
                    if a < i && b < i {
                        assert(endpoints@.take(i as int)[a] != endpoints@.take(i as int)[b]);
                    }
                }
            }
            i = i + 1;
        }
        proof {
            assert(endpoints@.take(i as int) =~= endpoints@);
        }
        Some(LocalityEndpoints { endpoints })
    }

    /// The endpoints of the group.
    pub fn endpoints(&self) -> (endpoints: &Vec<Endpoint>)
        ensures
            endpoints@ == self@,
    {
        &self.endpoints
    }
}

/// The groups of a cluster, each under its locality. No locality occurs
/// twice, and no endpoint occurs twice within a group.
#[derive(Clone, Debug, Eq, PartialEq)]
pub struct Cluster {
    localities: Vec<(Option<Locality>, LocalityEndpoints)>,
}

impl View for Cluster {
    type V = Map<Option<LocalityView>, Seq<Endpoint>>;

    closed spec fn view(&self) -> Map<Option<LocalityView>, Seq<Endpoint>> {
        to_map(self.pairs())
    }
}

impl Cluster {
    closed spec fn pairs(&self) -> Seq<(Option<LocalityView>, Seq<Endpoint>)> {
        self.localities@.map_values(
            |entry: (Option<Locality>, LocalityEndpoints)| (locality_key(entry.0), entry.1@),
        )
    }

    /// No locality occurs twice, and every group is well formed.
    pub closed spec fn wf(&self) -> bool {
        &&& distinct_keys(self.pairs())
        &&& forall|i: int| 0 <= i < self.localities@.len() ==> (#[trigger] self.localities@[i]).1.wf()
    }

    /// In every group of the cluster, no endpoint occurs twice.
    pub proof fn lemma_groups_have_no_duplicates(&self, locality: Option<LocalityView>)
        requires
            self.wf(),
            self@.contains_key(locality),
        ensures
            self@[locality].no_duplicates(),
    {
        let i = crate::assoc::index_of(self.pairs(), locality);
        lemma_found(self.pairs(), i);
        assert(self.localities@[i].1.wf());
    }

    /// The cluster without any endpoint.
    pub fn new() -> (cluster: Cluster)
        ensures
            cluster.wf(),
            cluster@ == Map::<Option<LocalityView>, Seq<Endpoint>>::empty(),
    {
        let cluster = Cluster { localities: Vec::new() };
        proof {
            lemma_empty::<Option<LocalityView>, Seq<Endpoint>>();
            assert(cluster.pairs() =~= Seq::empty());
        }
        cluster
    }

    /// Where the group of `locality` stands, if the cluster has one.
    fn position(&self, locality: &Option<Locality>) -> (at: Option<usize>)
        ensures
            match at {
                Some(i) => i < self.pairs().len() && self.pairs()[i as int].0 == locality_key(
                    *locality,
                ),
                None => !has_key(self.pairs(), locality_key(*locality)),
            },
    {
        let mut i: usize = 0;
        while i < self.localities.len()
            invariant
                i <= self.localities@.len(),
                forall|j: int|
                    0 <= j < i ==> (#[trigger] self.pairs()[j]).0 != locality_key(*locality),
            decreases self.localities@.len() - i,
        {
            if same_locality(&self.localities[i].0, locality) {
                return Some(i);
            }
            i = i + 1;
        }
        None
    }

    /// The group of `locality`.
    pub fn get(&self, locality: &Option<Locality>) -> (group: Option<&LocalityEndpoints>)
        requires
            self.wf(),
        ensures
            match group {
                Some(g) => self@.contains_key(locality_key(*locality)) && self@[locality_key(
                    *locality,
                )] == g@ && g.wf(),
                None => !self@.contains_key(locality_key(*locality)),
            },
    {
        match self.position(locality) {
            Some(i) => {
                proof {
                    lemma_found(self.pairs(), i as int);
                }
                Some(&self.localities[i].1)
            },
            None => {
                proof {
                    lemma_absent(self.pairs(), locality_key(*locality));
                }
                None
            },
        }
    }

    /// Files `group` under `locality`, in place of any group that stood
    /// there.
    pub fn insert(&mut self, locality: Option<Locality>, group: LocalityEndpoints)
        requires
            old(self).wf(),
            group.wf(),
        ensures
            final(self).wf(),
            final(self)@ == old(self)@.insert(locality_key(locality), group@),
    {
        let ghost key = locality_key(locality);
        let ghost value = group@;
        match self.position(&locality) {
            Some(i) => {
                proof {
                    lemma_update(self.pairs(), i as int, key, value);
                    assert(self.localities@.update(i as int, (locality, group)).map_values(
                        |entry: (Option<Locality>, LocalityEndpoints)|
                            (locality_key(entry.0), entry.1@),
                    ) =~= self.pairs().update(i as int, (key, value)));
                }
                self.localities.set(i, (locality, group));
            },
            None => {
                proof {
                    lemma_push(self.pairs(), key, value);
                    assert(self.localities@.push((locality, group)).map_values(
                        |entry: (Option<Locality>, LocalityEndpoints)|
                            (locality_key(entry.0), entry.1@),
                    ) =~= self.pairs().push((key, value)));
                }
                self.localities.push((locality, group));
            },
        }
    }
}

/// Holds the cluster that the proxy currently routes to.
#[derive(Clone, Debug, Eq, PartialEq)]
pub struct ClusterManager {
    cluster: Cluster,
}

impl View for ClusterManager {
    type V = Map<Option<LocalityView>, Seq<Endpoint>>;

    closed spec fn view(&self) -> Map<Option<LocalityView>, Seq<Endpoint>> {
        self.cluster@
    }
}

impl ClusterManager {
    /// The cluster is well formed.
    pub closed spec fn wf(&self) -> bool {
        self.cluster.wf()
    }

    /// A manager that holds `cluster`.
    pub fn new(cluster: Cluster) -> (manager: ClusterManager)
        requires
            cluster.wf(),
        ensures
            manager.wf(),
            manager@ == cluster@,
    {
        ClusterManager { cluster }
    }

    /// The cluster as it is now.
    pub fn cluster(&self) -> (cluster: &Cluster)
        requires
            self.wf(),
        ensures
            cluster.wf(),
            cluster@ == self@,
    {
        &self.cluster
    }

    /// Replaces the whole cluster.
    pub fn update(&mut self, cluster: Cluster)
        requires
            cluster.wf(),
        ensures
            final(self).wf(),
            final(self)@ == cluster@,
    {
        self.cluster = cluster;
    }
}

/// A cluster manager that many readers share. A reader holds on to the
/// manager it was given; a replacement never changes that one, it takes
/// its place for the readers that come after.
#[derive(Clone, Debug)]
pub struct SharedClusterManager {
    manager: Arc<ClusterManager>,
}

impl View for SharedClusterManager {
    type V = Map<Option<LocalityView>, Seq<Endpoint>>;

    closed spec fn view(&self) -> Map<Option<LocalityView>, Seq<Endpoint>> {
        (*self.manager)@
    }
}

impl SharedClusterManager {
    /// The manager is well formed.
    pub closed spec fn wf(&self) -> bool {
        (*self.manager).wf()
    }

    /// Shares `manager`.
    pub fn new(manager: ClusterManager) -> (shared: SharedClusterManager)
        requires
            manager.wf(),
        ensures
            shared.wf(),
            shared@ == manager@,
    {
        SharedClusterManager { manager: Arc::new(manager) }
    }

    /// The manager as it is now.
    pub fn read(&self) -> (manager: &ClusterManager)
        requires
            self.wf(),
        ensures
            manager.wf(),
            manager@ == self@,
    {
        &self.manager
    }

    /// Puts `manager` in place of the one that is shared now.
    pub fn replace(&mut self, manager: ClusterManager)
        requires
            manager.wf(),
        ensures
            final(self).wf(),
            final(self)@ == manager@,
    {
        self.manager = Arc::new(manager);
    }
}

} // verus!
