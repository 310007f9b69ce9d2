use quilkin_routing::cluster::{
    Cluster, ClusterManager, Endpoint, Locality, LocalityEndpoints, SharedClusterManager,
};
use quilkin_routing::net::{EndpointAddress, IpAddress};

fn endpoint(last: u8, port: u16) -> Endpoint {
    Endpoint::new(EndpointAddress::new(IpAddress::v4(10, 0, 0, last), port))
}

fn with_metadata(last: u8, port: u16, metadata: serde_json::Value) -> Endpoint {
    Endpoint {
        address: EndpointAddress::new(IpAddress::v4(10, 0, 0, last), port),
        metadata: Some(metadata),
    }
}

fn locality(region: &str, zone: &str, sub_zone: &str) -> Option<Locality> {
    Some(Locality {
        region: region.into(),
        zone: zone.into(),
        sub_zone: sub_zone.into(),
    })
}

#[test]
fn endpoints_are_the_same_by_address_and_metadata() {
    assert!(endpoint(1, 80).same(&endpoint(1, 80)));
    assert!(!endpoint(1, 80).same(&endpoint(1, 81)));
    assert!(!endpoint(1, 80).same(&endpoint(2, 80)));
    let tagged = with_metadata(1, 80, serde_json::Value::from("blue"));
    assert!(tagged.same(&with_metadata(1, 80, serde_json::Value::from("blue"))));
    assert!(!tagged.same(&with_metadata(1, 80, serde_json::Value::from("green"))));
    assert!(!tagged.same(&with_metadata(1, 80, serde_json::Value::Null)));
    assert!(!tagged.same(&endpoint(1, 80)));
    assert!(!endpoint(1, 80).same(&tagged));
    assert!(!tagged.same(&with_metadata(2, 80, serde_json::Value::from("blue"))));
    assert_eq!(tagged.same(&endpoint(1, 80)), tagged == endpoint(1, 80));
}

#[test]
fn a_group_holds_no_endpoint_twice() {
    let group = LocalityEndpoints::new(vec![endpoint(1, 80), endpoint(2, 80), endpoint(1, 81)]).unwrap();
    assert_eq!(group.endpoints(), &vec![endpoint(1, 80), endpoint(2, 80), endpoint(1, 81)]);
    assert!(LocalityEndpoints::new(vec![]).is_some());
    assert!(LocalityEndpoints::new(vec![endpoint(1, 80), endpoint(2, 80), endpoint(1, 80)]).is_none());
    assert!(LocalityEndpoints::new(vec![endpoint(1, 80), endpoint(1, 80)]).is_none());
    // The same address with other metadata is another endpoint.
    assert!(LocalityEndpoints::new(vec![
        endpoint(1, 80),
        with_metadata(1, 80, serde_json::Value::from(1)),
        with_metadata(1, 80, serde_json::Value::from(2)),
    ])
    .is_some());
    assert!(LocalityEndpoints::new(vec![
        with_metadata(1, 80, serde_json::Value::from(1)),
        endpoint(1, 80),
        with_metadata(1, 80, serde_json::Value::from(1)),
    ])
    .is_none());
}

#[test]
fn a_cluster_files_each_group_under_its_locality() {
    let mut cluster = Cluster::new();
    assert!(cluster.get(&None).is_none());
    let east = LocalityEndpoints::new(vec![endpoint(1, 80)]).unwrap();
    let west = LocalityEndpoints::new(vec![endpoint(2, 80), endpoint(3, 80)]).unwrap();
    let nowhere = LocalityEndpoints::new(vec![endpoint(4, 80)]).unwrap();
    cluster.insert(locality("us", "east", "1"), east.clone());
    cluster.insert(locality("us", "west", "1"), west.clone());
    cluster.insert(None, nowhere.clone());
    assert_eq!(cluster.get(&locality("us", "east", "1")), Some(&east));
    assert_eq!(cluster.get(&locality("us", "west", "1")), Some(&west));
    assert_eq!(cluster.get(&None), Some(&nowhere));
    assert_eq!(cluster.get(&locality("us", "east", "2")), None);
    assert_eq!(cluster.get(&locality("us", "", "1")), None);

    // A group is replaced as a whole.
    cluster.insert(locality("us", "east", "1"), west.clone());
    assert_eq!(cluster.get(&locality("us", "east", "1")), Some(&west));
    assert_eq!(cluster.get(&locality("us", "west", "1")), Some(&west));
    assert_eq!(cluster.get(&None), Some(&nowhere));
}

#[test]
fn a_manager_replaces_its_cluster_as_a_whole() {
    let mut old = Cluster::new();
    old.insert(None, LocalityEndpoints::new(vec![endpoint(1, 80)]).unwrap());
    let mut new = Cluster::new();
    new.insert(locality("eu", "north", ""), LocalityEndpoints::new(vec![endpoint(2, 80)]).unwrap());

    let mut manager = ClusterManager::new(old.clone());
    assert_eq!(manager.cluster(), &old);
    manager.update(new.clone());
    assert_eq!(manager.cluster(), &new);
    assert!(manager.cluster().get(&None).is_none());
}

#[test]
fn a_reader_keeps_the_cluster_it_was_given() {
    let mut old = Cluster::new();
    old.insert(None, LocalityEndpoints::new(vec![endpoint(1, 80)]).unwrap());
    let mut new = Cluster::new();
    new.insert(None, LocalityEndpoints::new(vec![endpoint(2, 80)]).unwrap());

    let mut shared = SharedClusterManager::new(ClusterManager::new(old.clone()));
    let reader = shared.clone();
    assert_eq!(reader.read().cluster(), &old);
    shared.replace(ClusterManager::new(new.clone()));
    assert_eq!(shared.read().cluster(), &new);
    assert_eq!(reader.read().cluster(), &old);
}
