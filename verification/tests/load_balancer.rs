use quilkin_routing::cluster::Endpoint;
use quilkin_routing::filters::load_balancer::{
    Config, DownstreamContext, EndpointChooser, IndexOutOfRange, LoadBalancerFilter,
    LoadBalancerFilterFactory, Policy, RandomEndpointChooser, RoundRobinEndpointChooser,
    UpstreamEndpoints,
};
use quilkin_routing::filters::CreationError;
use quilkin_routing::net::EndpointAddress;
use std::collections::HashSet;

fn decode(config: &str) -> Result<Config, String> {
    let document: serde_yaml::Value = serde_yaml::from_str(config).map_err(|e| e.to_string())?;
    match document.get("policy") {
        None => Ok(Config::default()),
        Some(value) => match value.as_str().and_then(Policy::from_name) {
            Some(policy) => Ok(Config { policy }),
            None => Err(format!("unknown variant: {:?}", value)),
        },
    }
}

fn create_filter(config: &str) -> LoadBalancerFilter {
    let factory = LoadBalancerFilterFactory;
    factory.create_filter(decode(config)).unwrap()
}

fn address(text: &str) -> EndpointAddress {
    EndpointAddress::parse(text).unwrap()
}

fn candidates(input_addresses: &[EndpointAddress]) -> UpstreamEndpoints {
    UpstreamEndpoints::new(input_addresses.iter().map(|addr| Endpoint::new(*addr)).collect())
}

fn get_response_addresses(
    filter: &LoadBalancerFilter,
    input_addresses: &[EndpointAddress],
) -> Vec<EndpointAddress> {
    filter
        .on_downstream_receive(DownstreamContext::new(
            candidates(input_addresses),
            address("127.0.0.1:8080"),
            vec![],
        ))
        .unwrap()
        .endpoints
        .addresses()
}

#[test]
fn round_robin_load_balancer_policy() {
    let addresses = vec![
        address("127.0.0.1:8080"),
        address("127.0.0.2:8080"),
        address("127.0.0.3:8080"),
    ];

    let yaml = "
policy: ROUND_ROBIN
";
    let filter = create_filter(yaml);

    // Check that we repeat the same addresses in sequence forever.
    let expected_sequence = addresses.iter().map(|addr| vec![*addr]).collect::<Vec<_>>();

    for _ in 0..10 {
        assert_eq!(
            expected_sequence,
            (0..addresses.len())
                .map(|_| get_response_addresses(&filter, &addresses))
                .collect::<Vec<_>>()
        );
    }
}

#[test]
fn random_load_balancer_policy() {
    let addresses = vec![
        address("127.0.0.1:8080"),
        address("127.0.0.2:8080"),
        address("127.0.0.3:8080"),
    ];

    let yaml = "
policy: RANDOM
";
    let filter = create_filter(yaml);

    // Run a few selection rounds through the addresses.
    let mut result_sequences = vec![];
    for _ in 0..10 {
        let sequence = (0..addresses.len())
            .map(|_| get_response_addresses(&filter, &addresses))
            .collect::<Vec<_>>();
        result_sequences.push(sequence);
    }

    // Check that every address was chosen at least once.
    assert_eq!(
        addresses.into_iter().collect::<HashSet<_>>(),
        result_sequences
            .clone()
            .into_iter()
            .flatten()
            .flatten()
            .collect::<HashSet<_>>(),
    );

    // Check that there is at least one different sequence of addresses.
    assert!(
        &result_sequences[1..]
            .iter()
            .any(|seq| seq != &result_sequences[0]),
        "the same sequence of addresses were chosen for random load balancer"
    );
}

#[test]
fn random_policy_reaches_every_endpoint_in_a_thousand_trials() {
    let addresses = vec![
        address("10.0.0.1:1"),
        address("10.0.0.2:2"),
        address("10.0.0.3:3"),
        address("10.0.0.4:4"),
    ];
    let chooser = RandomEndpointChooser;
    let mut seen = HashSet::new();
    for _ in 0..1000 {
        let mut endpoints = candidates(&addresses);
        chooser.choose_endpoints(&mut endpoints);
        let chosen = endpoints.addresses();
        assert_eq!(chosen.len(), 1);
        assert!(addresses.contains(&chosen[0]));
        seen.insert(chosen[0]);
    }
    assert_eq!(seen.len(), addresses.len());
}

#[test]
fn default_policy_is_round_robin() {
    assert_eq!(Policy::default(), Policy::RoundRobin);
    assert_eq!(Config::default().policy, Policy::RoundRobin);
    let filter = create_filter("{}");
    let addresses = vec![address("127.0.0.1:1"), address("127.0.0.2:2")];
    assert_eq!(get_response_addresses(&filter, &addresses), vec![addresses[0]]);
    assert_eq!(get_response_addresses(&filter, &addresses), vec![addresses[1]]);
    assert_eq!(get_response_addresses(&filter, &addresses), vec![addresses[0]]);
}

#[test]
fn policy_names() {
    assert_eq!(Policy::RoundRobin.name(), "ROUND_ROBIN");
    assert_eq!(Policy::Random.name(), "RANDOM");
    assert_eq!(Policy::from_name("ROUND_ROBIN"), Some(Policy::RoundRobin));
    assert_eq!(Policy::from_name("RANDOM"), Some(Policy::Random));
    assert_eq!(Policy::from_name("round_robin"), None);
    assert_eq!(Policy::from_name(""), None);
}

#[test]
fn factory_name() {
    assert_eq!(
        LoadBalancerFilterFactory.name(),
        "quilkin.extensions.filters.load_balancer.v1alpha1.LoadBalancer"
    );
}

#[test]
fn create_filter_hands_on_the_decoders_complaint() {
    let factory = LoadBalancerFilterFactory;
    let complaint = decode("policy: SOMETIMES").unwrap_err();
    match factory.create_filter(Err(complaint.clone())) {
        Err(CreationError::DeserializeFailed(why)) => assert_eq!(why, complaint),
        other => panic!("unexpected: {:?}", other.map(|_| ())),
    }
}

#[test]
fn ticket_chooses_its_remainder() {
    let addresses = vec![
        address("127.0.0.1:8080"),
        address("127.0.0.2:8080"),
        address("127.0.0.3:8080"),
    ];
    for (ticket, expected) in [(0usize, 0usize), (1, 1), (2, 2), (3, 0), (4, 1), (7, 1), (300, 0)] {
        let mut endpoints = candidates(&addresses);
        RoundRobinEndpointChooser::choose_for_ticket(ticket, &mut endpoints);
        assert_eq!(endpoints.addresses(), vec![addresses[expected]]);
    }
    // Where the counter wraps around, the turns start over.
    let mut endpoints = candidates(&addresses);
    RoundRobinEndpointChooser::choose_for_ticket(usize::MAX, &mut endpoints);
    assert_eq!(endpoints.addresses(), vec![addresses[usize::MAX % 3]]);
}

#[test]
fn round_robin_visits_each_endpoint_once_per_round() {
    let addresses = vec![
        address("127.0.0.1:1"),
        address("127.0.0.2:2"),
        address("127.0.0.3:3"),
        address("127.0.0.4:4"),
        address("127.0.0.5:5"),
    ];
    let chooser = RoundRobinEndpointChooser::new();
    for _ in 0..7 {
        let mut round = Vec::new();
        for _ in 0..addresses.len() {
            let mut endpoints = candidates(&addresses);
            chooser.choose_endpoints(&mut endpoints);
            assert_eq!(endpoints.size(), 1);
            round.push(endpoints.addresses()[0]);
        }
        assert_eq!(round, addresses);
    }
}

#[test]
fn a_single_candidate_is_always_chosen() {
    let only = vec![address("127.0.0.9:9")];
    for policy in [Policy::RoundRobin, Policy::Random] {
        let chooser = EndpointChooser::for_policy(policy);
        for _ in 0..5 {
            let mut endpoints = candidates(&only);
            chooser.choose_endpoints(&mut endpoints);
            assert_eq!(endpoints.addresses(), only);
        }
    }
}

#[test]
fn keep_collapses_to_the_chosen_index() {
    let addresses = vec![address("127.0.0.1:1"), address("127.0.0.2:2"), address("127.0.0.3:3")];
    let mut endpoints = candidates(&addresses);
    assert_eq!(endpoints.size(), 3);
    assert_eq!(endpoints.get(2).map(|e| e.address), Some(addresses[2]));
    assert!(endpoints.get(3).is_none());
    assert_eq!(endpoints.keep(2), Ok(()));
    assert_eq!(endpoints.addresses(), vec![addresses[2]]);
    // Collapsing is final: only index 0 is left.
    assert_eq!(endpoints.keep(1), Err(IndexOutOfRange));
    assert_eq!(endpoints.addresses(), vec![addresses[2]]);
    assert_eq!(endpoints.keep(0), Ok(()));
    assert_eq!(endpoints.addresses(), vec![addresses[2]]);
}

#[test]
fn keep_refuses_an_index_out_of_range() {
    let addresses = vec![address("127.0.0.1:1"), address("127.0.0.2:2")];
    let mut endpoints = candidates(&addresses);
    assert_eq!(endpoints.keep(2), Err(IndexOutOfRange));
    assert_eq!(endpoints.addresses(), addresses);
    let mut none = candidates(&[]);
    assert_eq!(none.keep(0), Err(IndexOutOfRange));
    assert_eq!(none.size(), 0);
}

#[test]
fn the_payload_passes_the_load_balancer_unchanged() {
    let addresses = vec![address("127.0.0.1:1"), address("127.0.0.2:2")];
    let filter = create_filter("policy: RANDOM");
    let response = filter
        .on_downstream_receive(DownstreamContext::new(
            candidates(&addresses),
            address("127.0.0.1:8080"),
            b"hello".to_vec(),
        ))
        .unwrap();
    assert_eq!(response.contents, b"hello".to_vec());
    assert_eq!(response.endpoints.size(), 1);
}
