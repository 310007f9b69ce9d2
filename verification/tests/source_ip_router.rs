use quilkin_routing::filters::source_ip_router::config::{Cidr, Config, Network, Route};
use quilkin_routing::filters::source_ip_router::{SourceIpRouter, NAME};
use quilkin_routing::filters::{CreationError, FilterError, ReadContext, WriteContext};
use quilkin_routing::net::{EndpointAddress, IpAddress};
use quilkin_routing::proto;

fn address(text: &str) -> EndpointAddress {
    EndpointAddress::parse(text).unwrap()
}

fn cidr(text: &str) -> Cidr {
    Cidr::from_str(text).unwrap()
}

fn route(sources: &[&str], endpoint: &str) -> Route {
    Route {
        sources: sources.iter().map(|s| cidr(s)).collect(),
        endpoint: endpoint.into(),
    }
}

fn ten_slash_eight() -> SourceIpRouter {
    SourceIpRouter::new(Config {
        routes: vec![route(&["10.0.0.0/8"], "10.0.0.1:7000")],
    })
}

fn packet(source: EndpointAddress) -> ReadContext {
    let mut ctx = ReadContext::new(source, b"payload".to_vec());
    ctx.destinations.push(address("9.9.9.9:9"));
    ctx.destinations.push(address("8.8.8.8:8"));
    ctx
}

#[test]
fn a_source_inside_the_network_is_routed() {
    let router = ten_slash_eight();
    let mut ctx = packet(address("10.1.2.3:5000"));
    assert_eq!(router.read(&mut ctx), Ok(()));
    assert_eq!(ctx.destinations, vec![address("10.0.0.1:7000")]);
    assert_eq!(ctx.contents, b"payload".to_vec());
    assert_eq!(ctx.source, address("10.1.2.3:5000"));
}

#[test]
fn an_ipv4_mapped_source_is_routed_like_its_ipv4_form() {
    let router = ten_slash_eight();
    // ::ffff:10.1.2.3
    let mapped = EndpointAddress::new(IpAddress::V6(0xffff_0a01_0203), 5000);
    let mut ctx = packet(mapped);
    assert_eq!(router.read(&mut ctx), Ok(()));
    assert_eq!(ctx.destinations, vec![address("10.0.0.1:7000")]);
}

#[test]
fn a_source_outside_every_network_keeps_its_destinations() {
    let router = ten_slash_eight();
    let mut ctx = packet(address("192.168.1.1:5000"));
    let before = ctx.clone();
    assert_eq!(router.read(&mut ctx), Ok(()));
    assert_eq!(ctx, before);

    // ::ffff:192.168.1.1 and a plain IPv6 address
    for bits in [0xffff_c0a8_0101u128, 0x2001_0db8_0000_0000_0000_0000_0a01_0203] {
        let mut ctx = packet(EndpointAddress::new(IpAddress::V6(bits), 5000));
        let before = ctx.clone();
        assert_eq!(router.read(&mut ctx), Ok(()));
        assert_eq!(ctx, before);
    }
}

#[test]
fn the_first_matching_route_wins() {
    let router = SourceIpRouter::new(Config {
        routes: vec![
            route(&["172.16.0.0/12"], "10.0.0.9:9000"),
            route(&["10.0.0.0/8"], "10.0.0.1:7000"),
            route(&["10.1.0.0/16", "10.0.0.0/8"], "10.0.0.2:7001"),
        ],
    });
    let mut ctx = packet(address("10.1.2.3:5000"));
    assert_eq!(router.read(&mut ctx), Ok(()));
    assert_eq!(ctx.destinations, vec![address("10.0.0.1:7000")]);
    assert_eq!(router.find_route(IpAddress::v4(10, 1, 2, 3)), Some(1));
    assert_eq!(router.find_route(IpAddress::v4(172, 16, 0, 1)), Some(0));
    assert_eq!(router.find_route(IpAddress::v4(11, 0, 0, 1)), None);
}

#[test]
fn any_network_of_a_route_may_match() {
    let router = SourceIpRouter::new(Config {
        routes: vec![route(&["192.168.0.0/16", "10.0.0.0/8", "fd00::/8"], "10.0.0.1:7000")],
    });
    for source in [
        EndpointAddress::new(IpAddress::v4(192, 168, 7, 7), 1),
        EndpointAddress::new(IpAddress::v4(10, 255, 255, 255), 1),
        EndpointAddress::new(IpAddress::V6(0xfd00_0000_0000_0000_0000_0000_0000_0001), 1),
    ] {
        let mut ctx = packet(source);
        assert_eq!(router.read(&mut ctx), Ok(()));
        assert_eq!(ctx.destinations, vec![address("10.0.0.1:7000")]);
    }
    let mut ctx = packet(EndpointAddress::new(IpAddress::v4(11, 0, 0, 0), 1));
    let before = ctx.clone();
    assert_eq!(router.read(&mut ctx), Ok(()));
    assert_eq!(ctx, before);
}

#[test]
fn a_route_without_networks_never_matches() {
    let router = SourceIpRouter::new(Config {
        routes: vec![route(&[], "10.0.0.9:9000"), route(&["0.0.0.0/0"], "10.0.0.1:7000")],
    });
    let mut ctx = packet(address("1.2.3.4:5"));
    assert_eq!(router.read(&mut ctx), Ok(()));
    assert_eq!(ctx.destinations, vec![address("10.0.0.1:7000")]);
}

#[test]
fn no_routes_no_change() {
    let router = SourceIpRouter::new(Config::default());
    let mut ctx = packet(address("1.2.3.4:5"));
    let before = ctx.clone();
    assert_eq!(router.read(&mut ctx), Ok(()));
    assert_eq!(ctx, before);
}

#[test]
fn an_endpoint_that_is_no_address_fails_the_packet() {
    let router = SourceIpRouter::new(Config {
        routes: vec![
            route(&["10.0.0.0/8"], "not-an-address"),
            route(&["10.0.0.0/8"], "10.0.0.1:7000"),
        ],
    });
    let mut ctx = packet(address("10.1.2.3:5000"));
    let before = ctx.clone();
    assert_eq!(
        router.read(&mut ctx),
        Err(FilterError::Custom("Invalid endpoint address"))
    );
    assert_eq!(ctx, before);
    // A client that the bad route does not serve is not troubled by it.
    let mut ctx = packet(address("11.1.2.3:5000"));
    assert_eq!(router.read(&mut ctx), Ok(()));
}

#[test]
fn source_router_write_lets_the_packet_pass() {
    let router = ten_slash_eight();
    let mut ctx = WriteContext {
        source: address("10.0.0.1:7000"),
        dest: address("10.1.2.3:5000"),
        contents: b"pong".to_vec(),
    };
    let before = ctx.clone();
    assert_eq!(router.write(&mut ctx), Ok(()));
    assert_eq!(ctx, before);
}

#[test]
fn the_source_router_needs_a_configuration() {
    match SourceIpRouter::try_from_config(None) {
        Err(CreationError::MissingConfig(name)) => {
            assert_eq!(name, "quilkin.filters.source_ip_router.v1alpha1.SourceIpRouter");
            assert_eq!(name, NAME);
        }
        other => panic!("unexpected: {:?}", other),
    }
    let router = SourceIpRouter::try_from_config(Some(Config {
        routes: vec![route(&["10.0.0.0/8"], "10.0.0.1:7000")],
    }))
    .unwrap();
    assert_eq!(router.find_route(IpAddress::v4(10, 0, 0, 0)), Some(0));
}

#[test]
fn cidr_reads_networks() {
    assert_eq!(
        cidr("10.0.0.0/8").network(),
        Network::V4 { address: 0x0a00_0000, prefix: 8 }
    );
    // The address is kept as written, host bits and all.
    assert_eq!(
        cidr("10.1.9.32/16").network(),
        Network::V4 { address: 0x0a01_0920, prefix: 16 }
    );
    // Without a prefix, the network is the address alone.
    assert_eq!(
        cidr("127.0.0.1").network(),
        Network::V4 { address: 0x7f00_0001, prefix: 32 }
    );
    // A netmask stands for its prefix.
    assert_eq!(
        cidr("10.0.0.0/255.255.0.0").network(),
        Network::V4 { address: 0x0a00_0000, prefix: 16 }
    );
    assert_eq!(
        cidr("2001:db8::/32").network(),
        Network::V6 { address: 0x2001_0db8_0000_0000_0000_0000_0000_0000, prefix: 32 }
    );
    assert_eq!(
        cidr("::1").network(),
        Network::V6 { address: 1, prefix: 128 }
    );
}

#[test]
fn cidr_refuses_what_is_no_network() {
    for text in ["", "10.0.0.0/33", "10.0.0/8", "10.0.0.0/8/8", "::/129", "localhost", "10.0.0.0/-1"] {
        let error = Cidr::from_str(text).unwrap_err();
        assert_eq!(error.message, format!("invalid address: {}", text));
    }
}

#[test]
fn cidr_writes_networks() {
    for text in ["10.0.0.0/8", "10.1.9.32/16", "0.0.0.0/0", "255.255.255.255/32", "2001:db8::/32", "::/0", "::ffff:10.1.2.3/128"] {
        let network = cidr(text);
        assert_eq!(network.to_string(), text);
        assert_eq!(Cidr::from_str(&network.to_string()), Ok(network));
    }
    assert_eq!(cidr("127.0.0.1").to_string(), "127.0.0.1/32");
    assert_eq!(cidr("10.0.0.0/255.0.0.0").to_string(), "10.0.0.0/8");
    let made = Cidr::new(Network::V4 { address: 0xc0a8_0100, prefix: 24 }).unwrap();
    assert_eq!(made.to_string(), "192.168.1.0/24");
    let made = Cidr::new(Network::V6 { address: 0xfe80 << 112, prefix: 10 }).unwrap();
    assert_eq!(made.to_string(), "fe80::/10");
}

#[test]
fn cidr_new_checks_the_prefix() {
    assert!(Cidr::new(Network::V4 { address: 0, prefix: 32 }).is_some());
    assert!(Cidr::new(Network::V4 { address: 0, prefix: 33 }).is_none());
    assert!(Cidr::new(Network::V6 { address: 0, prefix: 128 }).is_some());
    assert!(Cidr::new(Network::V6 { address: 0, prefix: 129 }).is_none());
    assert!(Cidr::new(Network::V6 { address: 0, prefix: 255 }).is_none());
}

#[test]
fn cidr_contains_ipv4() {
    let net = cidr("127.0.0.0/24");
    assert!(net.contains(IpAddress::v4(127, 0, 0, 70)));
    assert!(net.contains(IpAddress::v4(127, 0, 0, 0)));
    assert!(net.contains(IpAddress::v4(127, 0, 0, 255)));
    assert!(!net.contains(IpAddress::v4(127, 0, 1, 70)));
    assert!(!net.contains(IpAddress::v4(126, 255, 255, 255)));

    // Host bits of the network's own address do not count.
    let net = cidr("10.1.9.32/16");
    assert!(net.contains(IpAddress::v4(10, 1, 0, 0)));
    assert!(net.contains(IpAddress::v4(10, 1, 255, 255)));
    assert!(!net.contains(IpAddress::v4(10, 2, 9, 32)));

    let all = cidr("0.0.0.0/0");
    assert!(all.contains(IpAddress::v4(0, 0, 0, 0)));
    assert!(all.contains(IpAddress::v4(255, 255, 255, 255)));

    let one = cidr("192.168.1.1/32");
    assert!(one.contains(IpAddress::v4(192, 168, 1, 1)));
    assert!(!one.contains(IpAddress::v4(192, 168, 1, 0)));
    assert!(!one.contains(IpAddress::v4(192, 168, 1, 2)));

    let odd = cidr("192.168.1.128/25");
    assert!(odd.contains(IpAddress::v4(192, 168, 1, 128)));
    assert!(!odd.contains(IpAddress::v4(192, 168, 1, 127)));
}

#[test]
fn cidr_contains_ipv6() {
    let net = cidr("ff01::0/32");
    assert!(net.contains(IpAddress::V6(0xff01_0000_0000_0000_0000_0000_0000_0001)));
    assert!(!net.contains(IpAddress::V6(0xffff_0000_0000_0000_0000_0000_0000_0001)));

    let net = cidr("ff01:0:0:17:0:0:0:2/65");
    assert!(net.contains(IpAddress::V6(0xff01_0000_0000_0017_7fff_0000_0000_0002)));
    assert!(!net.contains(IpAddress::V6(0xff01_0000_0000_0017_ffff_0000_0000_0002)));

    let all = cidr("::/0");
    assert!(all.contains(IpAddress::V6(u128::MAX)));
    assert!(all.contains(IpAddress::V6(0)));
    // An IPv4 address lies in no IPv6 network, not even in `::/0`.
    assert!(!all.contains(IpAddress::v4(10, 0, 0, 1)));

    let one = cidr("::1/128");
    assert!(one.contains(IpAddress::V6(1)));
    assert!(!one.contains(IpAddress::V6(2)));
    assert!(!one.contains(IpAddress::V6(1 | (1 << 127))));
}

#[test]
fn cidr_contains_embedded_ipv4() {
    let net = cidr("10.0.0.0/8");
    // ::ffff:10.1.2.3 and ::10.1.2.3
    assert!(net.contains(IpAddress::V6(0xffff_0a01_0203)));
    assert!(net.contains(IpAddress::V6(0x0a01_0203)));
    // ::ffff:11.1.2.3
    assert!(!net.contains(IpAddress::V6(0xffff_0b01_0203)));
    // Anything else above the low 32 bits: no IPv4 address is embedded.
    assert!(!net.contains(IpAddress::V6(0xfffe_0a01_0203)));
    assert!(!net.contains(IpAddress::V6(0x1_ffff_0a01_0203)));
    assert!(!net.contains(IpAddress::V6(0x2001_0db8_0000_0000_0000_0000_0a01_0203)));
    // An IPv6 network takes an embedded address as the IPv6 address it is.
    let mapped = cidr("::ffff:0:0/96");
    assert!(mapped.contains(IpAddress::V6(0xffff_0a01_0203)));
    assert!(!mapped.contains(IpAddress::v4(10, 1, 2, 3)));
}

#[test]
fn a_configuration_survives_the_binary_form() {
    let config = Config {
        routes: vec![
            route(&["10.0.0.0/8", "2001:db8::/32"], "10.0.0.1:7000"),
            route(&[], "example.com:80"),
            route(&["192.168.1.77/24"], ""),
        ],
    };
    let pb = proto::SourceIpRouter::from(config.clone());
    assert_eq!(
        pb,
        proto::SourceIpRouter {
            routes: vec![
                proto::Route {
                    sources: vec!["10.0.0.0/8".into(), "2001:db8::/32".into()],
                    endpoint: "10.0.0.1:7000".into(),
                },
                proto::Route { sources: vec![], endpoint: "example.com:80".into() },
                proto::Route { sources: vec!["192.168.1.77/24".into()], endpoint: "".into() },
            ],
        }
    );
    assert_eq!(Config::try_from(pb), Ok(config));
}

#[test]
fn the_first_source_that_is_no_network_is_reported() {
    let pb = proto::SourceIpRouter {
        routes: vec![
            proto::Route { sources: vec!["10.0.0.0/8".into()], endpoint: "10.0.0.1:7000".into() },
            proto::Route {
                sources: vec!["10.0.0.0/8".into(), "10.0.0.0/99".into(), "nonsense".into()],
                endpoint: "10.0.0.1:7000".into(),
            },
            proto::Route { sources: vec!["worse".into()], endpoint: "10.0.0.1:7000".into() },
        ],
    };
    let error = Config::try_from(pb).unwrap_err();
    assert_eq!(
        error.reason,
        "Invalid CIDR '10.0.0.0/99': invalid address: 10.0.0.0/99"
    );
    assert_eq!(error.field.as_deref(), Some("routes.sources"));
}

#[test]
fn an_empty_binary_configuration_is_an_empty_configuration() {
    assert_eq!(
        Config::try_from(proto::SourceIpRouter { routes: vec![] }),
        Ok(Config::default())
    );
    assert_eq!(
        proto::SourceIpRouter::from(Config::default()),
        proto::SourceIpRouter { routes: vec![] }
    );
}
