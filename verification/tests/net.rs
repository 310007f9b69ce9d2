use quilkin_routing::net::{EndpointAddress, IpAddress};

#[test]
fn parse_reads_a_dotted_quad_and_a_port() {
    assert_eq!(
        EndpointAddress::parse("10.0.101.69:7777"),
        Some(EndpointAddress { ip: IpAddress::V4(0x0a00_6545), port: 7777 })
    );
    assert_eq!(
        EndpointAddress::parse("127.0.0.1:8080"),
        Some(EndpointAddress::new(IpAddress::v4(127, 0, 0, 1), 8080))
    );
    assert_eq!(
        EndpointAddress::parse("0.0.0.0:0"),
        Some(EndpointAddress { ip: IpAddress::V4(0), port: 0 })
    );
    assert_eq!(
        EndpointAddress::parse("255.255.255.255:65535"),
        Some(EndpointAddress { ip: IpAddress::V4(u32::MAX), port: u16::MAX })
    );
    // Zeros in front of a port are accepted.
    assert_eq!(
        EndpointAddress::parse("1.2.3.4:00080"),
        Some(EndpointAddress { ip: IpAddress::V4(0x0102_0304), port: 80 })
    );
    assert_eq!(
        EndpointAddress::parse("1.2.3.4:000000000000000000000000065535"),
        Some(EndpointAddress { ip: IpAddress::V4(0x0102_0304), port: 65535 })
    );
}

#[test]
fn parse_refuses_everything_else() {
    for text in [
        "",
        ":",
        "1.2.3.4",
        "1.2.3.4:",
        ":80",
        "1.2.3:80",
        "1.2.3.4.5:80",
        "1.2.3.4:65536",
        "1.2.3.4:99999999999999999999",
        "256.2.3.4:80",
        "1.2.3.256:80",
        "01.2.3.4:80",
        "1.2.3.04:80",
        "1.2.3.0004:80",
        "1..3.4:80",
        ".1.2.3.4:80",
        "1.2.3.4:80 ",
        " 1.2.3.4:80",
        "1.2.3.4 :80",
        "1.2.3.4:+80",
        "1.2.3.4:-1",
        "1.2.3.4:8o",
        "1.2.3.4:80:90",
        "1.2.3.4;80",
        "1,2.3.4:80",
        "a.b.c.d:80",
        "localhost:80",
        "example.com:80",
        "１.2.3.4:80",
        "1.2.3.4:８0",
        "1.2.3.4:80\u{0}",
        "1.2.3.4:80\n",
        "not an address",
    ] {
        assert_eq!(EndpointAddress::parse(text), None, "{:?}", text);
    }
}

#[test]
fn to_string_writes_what_parse_reads() {
    for text in [
        "10.0.101.69:7777",
        "127.0.0.1:5555",
        "0.0.0.0:0",
        "255.255.255.255:65535",
        "1.20.100.9:10",
        "192.168.1.1:443",
        "9.99.199.200:60000",
    ] {
        let address = EndpointAddress::parse(text).unwrap();
        assert_eq!(address.to_string(), text);
    }
    for bits in [0u32, 1, 255, 256, 0x0a00_0001, 0x7fff_ffff, 0x8000_0000, u32::MAX] {
        for port in [0u16, 1, 9, 10, 99, 100, 999, 1000, 9999, 10000, 65535] {
            let address = EndpointAddress { ip: IpAddress::V4(bits), port };
            assert_eq!(EndpointAddress::parse(&address.to_string()), Some(address));
        }
    }
}

#[test]
fn to_string_writes_all_eight_groups_of_an_ipv6_address() {
    assert_eq!(
        EndpointAddress::new(IpAddress::V6(1), 80).to_string(),
        "[0:0:0:0:0:0:0:1]:80"
    );
    assert_eq!(
        EndpointAddress::new(IpAddress::V6(0x2001_0db8_0000_0000_0000_ff00_0042_8329), 443).to_string(),
        "[2001:db8:0:0:0:ff00:42:8329]:443"
    );
    assert_eq!(
        EndpointAddress::new(IpAddress::V6(u128::MAX), 65535).to_string(),
        "[ffff:ffff:ffff:ffff:ffff:ffff:ffff:ffff]:65535"
    );
    assert_eq!(
        EndpointAddress::new(IpAddress::V6(0xffff_0a01_0203), 7).to_string(),
        "[0:0:0:0:0:ffff:a01:203]:7"
    );
}

#[test]
fn v4_spells_its_bytes_in_network_order() {
    assert_eq!(IpAddress::v4(10, 1, 2, 3), IpAddress::V4(0x0a01_0203));
    assert_eq!(IpAddress::v4(0, 0, 0, 0), IpAddress::V4(0));
    assert_eq!(IpAddress::v4(255, 255, 255, 255), IpAddress::V4(u32::MAX));
    assert_eq!(IpAddress::v4(1, 0, 0, 0), IpAddress::V4(1 << 24));
    assert_eq!(IpAddress::v4(0, 0, 1, 0), IpAddress::V4(256));
}

#[test]
fn embedded_v4_takes_the_low_bits_of_mapped_and_compatible_addresses() {
    assert_eq!(IpAddress::V6(0xffff_0a01_0203).embedded_v4(), Some(0x0a01_0203));
    assert_eq!(IpAddress::V6(0x0a01_0203).embedded_v4(), Some(0x0a01_0203));
    assert_eq!(IpAddress::V6(1).embedded_v4(), Some(1));
    assert_eq!(IpAddress::V6(0).embedded_v4(), Some(0));
    assert_eq!(IpAddress::V6(0xffff_ffff_ffff).embedded_v4(), Some(u32::MAX));
    assert_eq!(IpAddress::V6(0xfffe_0a01_0203).embedded_v4(), None);
    assert_eq!(IpAddress::V6(0x1_0000_0000).embedded_v4(), None);
    assert_eq!(IpAddress::V6(0x1_0000_ffff_0a01_0203).embedded_v4(), None);
    assert_eq!(IpAddress::V6(u128::MAX).embedded_v4(), None);
    assert_eq!(IpAddress::V4(0x0a01_0203).embedded_v4(), None);
}

#[test]
fn parse_reads_an_ipv6_address_in_brackets() {
    let cases: [(&str, u128, u16); 16] = [
        ("[::1]:80", 1, 80),
        ("[::]:0", 0, 0),
        ("[1:2:3:4:5:6:7:8]:9", 0x0001_0002_0003_0004_0005_0006_0007_0008, 9),
        ("[2001:db8::ff00:42:8329]:443", 0x2001_0db8_0000_0000_0000_ff00_0042_8329, 443),
        ("[2001:DB8::FF00:42:8329]:443", 0x2001_0db8_0000_0000_0000_ff00_0042_8329, 443),
        ("[::ffff:10.1.2.3]:7000", 0xffff_0a01_0203, 7000),
        ("[::10.1.2.3]:7000", 0x0a01_0203, 7000),
        ("[1:2:3:4:5:6:1.2.3.4]:9", 0x0001_0002_0003_0004_0005_0006_0102_0304, 9),
        ("[64:ff9b::192.0.2.33]:1", 0x0064_ff9b_0000_0000_0000_0000_c000_0221, 1),
        ("[1::]:1", 0x0001_0000_0000_0000_0000_0000_0000_0000, 1),
        ("[1:2:3:4:5:6:7::]:1", 0x0001_0002_0003_0004_0005_0006_0007_0000, 1),
        ("[::2:3:4:5:6:7:8]:1", 0x0000_0002_0003_0004_0005_0006_0007_0008, 1),
        ("[0000:0000:0000:0000:0000:0000:0000:0001]:65535", 1, 65535),
        ("[ffff:ffff:ffff:ffff:ffff:ffff:ffff:ffff]:00001", u128::MAX, 1),
        ("[fe80::1%3]:80", 0xfe80_0000_0000_0000_0000_0000_0000_0001, 80),
        ("[fe80::1%4294967295]:80", 0xfe80_0000_0000_0000_0000_0000_0000_0001, 80),
    ];
    for (text, bits, port) in cases {
        assert_eq!(
            EndpointAddress::parse(text),
            Some(EndpointAddress { ip: IpAddress::V6(bits), port }),
            "{:?}",
            text
        );
    }
}

#[test]
fn parse_refuses_what_is_no_ipv6_address_in_brackets() {
    for text in [
        "::1:80",
        "[::1]",
        "[::1]:",
        "[::1]80",
        "[::1:80",
        "::1]:80",
        "[]:80",
        "[:]:80",
        "[:::]:80",
        "[1:2:3:4:5:6:7]:80",
        "[1:2:3:4:5:6:7:8:9]:80",
        "[1:2:3:4:5:6:7::8]:80",
        "[1:2:3:4:5:6:7:8::]:80",
        "[::1:2:3:4:5:6:7:8]:80",
        "[1::2::3]:80",
        "[12345::]:80",
        "[::12345]:80",
        "[g::]:80",
        "[1.2.3.4::]:80",
        "[1.2.3.4]:80",
        "[::1.2.3.4:5]:80",
        "[::1.2.3]:80",
        "[::1.2.3.256]:80",
        "[::01.2.3.4]:80",
        "[1:2:3:4:5:6:7:1.2.3.4]:80",
        "[:1::]:80",
        "[1:]:80",
        "[::1%]:80",
        "[::1%x]:80",
        "[::1%4294967296]:80",
        "[::1%1%2]:80",
        "[::1]:65536",
        "[::1]:-1",
        "[::1] :80",
        "[ ::1]:80",
        "[[::1]]:80",
    ] {
        assert_eq!(EndpointAddress::parse(text), None, "{:?}", text);
    }
}

#[test]
fn to_string_of_an_ipv6_address_is_read_back() {
    for bits in [
        0u128,
        1,
        0xffff_0a01_0203,
        0x2001_0db8_0000_0000_0000_ff00_0042_8329,
        0x0001_0000_0000_0000_0000_0000_0000_0000,
        u128::MAX,
    ] {
        for port in [0u16, 80, 65535] {
            let address = EndpointAddress { ip: IpAddress::V6(bits), port };
            assert_eq!(EndpointAddress::parse(&address.to_string()), Some(address));
        }
    }
}

/// The address that `ipnetwork` reads from a text without a prefix.
fn address_by_ipnetwork(text: &str) -> Option<IpAddress> {
    match text.parse::<ipnetwork::IpNetwork>() {
        Ok(ipnetwork::IpNetwork::V4(net)) => Some(IpAddress::V4(u32::from(net.ip()))),
        Ok(ipnetwork::IpNetwork::V6(net)) => Some(IpAddress::V6(u128::from(net.ip()))),
        Err(_) => None,
    }
}

fn check_against_ipnetwork(text: &str) {
    if text.contains('%') {
        // A scope may follow an address in brackets, and only there.
        assert_eq!(address_by_ipnetwork(text), None, "{:?}", text);
        assert_eq!(EndpointAddress::parse(&format!("{}:80", text)), None, "{:?}", text);
        return;
    }
    let expected = address_by_ipnetwork(text);
    let plain = EndpointAddress::parse(&format!("{}:80", text));
    let bracketed = EndpointAddress::parse(&format!("[{}]:80", text));
    match expected {
        Some(IpAddress::V4(bits)) => {
            assert_eq!(plain, Some(EndpointAddress { ip: IpAddress::V4(bits), port: 80 }), "{:?}", text);
            assert_eq!(bracketed, None, "{:?}", text);
        }
        Some(IpAddress::V6(bits)) => {
            assert_eq!(plain, None, "{:?}", text);
            assert_eq!(bracketed, Some(EndpointAddress { ip: IpAddress::V6(bits), port: 80 }), "{:?}", text);
        }
        None => {
            assert_eq!(plain, None, "{:?}", text);
            assert_eq!(bracketed, None, "{:?}", text);
        }
    }
}

#[test]
fn parse_reads_addresses_as_ipnetwork_does() {
    let pieces = [
        "", "0", "1", "9", "10", "255", "256", "01", "007", "1234", "12345", "a", "F", "ffff",
        "fffff", "g", ".", "..", ":", "::", ":::", "%", "1.2.3.4", "1.2.3", "::1", "1::",
        "ffff:", "1:2:3:4:", ":5:6:7:8", "1:2:3:4:5:6:", " ", "-", "+",
    ];
    let mut checked = 0;
    let mut read = 0;
    // Every text of up to four pieces in a row.
    for a in pieces {
        for b in pieces {
            for c in pieces {
                for d in pieces {
                    let text = format!("{}{}{}{}", a, b, c, d);
                    check_against_ipnetwork(&text);
                    checked += 1;
                    if address_by_ipnetwork(&text).is_some() {
                        read += 1;
                    }
                }
            }
        }
    }
    assert!(checked > 1_000_000);
    assert!(read > 1_000);
}
