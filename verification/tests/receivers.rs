use mdnssdpd::error::Error;
use mdnssdpd::receiver::{
    interface_ipv4_addr, label, list_interfaces, local_addresses, resolve_interface_index, Interface,
    IpAddr, SocketAddr, MDNS_IPV4_ADDR, MDNS_IPV6_ADDR, MDNS_PORT,
};

fn v4(ip: [u8; 4]) -> IpAddr {
    IpAddr::V4(u32::from_be_bytes(ip))
}

fn ifaces() -> Vec<Interface> {
    vec![
        Interface { name: "lo".into(), index: 1, addresses: vec![v4([127, 0, 0, 1]), IpAddr::V6(1)] },
        Interface { name: "eth0".into(), index: 2, addresses: vec![IpAddr::V6(0xfe80 << 112 | 5)] },
        Interface { name: "eth0".into(), index: 3, addresses: vec![v4([10, 0, 0, 7]), v4([10, 0, 0, 8])] },
    ]
}

#[test]
fn interfaces_are_found_by_name() {
    assert_eq!(resolve_interface_index(&ifaces(), "eth0").unwrap(), 2);
    assert_eq!(resolve_interface_index(&ifaces(), "lo").unwrap(), 1);
    let e = resolve_interface_index(&ifaces(), "eth9").err().unwrap();
    assert!(matches!(&e, Error::InterfaceNotFound(name) if name == "eth9"));
    assert_eq!(e.message(), "Interface 'eth9' not found");
}

#[test]
fn the_ipv4_address_of_an_interface() {
    assert_eq!(interface_ipv4_addr(&ifaces(), "eth0"), Some(u32::from_be_bytes([10, 0, 0, 7])));
    assert_eq!(interface_ipv4_addr(&ifaces(), "lo"), None);
    assert_eq!(interface_ipv4_addr(&ifaces(), "eth9"), None);
}

#[test]
fn all_local_addresses() {
    let wanted = vec![
        v4([127, 0, 0, 1]),
        IpAddr::V6(1),
        IpAddr::V6(0xfe80 << 112 | 5),
        v4([10, 0, 0, 7]),
        v4([10, 0, 0, 8]),
    ];
    assert_eq!(local_addresses(&ifaces()), wanted);
}

#[test]
fn the_table_of_interfaces() {
    let lines = list_interfaces(&ifaces());
    assert_eq!(lines.len(), 5);
    assert_eq!(lines[0], format!("{:<20} {:<8} {}", "NAME", "INDEX", "ADDRESSES"));
    assert_eq!(lines[1], "-".repeat(60));
    assert_eq!(lines[2], format!("{:<20} {:<8} {}", "lo", 1, "127.0.0.1, ::1"));
    assert_eq!(lines[3], format!("{:<20} {:<8} {}", "eth0", 2, "fe80::5"));
    assert_eq!(lines[4], format!("{:<20} {:<8} {}", "eth0", 3, "10.0.0.7, 10.0.0.8"));
}

#[test]
fn texts_of_senders() {
    let text = |ip, port, scope_id| SocketAddr { ip, port, scope_id }.text();
    assert_eq!(text(v4([10, 93, 4, 1]), 5353, 0), "10.93.4.1:5353");
    assert_eq!(text(IpAddr::V6(1), 80, 0), "[::1]:80");
    assert_eq!(text(IpAddr::V6(0xfe80 << 112 | 5), 5353, 3), "[fe80::5%3]:5353");
}

#[test]
fn the_multicast_groups() {
    assert_eq!(IpAddr::V4(MDNS_IPV4_ADDR).text(), "224.0.0.251");
    assert_eq!(IpAddr::V6(MDNS_IPV6_ADDR).text(), "ff02::fb");
    assert_eq!(MDNS_PORT, 5353);
}

#[test]
fn labels_of_interfaces() {
    assert_eq!(label("eth0", false), "eth0:v4");
    assert_eq!(label("eth0", true), "eth0:v6");
}
