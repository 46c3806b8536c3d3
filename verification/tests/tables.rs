use ip_tcp::addr::VirtualIp;
use ip_tcp::cli::show::{interfaces_table, routes_table, sockets_table, status_text};
use ip_tcp::ip::link::LinkDefinition;
use ip_tcp::net::Net;
use ip_tcp::protocol::rip::RipEntry;
use ip_tcp::protocol::tcp::prelude::{Port, Remote};
use ip_tcp::protocol::tcp::socket::SocketStatus;
use ip_tcp::protocol::tcp::Tcp;
use ip_tcp::text::push_decimal;

fn ip(d: u8) -> VirtualIp {
    VirtualIp::new(10, 0, 0, d)
}

fn net() -> Net {
    let mut net = Net::new();
    assert_eq!(
        net.add_link(LinkDefinition { dest_port: 5001, interface_ip: ip(1), dest_ip: ip(2) }, 0),
        Some(0)
    );
    let second = net.add_link(
        LinkDefinition {
            dest_port: 65535,
            interface_ip: VirtualIp::new(192, 168, 0, 1),
            dest_ip: VirtualIp::new(192, 168, 0, 255),
        },
        0,
    );
    assert_eq!(second, Some(1));
    net
}

#[test]
fn numbers_as_text() {
    for n in [0u64, 1, 9, 10, 11, 99, 100, 101, 65535, 1_000_000, u64::MAX] {
        let mut out = vec!['x'];
        push_decimal(&mut out, n);
        let text: String = out.iter().collect();
        assert_eq!(text, format!("x{n}"));
    }
    let mut out = Vec::new();
    VirtualIp::new(0, 10, 200, 255).push_to(&mut out);
    assert_eq!(out.iter().collect::<String>(), "0.10.200.255");
}

#[test]
fn the_table_of_routes() {
    let mut net = net();
    assert_eq!(
        routes_table(&net.routes),
        "dst\tnext\tcost\n10.0.0.1\t10.0.0.1\t0\n192.168.0.1\t192.168.0.1\t0\n"
    );
    let said = [
        RipEntry { cost: 0, address: ip(2), mask: 0xffff_ffff },
        RipEntry { cost: 14, address: ip(3), mask: 0xffff_ffff },
    ];
    net.routes.apply_update(0, ip(2), &said, 0, 12000);
    net.deactivate(1);
    assert_eq!(
        routes_table(&net.routes),
        "dst\tnext\tcost\n10.0.0.1\t10.0.0.1\t0\n192.168.0.1\t192.168.0.1\t0\n\
         10.0.0.2\t10.0.0.2\t1\n10.0.0.3\t10.0.0.2\t15\n"
    );
    net.deactivate(0);
    assert!(routes_table(&net.routes).ends_with("10.0.0.2\t10.0.0.2\t16\n10.0.0.3\t10.0.0.2\t16\n"));
    assert_eq!(routes_table(&Net::new().routes), "dst\tnext\tcost\n");
}

#[test]
fn the_table_of_interfaces() {
    let mut net = net();
    net.deactivate(1);
    assert_eq!(
        interfaces_table(&net.links),
        "id\tstate\tlocal\t\tremote\tport\n\
         0\tup\t10.0.0.1\t10.0.0.2\t5001\n\
         1\tdown\t192.168.0.1\t192.168.0.255\t65535\n"
    );
}

#[test]
fn the_table_of_sockets() {
    let mut tcp = Tcp::new();
    assert_eq!(sockets_table(&tcp), "id\tstate\tlocal window size\tremote window size\n");
    tcp.listen(Port(80)).unwrap();
    tcp.connect(Remote::new(ip(2), Port(80))).unwrap();
    assert_eq!(
        sockets_table(&tcp),
        "id\tstate\tlocal window size\tremote window size\n0\tListen\t0\t0\n1\tSynSent\t0\t0\n"
    );
    assert_eq!(status_text(SocketStatus::FinWait2), "FinWait2");
    assert_eq!(status_text(SocketStatus::TimeWait), format!("{:?}", SocketStatus::TimeWait));
}
