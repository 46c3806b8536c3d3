use ip_tcp::addr::VirtualIp;
use ip_tcp::config::{parse_link_file, ParseConfigError};
use ip_tcp::ip::link::{LinkDefinition, ParseLinkError};

#[test]
fn a_link_file() {
    let text = "localhost 5000\nlocalhost 5001 10.0.0.1 10.0.0.2\n127.0.0.1 5002 10.0.1.1 10.0.1.2\n";
    let file = parse_link_file(text).unwrap();
    assert_eq!(file.host, "localhost");
    assert_eq!(file.port, 5000);
    assert_eq!(file.links.len(), 2);
    assert_eq!(file.links[0].peer_host, "localhost");
    assert_eq!(
        file.links[0].definition,
        LinkDefinition {
            dest_port: 5001,
            interface_ip: VirtualIp::new(10, 0, 0, 1),
            dest_ip: VirtualIp::new(10, 0, 0, 2)
        }
    );
    assert_eq!(file.links[1].peer_host, "127.0.0.1");
    assert_eq!(file.links[1].definition.dest_port, 5002);
}

#[test]
fn blank_lines_are_passed_over() {
    let file = parse_link_file("\n  \r\nhost 1\r\n\n\tpeer 2 1.1.1.1 2.2.2.2\r\n \n").unwrap();
    assert_eq!((file.host.as_str(), file.port), ("host", 1));
    assert_eq!(file.links.len(), 1);
    assert_eq!(file.links[0].peer_host, "peer");
    let alone = parse_link_file("host 65535").unwrap();
    assert_eq!(alone.port, 65535);
    assert!(alone.links.is_empty());
}

#[test]
fn faults_of_a_link_file() {
    let fault = |text: &str| parse_link_file(text).err().unwrap();
    assert_eq!(fault(""), ParseConfigError::NoHostLine);
    assert_eq!(fault(" \n\t\n"), ParseConfigError::NoHostLine);
    assert_eq!(fault("localhost"), ParseConfigError::NoHostPort);
    assert_eq!(fault("localhost port"), ParseConfigError::MalformedHostPort);
    assert_eq!(fault("localhost 65536"), ParseConfigError::MalformedHostPort);
    assert_eq!(
        fault("localhost 5000\nlocalhost"),
        ParseConfigError::Link { line: 2, error: ParseLinkError::NoPort }
    );
    assert_eq!(
        fault("localhost 5000\n\nlocalhost 1 1.1.1.1 2.2.2.2\nlocalhost 2 1.1.1.1"),
        ParseConfigError::Link { line: 4, error: ParseLinkError::NoDstVirtualIp }
    );
    // the first fault is the one that is told
    assert_eq!(
        fault("localhost 5000\nlocalhost x\nlocalhost 1 y"),
        ParseConfigError::Link { line: 2, error: ParseLinkError::MalformedPort }
    );
    assert_eq!(
        fault("localhost 5000\nlocalhost 1 1.1.1.1 2.2.2"),
        ParseConfigError::Link { line: 2, error: ParseLinkError::MalformedIp }
    );
    assert_eq!(
        fault("localhost 5000\nlocalhost 1"),
        ParseConfigError::Link { line: 2, error: ParseLinkError::NoSrcVirtualIp }
    );
}
