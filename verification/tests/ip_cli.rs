use ip_tcp::addr::VirtualIp;
use ip_tcp::ip::cli::{cmd_arg_handler, parse_command, Command};

fn chars(s: &str) -> Vec<char> {
    s.chars().collect()
}

fn handle(cmd: &str, args: &[&str]) -> Option<Command> {
    let args: Vec<Vec<char>> = args.iter().map(|a| chars(a)).collect();
    cmd_arg_handler(&chars(cmd), &args)
}

#[test]
fn listing_commands() {
    assert!(matches!(handle("li", &[]), Some(Command::ListInterface(None))));
    assert!(matches!(handle("interfaces", &["f"]), Some(Command::ListInterface(Some(f))) if f == "f"));
    assert!(matches!(handle("lr", &["g", "h"]), Some(Command::ListRoute(Some(f))) if f == "g"));
    assert!(matches!(handle("routes", &[]), Some(Command::ListRoute(None))));
    assert!(matches!(handle("q", &["x"]), Some(Command::Quit)));
}

#[test]
fn link_commands() {
    assert!(matches!(handle("down", &["2"]), Some(Command::InterfaceDown(2))));
    assert!(matches!(handle("up", &["65535"]), Some(Command::InterfaceUp(65535))));
    assert!(handle("down", &[]).is_none());
    assert!(handle("up", &["two"]).is_none());
    assert!(handle("up", &["65536"]).is_none());
}

#[test]
fn send_command() {
    match handle("send", &["10.0.0.2", "0", "hello", "world"]) {
        Some(Command::Send(c)) => {
            assert_eq!(c.virtual_ip, VirtualIp::new(10, 0, 0, 2));
            assert_eq!(c.protocol, 0);
            assert_eq!(c.payload, "hello");
        }
        _ => panic!("send should be read"),
    }
    // a datagram has one octet for the protocol
    assert!(matches!(handle("send", &["10.0.0.2", "255", "x"]), Some(Command::Send(c)) if c.protocol == 255));
    assert!(matches!(handle("send", &["10.0.0.2", "6", "x"]), Some(Command::Send(c)) if c.protocol == 6));
    assert!(handle("send", &["10.0.0.2", "256", "x"]).is_none());
    assert!(handle("send", &["10.0.0.2", "300", "x"]).is_none());
    assert!(handle("send", &["10.0.0.2", "65535", "x"]).is_none());
    assert!(handle("send", &["10.0.0.2", "-1", "x"]).is_none());
    assert!(handle("send", &["10.0.0.2", "0"]).is_none());
    assert!(handle("send", &["10.0.0", "0", "x"]).is_none());
    assert!(handle("send", &["10.0.0.2", "tcp", "x"]).is_none());
}

#[test]
fn lines() {
    assert!(matches!(parse_command(" q ".into()), Some(Command::Quit)));
    assert!(matches!(parse_command("down 1".into()), Some(Command::InterfaceDown(1))));
    assert!(parse_command("ls".into()).is_none());
    assert!(parse_command("   ".into()).is_none());
    assert!(parse_command("".into()).is_none());
}

#[test]
fn the_protocol_of_send_is_read_as_one_octet() {
    let words = [
        "0", "6", "200", "255", "256", "300", "65535", "65536", "007", "+6", "-6", "", "6 ", "0x6",
        "six", "2 5", "25a", "00000000000000000000255", "99999999999999999999",
    ];
    for w in words {
        let expected = w.parse::<u8>().ok();
        let got = match handle("send", &["10.0.0.2", w, "x"]) {
            Some(Command::Send(c)) => Some(c.protocol),
            Some(_) => panic!("send should give a send"),
            None => None,
        };
        assert_eq!(got, expected.map(u16::from), "{w:?}");
    }
    for n in 0..=255u16 {
        let w = n.to_string();
        assert!(matches!(handle("send", &["1.2.3.4", &w, "x"]), Some(Command::Send(c)) if c.protocol == n));
    }
    for n in 256..=1000u16 {
        let w = n.to_string();
        assert!(handle("send", &["1.2.3.4", &w, "x"]).is_none());
    }
}
